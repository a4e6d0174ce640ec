//! The XOR stream cipher and the relay loop's bookkeeping.

use vstd::prelude::*;

verus! {

/// The key byte that meets the byte at position `i` of a stream whose first
/// byte sits at `offset` in the key's cycle.
pub open spec fn key_byte(key: Seq<u8>, i: int, offset: int) -> u8
    recommends
        key.len() > 0,
{
    key[(i + offset) % (key.len() as int)]
}

/// `bytes` XOR-ed with `key` repeated, starting at position `offset` of the
/// key; an empty key leaves the bytes as they are.
pub open spec fn xor_stream(bytes: Seq<u8>, key: Seq<u8>, offset: int) -> Seq<u8> {
    if key.len() == 0 {
        bytes
    } else {
        Seq::new(bytes.len(), |i: int| bytes[i] ^ key_byte(key, i, offset))
    }
}

/// XORs `bytes` in place with `key`, the byte at index `i` with
/// `key[(i + offset) % key.len()]`. An empty key leaves the bytes unchanged.
pub fn encrypt(bytes: &mut [u8], key: &[u8], offset: usize)
    requires
        key@.len() == 0 || old(bytes)@.len() + offset <= usize::MAX + 1,
    ensures
        final(bytes)@ == xor_stream(old(bytes)@, key@, offset as int),
{
    if key.len() == 0 {
        return;
    }
    let n = bytes.len();
    let mut idx: usize = 0;
    while idx < n
        invariant
            n == bytes@.len(),
            n == old(bytes)@.len(),
            n + offset <= usize::MAX + 1,
            key@.len() > 0,
            idx <= n,
            forall|j: int| 0 <= j < idx ==> bytes@[j] == old(bytes)@[j] ^ key_byte(key@, j, offset as int),
            forall|j: int| idx <= j < n ==> bytes@[j] == old(bytes)@[j],
        decreases n - idx,
    {
        let k = key[(idx + offset) % key.len()];
        let b = bytes[idx];
        bytes[idx] = b ^ k;
        idx = idx + 1;
    }
    assert(bytes@ =~= xor_stream(old(bytes)@, key@, offset as int));
}


/// Applying the same key stream twice gives the bytes back: the far side of a
/// tunnel undoes what this side did by running the same function.
pub proof fn lemma_xor_stream_involution(bytes: Seq<u8>, key: Seq<u8>, offset: int)
    ensures
        xor_stream(xor_stream(bytes, key, offset), key, offset) == bytes,
{
    if key.len() > 0 {
        let once = xor_stream(bytes, key, offset);
        let twice = xor_stream(once, key, offset);
        assert forall|i: int| 0 <= i < bytes.len() implies twice[i] == bytes[i] by {
            let b = bytes[i];
            let k = key_byte(key, i, offset);
            assert((b ^ k) ^ k == b) by (bit_vector);
        }
        assert(twice =~= bytes);
    }
}

/// The key stream only depends on the offset modulo the key's length.
pub proof fn lemma_xor_stream_offset_mod(bytes: Seq<u8>, key: Seq<u8>, offset: int)
    requires
        key.len() > 0,
        offset >= 0,
    ensures
        xor_stream(bytes, key, offset) == xor_stream(bytes, key, offset % (key.len() as int)),
{
    let n = key.len() as int;
    assert forall|i: int| 0 <= i < bytes.len() implies key_byte(key, i, offset) == key_byte(
        key,
        i,
        offset % n,
    ) by {
        vstd::arithmetic::div_mod::lemma_add_mod_noop_right(i, offset, n);
    }
    assert(xor_stream(bytes, key, offset) =~= xor_stream(bytes, key, offset % n));
}

/// Encrypting two pieces one after the other, the second starting where the
/// first ended in the key's cycle, is encrypting their concatenation.
pub proof fn lemma_xor_stream_split(a: Seq<u8>, b: Seq<u8>, key: Seq<u8>, offset: int)
    ensures
        xor_stream(a + b, key, offset) == xor_stream(a, key, offset) + xor_stream(
            b,
            key,
            offset + a.len(),
        ),
{
    if key.len() > 0 {
        let lhs = xor_stream(a + b, key, offset);
        let rhs = xor_stream(a, key, offset) + xor_stream(b, key, offset + a.len());
        assert forall|i: int| 0 <= i < lhs.len() implies lhs[i] == rhs[i] by {
            if i >= a.len() {
                assert(i + offset == (i - a.len()) + (offset + a.len()));
            }
        }
        assert(lhs =~= rhs);
    }
}

/// With a non-empty key, output byte `i` is input byte `i` XOR-ed with the
/// key byte at position `(i + offset) % key.len()`, and the output is as long
/// as the input; with an empty key the bytes are unchanged.
pub proof fn lemma_xor_stream_bytes(bytes: Seq<u8>, key: Seq<u8>, offset: int)
    ensures
        xor_stream(bytes, key, offset).len() == bytes.len(),
        key.len() == 0 ==> xor_stream(bytes, key, offset) == bytes,
        key.len() > 0 ==> forall|i: int|
            0 <= i < bytes.len() ==> #[trigger] xor_stream(bytes, key, offset)[i] == bytes[i]
                ^ key[(i + offset) % (key.len() as int)],
{
}

/// Every key byte is used: XOR-ing as many zero bytes as the key is long,
/// from the key's start, gives the key itself.
pub proof fn lemma_xor_stream_zeros_give_key(key: Seq<u8>)
    ensures
        xor_stream(Seq::new(key.len(), |i: int| 0u8), key, 0) == key,
{
    let zeros = Seq::new(key.len(), |i: int| 0u8);
    if key.len() > 0 {
        let out = xor_stream(zeros, key, 0);
        assert forall|i: int| 0 <= i < key.len() implies out[i] == key[i] by {
            let k = key[i];
            assert((i + 0) % (key.len() as int) == i) by {
                vstd::arithmetic::div_mod::lemma_small_mod(i as nat, key.len());
            }
            assert(0u8 ^ k == k) by (bit_vector);
        }
        assert(out =~= key);
    } else {
        assert(zeros =~= key);
    }
}

/// What the relay sends for a stream read chunk by chunk, each chunk XOR-ed
/// from the key position reached by the bytes before it (their count modulo
/// the key's length), is the whole stream XOR-ed from the key's start.
pub proof fn lemma_relay_matches_stream(sent: Seq<u8>, chunk: Seq<u8>, key: Seq<u8>)
    requires
        key.len() > 0,
    ensures
        xor_stream(sent + chunk, key, 0) == xor_stream(sent, key, 0) + xor_stream(
            chunk,
            key,
            (sent.len() as int) % (key.len() as int),
        ),
{
    lemma_xor_stream_split(sent, chunk, key, 0);
    lemma_xor_stream_offset_mod(chunk, key, sent.len() as int);
}

/// The outcome of one read from the side that is being relayed.
#[derive(PartialEq, Eq, Structural, Clone, Copy, Debug)]
pub enum ReadResult {
    /// `n` bytes arrived; zero means the stream ended.
    Data(usize),
    /// The read was interrupted and can be retried.
    Interrupted,
    /// The read failed.
    Failed,
}

/// What the relay does after a read.
#[derive(PartialEq, Eq, Structural, Clone, Copy, Debug)]
pub enum CopyStep {
    /// The stream ended: report the number of bytes written.
    Finish(u64),
    /// Read again.
    Retry,
    /// Encrypt the first `n` bytes of the buffer, write them, then advance.
    Forward(usize),
    /// Give up with the read error.
    Fail,
}

/// The state of one direction of a tunnel: bytes written so far and the
/// position in the key's cycle at which the next chunk starts.
pub struct Copier {
    written: u64,
    offset: usize,
}

impl Copier {
    pub closed spec fn spec_written(&self) -> u64 {
        self.written
    }

    pub closed spec fn spec_offset(&self) -> usize {
        self.offset
    }

    /// The relay's offset is the number of bytes written so far, reduced
    /// modulo the key's length.
    pub open spec fn in_step(&self, key_len: nat) -> bool {
        key_len > 0 ==> self.spec_offset() == (self.spec_written() as int) % (key_len as int)
    }

    /// A relay that has written nothing and starts at the key's beginning.
    pub fn new() -> (c: Copier)
        ensures
            c.spec_written() == 0,
            c.spec_offset() == 0,
    {
        Copier { written: 0, offset: 0 }
    }

    /// The number of bytes written so far.
    pub fn written(&self) -> (w: u64)
        ensures
            w == self.spec_written(),
    {
        self.written
    }

    /// The position in the key's cycle at which the next chunk starts.
    pub fn offset(&self) -> (o: usize)
        ensures
            o == self.spec_offset(),
    {
        self.offset
    }

    /// Decides what follows a read.
    pub fn step(&self, read: ReadResult) -> (s: CopyStep)
        ensures
            s == (match read {
                ReadResult::Data(n) => if n == 0 {
                    CopyStep::Finish(self.spec_written())
                } else {
                    CopyStep::Forward(n)
                },
                ReadResult::Interrupted => CopyStep::Retry,
                ReadResult::Failed => CopyStep::Fail,
            }),
    {
        match read {
            ReadResult::Data(n) => if n == 0 {
                CopyStep::Finish(self.written)
            } else {
                CopyStep::Forward(n)
            },
            ReadResult::Interrupted => CopyStep::Retry,
            ReadResult::Failed => CopyStep::Fail,
        }
    }

    /// Encrypts a chunk that was read, from the relay's current key position.
    pub fn seal(&self, chunk: &mut [u8], key: &[u8])
        requires
            key@.len() == 0 || old(chunk)@.len() + self.spec_offset() <= usize::MAX + 1,
        ensures
            final(chunk)@ == xor_stream(old(chunk)@, key@, self.spec_offset() as int),
    {
        encrypt(chunk, key, self.offset);
    }

    /// Records that a chunk of `len` bytes was written: the count grows by
    /// `len` and the key position moves on by `len` modulo the key's length.
    pub fn advance(&mut self, len: usize, key_len: usize)
        requires
            key_len > 0,
            old(self).spec_written() + len <= u64::MAX,
            old(self).spec_offset() + len <= usize::MAX,
        ensures
            final(self).spec_written() == old(self).spec_written() + len,
            final(self).spec_offset() == (old(self).spec_offset() + len) % (key_len as int),
            old(self).in_step(key_len as nat) ==> final(self).in_step(key_len as nat),
    {
        proof {
            vstd::arithmetic::div_mod::lemma_add_mod_noop_right(
                len as int,
                self.written as int,
                key_len as int,
            );
        }
        self.written = self.written + len as u64;
        self.offset = (self.offset + len) % key_len;
    }
}

} // verus!
