//! The messages that the two proxies exchange.
//!
//! An `XRequest` is the hash of the shared key followed by the target host,
//! XOR-ed with the key. An `XResponse` is the server's one-message answer.

use vstd::prelude::*;
use vstd::utf8::encode_utf8;

use crate::text::{bytes_start_with, chars_equal, chars_of, decode_lossy, lossy_text, starts_with};
use crate::util::{encrypt, xor_stream};

verus! {

broadcast use vstd::utf8::encode_utf8_decode_utf8, vstd::utf8::encode_utf8_valid_utf8;

/// The bytes of a request for `host`: the UTF-8 of `hash`, then the UTF-8 of
/// `host` XOR-ed with `key` from the key's start.
pub open spec fn request_bytes(host: Seq<char>, key: Seq<u8>, hash: Seq<char>) -> Seq<u8> {
    encode_utf8(hash) + xor_stream(encode_utf8(host), key, 0)
}

/// The bytes of the host in a request whose hash prefix is `hash_len` long,
/// with the key's XOR undone.
pub open spec fn host_bytes(request: Seq<u8>, key: Seq<u8>, hash_len: nat) -> Seq<u8> {
    xor_stream(request.skip(hash_len as int), key, 0)
}

/// A request from the client: the key's hash, then the obfuscated host.
pub struct XRequest(Vec<u8>);

impl View for XRequest {
    type V = Seq<u8>;

    closed spec fn view(&self) -> Seq<u8> {
        self.0@
    }
}

/// Why the server refuses what it received.
#[derive(PartialEq, Eq, Structural, Clone, Copy, Debug)]
pub enum RequestError {
    /// The bytes do not start with the expected hash.
    BadHash,
}

impl XRequest {
    /// Builds the request for `host`: the bytes of `hash`, then the bytes of
    /// `host` XOR-ed with `key` from the key's start.
    pub fn new(host: String, key: &[u8], hash: &str) -> (r: XRequest)
        ensures
            r@ == request_bytes(host@, key@, hash@),
    {
        let mut host_bytes = vstd::slice::slice_to_vec(host.as_str().as_bytes());
        assert(host_bytes@.len() == host_bytes.len());
        encrypt(host_bytes.as_mut_slice(), key, 0);
        let mut inner = vstd::slice::slice_to_vec(hash.as_bytes());
        inner.append(&mut host_bytes);
        XRequest(inner)
    }

    /// The request's bytes, as they go on the wire.
    pub fn to_vec(self) -> (v: Vec<u8>)
        ensures
            v@ == self@,
    {
        self.0
    }

    /// Checks what the server received: a request is what starts with the
    /// expected hash, and is then those bytes unchanged.
    pub fn read(received: &[u8], hash: &[u8]) -> (r: Result<XRequest, RequestError>)
        ensures
            r is Ok <==> starts_with(received@, hash@),
            r matches Ok(x) ==> x@ == received@,
            r matches Err(e) ==> e == RequestError::BadHash,
    {
        if bytes_start_with(received, hash) {
            Ok(XRequest(vstd::slice::slice_to_vec(received)))
        } else {
            Err(RequestError::BadHash)
        }
    }

    /// The host that the request names: the bytes after the hash, XOR-ed
    /// with `key` from the key's start, decoded as UTF-8 with invalid
    /// sequences replaced.
    pub fn to_host(self, key: &[u8], hash: &[u8]) -> (s: String)
        requires
            hash@.len() <= self@.len(),
        ensures
            s@ == lossy_text(host_bytes(self@, key@, hash@.len())),
    {
        let rest = vstd::slice::slice_subrange(self.0.as_slice(), hash.len(), self.0.len());
        let mut host = vstd::slice::slice_to_vec(rest);
        assert(host@ =~= self@.skip(hash@.len() as int));
        assert(host@.len() == host.len());
        encrypt(host.as_mut_slice(), key, 0);
        decode_lossy(host.as_slice())
    }
}

/// What the client sends is a request the server accepts, and the host the
/// server reads from it is the host the client asked for.
pub proof fn lemma_request_round_trip(host: Seq<char>, key: Seq<u8>, hash: Seq<char>)
    ensures
        starts_with(request_bytes(host, key, hash), encode_utf8(hash)),
        host_bytes(request_bytes(host, key, hash), key, encode_utf8(hash).len()) == encode_utf8(
            host,
        ),
        lossy_text(host_bytes(request_bytes(host, key, hash), key, encode_utf8(hash).len()))
            == host,
{
    let sent = request_bytes(host, key, hash);
    let h = encode_utf8(hash);
    let body = xor_stream(encode_utf8(host), key, 0);
    assert(sent.take(h.len() as int) =~= h);
    assert(sent.skip(h.len() as int) =~= body);
    crate::util::lemma_xor_stream_involution(encode_utf8(host), key, 0);
}

/// The server's answer to a request.
#[derive(PartialEq, Eq, Structural, Clone, Copy, Debug)]
pub enum XResponse {
    Success,
    NotFound,
    BadHash,
}

/// The text of each answer.
pub open spec fn response_text(r: XResponse) -> Seq<char> {
    match r {
        XResponse::Success => "🤪肉蛋葱鸡"@,
        XResponse::NotFound => "😵歪比歪比，歪比巴卜"@,
        XResponse::BadHash => "🤔你是神魔捏？你在干神魔"@,
    }
}

/// The answer whose text `s` is, if any.
pub open spec fn response_of(s: Seq<char>) -> Option<XResponse> {
    if s == response_text(XResponse::Success) {
        Some(XResponse::Success)
    } else if s == response_text(XResponse::NotFound) {
        Some(XResponse::NotFound)
    } else if s == response_text(XResponse::BadHash) {
        Some(XResponse::BadHash)
    } else {
        None
    }
}

/// Why a text is not an answer.
#[derive(PartialEq, Eq, Structural, Clone, Copy, Debug)]
pub enum ResponseError {
    /// The text is none of the answers.
    Unknown,
}

impl XResponse {
    /// The answer's text.
    pub fn text(&self) -> (s: &'static str)
        ensures
            s@ == response_text(*self),
    {
        match self {
            XResponse::Success => "🤪肉蛋葱鸡",
            XResponse::NotFound => "😵歪比歪比，歪比巴卜",
            XResponse::BadHash => "🤔你是神魔捏？你在干神魔",
        }
    }

    /// The answer as it goes on the wire: the UTF-8 of its text.
    pub fn to_vec(self) -> (v: Vec<u8>)
        ensures
            v@ == encode_utf8(response_text(self)),
    {
        vstd::slice::slice_to_vec(self.text().as_bytes())
    }

    /// The answer whose text `s` is.
    pub fn parse(s: &str) -> (r: Result<XResponse, ResponseError>)
        ensures
            match response_of(s@) {
                Some(x) => r == Ok::<XResponse, ResponseError>(x),
                None => r == Err::<XResponse, ResponseError>(ResponseError::Unknown),
            },
    {
        let cs = chars_of(s);
        let ok = chars_of(XResponse::Success.text());
        if chars_equal(&cs, &ok) {
            return Ok(XResponse::Success);
        }
        let not_found = chars_of(XResponse::NotFound.text());
        if chars_equal(&cs, &not_found) {
            return Ok(XResponse::NotFound);
        }
        let bad_hash = chars_of(XResponse::BadHash.text());
        if chars_equal(&cs, &bad_hash) {
            return Ok(XResponse::BadHash);
        }
        Err(ResponseError::Unknown)
    }
}

impl std::str::FromStr for XResponse {
    type Err = ResponseError;

    fn from_str(s: &str) -> (r: Result<XResponse, ResponseError>)
        ensures
            match response_of(s@) {
                Some(x) => r == Ok::<XResponse, ResponseError>(x),
                None => r == Err::<XResponse, ResponseError>(ResponseError::Unknown),
            },
    {
        XResponse::parse(s)
    }
}

/// The three answers have different texts.
pub proof fn lemma_response_texts_distinct()
    ensures
        response_text(XResponse::Success) != response_text(XResponse::NotFound),
        response_text(XResponse::Success) != response_text(XResponse::BadHash),
        response_text(XResponse::NotFound) != response_text(XResponse::BadHash),
{
    reveal_strlit("🤪肉蛋葱鸡");
    reveal_strlit("😵歪比歪比，歪比巴卜");
    reveal_strlit("🤔你是神魔捏？你在干神魔");
    assert(response_text(XResponse::Success)[0] != response_text(XResponse::NotFound)[0]);
    assert(response_text(XResponse::Success)[0] != response_text(XResponse::BadHash)[0]);
    assert(response_text(XResponse::NotFound)[0] != response_text(XResponse::BadHash)[0]);
}

/// Every answer the server writes is read back by the client as the same
/// answer: its bytes read as its text, and that text parses to it.
pub proof fn lemma_response_round_trip(r: XResponse)
    ensures
        lossy_text(encode_utf8(response_text(r))) == response_text(r),
        response_of(lossy_text(encode_utf8(response_text(r)))) == Some(r),
{
    lemma_response_texts_distinct();
}

} // verus!
