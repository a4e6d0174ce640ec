//! Text over `Seq<char>`: searching, prefixes, line splitting, decimal
//! numerals, and the lossy UTF-8 decoding that the protocols read bytes with.

use vstd::prelude::*;
use vstd::utf8::{decode_utf8, valid_utf8};

verus! {

/// `pat` occurs in `s` at index `i`.
pub open spec fn occurs_at<T>(s: Seq<T>, pat: Seq<T>, i: int) -> bool {
    0 <= i && i + pat.len() <= s.len() && s.subrange(i, i + pat.len()) == pat
}

/// The first index at or after `i` where `pat` occurs in `s`.
pub open spec fn find_from<T>(s: Seq<T>, pat: Seq<T>, i: int) -> Option<int>
    decreases (s.len() as int) + 1 - i,
{
    if i < 0 || i + pat.len() > s.len() {
        None
    } else if occurs_at(s, pat, i) {
        Some(i)
    } else {
        find_from(s, pat, i + 1)
    }
}

/// The first index where `pat` occurs in `s`.
pub open spec fn find<T>(s: Seq<T>, pat: Seq<T>) -> Option<int> {
    find_from(s, pat, 0)
}

/// `s` contains `pat`.
pub open spec fn contains<T>(s: Seq<T>, pat: Seq<T>) -> bool {
    find(s, pat) is Some
}

/// `s` begins with `p`.
pub open spec fn starts_with<T>(s: Seq<T>, p: Seq<T>) -> bool {
    p.len() <= s.len() && s.take(p.len() as int) == p
}

/// A found occurrence is one, and no earlier one exists from `i` on.
pub proof fn lemma_find_from<T>(s: Seq<T>, pat: Seq<T>, i: int)
    requires
        0 <= i,
    ensures
        find_from(s, pat, i) matches Some(j) ==> i <= j && occurs_at(s, pat, j) && forall|k: int|
            i <= k < j ==> !occurs_at(s, pat, k),
        find_from(s, pat, i) is None ==> forall|k: int| i <= k ==> !occurs_at(s, pat, k),
    decreases (s.len() as int) + 1 - i,
{
    if i + pat.len() > s.len() {
    } else if occurs_at(s, pat, i) {
    } else {
        lemma_find_from(s, pat, i + 1);
    }
}

/// `s` contains `pat` exactly when `pat` occurs somewhere in it.
pub proof fn lemma_contains_iff<T>(s: Seq<T>, pat: Seq<T>)
    ensures
        contains(s, pat) <==> exists|i: int| occurs_at(s, pat, i),
{
    lemma_find_from(s, pat, 0);
    if let Some(j) = find(s, pat) {
        assert(occurs_at(s, pat, j));
    }
}

/// An occurrence stays one when more follows.
pub proof fn lemma_occurs_extend<T>(s: Seq<T>, t: Seq<T>, pat: Seq<T>, i: int)
    requires
        occurs_at(s, pat, i),
    ensures
        occurs_at(s + t, pat, i),
{
    assert((s + t).subrange(i, i + pat.len()) =~= s.subrange(i, i + pat.len()));
}

/// What `s` contains, `s` followed by more contains too.
pub proof fn lemma_contains_extend<T>(s: Seq<T>, t: Seq<T>, pat: Seq<T>)
    ensures
        contains(s, pat) ==> contains(s + t, pat),
{
    lemma_contains_iff(s, pat);
    lemma_contains_iff(s + t, pat);
    if contains(s, pat) {
        let i = choose|i: int| occurs_at(s, pat, i);
        lemma_occurs_extend(s, t, pat, i);
    }
}

/// `pat` occurs in `s` at index `i`.
pub fn matches_at(s: &[char], pat: &[char], i: usize) -> (r: bool)
    ensures
        r == occurs_at(s@, pat@, i as int),
{
    if i > s.len() || pat.len() > s.len() - i {
        return false;
    }
    let mut j: usize = 0;
    while j < pat.len()
        invariant
            i + pat@.len() <= s@.len(),
            s@.len() <= usize::MAX,
            j <= pat@.len(),
            forall|k: int| 0 <= k < j ==> s@[i + k] == pat@[k],
        decreases pat@.len() - j,
    {
        if s[i + j] != pat[j] {
            assert(s@.subrange(i as int, i + pat@.len())[j as int] != pat@[j as int]);
            return false;
        }
        j = j + 1;
    }
    assert(s@.subrange(i as int, i + pat@.len()) =~= pat@);
    true
}

/// The first index at or after `from` where `pat` occurs in `s`.
pub fn find_in(s: &[char], pat: &[char], from: usize) -> (r: Option<usize>)
    requires
        pat@.len() > 0,
    ensures
        r matches Some(j) ==> find_from(s@, pat@, from as int) == Some(j as int),
        r is None ==> find_from(s@, pat@, from as int) is None,
{
    let mut i = from;
    while pat.len() <= s.len() && i <= s.len() - pat.len()
        invariant
            from <= i,
            pat@.len() > 0,
            find_from(s@, pat@, from as int) == find_from(s@, pat@, i as int),
        decreases s@.len() + 1 - i,
    {
        if matches_at(s, pat, i) {
            return Some(i);
        }
        i = i + 1;
    }
    None
}

/// `a` and `b` hold the same characters.
pub fn chars_equal(a: &[char], b: &[char]) -> (r: bool)
    ensures
        r == (a@ == b@),
{
    if a.len() != b.len() {
        return false;
    }
    let r = matches_at(a, b, 0);
    assert(a@.subrange(0, b@.len() as int) =~= a@);
    r
}

/// `s` begins with `p`.
pub fn has_prefix(s: &[char], p: &[char]) -> (r: bool)
    ensures
        r == starts_with(s@, p@),
{
    let r = matches_at(s, p, 0);
    proof {
        if p@.len() <= s@.len() {
            assert(s@.subrange(0, p@.len() as int) =~= s@.take(p@.len() as int));
        }
    }
    r
}

/// The bytes `s` begin with the bytes `p`.
pub fn bytes_start_with(s: &[u8], p: &[u8]) -> (r: bool)
    ensures
        r == starts_with(s@, p@),
{
    if p.len() > s.len() {
        return false;
    }
    let mut j: usize = 0;
    while j < p.len()
        invariant
            p@.len() <= s@.len(),
            j <= p@.len(),
            forall|k: int| 0 <= k < j ==> s@[k] == p@[k],
        decreases p@.len() - j,
    {
        if s[j] != p[j] {
            assert(s@.take(p@.len() as int)[j as int] != p@[j as int]);
            return false;
        }
        j = j + 1;
    }
    assert(s@.take(p@.len() as int) =~= p@);
    true
}

/// The index of the first line feed at or after `start`, or the length of `s`.
pub open spec fn line_end(s: Seq<char>, start: int) -> int
    decreases s.len() - start,
{
    if start < 0 || start >= s.len() {
        s.len() as int
    } else if s[start] == '\n' {
        start
    } else {
        line_end(s, start + 1)
    }
}

pub proof fn lemma_line_end(s: Seq<char>, start: int)
    requires
        0 <= start <= s.len(),
    ensures
        start <= line_end(s, start) <= s.len(),
        line_end(s, start) < s.len() ==> s[line_end(s, start)] == '\n',
        forall|k: int| start <= k < line_end(s, start) ==> s[k] != '\n',
    decreases s.len() - start,
{
    if start < s.len() && s[start] != '\n' {
        lemma_line_end(s, start + 1);
    }
}

/// The line that starts at `start` ends at the first line feed after it.
pub proof fn lemma_line_end_at(s: Seq<char>, start: int, p: int)
    requires
        0 <= start <= p < s.len(),
        s[p] == '\n',
        forall|k: int| start <= k < p ==> s[k] != '\n',
    ensures
        line_end(s, start) == p,
{
    lemma_line_end(s, start);
    let e = line_end(s, start);
    if e < p {
        assert(s[e] == '\n');
    } else if e > p {
        assert(s[p] != '\n');
    }
}

/// Without a line feed after `start`, the line runs to the end.
pub proof fn lemma_line_end_none(s: Seq<char>, start: int)
    requires
        0 <= start <= s.len(),
        forall|k: int| start <= k < s.len() ==> s[k] != '\n',
    ensures
        line_end(s, start) == s.len(),
{
    lemma_line_end(s, start);
    if line_end(s, start) < s.len() {
        assert(s[line_end(s, start)] == '\n');
    }
}

/// A line without the carriage return that preceded its line feed.
pub open spec fn strip_cr(line: Seq<char>) -> Seq<char> {
    if line.len() > 0 && line.last() == '\r' {
        line.drop_last()
    } else {
        line
    }
}

/// The lines of `s` from index `start` on, as `str::lines` gives them: split
/// at each line feed, a carriage return right before it dropped, and no
/// empty line after a final line feed.
pub open spec fn lines_from(s: Seq<char>, start: int) -> Seq<Seq<char>>
    decreases s.len() - start,
{
    if start < 0 || start >= s.len() {
        seq![]
    } else {
        let e = line_end(s, start);
        proof {
            lemma_line_end(s, start);
        }
        if e < s.len() {
            seq![strip_cr(s.subrange(start, e))] + lines_from(s, e + 1)
        } else {
            seq![s.subrange(start, s.len() as int)]
        }
    }
}

/// The lines of `s`, as `str::lines` gives them.
pub open spec fn lines(s: Seq<char>) -> Seq<Seq<char>> {
    lines_from(s, 0)
}

/// Lines are found in `b` alike whether or not text stands before it.
pub proof fn lemma_line_end_shift(a: Seq<char>, b: Seq<char>, k: int)
    requires
        0 <= k <= b.len(),
    ensures
        line_end(a + b, a.len() + k) == a.len() + line_end(b, k),
    decreases b.len() - k,
{
    let s = a + b;
    if k < b.len() {
        assert(s[a.len() + k] == b[k]);
        if b[k] != '\n' {
            lemma_line_end_shift(a, b, k + 1);
        }
    }
}

/// The lines of `b` from `k` on are the same after any text.
pub proof fn lemma_lines_from_shift(a: Seq<char>, b: Seq<char>, k: int)
    requires
        0 <= k <= b.len(),
    ensures
        lines_from(a + b, a.len() + k) == lines_from(b, k),
    decreases b.len() - k,
{
    let s = a + b;
    if k < b.len() {
        lemma_line_end_shift(a, b, k);
        lemma_line_end(b, k);
        let e = line_end(b, k);
        assert(s.subrange(a.len() + k, a.len() + e) =~= b.subrange(k, e));
        if e < b.len() {
            lemma_lines_from_shift(a, b, e + 1);
        }
    }
}

/// Text that ends with a line feed (or is empty) splits into lines on its
/// own: the lines of `a + b` from inside `a` are those of `a`, then the
/// lines that start at `b`.
pub proof fn lemma_lines_from_prefix(a: Seq<char>, b: Seq<char>, i: int)
    requires
        0 <= i <= a.len(),
        a.len() == 0 || a.last() == '\n',
    ensures
        lines_from(a + b, i) == lines_from(a, i) + lines_from(a + b, a.len() as int),
    decreases a.len() - i,
{
    let s = a + b;
    if i < a.len() {
        lemma_line_end(a, i);
        let e = line_end(a, i);
        if e == a.len() {
            assert(a[a.len() - 1] != '\n');
        }
        assert(s[e] == a[e]);
        assert forall|k: int| i <= k < e implies s[k] != '\n' by {
            assert(s[k] == a[k]);
        }
        lemma_line_end_at(s, i, e);
        assert(s.subrange(i, e) =~= a.subrange(i, e));
        lemma_lines_from_prefix(a, b, e + 1);
        assert(lines_from(a, i) == seq![strip_cr(a.subrange(i, e))] + lines_from(a, e + 1));
        assert(lines_from(s, i) == seq![strip_cr(a.subrange(i, e))] + lines_from(s, e + 1));
        assert(seq![strip_cr(a.subrange(i, e))] + (lines_from(a, e + 1) + lines_from(
            s,
            a.len() as int,
        )) =~= seq![strip_cr(a.subrange(i, e))] + lines_from(a, e + 1) + lines_from(
            s,
            a.len() as int,
        ));
    } else {
        assert(lines_from(a, i) =~= Seq::<Seq<char>>::empty());
        assert(lines_from(a, i) + lines_from(s, i) =~= lines_from(s, i));
    }
}

/// The lines of text that ends with a line feed (or is empty), followed by
/// more, are its lines followed by those of the rest.
pub proof fn lemma_lines_concat(a: Seq<char>, b: Seq<char>)
    requires
        a.len() == 0 || a.last() == '\n',
    ensures
        lines(a + b) == lines(a) + lines(b),
{
    lemma_lines_from_prefix(a, b, 0);
    lemma_lines_from_shift(a, b, 0);
}

/// A line feed at the start is an empty line before the rest's lines.
pub proof fn lemma_lines_leading_newline(b: Seq<char>)
    ensures
        lines(seq!['\n'] + b) == seq![Seq::<char>::empty()] + lines(b),
{
    let s = seq!['\n'] + b;
    assert(s[0] == '\n');
    lemma_line_end_at(s, 0, 0);
    assert(strip_cr(s.subrange(0, 0)) =~= Seq::<char>::empty());
    lemma_lines_from_shift(seq!['\n'], b, 0);
}

/// The line that starts at `start` (which must lie inside `s`): the index where
/// its text ends and the index where the next line starts.
pub fn next_line(s: &[char], start: usize) -> (r: (usize, usize))
    requires
        start < s@.len(),
    ensures
        start <= r.0 <= s@.len(),
        start < r.1 <= s@.len(),
        lines_from(s@, start as int) == seq![s@.subrange(start as int, r.0 as int)] + lines_from(
            s@,
            r.1 as int,
        ),
{
    let mut e = start;
    while e < s.len() && s[e] != '\n'
        invariant
            start <= e <= s@.len(),
            line_end(s@, start as int) == line_end(s@, e as int),
        decreases s@.len() - e,
    {
        e = e + 1;
    }
    proof {
        lemma_line_end(s@, start as int);
    }
    if e < s.len() {
        if e > start && s[e - 1] == '\r' {
            assert(strip_cr(s@.subrange(start as int, e as int)) =~= s@.subrange(
                start as int,
                e - 1,
            ));
            (e - 1, e + 1)
        } else {
            (e, e + 1)
        }
    } else {
        assert(lines_from(s@, s@.len() as int) =~= Seq::<Seq<char>>::empty());
        assert(seq![s@.subrange(start as int, s@.len() as int)] + lines_from(s@, s@.len() as int)
            =~= seq![s@.subrange(start as int, s@.len() as int)]);
        (e, e)
    }
}

/// The characters of `s`.
pub fn chars_of(s: &str) -> (v: Vec<char>)
    ensures
        v@ == s@,
{
    let mut v: Vec<char> = Vec::new();
    for c in it: s.chars()
        invariant
            v@ == it.seq().take(it.index() as int),
    {
        v.push(c);
    }
    v
}

pub assume_specification[ String::push ](string: &mut String, ch: char)
    ensures
        final(string)@ == old(string)@.push(ch),
;

/// A copy of `cs[from..to]`.
pub fn copy_range(cs: &[char], from: usize, to: usize) -> (v: Vec<char>)
    requires
        from <= to <= cs@.len(),
    ensures
        v@ == cs@.subrange(from as int, to as int),
{
    let mut v: Vec<char> = Vec::new();
    let mut i = from;
    while i < to
        invariant
            from <= i <= to <= cs@.len(),
            v@ == cs@.subrange(from as int, i as int),
        decreases to - i,
    {
        v.push(cs[i]);
        i = i + 1;
    }
    v
}

/// A `String` holding `cs[from..to]`.
pub fn string_of(cs: &[char], from: usize, to: usize) -> (r: String)
    requires
        from <= to <= cs@.len(),
    ensures
        r@ == cs@.subrange(from as int, to as int),
{
    let mut r = String::new();
    let mut i = from;
    while i < to
        invariant
            from <= i <= to <= cs@.len(),
            r@ == cs@.subrange(from as int, i as int),
        decreases to - i,
    {
        r.push(cs[i]);
        proof {
            assert(cs@.subrange(from as int, i + 1) =~= cs@.subrange(from as int, i as int).push(
                cs@[i as int],
            ));
        }
        i = i + 1;
    }
    r
}

/// The decimal digit `d` as a character.
pub open spec fn digit_char(d: nat) -> char {
    (48 + d) as char
}

/// The decimal numeral of `n`, without leading zeros.
pub open spec fn decimal(n: nat) -> Seq<char>
    decreases n,
{
    if n < 10 {
        seq![digit_char(n)]
    } else {
        decimal(n / 10).push(digit_char(n % 10))
    }
}

/// Appends the decimal numeral of `n` to `s`.
pub fn push_decimal(s: &mut String, n: u64)
    ensures
        final(s)@ == old(s)@ + decimal(n as nat),
    decreases n,
{
    if n >= 10 {
        push_decimal(s, n / 10);
    }
    let d = (n % 10) as u8;
    s.push((48u8 + d) as char);
    proof {
        assert(((48u8 + d) as u8) as char == digit_char((n % 10) as nat));
    }
}

/// What `String::from_utf8_lossy` gives for `bytes`.
pub uninterp spec fn utf8_lossy(bytes: Seq<u8>) -> Seq<char>;

/// The text that `bytes` read as: their characters where they are valid
/// UTF-8, else what `String::from_utf8_lossy` makes of them.
pub open spec fn lossy_text(bytes: Seq<u8>) -> Seq<char> {
    if valid_utf8(bytes) {
        decode_utf8(bytes)
    } else {
        utf8_lossy(bytes)
    }
}

/// Decodes `bytes` with `String::from_utf8_lossy`. Claimed of it: the result
/// is a function of the bytes alone, and valid UTF-8 decodes to the characters
/// it encodes. How invalid sequences are replaced is left to the name.
#[verifier::external_body]
pub fn decode_lossy(bytes: &[u8]) -> (s: String)
    ensures
        s@ == utf8_lossy(bytes@),
        valid_utf8(bytes@) ==> s@ == decode_utf8(bytes@),
{
    String::from_utf8_lossy(bytes).into_owned()
}

} // verus!
