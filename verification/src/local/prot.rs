//! What the client reads from the browser's first bytes: whether it is a
//! plain HTTP request or an HTTPS `CONNECT`, and the host it is for.

use vstd::prelude::*;
use vstd::string::{StrSliceExecFns, StringExecFns};

use crate::text::{
    chars_of, contains, decode_lossy, find, find_in, has_prefix, lines, lines_from, lossy_text,
    next_line, starts_with, strip_cr,
};

verus! {

/// The blank line that ends a request's headers.
pub open spec fn header_end() -> Seq<char> {
    seq!['\r', '\n', '\r', '\n']
}

/// A `Host` header that follows another line.
pub open spec fn host_header() -> Seq<char> {
    seq!['\r', '\n', 'H', 'o', 's', 't', ':', ' ']
}

/// The method of a tunnel request.
pub open spec fn connect_method() -> Seq<char> {
    seq!['C', 'O', 'N', 'N', 'E', 'C', 'T']
}

/// What the line holding the host starts with.
pub open spec fn host_name() -> Seq<char> {
    seq!['H', 'o', 's', 't']
}

/// What precedes the host on its line.
pub open spec fn host_prefix() -> Seq<char> {
    seq!['H', 'o', 's', 't', ':', ' ']
}

/// `msg` holds the end of the headers and a `Host` header.
pub open spec fn spec_is_http(msg: Seq<char>) -> bool {
    contains(msg, header_end()) && contains(msg, host_header())
}

/// `msg` is an HTTP request whose method is `CONNECT`.
pub open spec fn spec_is_https(msg: Seq<char>) -> bool {
    spec_is_http(msg) && starts_with(msg, connect_method())
}

/// The first of `ls` that starts with `Host`.
pub open spec fn first_host_line(ls: Seq<Seq<char>>) -> Option<Seq<char>>
    decreases ls.len(),
{
    if ls.len() == 0 {
        None
    } else if starts_with(ls[0], host_name()) {
        Some(ls[0])
    } else {
        first_host_line(ls.drop_first())
    }
}

/// The host that `msg` names: among the lines before the blank line that
/// ends the headers, the first that starts with `Host`, less its `Host: `
/// prefix (none if that line lacks it).
pub open spec fn spec_host(msg: Seq<char>) -> Option<Seq<char>> {
    match find(msg, header_end()) {
        Some(end) => match first_host_line(lines(msg.take(end))) {
            Some(line) => if starts_with(line, host_prefix()) {
                Some(line.skip(6))
            } else {
                None
            },
            None => None,
        },
        None => None,
    }
}

/// `msg` holds the end of the headers and a `Host` header.
pub fn is_http(msg: &str) -> (r: bool)
    ensures
        r == spec_is_http(msg@),
{
    let cs = chars_of(msg);
    let end: Vec<char> = vec!['\r', '\n', '\r', '\n'];
    let host: Vec<char> = vec!['\r', '\n', 'H', 'o', 's', 't', ':', ' '];
    find_in(&cs, &end, 0).is_some() && find_in(&cs, &host, 0).is_some()
}

/// `msg` is an HTTP request whose method is `CONNECT`.
pub fn is_https(msg: &str) -> (r: bool)
    ensures
        r == spec_is_https(msg@),
{
    let cs = chars_of(msg);
    let method: Vec<char> = vec!['C', 'O', 'N', 'N', 'E', 'C', 'T'];
    is_http(msg) && has_prefix(&cs, &method)
}

/// The host that `msg` names: see `spec_host`.
pub fn host(msg: &str) -> (r: Option<&str>)
    ensures
        match spec_host(msg@) {
            Some(h) => r matches Some(s) && s@ == h,
            None => r is None,
        },
{
    let cs = chars_of(msg);
    let end_pat: Vec<char> = vec!['\r', '\n', '\r', '\n'];
    let end = match find_in(&cs, &end_pat, 0) {
        Some(e) => e,
        None => return None,
    };
    proof {
        crate::text::lemma_find_from(cs@, end_pat@, 0);
    }
    assert(end_pat@ == header_end());
    assert(end + 4 <= cs@.len());
    let headers = crate::text::copy_range(&cs, 0, end);
    assert(headers@ =~= msg@.take(end as int));
    let name: Vec<char> = vec!['H', 'o', 's', 't'];
    let prefix: Vec<char> = vec!['H', 'o', 's', 't', ':', ' '];
    let mut start: usize = 0;
    while start < headers.len()
        invariant
            headers@ == msg@.take(end as int),
            find(msg@, header_end()) == Some(end as int),
            end <= msg@.len(),
            name@ == host_name(),
            prefix@ == host_prefix(),
            start <= headers@.len(),
            first_host_line(lines(headers@)) == first_host_line(lines_from(headers@, start as int)),
        decreases headers@.len() - start,
    {
        let (line_end, next) = next_line(&headers, start);
        let line = crate::text::copy_range(&headers, start, line_end);
        let ghost rest = lines_from(headers@, next as int);
        assert((seq![line@] + rest)[0] == line@);
        assert((seq![line@] + rest).drop_first() =~= rest);
        if has_prefix(&line, &name) {
            if has_prefix(&line, &prefix) {
                assert(line@.len() >= 6);
                assert(line@ =~= msg@.subrange(start as int, line_end as int));
                let h = msg.substring_char(start + 6, line_end);
                assert(msg@.subrange(start + 6, line_end as int) =~= line@.skip(6));
                return Some(h);
            } else {
                return None;
            }
        }
        start = next;
    }
    assert(lines_from(headers@, start as int) =~= Seq::<Seq<char>>::empty());
    None
}

/// The kind of proxy request the browser made.
#[derive(PartialEq, Eq, Structural, Clone, Copy, Debug)]
pub enum Protocol {
    /// A plain HTTP request, forwarded as it is.
    Http,
    /// A `CONNECT` request: the browser wants a tunnel.
    Https,
}

/// Why the client cannot serve a browser's request.
#[derive(PartialEq, Eq, Structural, Clone, Copy, Debug)]
pub enum ProtocolError {
    /// Neither an HTTP request nor a tunnel request.
    Unsupported,
    /// The request names no host.
    NoHost,
}

/// The kind of request that `msg` is, if either.
pub open spec fn spec_detect(msg: Seq<char>) -> Option<Protocol> {
    if spec_is_https(msg) {
        Some(Protocol::Https)
    } else if spec_is_http(msg) {
        Some(Protocol::Http)
    } else {
        None
    }
}

/// `:80`, the port of plain HTTP.
pub open spec fn http_port() -> Seq<char> {
    seq![':', '8', '0']
}

/// Where the server should connect for a request of kind `p` naming `msg`'s
/// host: the host with `:80` for plain HTTP, the host as it stands (it
/// carries its port) for a tunnel.
pub open spec fn spec_target(p: Protocol, msg: Seq<char>) -> Option<Seq<char>> {
    match spec_host(msg) {
        Some(h) => match p {
            Protocol::Http => Some(h + http_port()),
            Protocol::Https => Some(h),
        },
        None => None,
    }
}

impl Protocol {
    /// The kind of request in the bytes the browser sent first, read as
    /// UTF-8 with invalid sequences replaced.
    pub fn check(msg: &[u8]) -> (r: Result<Protocol, ProtocolError>)
        ensures
            match spec_detect(lossy_text(msg@)) {
                Some(p) => r == Ok::<Protocol, ProtocolError>(p),
                None => r == Err::<Protocol, ProtocolError>(ProtocolError::Unsupported),
            },
    {
        let text = decode_lossy(msg);
        if is_https(text.as_str()) {
            Ok(Protocol::Https)
        } else if is_http(text.as_str()) {
            Ok(Protocol::Http)
        } else {
            Err(ProtocolError::Unsupported)
        }
    }

    /// Where the server should connect for this request: see `spec_target`.
    pub fn to_host(self, msg: &[u8]) -> (r: Result<String, ProtocolError>)
        ensures
            match spec_target(self, lossy_text(msg@)) {
                Some(t) => r matches Ok(s) && s@ == t,
                None => r == Err::<String, ProtocolError>(ProtocolError::NoHost),
            },
    {
        let text = decode_lossy(msg);
        match host(text.as_str()) {
            Some(h) => match self {
                Protocol::Http => {
                    let mut target = String::from_str(h);
                    target.push(':');
                    target.push('8');
                    target.push('0');
                    assert(target@ =~= spec_host(text@).unwrap() + http_port());
                    Ok(target)
                },
                Protocol::Https => Ok(String::from_str(h)),
            },
            None => Err(ProtocolError::NoHost),
        }
    }
}

/// A message is detected as HTTP exactly when the blank line `\r\n\r\n`
/// occurs anywhere in it and `\r\nHost: ` occurs anywhere in it; so bytes
/// that follow a message detected as HTTP (or as a tunnel request, which
/// also starts with `CONNECT`) leave it detected as such.
pub proof fn lemma_http_detection(msg: Seq<char>, tail: Seq<char>)
    ensures
        spec_is_http(msg) <==> (exists|i: int| crate::text::occurs_at(msg, header_end(), i)) && (
        exists|j: int| crate::text::occurs_at(msg, host_header(), j)),
        spec_is_https(msg) <==> spec_is_http(msg) && msg.len() >= 7 && msg.take(7)
            == connect_method(),
        spec_is_http(msg) ==> spec_is_http(msg + tail),
        spec_is_https(msg) ==> spec_is_https(msg + tail),
{
    crate::text::lemma_contains_iff(msg, header_end());
    crate::text::lemma_contains_iff(msg, host_header());
    crate::text::lemma_contains_extend(msg, tail, header_end());
    crate::text::lemma_contains_extend(msg, tail, host_header());
    if starts_with(msg, connect_method()) {
        assert((msg + tail).take(7) =~= msg.take(7));
    }
}

/// `s` holds no carriage return and no line feed.
pub open spec fn single_line(s: Seq<char>) -> bool {
    forall|i: int| 0 <= i < s.len() ==> s[i] != '\r' && s[i] != '\n'
}

/// The request line, a `Host: ` header with value `v`, and the blank line.
pub open spec fn request_with_host(first: Seq<char>, v: Seq<char>) -> Seq<char> {
    first + host_header() + v + header_end()
}

/// In such a request the blank line first occurs right after the value.
proof fn lemma_blank_line_after_value(first: Seq<char>, v: Seq<char>)
    requires
        single_line(first),
        single_line(v),
    ensures
        find(request_with_host(first, v), header_end()) == Some((first.len() + 8 + v.len()) as int),
{
    let hh = host_header();
    let he = header_end();
    let msg = request_with_host(first, v);
    let a = first.len() as int;
    let e = a + 8 + v.len();
    assert(msg.subrange(e, e + 4) =~= he);
    assert forall|k: int| 0 <= k < e implies !crate::text::occurs_at(msg, he, k) by {
        if crate::text::occurs_at(msg, he, k) {
            assert(msg.subrange(k, k + 4)[0] == he[0]);
            assert(msg.subrange(k, k + 4)[2] == he[2]);
            if k < a {
                assert(msg[k] == first[k]);
            } else if k == a {
                assert(msg[a + 2] == hh[2]);
            } else if k < a + 8 {
                assert(msg[k] == hh[k - a]);
            } else {
                assert(msg[k] == v[k - a - 8]);
            }
        }
    }
    assert(msg.len() == e + 4);
    assert(crate::text::occurs_at(msg, he, e));
    crate::text::lemma_find_from(msg, he, 0);
    match find(msg, he) {
        Some(j) => {
            if j < e {
                assert(!crate::text::occurs_at(msg, he, j));
            } else if j > e {
                assert(!crate::text::occurs_at(msg, he, e));
            }
        },
        None => {
            assert(!crate::text::occurs_at(msg, he, e));
        },
    }
}

/// The headers before the blank line are the request line and the host line.
proof fn lemma_header_lines(first: Seq<char>, v: Seq<char>)
    requires
        single_line(first),
        single_line(v),
    ensures
        lines(first + host_header() + v) == seq![first, host_prefix() + v],
{
    let hh = host_header();
    let headers = first + hh + v;
    let a = first.len() as int;
    assert forall|k: int| 0 <= k < a + 1 implies headers[k] != '\n' by {
        if k < a {
            assert(headers[k] == first[k]);
        } else {
            assert(headers[k] == hh[0]);
        }
    }
    assert(headers[a + 1] == hh[1]);
    crate::text::lemma_line_end_at(headers, 0, a + 1);
    assert(headers[a] == hh[0]);
    assert(strip_cr(headers.subrange(0, a + 1)) =~= first);
    let second = headers.subrange(a + 2, headers.len() as int);
    assert forall|k: int| a + 2 <= k < headers.len() implies headers[k] != '\n' by {
        if k < a + 8 {
            assert(headers[k] == hh[k - a]);
        } else {
            assert(headers[k] == v[k - a - 8]);
        }
    }
    crate::text::lemma_line_end_none(headers, a + 2);
    assert(lines_from(headers, a + 2) == seq![second]);
    assert(second =~= host_prefix() + v);
    assert(lines(headers) =~= seq![first, host_prefix() + v]);
}

/// When the header after the request line is `Host: ` followed by `v`, the
/// host found is all of `v`, whatever its length; plain HTTP targets it on
/// port 80, a tunnel request as it stands.
pub proof fn lemma_host_is_whole_value(first: Seq<char>, v: Seq<char>)
    requires
        single_line(first),
        single_line(v),
        !starts_with(first, host_name()),
    ensures
        spec_host(request_with_host(first, v)) == Some(v),
        spec_target(Protocol::Https, request_with_host(first, v)) == Some(v),
        spec_target(Protocol::Http, request_with_host(first, v)) == Some(v + http_port()),
{
    let msg = request_with_host(first, v);
    let e = (first.len() + 8 + v.len()) as int;
    lemma_blank_line_after_value(first, v);
    assert(msg.take(e) =~= first + host_header() + v);
    lemma_header_lines(first, v);
    let second = host_prefix() + v;
    let ls = seq![first, second];
    assert(second.take(4) =~= host_name());
    assert(second.take(6) =~= host_prefix());
    assert(ls.drop_first() =~= seq![second]);
    assert(seq![second].drop_first() =~= Seq::<Seq<char>>::empty());
    assert(first_host_line(seq![second]) == Some(second));
    assert(first_host_line(ls) == Some(second));
    assert(second.skip(6) =~= v);
}

/// A tunnel request is always an HTTP request.
pub proof fn lemma_https_is_http(msg: Seq<char>)
    ensures
        spec_is_https(msg) ==> spec_is_http(msg),
{
}

} // verus!
