//! The client side: what it decides while it sets up a tunnel for one
//! browser connection. The caller performs each action (peek, read, connect,
//! write) and reports its outcome as the next event.

pub mod prot;

use vstd::prelude::*;
use vstd::utf8::encode_utf8;

use crate::prot::{request_bytes, response_of, XRequest, XResponse};
use crate::text::{decode_lossy, lossy_text};
use prot::{spec_detect, spec_target, Protocol};

verus! {

/// The answer that tells the browser its tunnel is open.
pub open spec fn tunnel_open_reply() -> Seq<u8> {
    encode_utf8("HTTP/1.1 200 OK\r\n\r\n"@)
}

/// The answer that tells the browser the host could not be reached.
pub open spec fn not_found_reply() -> Seq<u8> {
    encode_utf8("HTTP/1.1 404 NotFound\r\n\r\n"@)
}

/// Where the set-up of one connection stands.
pub enum Stage {
    /// Waiting for the browser's first bytes, to tell the kind of request.
    Detecting,
    /// Waiting for the request again, to find its host.
    ReadingHost(Protocol),
    /// Connecting to the server, to ask for this target.
    Connecting(String),
    /// Waiting for the server's answer.
    Awaiting,
    /// The tunnel is open.
    Tunnelling,
    /// The connection is given up.
    Closed,
}

/// The outcome of the last action.
pub enum Event {
    /// Bytes that a peek or read returned.
    Data(Vec<u8>),
    /// The connection to the server is open.
    Connected,
}

/// Why a connection is given up.
#[derive(PartialEq, Eq, Structural, Clone, Copy, Debug)]
pub enum HandshakeError {
    /// The browser's request is neither HTTP nor a tunnel request.
    Unsupported,
    /// The browser's request names no host.
    NoHost,
    /// The server's answer is none of the known answers.
    BadAnswer,
    /// The server could not reach the host.
    Unreachable,
    /// An event came that the current stage does not expect.
    OutOfOrder,
}

/// What to do next.
#[derive(Debug, PartialEq, Eq)]
pub enum Action {
    /// Peek at the browser's bytes, leaving them to be forwarded later.
    PeekSource,
    /// Read (and so consume) the browser's bytes.
    ReadSource,
    /// Write `reply` to the browser, then connect to the server.
    ConnectServer { reply: Vec<u8> },
    /// Send `request` to the server, then read its answer.
    SendRequest { request: Vec<u8> },
    /// Relay between the browser and the server.
    Tunnel,
    /// Write `reply` to the browser, then give the connection up.
    Fail { reply: Vec<u8>, error: HandshakeError },
    /// The server rejected the key: stop, the configuration is wrong.
    Abort,
}

/// `a` gives the connection up with `error`, writing nothing.
pub open spec fn fails_silently(a: Action, error: HandshakeError) -> bool {
    a matches Action::Fail { reply, error: e } && reply@ == Seq::<u8>::empty() && e == error
}

/// The client's state for one browser connection.
pub struct Handshake {
    stage: Stage,
    key: Vec<u8>,
    hash: String,
}

impl Handshake {
    pub closed spec fn spec_stage(&self) -> Stage {
        self.stage
    }

    pub closed spec fn spec_key(&self) -> Seq<u8> {
        self.key@
    }

    pub closed spec fn spec_hash(&self) -> Seq<char> {
        self.hash@
    }

    /// A new connection: the first action peeks at the browser's bytes.
    pub fn new(key: Vec<u8>, hash: String) -> (r: (Handshake, Action))
        ensures
            r.0.spec_stage() == Stage::Detecting,
            r.0.spec_key() == key@,
            r.0.spec_hash() == hash@,
            r.1 == Action::PeekSource,
    {
        (Handshake { stage: Stage::Detecting, key, hash }, Action::PeekSource)
    }

    /// Takes the outcome of the last action and decides the next one.
    ///
    /// The browser's first bytes decide the kind of request (plain HTTP is
    /// peeked at again, a tunnel request is read); the request's bytes then
    /// give the target, and a tunnel request is answered before the server
    /// is contacted; once connected, the server gets the request for that
    /// target; its answer opens the tunnel, is passed on as "not found",
    /// stops the client when the key was rejected, or fails the connection
    /// when it is none of these.
    pub fn step(&mut self, event: Event) -> (a: Action)
        ensures
            final(self).spec_key() == old(self).spec_key(),
            final(self).spec_hash() == old(self).spec_hash(),
            match (old(self).spec_stage(), event) {
                (Stage::Detecting, Event::Data(b)) => match spec_detect(lossy_text(b@)) {
                    Some(p) => final(self).spec_stage() == Stage::ReadingHost(p) && a == (if p
                        == Protocol::Http {
                        Action::PeekSource
                    } else {
                        Action::ReadSource
                    }),
                    None => final(self).spec_stage() == Stage::Closed && fails_silently(
                        a,
                        HandshakeError::Unsupported,
                    ),
                },
                (Stage::ReadingHost(p), Event::Data(b)) => match spec_target(p, lossy_text(b@)) {
                    Some(t) => (final(self).spec_stage() matches Stage::Connecting(h) && h@ == t)
                        && (a matches Action::ConnectServer { reply } && reply@ == (if p
                        == Protocol::Https {
                        tunnel_open_reply()
                    } else {
                        Seq::<u8>::empty()
                    })),
                    None => final(self).spec_stage() == Stage::Closed && fails_silently(
                        a,
                        HandshakeError::NoHost,
                    ),
                },
                (Stage::Connecting(h), Event::Connected) => final(self).spec_stage()
                    == Stage::Awaiting && (a matches Action::SendRequest { request }
                    && request@ == request_bytes(h@, old(self).spec_key(), old(self).spec_hash())),
                (Stage::Awaiting, Event::Data(b)) => match response_of(lossy_text(b@)) {
                    Some(XResponse::Success) => final(self).spec_stage() == Stage::Tunnelling && a
                        == Action::Tunnel,
                    Some(XResponse::NotFound) => final(self).spec_stage() == Stage::Closed && (a
                        matches Action::Fail { reply, error } && reply@ == not_found_reply()
                        && error == HandshakeError::Unreachable),
                    Some(XResponse::BadHash) => final(self).spec_stage() == Stage::Closed && a
                        == Action::Abort,
                    None => final(self).spec_stage() == Stage::Closed && fails_silently(
                        a,
                        HandshakeError::BadAnswer,
                    ),
                },
                _ => final(self).spec_stage() == Stage::Closed && fails_silently(
                    a,
                    HandshakeError::OutOfOrder,
                ),
            },
    {
        let (next, action) = match (&self.stage, event) {
            (Stage::Detecting, Event::Data(b)) => match Protocol::check(b.as_slice()) {
                Ok(p) => {
                    let action = match p {
                        Protocol::Http => Action::PeekSource,
                        Protocol::Https => Action::ReadSource,
                    };
                    (Stage::ReadingHost(p), action)
                },
                Err(_) => (
                    Stage::Closed,
                    Action::Fail { reply: Vec::new(), error: HandshakeError::Unsupported },
                ),
            },
            (Stage::ReadingHost(p), Event::Data(b)) => {
                let p = *p;
                match p.to_host(b.as_slice()) {
                    Ok(target) => {
                        let reply = match p {
                            Protocol::Http => Vec::new(),
                            Protocol::Https => vstd::slice::slice_to_vec(
                                "HTTP/1.1 200 OK\r\n\r\n".as_bytes(),
                            ),
                        };
                        (Stage::Connecting(target), Action::ConnectServer { reply })
                    },
                    Err(_) => (
                        Stage::Closed,
                        Action::Fail { reply: Vec::new(), error: HandshakeError::NoHost },
                    ),
                }
            },
            (Stage::Connecting(h), Event::Connected) => {
                let request = XRequest::new(h.clone(), self.key.as_slice(), self.hash.as_str());
                (Stage::Awaiting, Action::SendRequest { request: request.to_vec() })
            },
            (Stage::Awaiting, Event::Data(b)) => {
                let text = decode_lossy(b.as_slice());
                match XResponse::parse(text.as_str()) {
                    Ok(XResponse::Success) => (Stage::Tunnelling, Action::Tunnel),
                    Ok(XResponse::NotFound) => (
                        Stage::Closed,
                        Action::Fail {
                            reply: vstd::slice::slice_to_vec(
                                "HTTP/1.1 404 NotFound\r\n\r\n".as_bytes(),
                            ),
                            error: HandshakeError::Unreachable,
                        },
                    ),
                    Ok(XResponse::BadHash) => (Stage::Closed, Action::Abort),
                    Err(_) => (
                        Stage::Closed,
                        Action::Fail { reply: Vec::new(), error: HandshakeError::BadAnswer },
                    ),
                }
            },
            _ => (
                Stage::Closed,
                Action::Fail { reply: Vec::new(), error: HandshakeError::OutOfOrder },
            ),
        };
        self.stage = next;
        action
    }
}

} // verus!
