//! The server side: what it decides while it sets up a tunnel for one
//! client connection. The caller performs each action (read, connect,
//! write) and reports its outcome as the next event.

use vstd::prelude::*;
use vstd::utf8::encode_utf8;

use crate::prot::{host_bytes, response_text, XRequest, XResponse};
use crate::text::{lossy_text, starts_with};

verus! {

/// Where the set-up of one connection stands.
pub enum Stage {
    /// Waiting for the client's request.
    Awaiting,
    /// Connecting to the requested host.
    Connecting,
    /// The tunnel is open.
    Tunnelling,
    /// The connection is given up.
    Closed,
}

/// The outcome of the last action.
pub enum Event {
    /// The client's request arrived: the bytes of one read.
    Received(Vec<u8>),
    /// No request arrived in time.
    TimedOut,
    /// Reading the request failed.
    ReadFailed,
    /// The connection to the host is open.
    Connected,
    /// The host could not be reached.
    ConnectFailed,
}

/// Why a connection is given up.
#[derive(PartialEq, Eq, Structural, Clone, Copy, Debug)]
pub enum HandshakeError {
    /// The client sent nothing in time.
    TimedOut,
    /// Reading from the client failed.
    ReadFailed,
    /// The request does not start with the key's hash.
    BadHash,
    /// The requested host could not be reached.
    Unreachable,
    /// An event came that the current stage does not expect.
    OutOfOrder,
}

/// What to do next.
#[derive(Debug, PartialEq, Eq)]
pub enum Action {
    /// Read the client's request, within the configured time.
    ReadRequest,
    /// Connect to `host`.
    Connect { host: String },
    /// Write `reply` to the client, then relay between client and host.
    Tunnel { reply: Vec<u8> },
    /// Write `reply` to the client (nothing if empty), then give up.
    Fail { reply: Vec<u8>, error: HandshakeError },
}

/// The bytes of an answer.
pub open spec fn answer_bytes(r: XResponse) -> Seq<u8> {
    encode_utf8(response_text(r))
}

/// `a` writes `reply` to the client and gives the connection up with `error`.
pub open spec fn fails_with(a: Action, reply: Seq<u8>, error: HandshakeError) -> bool {
    a matches Action::Fail { reply: r, error: e } && r@ == reply && e == error
}

/// The server's state for one client connection.
pub struct Handshake {
    stage: Stage,
    key: Vec<u8>,
    hash: Vec<u8>,
}

impl Handshake {
    pub closed spec fn spec_stage(&self) -> Stage {
        self.stage
    }

    pub closed spec fn spec_key(&self) -> Seq<u8> {
        self.key@
    }

    pub closed spec fn spec_hash(&self) -> Seq<u8> {
        self.hash@
    }

    /// A new connection: the first action reads the client's request.
    pub fn new(key: Vec<u8>, hash: Vec<u8>) -> (r: (Handshake, Action))
        ensures
            r.0.spec_stage() == Stage::Awaiting,
            r.0.spec_key() == key@,
            r.0.spec_hash() == hash@,
            r.1 == Action::ReadRequest,
    {
        (Handshake { stage: Stage::Awaiting, key, hash }, Action::ReadRequest)
    }

    /// Takes the outcome of the last action and decides the next one.
    ///
    /// A request that does not come in time ends the connection silently;
    /// one that cannot be read, or does not start with the key's hash, is
    /// answered "bad hash"; otherwise the host it names is connected to, and
    /// the client is told whether that worked.
    pub fn step(&mut self, event: Event) -> (a: Action)
        ensures
            final(self).spec_key() == old(self).spec_key(),
            final(self).spec_hash() == old(self).spec_hash(),
            match (old(self).spec_stage(), event) {
                (Stage::Awaiting, Event::Received(b)) => if starts_with(
                    b@,
                    old(self).spec_hash(),
                ) {
                    let host = host_bytes(b@, old(self).spec_key(), old(self).spec_hash().len());
                    final(self).spec_stage() == Stage::Connecting && (a matches Action::Connect {
                        host: h,
                    } && h@ == lossy_text(host))
                } else {
                    final(self).spec_stage() == Stage::Closed && fails_with(
                        a,
                        answer_bytes(XResponse::BadHash),
                        HandshakeError::BadHash,
                    )
                },
                (Stage::Awaiting, Event::TimedOut) => final(self).spec_stage() == Stage::Closed
                    && fails_with(a, Seq::<u8>::empty(), HandshakeError::TimedOut),
                (Stage::Awaiting, Event::ReadFailed) => final(self).spec_stage() == Stage::Closed
                    && fails_with(a, answer_bytes(XResponse::BadHash), HandshakeError::ReadFailed),
                (Stage::Connecting, Event::Connected) => final(self).spec_stage()
                    == Stage::Tunnelling && (a matches Action::Tunnel { reply } && reply@
                    == answer_bytes(XResponse::Success)),
                (Stage::Connecting, Event::ConnectFailed) => final(self).spec_stage()
                    == Stage::Closed && fails_with(
                    a,
                    answer_bytes(XResponse::NotFound),
                    HandshakeError::Unreachable,
                ),
                _ => final(self).spec_stage() == Stage::Closed && fails_with(
                    a,
                    Seq::<u8>::empty(),
                    HandshakeError::OutOfOrder,
                ),
            },
    {
        let (next, action) = match (&self.stage, event) {
            (Stage::Awaiting, Event::Received(b)) => match XRequest::read(
                b.as_slice(),
                self.hash.as_slice(),
            ) {
                Ok(request) => {
                    let host = request.to_host(self.key.as_slice(), self.hash.as_slice());
                    (Stage::Connecting, Action::Connect { host })
                },
                Err(_) => (
                    Stage::Closed,
                    Action::Fail { reply: XResponse::BadHash.to_vec(), error: HandshakeError::BadHash },
                ),
            },
            (Stage::Awaiting, Event::TimedOut) => (
                Stage::Closed,
                Action::Fail { reply: Vec::new(), error: HandshakeError::TimedOut },
            ),
            (Stage::Awaiting, Event::ReadFailed) => (
                Stage::Closed,
                Action::Fail {
                    reply: XResponse::BadHash.to_vec(),
                    error: HandshakeError::ReadFailed,
                },
            ),
            (Stage::Connecting, Event::Connected) => (
                Stage::Tunnelling,
                Action::Tunnel { reply: XResponse::Success.to_vec() },
            ),
            (Stage::Connecting, Event::ConnectFailed) => (
                Stage::Closed,
                Action::Fail {
                    reply: XResponse::NotFound.to_vec(),
                    error: HandshakeError::Unreachable,
                },
            ),
            _ => (
                Stage::Closed,
                Action::Fail { reply: Vec::new(), error: HandshakeError::OutOfOrder },
            ),
        };
        self.stage = next;
        action
    }
}

} // verus!
