//! A small encrypted HTTP/HTTPS tunnelling proxy: the verified core.
//!
//! The client side (`local`) accepts browser connections, finds the target
//! host in the HTTP request and forwards it to the server side (`remote`)
//! inside an `XRequest` that carries the key's hash and the XOR-obfuscated
//! host. The server checks the hash, connects to the host and both sides then
//! relay bytes, XOR-ing them with the shared key.

pub mod cfg;
pub mod local;
pub mod prot;
pub mod remote;
pub mod text;
pub mod util;

use vstd::prelude::*;

verus! {

/// Size of the buffers that peek, read and relay traffic.
pub const DEFAULT_BUF_SIZE: usize = 4096;

} // verus!
