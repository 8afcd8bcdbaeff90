//! The version-negotiation handshake: a fixed preamble, four version
//! proposals, and the server's single-word answer.

use vstd::prelude::*;

use crate::error::Error;
use crate::wire::{be4_val, push_be4, read_be4};

verus! {

/// The version this client proposes; the three remaining proposal slots
/// stay zero.
pub const PROPOSED_VERSION: u32 = 1;

/// The 20 bytes a client opens a connection with: the preamble, then four
/// 32-bit proposals, highest preference first.
pub open spec fn handshake_request_bytes() -> Seq<u8> {
    seq![
        0x60u8, 0x60u8, 0xB0u8, 0x17u8,
        0u8, 0u8, 0u8, 1u8,
        0u8, 0u8, 0u8, 0u8,
        0u8, 0u8, 0u8, 0u8,
        0u8, 0u8, 0u8, 0u8,
    ]
}

/// Builds the handshake request.
pub fn handshake_request() -> (r: Vec<u8>)
    ensures
        r@ == handshake_request_bytes(),
{
    let mut out: Vec<u8> = Vec::new();
    out.push(0x60);
    out.push(0x60);
    out.push(0xB0);
    out.push(0x17);
    push_be4(&mut out, PROPOSED_VERSION);
    push_be4(&mut out, 0);
    push_be4(&mut out, 0);
    push_be4(&mut out, 0);
    proof {
        assert(((1u32 >> 24) & 0xff) == 0 && ((1u32 >> 16) & 0xff) == 0 && ((1u32 >> 8) & 0xff)
            == 0 && (1u32 & 0xff) == 1) by (bit_vector);
        assert(((0u32 >> 24) & 0xff) == 0 && ((0u32 >> 16) & 0xff) == 0 && ((0u32 >> 8) & 0xff)
            == 0 && (0u32 & 0xff) == 0) by (bit_vector);
        assert(out@ =~= handshake_request_bytes());
    }
    out
}

/// Reads the server's four-byte reply as the version it chose.
pub fn version_of_reply(reply: &Vec<u8>) -> (r: u32)
    requires
        reply.len() >= 4,
    ensures
        r == be4_val(reply@[0], reply@[1], reply@[2], reply@[3]),
{
    read_be4(reply, 0)
}

/// Judges the server's answer: the proposed version is accepted; zero, or
/// any version this client did not propose, rejects the connection.
pub fn negotiate_version(reply: u32) -> (r: Result<u32, Error>)
    ensures
        reply == PROPOSED_VERSION <==> r == Ok::<u32, Error>(reply),
        reply != PROPOSED_VERSION <==> r == Err::<u32, Error>(Error::HandshakeRejected),
{
    if reply == PROPOSED_VERSION {
        Ok(reply)
    } else {
        Err(Error::HandshakeRejected)
    }
}

} // verus!
