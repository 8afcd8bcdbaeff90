//! Error taxonomy shared by the codec, the framer and the handshake.

use vstd::prelude::*;

verus! {

/// Everything that can go wrong while encoding, decoding, framing or
/// negotiating a connection.
#[derive(Debug, Clone, Copy, PartialEq, Eq, Structural)]
pub enum Error {
    /// A decoder needed more input bytes than the buffer holds.
    UnexpectedEof,
    /// A marker byte matched no dispatch rule; carries the offending byte.
    InvalidMarker(u8),
    /// A structure's (signature, field count) pair is not recognized.
    InvalidSignature(u8, u16),
    /// A string payload was not valid UTF-8.
    InvalidString,
    /// A length does not fit the widest length form of its kind.
    EncoderOverflow,
    /// The server answered the handshake with no acceptable version.
    HandshakeRejected,
    /// The underlying byte stream failed; raised by the I/O layer.
    IoError,
    /// A decoded field did not have the shape its structure requires.
    DeserializerPanic,
}

impl Error {
    /// A short human-readable description of the error.
    pub fn message(&self) -> &'static str {
        match self {
            Error::UnexpectedEof => "unexpected end of input",
            Error::InvalidMarker(_) => "invalid marker byte",
            Error::InvalidSignature(_, _) => "invalid structure signature",
            Error::InvalidString => "string payload is not valid UTF-8",
            Error::EncoderOverflow => "length exceeds the widest encodable form",
            Error::HandshakeRejected => "server rejected every proposed version",
            Error::IoError => "underlying stream failure",
            Error::DeserializerPanic => "decoded field has an unexpected shape",
        }
    }
}

} // verus!
