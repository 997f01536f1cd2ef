//! Heap-free decoding and encoding of the TLS 1.3 Certificate handshake message.
//!
//! Every decoded value borrows from the input buffer or lives in a collection
//! of fixed capacity.  The functions carry contracts over a mathematical model
//! of the wire format, and the model itself is shown to be self-consistent:
//! what `encode` writes, `parse` reads back.
use vstd::prelude::*;

pub mod buffer;
pub mod handshake;
pub mod parse_buffer;
pub mod wire;

verus! {

/// The failures that decoding or encoding a handshake message can report.
#[derive(Debug, Clone, Copy, PartialEq, Eq, Structural)]
pub enum TlsError {
    /// The certificate message, or the region holding its entries, is malformed.
    InvalidCertificate,
    /// The message holds more chain entries than a certificate can keep.
    DecodeError,
    /// The length field of an entry's extensions could not be read.
    InvalidExtensionsLength,
    /// The message does not fit the output buffer, or a length does not fit its field.
    EncodeError,
    /// An append would run past the capacity of the output buffer.
    InsufficientSpace,
}

} // verus!
