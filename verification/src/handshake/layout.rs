//! The layout of a Certificate message on the wire, as a mathematical model.
//!
//! A message is a one-byte length and that many bytes of request context,
//! then a three-byte length and that many bytes of entries.  An entry is a
//! three-byte length and that many bytes of certificate, then a two-byte
//! length and that many bytes of extensions.
use crate::wire::{be_u16, be_u24, u16_bytes, u24_bytes, U16_MAX, U24_MAX};
use crate::TlsError;
use vstd::prelude::*;

verus! {

/// The number of chain entries that a certificate can keep.
pub const MAX_ENTRIES: usize = 16;

/// A chain entry as a value: its kind and its bytes.
pub enum EntryView {
    X509(Seq<u8>),
    RawPublicKey(Seq<u8>),
}

impl EntryView {
    /// The certificate or key bytes, whichever the kind.
    pub open spec fn bytes(self) -> Seq<u8> {
        match self {
            EntryView::X509(bytes) => bytes,
            EntryView::RawPublicKey(bytes) => bytes,
        }
    }
}

/// How decoding ends: with the entries or an error, and after how many bytes.
pub struct Decoded {
    pub result: Result<Seq<EntryView>, TlsError>,
    pub consumed: nat,
}

/// What stands at the front of an entries region.
pub enum Frame {
    /// A whole entry, `5 + cert.len() + extensions.len()` bytes long.
    Entry { cert: Seq<u8>, extensions: Seq<u8> },
    /// No entry can be taken; `consumed` bytes were read before that showed.
    Fail { error: TlsError, consumed: nat },
}

/// Reads one entry off the front of `s`.  `full` says that the chain has no
/// room left, which is noticed once the certificate bytes have been read.
pub open spec fn parse_frame(s: Seq<u8>, full: bool) -> Frame {
    if s.len() < 3 {
        Frame::Fail { error: TlsError::InvalidCertificate, consumed: 0 }
    } else {
        let n = be_u24(s);
        if s.len() - 3 < n {
            Frame::Fail { error: TlsError::InvalidCertificate, consumed: 3 }
        } else if full {
            Frame::Fail { error: TlsError::DecodeError, consumed: (3 + n) as nat }
        } else if s.len() - 3 - n < 2 {
            Frame::Fail { error: TlsError::InvalidExtensionsLength, consumed: (3 + n) as nat }
        } else {
            let x = be_u16(s.skip(3 + n));
            if s.len() - 5 - n < x {
                Frame::Fail { error: TlsError::InvalidCertificate, consumed: (5 + n) as nat }
            } else {
                Frame::Entry { cert: s.subrange(3, 3 + n), extensions: s.subrange(5 + n, 5 + n + x) }
            }
        }
    }
}

/// The outcome `rest` of decoding what follows `done` bytes that gave `prefix`.
pub open spec fn resume(prefix: Seq<EntryView>, done: nat, rest: Decoded) -> Decoded {
    Decoded {
        result: match rest.result {
            Ok(entries) => Ok(prefix + entries),
            Err(error) => Err(error),
        },
        consumed: done + rest.consumed,
    }
}

/// Decodes an entries region `s` into a chain that already keeps `held`
/// entries: one entry after another until the region is used up.  At least
/// one entry is read, every entry is taken for an X.509 certificate, and
/// decoding stops at the first failure.
pub open spec fn parse_entries(s: Seq<u8>, held: nat) -> Decoded
    decreases s.len(),
{
    match parse_frame(s, held >= MAX_ENTRIES) {
        Frame::Fail { error, consumed } => Decoded { result: Err(error), consumed },
        Frame::Entry { cert, extensions } => {
            let len = 5 + cert.len() + extensions.len();
            if len >= s.len() {
                Decoded { result: Ok(seq![EntryView::X509(cert)]), consumed: len }
            } else {
                resume(seq![EntryView::X509(cert)], len, parse_entries(s.skip(len as int), held + 1))
            }
        },
    }
}

/// Decodes a Certificate message from the front of `s`.  Every failure of the
/// envelope is `InvalidCertificate`; a failure inside the entries region is
/// reported as it is, with the whole region consumed.
pub open spec fn parse_certificate(s: Seq<u8>) -> Decoded {
    if s.len() < 1 {
        Decoded { result: Err(TlsError::InvalidCertificate), consumed: 0 }
    } else {
        let c = s[0] as int;
        if s.len() - 1 < c {
            Decoded { result: Err(TlsError::InvalidCertificate), consumed: 1 }
        } else if s.len() - 1 - c < 3 {
            Decoded { result: Err(TlsError::InvalidCertificate), consumed: (1 + c) as nat }
        } else {
            let n = be_u24(s.skip(1 + c));
            if s.len() - 4 - c < n {
                Decoded { result: Err(TlsError::InvalidCertificate), consumed: (4 + c) as nat }
            } else {
                Decoded {
                    result: parse_entries(s.subrange(4 + c, 4 + c + n), 0).result,
                    consumed: (4 + c + n) as nat,
                }
            }
        }
    }
}

/// An entry as it is written: certificate bytes and extension bytes.
pub struct WireEntry {
    pub cert: Seq<u8>,
    pub extensions: Seq<u8>,
}

/// The bytes of one entry.
pub open spec fn frame(entry: WireEntry) -> Seq<u8> {
    u24_bytes(entry.cert.len() as int) + entry.cert + u16_bytes(entry.extensions.len() as int)
        + entry.extensions
}

/// The bytes of an entries region: the entries one after another.
pub open spec fn frames(entries: Seq<WireEntry>) -> Seq<u8>
    decreases entries.len(),
{
    if entries.len() == 0 {
        Seq::empty()
    } else {
        frame(entries.first()) + frames(entries.drop_first())
    }
}

/// The bytes of a whole message.
pub open spec fn message(context: Seq<u8>, entries: Seq<WireEntry>) -> Seq<u8> {
    seq![context.len() as u8] + context + u24_bytes(frames(entries).len() as int) + frames(entries)
}

/// Whether the lengths of one entry fit their fields.
pub open spec fn sized(entry: WireEntry) -> bool {
    entry.cert.len() <= U24_MAX && entry.extensions.len() <= U16_MAX
}

/// Whether every length of the message fits the field that carries it.
pub open spec fn representable(context: Seq<u8>, entries: Seq<WireEntry>) -> bool {
    &&& context.len() <= 0xFF
    &&& frames(entries).len() <= U24_MAX
    &&& forall|i: int| 0 <= i < entries.len() ==> sized(#[trigger] entries[i])
}

/// What decoding makes of written entries: X.509 certificates, extensions dropped.
pub open spec fn certs(entries: Seq<WireEntry>) -> Seq<EntryView> {
    Seq::new(entries.len(), |i: int| EntryView::X509(entries[i].cert))
}

/// A chain as it is written: each entry's bytes, with no extensions.
pub open spec fn bare(chain: Seq<EntryView>) -> Seq<WireEntry> {
    Seq::new(chain.len(), |i: int| WireEntry { cert: chain[i].bytes(), extensions: Seq::empty() })
}

/// The message that stands for `chain`: no request context, no extensions.
pub open spec fn certificate_wire(chain: Seq<EntryView>) -> Seq<u8> {
    message(Seq::empty(), bare(chain))
}

/// Whether `chain` can be written as a message at all.
pub open spec fn encodable(chain: Seq<EntryView>) -> bool {
    representable(Seq::empty(), bare(chain))
}

} // verus!
