//! What holds of the Certificate layout: decoding inverts encoding, accounts
//! for every byte, stays in bounds and enforces the capacity of a chain.
use crate::handshake::layout::{
    bare, certificate_wire, certs, encodable, frame, frames, message, parse_certificate,
    parse_entries, parse_frame, representable, sized, Decoded, EntryView, Frame, WireEntry,
    MAX_ENTRIES,
};
use crate::wire::{
    be_u16, be_u24, lemma_u16_roundtrip, lemma_u24_roundtrip, u16_bytes, u24_bytes,
};
use crate::TlsError;
use vstd::prelude::*;

verus! {

/// An entries region is written entry by entry: the bytes of two runs of
/// entries, one after the other, are the bytes of the runs joined.
pub proof fn lemma_frames_concat(front: Seq<WireEntry>, back: Seq<WireEntry>)
    ensures
        frames(front + back) == frames(front) + frames(back),
    decreases front.len(),
{
    if front.len() == 0 {
        assert(front + back == back);
    } else {
        lemma_frames_concat(front.drop_first(), back);
        assert((front + back).drop_first() == front.drop_first() + back);
    }
}

/// One more entry at the back adds its bytes at the back.
pub proof fn lemma_frames_push(entries: Seq<WireEntry>, last: WireEntry)
    ensures
        frames(entries.push(last)) == frames(entries) + frame(last),
{
    lemma_frames_concat(entries, seq![last]);
    assert(entries.push(last) == entries + seq![last]);
    assert(seq![last].drop_first() == Seq::<WireEntry>::empty());
    assert(frames(Seq::<WireEntry>::empty()) == Seq::<u8>::empty());
    assert(frames(seq![last]) == frame(last));
}

/// The first `n` entries of a region take no more bytes than all of them.
pub proof fn lemma_frames_prefix(entries: Seq<WireEntry>, n: int)
    requires
        0 <= n <= entries.len(),
    ensures
        frames(entries.take(n)).len() <= frames(entries).len(),
{
    lemma_frames_concat(entries.take(n), entries.skip(n));
    assert(entries.take(n) + entries.skip(n) == entries);
}

/// An entry that was written is read back whole, whatever follows it; and
/// where the chain is full, reading stops behind its certificate bytes.
pub proof fn lemma_frame_roundtrip(entry: WireEntry, tail: Seq<u8>)
    requires
        sized(entry),
    ensures
        frame(entry).len() == 5 + entry.cert.len() + entry.extensions.len(),
        parse_frame(frame(entry) + tail, false) == (Frame::Entry {
            cert: entry.cert,
            extensions: entry.extensions,
        }),
        parse_frame(frame(entry) + tail, true) == (Frame::Fail {
            error: TlsError::DecodeError,
            consumed: 3 + entry.cert.len(),
        }),
{
    let n = entry.cert.len() as int;
    let x = entry.extensions.len() as int;
    let s = frame(entry) + tail;
    lemma_u24_roundtrip(n, entry.cert + u16_bytes(x) + entry.extensions + tail);
    assert(s == u24_bytes(n) + (entry.cert + u16_bytes(x) + entry.extensions + tail));
    lemma_u16_roundtrip(x, entry.extensions + tail);
    assert(s.skip(3 + n) == u16_bytes(x) + (entry.extensions + tail));
    assert(s.subrange(3, 3 + n) == entry.cert);
    assert(s.subrange(5 + n, 5 + n + x) == entry.extensions);
}

/// The bytes of an entries region that is not empty begin with a whole entry.
proof fn lemma_frames_unfold(entries: Seq<WireEntry>)
    requires
        entries.len() >= 1,
        forall|i: int| 0 <= i < entries.len() ==> sized(#[trigger] entries[i]),
    ensures
        frames(entries) == frame(entries.first()) + frames(entries.drop_first()),
        frames(entries).len() >= 5,
        forall|i: int|
            0 <= i < entries.drop_first().len() ==> sized(#[trigger] entries.drop_first()[i]),
{
    lemma_frame_roundtrip(entries.first(), Seq::empty());
    assert forall|i: int| 0 <= i < entries.drop_first().len() implies sized(
        #[trigger] entries.drop_first()[i],
    ) by {
        assert(entries.drop_first()[i] == entries[i + 1]);
    }
}

/// Decoding inverts writing, for an entries region: a region written from at
/// least one entry and no more than the chain has room for decodes to the
/// certificates of those entries, in order, and is used up by it.
pub proof fn theorem_entries_roundtrip(entries: Seq<WireEntry>, held: nat)
    requires
        1 <= entries.len(),
        held + entries.len() <= MAX_ENTRIES,
        forall|i: int| 0 <= i < entries.len() ==> sized(#[trigger] entries[i]),
    ensures
        parse_entries(frames(entries), held) == (Decoded {
            result: Ok(certs(entries)),
            consumed: frames(entries).len(),
        }),
    decreases entries.len(),
{
    let first = entries.first();
    let rest = entries.drop_first();
    let s = frames(entries);
    let len = frame(first).len();
    lemma_frames_unfold(entries);
    lemma_frame_roundtrip(first, frames(rest));
    if rest.len() == 0 {
        assert(frames(rest) == Seq::<u8>::empty());
        assert(certs(entries) == seq![EntryView::X509(first.cert)]);
    } else {
        lemma_frames_unfold(rest);
        theorem_entries_roundtrip(rest, held + 1);
        assert(s.skip(len as int) == frames(rest));
        assert(certs(entries) == seq![EntryView::X509(first.cert)] + certs(rest));
    }
}

/// Decoding inverts writing, for a whole message: whatever request context
/// and extensions the message carries and whatever follows it, decoding
/// yields the certificates of its entries, in order, and stops at its end.
pub proof fn theorem_message_roundtrip(context: Seq<u8>, entries: Seq<WireEntry>, tail: Seq<u8>)
    requires
        representable(context, entries),
        1 <= entries.len() <= MAX_ENTRIES,
    ensures
        parse_certificate(message(context, entries) + tail) == (Decoded {
            result: Ok(certs(entries)),
            consumed: message(context, entries).len(),
        }),
{
    let c = context.len() as int;
    let n = frames(entries).len() as int;
    let s = message(context, entries) + tail;
    lemma_u24_roundtrip(n, frames(entries) + tail);
    assert(s.skip(1 + c) == u24_bytes(n) + (frames(entries) + tail));
    assert(s.subrange(4 + c, 4 + c + n) == frames(entries));
    theorem_entries_roundtrip(entries, 0);
}

/// A chain of one to sixteen entries whose lengths fit their fields is read
/// back from the message that stands for it, byte for byte and in order, with
/// every entry taken for an X.509 certificate.  A chain of X.509 certificates
/// is therefore read back as it is.
pub proof fn theorem_certificate_roundtrip(chain: Seq<EntryView>, tail: Seq<u8>)
    requires
        encodable(chain),
        1 <= chain.len() <= MAX_ENTRIES,
    ensures
        parse_certificate(certificate_wire(chain) + tail).consumed == certificate_wire(chain).len(),
        parse_certificate(certificate_wire(chain) + tail).result is Ok,
        parse_certificate(certificate_wire(chain) + tail).result->Ok_0.len() == chain.len(),
        forall|i: int|
            0 <= i < chain.len() ==> (#[trigger] parse_certificate(
                certificate_wire(chain) + tail,
            ).result->Ok_0[i]) == EntryView::X509(chain[i].bytes()),
        (forall|i: int| 0 <= i < chain.len() ==> (#[trigger] chain[i]) is X509)
            ==> parse_certificate(certificate_wire(chain) + tail).result == Ok::<
            Seq<EntryView>,
            TlsError,
        >(chain),
{
    theorem_message_roundtrip(Seq::empty(), bare(chain), tail);
    if forall|i: int| 0 <= i < chain.len() ==> (#[trigger] chain[i]) is X509 {
        assert(certs(bare(chain)) == chain);
    }
}

/// The message that stands for a chain without entries does not decode:
/// an entries region holds at least one entry.
pub proof fn lemma_empty_chain_is_rejected(tail: Seq<u8>)
    ensures
        parse_certificate(certificate_wire(Seq::empty()) + tail).result == Err::<
            Seq<EntryView>,
            TlsError,
        >(TlsError::InvalidCertificate),
{
    let s = certificate_wire(Seq::empty()) + tail;
    assert(bare(Seq::empty()) == Seq::<WireEntry>::empty());
    lemma_u24_roundtrip(0, tail);
    assert(s.skip(1) == u24_bytes(0) + tail);
    assert(s.subrange(4, 4).len() == 0);
}

/// A region written from more entries than the chain has room for fails with
/// `DecodeError`, whatever follows it.
pub proof fn theorem_entries_over_capacity(entries: Seq<WireEntry>, held: nat, tail: Seq<u8>)
    requires
        held + entries.len() > MAX_ENTRIES,
        1 <= entries.len(),
        forall|i: int| 0 <= i < entries.len() ==> sized(#[trigger] entries[i]),
    ensures
        parse_entries(frames(entries) + tail, held).result == Err::<Seq<EntryView>, TlsError>(
            TlsError::DecodeError,
        ),
    decreases entries.len(),
{
    let first = entries.first();
    let rest = entries.drop_first();
    let s = frames(entries) + tail;
    let len = frame(first).len();
    lemma_frames_unfold(entries);
    lemma_frame_roundtrip(first, frames(rest) + tail);
    assert(s == frame(first) + (frames(rest) + tail));
    if held < MAX_ENTRIES {
        lemma_frames_unfold(rest);
        theorem_entries_over_capacity(rest, held + 1, tail);
        assert(s.skip(len as int) == frames(rest) + tail);
    }
}

/// A message with more than sixteen entries fails with `DecodeError`.
pub proof fn theorem_message_over_capacity(
    context: Seq<u8>,
    entries: Seq<WireEntry>,
    tail: Seq<u8>,
)
    requires
        representable(context, entries),
        entries.len() > MAX_ENTRIES,
    ensures
        parse_certificate(message(context, entries) + tail).result == Err::<
            Seq<EntryView>,
            TlsError,
        >(TlsError::DecodeError),
{
    let c = context.len() as int;
    let n = frames(entries).len() as int;
    let s = message(context, entries) + tail;
    lemma_u24_roundtrip(n, frames(entries) + tail);
    assert(s.skip(1 + c) == u24_bytes(n) + (frames(entries) + tail));
    assert(s.subrange(4 + c, 4 + c + n) == frames(entries));
    theorem_entries_over_capacity(entries, 0, Seq::empty());
    assert(frames(entries) + Seq::<u8>::empty() == frames(entries));
}

/// A message that declares more bytes of entries than the input has left
/// fails with `InvalidCertificate`, and nothing behind the length field is
/// read.
pub proof fn lemma_region_past_end_is_rejected(s: Seq<u8>)
    requires
        s.len() >= 4 + s[0],
        be_u24(s.skip(1 + s[0])) > s.len() - 4 - s[0],
    ensures
        parse_certificate(s) == (Decoded {
            result: Err(TlsError::InvalidCertificate),
            consumed: (4 + s[0]) as nat,
        }),
{
}

/// Decoding an entries region never reads past its end.
pub proof fn lemma_entries_in_bounds(s: Seq<u8>, held: nat)
    ensures
        parse_entries(s, held).consumed <= s.len(),
    decreases s.len(),
{
    match parse_frame(s, held >= MAX_ENTRIES) {
        Frame::Fail { .. } => {},
        Frame::Entry { cert, extensions } => {
            let len = 5 + cert.len() + extensions.len();
            if len < s.len() {
                lemma_entries_in_bounds(s.skip(len as int), held + 1);
            }
        },
    }
}

/// Decoding a message never reads past the end of the input.
pub proof fn lemma_certificate_in_bounds(s: Seq<u8>)
    ensures
        parse_certificate(s).consumed <= s.len(),
{
}

/// The bytes of a length field spell the number that is read from them.
proof fn lemma_u24_bytes_of_read(s: Seq<u8>)
    requires
        s.len() >= 3,
    ensures
        u24_bytes(be_u24(s)) == s.take(3),
{
}

/// The bytes of a length field spell the number that is read from them.
proof fn lemma_u16_bytes_of_read(s: Seq<u8>)
    requires
        s.len() >= 2,
    ensures
        u16_bytes(be_u16(s)) == s.take(2),
{
}

/// An entries region decodes only if it is, to the byte, one whole entry
/// after another.  The entries returned are the
/// ones that tile it.
pub proof fn theorem_entries_exact(s: Seq<u8>, held: nat) -> (entries: Seq<WireEntry>)
    requires
        parse_entries(s, held).result is Ok,
    ensures
        frames(entries) == s,
        parse_entries(s, held).result == Ok::<Seq<EntryView>, TlsError>(certs(entries)),
        parse_entries(s, held).consumed == s.len(),
        1 <= entries.len(),
        held + entries.len() <= MAX_ENTRIES,
        forall|i: int| 0 <= i < entries.len() ==> sized(#[trigger] entries[i]),
    decreases s.len(),
{
    let n = be_u24(s);
    let x = be_u16(s.skip(3 + n));
    let len = 5 + n + x;
    let first = WireEntry { cert: s.subrange(3, 3 + n), extensions: s.subrange(5 + n, len) };
    lemma_u24_bytes_of_read(s);
    lemma_u16_bytes_of_read(s.skip(3 + n));
    assert(frame(first) == s.take(len));
    if len >= s.len() {
        let entries = seq![first];
        assert(entries.drop_first() == Seq::<WireEntry>::empty());
        assert(frames(entries.drop_first()) == Seq::<u8>::empty());
        assert(s.take(len) == s);
        assert(certs(entries) == seq![EntryView::X509(first.cert)]);
        entries
    } else {
        let rest = theorem_entries_exact(s.skip(len), held + 1);
        let entries = seq![first] + rest;
        assert(entries.drop_first() == rest);
        assert(s.take(len) + s.skip(len) == s);
        assert(certs(entries) == seq![EntryView::X509(first.cert)] + certs(rest));
        entries
    }
}

/// A message decodes only if the length that it declares for its entries
/// region is the number of bytes that the entries in it take, no more and no
/// fewer.  The context and entries returned are the ones that the consumed
/// bytes are written from.
pub proof fn theorem_certificate_exact(s: Seq<u8>) -> (parts: (Seq<u8>, Seq<WireEntry>))
    requires
        parse_certificate(s).result is Ok,
    ensures
        parse_certificate(s).consumed <= s.len(),
        message(parts.0, parts.1) == s.take(parse_certificate(s).consumed as int),
        parse_certificate(s).result == Ok::<Seq<EntryView>, TlsError>(certs(parts.1)),
        representable(parts.0, parts.1),
        1 <= parts.1.len() <= MAX_ENTRIES,
        frames(parts.1).len() == be_u24(s.skip(1 + s[0])),
{
    let c = s[0] as int;
    let n = be_u24(s.skip(1 + c));
    let context = s.subrange(1, 1 + c);
    let entries = theorem_entries_exact(s.subrange(4 + c, 4 + c + n), 0);
    lemma_u24_bytes_of_read(s.skip(1 + c));
    assert(s.skip(1 + c).take(3) == s.subrange(1 + c, 4 + c));
    assert(message(context, entries) == s.take(4 + c + n));
    (context, entries)
}

} // verus!
