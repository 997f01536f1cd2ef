//! The Certificate handshake message and its chain of entries.
use crate::buffer::CryptoBuffer;
use crate::handshake::layout::{
    bare, certificate_wire, encodable, frame, frames, parse_certificate, parse_entries,
    parse_frame, resume, sized, Decoded, EntryView, MAX_ENTRIES,
};
use crate::handshake::theorems::{lemma_frames_prefix, lemma_frames_push, theorem_entries_exact};
use crate::parse_buffer::ParseBuffer;
use crate::wire::{u24_bytes, U24_MAX};
use crate::TlsError;
use vstd::prelude::*;

verus! {

/// `heapless::Vec`, the vector of fixed capacity that keeps a chain.  Nothing
/// inside it is visible here: what it keeps goes by the name [`chain_entries`].
#[verifier::external_type_specification]
#[verifier::external_body]
#[verifier::reject_recursive_types(T)]
pub struct ExHeaplessVec<T, const N: usize>(heapless::Vec<T, N>);

/// The entries that a `heapless::Vec` of capacity 16 keeps, first to last.
/// The name has no definition: what is known of it is what the three
/// functions below state of `new`, `push` and `as_slice`.
pub uninterp spec fn chain_entries(chain: heapless::Vec<CertificateEntry<'_>, 16>) -> Seq<
    CertificateEntry<'_>,
>;

/// Calls `heapless::Vec::new`.  The new vector keeps nothing.
#[verifier::external_body]
fn chain_new<'a>() -> (chain: heapless::Vec<CertificateEntry<'a>, 16>)
    ensures
        chain_entries(chain) == Seq::<CertificateEntry<'a>>::empty(),
{
    heapless::Vec::new()
}

/// Calls `heapless::Vec::push`.  While the vector keeps fewer items than its
/// capacity, here 16, the item goes to the back.  Otherwise the vector stays
/// as it is and the item is handed back.
#[verifier::external_body]
fn chain_push<'a>(
    chain: &mut heapless::Vec<CertificateEntry<'a>, 16>,
    entry: CertificateEntry<'a>,
) -> (r: Result<(), CertificateEntry<'a>>)
    ensures
        r is Ok <==> chain_entries(*old(chain)).len() < 16,
        r is Ok ==> chain_entries(*final(chain)) == chain_entries(*old(chain)).push(entry),
        r is Err ==> r->Err_0 == entry && chain_entries(*final(chain)) == chain_entries(
            *old(chain),
        ),
{
    chain.push(entry)
}

/// Calls `heapless::Vec::as_slice`.  The slice is all that the vector keeps, in order.
#[verifier::external_body]
fn chain_as_slice<'c, 'a>(
    chain: &'c heapless::Vec<CertificateEntry<'a>, 16>,
) -> (entries: &'c [CertificateEntry<'a>])
    ensures
        entries@ == chain_entries(*chain),
{
    chain.as_slice()
}

/// One element of a certificate chain: a view of bytes in the input, tagged with its kind.
#[derive(Debug, Clone, Copy, PartialEq, Eq)]
pub enum CertificateEntry<'a> {
    X509(&'a [u8]),
    RawPublicKey(&'a [u8]),
}

impl<'a> View for CertificateEntry<'a> {
    type V = EntryView;

    open spec fn view(&self) -> EntryView {
        match *self {
            CertificateEntry::X509(bytes) => EntryView::X509(bytes@),
            CertificateEntry::RawPublicKey(bytes) => EntryView::RawPublicKey(bytes@),
        }
    }
}

/// The entries of a chain as values.
pub open spec fn chain_view(chain: heapless::Vec<CertificateEntry<'_>, 16>) -> Seq<EntryView> {
    Seq::new(chain_entries(chain).len(), |i: int| chain_entries(chain)[i]@)
}

/// The outcome of decoding a chain, as values.
pub open spec fn chain_result(
    r: Result<heapless::Vec<CertificateEntry<'_>, 16>, TlsError>,
) -> Result<Seq<EntryView>, TlsError> {
    match r {
        Ok(chain) => Ok(chain_view(chain)),
        Err(error) => Err(error),
    }
}

impl<'a> CertificateEntry<'a> {
    /// The bytes of the entry, whichever its kind.
    pub fn as_bytes(&self) -> (bytes: &'a [u8])
        ensures
            bytes@ == self@.bytes(),
    {
        match *self {
            CertificateEntry::X509(bytes) => bytes,
            CertificateEntry::RawPublicKey(bytes) => bytes,
        }
    }

    /// Decodes the entries region that `buf` holds, to its end.
    ///
    /// On success `buf` is used up.  On failure it stands where the read that
    /// failed found it.
    pub fn parse_vector(buf: &mut ParseBuffer<'a>) -> (r: Result<
        heapless::Vec<CertificateEntry<'a>, 16>,
        TlsError,
    >)
        ensures
            chain_result(r) == parse_entries(old(buf)@, 0).result,
            final(buf)@ == old(buf)@.skip(parse_entries(old(buf)@, 0).consumed as int),
    {
        let ghost region = buf@;
        let mut entries = chain_new();
        loop
            invariant_except_break
                region == old(buf)@,
                buf@.len() <= region.len(),
                buf@ == region.skip(region.len() - buf@.len()),
                chain_entries(entries).len() <= MAX_ENTRIES,
                parse_entries(region, 0) == resume(
                    chain_view(entries),
                    (region.len() - buf@.len()) as nat,
                    parse_entries(buf@, chain_entries(entries).len()),
                ),
            ensures
                buf@ == region.skip(region.len() as int),
                parse_entries(region, 0) == (Decoded {
                    result: Ok(chain_view(entries)),
                    consumed: region.len(),
                }),
            decreases buf@.len(),
        {
            let ghost rest = buf@;
            let ghost done = region.len() - rest.len();
            let ghost kept = chain_view(entries);
            let ghost full = chain_entries(entries).len() >= MAX_ENTRIES;
            let entry_len = match buf.read_u24() {
                Ok(len) => len,
                Err(_) => {
                    return Err(TlsError::InvalidCertificate);
                },
            };
            let cert = match buf.slice(entry_len as usize) {
                Ok(cert) => cert,
                Err(_) => {
                    proof {
                        assert(rest.skip(3) == region.skip(done + 3));
                    }
                    return Err(TlsError::InvalidCertificate);
                },
            };
            proof {
                assert(rest.skip(3).take(entry_len as int) == rest.subrange(3, 3 + entry_len));
                assert(rest.skip(3).skip(entry_len as int) == region.skip(done + 3 + entry_len));
                assert(rest.skip(3).skip(entry_len as int) == rest.skip(3 + entry_len));
            }
            let entry = CertificateEntry::X509(cert.as_slice());
            if chain_push(&mut entries, entry).is_err() {
                return Err(TlsError::DecodeError);
            }
            let extensions_len = match buf.read_u16() {
                Ok(len) => len,
                Err(_) => {
                    return Err(TlsError::InvalidExtensionsLength);
                },
            };
            match buf.slice(extensions_len as usize) {
                Ok(_) => {},
                Err(_) => {
                    proof {
                        assert(rest.skip(3 + entry_len).skip(2) == region.skip(
                            done + 5 + entry_len,
                        ));
                    }
                    return Err(TlsError::InvalidCertificate);
                },
            }
            proof {
                let len = 5 + entry_len + extensions_len;
                assert(parse_frame(rest, full) is Entry);
                assert(buf@ == rest.skip(len));
                assert(buf@ == region.skip(done + len));
                assert(chain_view(entries) == kept + seq![entry@]);
                if len < rest.len() {
                    let tail = parse_entries(buf@, chain_entries(entries).len());
                    assert(parse_entries(rest, kept.len()) == resume(seq![entry@], len as nat, tail));
                    if tail.result is Ok {
                        assert(kept + (seq![entry@] + tail.result->Ok_0) == (kept + seq![entry@])
                            + tail.result->Ok_0);
                    }
                }
            }
            if buf.is_empty() {
                break ;
            }
        }
        Ok(entries)
    }
}

/// A certificate chain, leaf first, in a vector of fixed capacity.
///
/// Its view is the sequence of its entries as values, never more than
/// [`MAX_ENTRIES`] of them.
#[derive(Debug)]
pub struct Certificate<'a> {
    entries: heapless::Vec<CertificateEntry<'a>, 16>,
}

impl<'a> View for Certificate<'a> {
    type V = Seq<EntryView>;

    closed spec fn view(&self) -> Seq<EntryView> {
        chain_view(self.entries)
    }
}

/// The outcome of decoding a certificate, as values.
pub open spec fn certificate_result(r: Result<Certificate<'_>, TlsError>) -> Result<
    Seq<EntryView>,
    TlsError,
> {
    match r {
        Ok(certificate) => Ok(certificate@),
        Err(error) => Err(error),
    }
}

impl<'a> Certificate<'a> {
    #[verifier::type_invariant]
    spec fn within_capacity(self) -> bool {
        chain_entries(self.entries).len() <= MAX_ENTRIES
    }

    /// A certificate with no entries.
    pub fn new() -> (certificate: Self)
        ensures
            certificate@ == Seq::<EntryView>::empty(),
    {
        Self { entries: chain_new() }
    }

    /// The entries, leaf first.
    pub fn entries(&self) -> (entries: &[CertificateEntry<'a>])
        ensures
            entries@.len() == self@.len(),
            entries@.len() <= MAX_ENTRIES,
            forall|i: int| 0 <= i < entries@.len() ==> (#[trigger] entries@[i])@ == self@[i],
    {
        proof {
            use_type_invariant(self);
        }
        chain_as_slice(&self.entries)
    }

    /// Decodes a Certificate message from the front of `buf`.
    ///
    /// The request context and the extensions of each entry are checked for
    /// length and skipped.  On success and on a failure inside the entries
    /// region, `buf` stands behind the region; on a failure of the envelope it
    /// stands where the read that failed found it.
    pub fn parse(buf: &mut ParseBuffer<'a>) -> (r: Result<Self, TlsError>)
        ensures
            certificate_result(r) == parse_certificate(old(buf)@).result,
            final(buf)@ == old(buf)@.skip(parse_certificate(old(buf)@).consumed as int),
    {
        let ghost s = buf@;
        let request_context_len = match buf.read_u8() {
            Ok(len) => len,
            Err(_) => {
                return Err(TlsError::InvalidCertificate);
            },
        };
        match buf.slice(request_context_len as usize) {
            Ok(_) => {},
            Err(_) => {
                return Err(TlsError::InvalidCertificate);
            },
        }
        proof {
            assert(buf@ == s.skip(1 + request_context_len));
        }
        let entries_len = match buf.read_u24() {
            Ok(len) => len,
            Err(_) => {
                return Err(TlsError::InvalidCertificate);
            },
        };
        let mut region = match buf.slice(entries_len as usize) {
            Ok(region) => region,
            Err(_) => {
                proof {
                    assert(buf@ == s.skip(4 + request_context_len));
                }
                return Err(TlsError::InvalidCertificate);
            },
        };
        let ghost area = region@;
        proof {
            let from = 4 + request_context_len;
            assert(area == s.subrange(from, from + entries_len));
            assert(buf@ == s.skip(from + entries_len));
        }
        match CertificateEntry::parse_vector(&mut region) {
            Ok(entries) => {
                proof {
                    let tiles = theorem_entries_exact(area, 0);
                    assert(chain_view(entries).len() == tiles.len());
                }
                Ok(Self { entries })
            },
            Err(error) => Err(error),
        }
    }

    /// Appends the message that stands for this certificate to `buf`: an
    /// empty request context, then every entry with empty extensions.
    ///
    /// The message is written whole or not at all.  It is not written where a
    /// length does not fit its field, or where `buf` has too little room.
    pub fn encode(&self, buf: &mut CryptoBuffer<'_>) -> (r: Result<(), TlsError>)
        ensures
            final(buf).capacity() == old(buf).capacity(),
            r is Ok <==> encodable(self@) && old(buf)@.len() + certificate_wire(self@).len() <= old(
                buf,
            ).capacity(),
            r is Ok ==> final(buf)@ == old(buf)@ + certificate_wire(self@),
            r is Err ==> r->Err_0 == TlsError::EncodeError && final(buf)@ == old(buf)@,
    {
        let entries = chain_as_slice(&self.entries);
        let ghost chain = self@;
        let ghost items = bare(chain);
        let mut region_len: usize = 0;
        let mut i: usize = 0;
        while i < entries.len()
            invariant
                i <= entries.len(),
                chain == self@,
                entries@.len() == chain.len(),
                forall|j: int| 0 <= j < chain.len() ==> (#[trigger] entries@[j])@ == chain[j],
                items == bare(chain),
                region_len == frames(items.take(i as int)).len(),
                region_len <= U24_MAX,
                forall|j: int| 0 <= j < i ==> sized(#[trigger] items[j]),
            decreases entries.len() - i,
        {
            let n = entries[i].as_bytes().len();
            proof {
                lemma_frames_push(items.take(i as int), items[i as int]);
                assert(items.take(i + 1) == items.take(i as int).push(items[i as int]));
                lemma_frames_prefix(items, i + 1);
            }
            if n > U24_MAX {
                proof {
                    assert(!sized(items[i as int]));
                }
                return Err(TlsError::EncodeError);
            }
            region_len = region_len + 5 + n;
            if region_len > U24_MAX {
                return Err(TlsError::EncodeError);
            }
            i = i + 1;
        }
        proof {
            assert(items.take(i as int) == items);
        }
        if buf.capacity() - buf.len() < 4 + region_len {
            return Err(TlsError::EncodeError);
        }
        // The whole message fits: none of the appends below can fail.
        let ghost start = buf@;
        let ghost head = start + seq![0u8] + u24_bytes(region_len as int);
        match buf.push(0) {
            Ok(_) => {},
            Err(_) => {
                return Err(TlsError::EncodeError);
            },
        }
        match buf.push_u24(region_len as u32) {
            Ok(_) => {},
            Err(_) => {
                return Err(TlsError::EncodeError);
            },
        }
        let mut i: usize = 0;
        while i < entries.len()
            invariant
                i <= entries.len(),
                entries@.len() == chain.len(),
                forall|j: int| 0 <= j < chain.len() ==> (#[trigger] entries@[j])@ == chain[j],
                items == bare(chain),
                forall|j: int| 0 <= j < items.len() ==> sized(#[trigger] items[j]),
                buf.capacity() == old(buf).capacity(),
                buf@ == head + frames(items.take(i as int)),
                head.len() + frames(items).len() <= buf.capacity(),
            decreases entries.len() - i,
        {
            let bytes = entries[i].as_bytes();
            proof {
                lemma_frames_push(items.take(i as int), items[i as int]);
                assert(items.take(i + 1) == items.take(i as int).push(items[i as int]));
                lemma_frames_prefix(items, i + 1);
            }
            let ghost before = buf@;
            match buf.push_u24(bytes.len() as u32) {
                Ok(_) => {},
                Err(_) => {
                    return Err(TlsError::EncodeError);
                },
            }
            match buf.extend_from_slice(bytes) {
                Ok(_) => {},
                Err(_) => {
                    return Err(TlsError::EncodeError);
                },
            }
            match buf.push_u16(0) {
                Ok(_) => {},
                Err(_) => {
                    return Err(TlsError::EncodeError);
                },
            }
            proof {
                assert(buf@ == before + frame(items[i as int]));
            }
            i = i + 1;
        }
        proof {
            assert(items.take(i as int) == items);
            assert(buf@ == start + certificate_wire(chain));
        }
        Ok(())
    }
}

impl<'a> Default for Certificate<'a> {
    fn default() -> (certificate: Self)
        ensures
            certificate@ == Seq::<EntryView>::empty(),
    {
        Certificate::new()
    }
}

} // verus!
