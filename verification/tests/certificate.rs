use tls_certificate::buffer::CryptoBuffer;
use tls_certificate::handshake::certificate::{Certificate, CertificateEntry};
use tls_certificate::parse_buffer::ParseBuffer;
use tls_certificate::TlsError;

/// One entry on the wire: certificate bytes, then extension bytes.
fn entry(cert: &[u8], extensions: &[u8]) -> Vec<u8> {
    let mut out = Vec::new();
    let n = cert.len();
    out.push((n >> 16) as u8);
    out.push((n >> 8) as u8);
    out.push(n as u8);
    out.extend_from_slice(cert);
    let x = extensions.len();
    out.push((x >> 8) as u8);
    out.push(x as u8);
    out.extend_from_slice(extensions);
    out
}

/// A whole message on the wire.
fn message(context: &[u8], region: &[u8]) -> Vec<u8> {
    let mut out = Vec::new();
    out.push(context.len() as u8);
    out.extend_from_slice(context);
    let n = region.len();
    out.push((n >> 16) as u8);
    out.push((n >> 8) as u8);
    out.push(n as u8);
    out.extend_from_slice(region);
    out
}

/// A region of `count` entries; entry `i` holds the two bytes `i`, `i + 1`.
fn numbered_region(count: usize) -> Vec<u8> {
    let mut region = Vec::new();
    for i in 0..count {
        region.extend_from_slice(&entry(&[i as u8, i as u8 + 1], &[]));
    }
    region
}

#[test]
fn new_certificate_has_no_entries() {
    let certificate = Certificate::new();
    assert_eq!(certificate.entries().len(), 0);
}

#[test]
fn default_certificate_has_no_entries() {
    let certificate = Certificate::default();
    assert!(certificate.entries().is_empty());
}

#[test]
fn single_entry_exhausting_its_region_decodes() {
    let data = [0x00u8, 0x00, 0x00, 0x08, 0x00, 0x00, 0x03, 0xAA, 0xBB, 0xCC, 0x00, 0x00];
    let mut buf = ParseBuffer::new(&data);
    let certificate = Certificate::parse(&mut buf).unwrap();
    assert_eq!(certificate.entries(), &[CertificateEntry::X509(&[0xAA, 0xBB, 0xCC])]);
    assert!(buf.is_empty());
}

#[test]
fn region_declared_as_ten_bytes_over_eight_fails() {
    let data = [0x00u8, 0x00, 0x00, 0x0A, 0x00, 0x00, 0x03, 0xAA, 0xBB, 0xCC, 0x00, 0x00];
    let mut buf = ParseBuffer::new(&data);
    assert_eq!(Certificate::parse(&mut buf).err(), Some(TlsError::InvalidCertificate));
    assert_eq!(buf.remaining(), 8);
}

#[test]
fn region_declared_as_eleven_bytes_fails() {
    let data = [0x00u8, 0x00, 0x00, 0x0B, 0x00, 0x00, 0x03, 0xAA, 0xBB, 0xCC, 0x00, 0x00];
    let mut buf = ParseBuffer::new(&data);
    assert_eq!(Certificate::parse(&mut buf).err(), Some(TlsError::InvalidCertificate));
}

#[test]
fn region_declared_one_byte_past_the_input_fails() {
    let data = [0x00u8, 0x00, 0x00, 0x09, 0x00, 0x00, 0x03, 0xAA, 0xBB, 0xCC, 0x00, 0x00];
    let mut buf = ParseBuffer::new(&data);
    assert_eq!(Certificate::parse(&mut buf).err(), Some(TlsError::InvalidCertificate));
    assert_eq!(buf.as_slice(), &[0x00u8, 0x00, 0x03, 0xAA, 0xBB, 0xCC, 0x00, 0x00]);
}

#[test]
fn region_one_byte_longer_than_its_entry_fails() {
    let data = [0x00u8, 0x00, 0x00, 0x09, 0x00, 0x00, 0x03, 0xAA, 0xBB, 0xCC, 0x00, 0x00, 0x00];
    let mut buf = ParseBuffer::new(&data);
    assert_eq!(Certificate::parse(&mut buf).err(), Some(TlsError::InvalidCertificate));
    assert!(buf.is_empty());
}

#[test]
fn region_one_byte_shorter_than_its_entry_fails() {
    let data = [0x00u8, 0x00, 0x00, 0x07, 0x00, 0x00, 0x03, 0xAA, 0xBB, 0xCC, 0x00, 0x00];
    let mut buf = ParseBuffer::new(&data);
    assert_eq!(Certificate::parse(&mut buf).err(), Some(TlsError::InvalidExtensionsLength));
    assert_eq!(buf.remaining(), 1);
}

#[test]
fn zero_length_context_and_one_entry_without_extensions_decode() {
    let data = message(&[], &entry(&[0x30, 0x03, 0x02, 0x01, 0x00], &[]));
    let mut buf = ParseBuffer::new(&data);
    let certificate = Certificate::parse(&mut buf).unwrap();
    assert_eq!(certificate.entries().len(), 1);
    assert_eq!(
        certificate.entries()[0],
        CertificateEntry::X509(&[0x30, 0x03, 0x02, 0x01, 0x00])
    );
}

#[test]
fn zero_length_certificate_decodes() {
    let data = message(&[], &entry(&[], &[]));
    let mut buf = ParseBuffer::new(&data);
    let certificate = Certificate::parse(&mut buf).unwrap();
    assert_eq!(certificate.entries(), &[CertificateEntry::X509(&[])]);
}

#[test]
fn empty_input_fails() {
    let data: [u8; 0] = [];
    let mut buf = ParseBuffer::new(&data);
    assert_eq!(Certificate::parse(&mut buf).err(), Some(TlsError::InvalidCertificate));
}

#[test]
fn context_longer_than_input_fails() {
    let data = [0x05u8, 0x01, 0x02];
    let mut buf = ParseBuffer::new(&data);
    assert_eq!(Certificate::parse(&mut buf).err(), Some(TlsError::InvalidCertificate));
    assert_eq!(buf.remaining(), 2);
}

#[test]
fn missing_region_length_fails() {
    let data = [0x01u8, 0x42, 0x00, 0x00];
    let mut buf = ParseBuffer::new(&data);
    assert_eq!(Certificate::parse(&mut buf).err(), Some(TlsError::InvalidCertificate));
    assert_eq!(buf.remaining(), 2);
}

#[test]
fn empty_region_fails() {
    let data = [0x00u8, 0x00, 0x00, 0x00];
    let mut buf = ParseBuffer::new(&data);
    assert_eq!(Certificate::parse(&mut buf).err(), Some(TlsError::InvalidCertificate));
    assert!(buf.is_empty());
}

#[test]
fn request_context_is_skipped() {
    let data = message(&[0x11, 0x22, 0x33], &entry(&[0xDE, 0xAD], &[]));
    let mut buf = ParseBuffer::new(&data);
    let certificate = Certificate::parse(&mut buf).unwrap();
    assert_eq!(certificate.entries(), &[CertificateEntry::X509(&[0xDE, 0xAD])]);
    assert!(buf.is_empty());
}

#[test]
fn extensions_are_skipped() {
    let mut region = entry(&[1, 2, 3], &[0xE0, 0xE1, 0xE2, 0xE3]);
    region.extend_from_slice(&entry(&[4, 5], &[]));
    region.extend_from_slice(&entry(&[6], &[0xE4]));
    let data = message(&[], &region);
    let mut buf = ParseBuffer::new(&data);
    let certificate = Certificate::parse(&mut buf).unwrap();
    assert_eq!(
        certificate.entries(),
        &[
            CertificateEntry::X509(&[1, 2, 3]),
            CertificateEntry::X509(&[4, 5]),
            CertificateEntry::X509(&[6]),
        ]
    );
}

#[test]
fn extensions_longer_than_region_fail() {
    let region = [0x00u8, 0x00, 0x01, 0xAA, 0x00, 0x02, 0xE0];
    let data = message(&[], &region);
    let mut buf = ParseBuffer::new(&data);
    assert_eq!(Certificate::parse(&mut buf).err(), Some(TlsError::InvalidCertificate));
}

#[test]
fn bytes_behind_the_message_are_left() {
    let mut data = message(&[], &entry(&[7, 8, 9], &[]));
    data.extend_from_slice(&[0x55, 0x66]);
    let mut buf = ParseBuffer::new(&data);
    let certificate = Certificate::parse(&mut buf).unwrap();
    assert_eq!(certificate.entries().len(), 1);
    assert_eq!(buf.as_slice(), &[0x55u8, 0x66]);
}

#[test]
fn sixteen_entries_decode_in_order() {
    let data = message(&[], &numbered_region(16));
    let mut buf = ParseBuffer::new(&data);
    let certificate = Certificate::parse(&mut buf).unwrap();
    let entries = certificate.entries();
    assert_eq!(entries.len(), 16);
    for i in 0..16 {
        assert_eq!(entries[i].as_bytes(), &[i as u8, i as u8 + 1]);
        assert!(matches!(entries[i], CertificateEntry::X509(_)));
    }
}

#[test]
fn seventeen_entries_exceed_capacity() {
    let data = message(&[], &numbered_region(17));
    let mut buf = ParseBuffer::new(&data);
    assert_eq!(Certificate::parse(&mut buf).err(), Some(TlsError::DecodeError));
    assert!(buf.is_empty());
}

#[test]
fn seventeenth_entry_cut_short_is_invalid() {
    let mut region = numbered_region(16);
    region.extend_from_slice(&[0x00, 0x00, 0x04, 0x01]);
    let data = message(&[], &region);
    let mut buf = ParseBuffer::new(&data);
    assert_eq!(Certificate::parse(&mut buf).err(), Some(TlsError::InvalidCertificate));
}

#[test]
fn parse_vector_reads_to_the_end() {
    let mut region = entry(&[1], &[]);
    region.extend_from_slice(&entry(&[2, 3], &[0xEE]));
    let mut buf = ParseBuffer::new(&region);
    let entries = CertificateEntry::parse_vector(&mut buf).unwrap();
    assert_eq!(
        entries.as_slice(),
        &[CertificateEntry::X509(&[1]), CertificateEntry::X509(&[2, 3])]
    );
    assert!(buf.is_empty());
}

#[test]
fn parse_vector_stops_where_the_read_failed() {
    let mut region = entry(&[1], &[]);
    region.extend_from_slice(&[0x00, 0x00, 0x09, 0xAA]);
    let mut buf = ParseBuffer::new(&region);
    assert_eq!(
        CertificateEntry::parse_vector(&mut buf).err(),
        Some(TlsError::InvalidCertificate)
    );
    assert_eq!(buf.as_slice(), &[0xAAu8]);
}

#[test]
fn parse_vector_of_nothing_fails() {
    let region: [u8; 0] = [];
    let mut buf = ParseBuffer::new(&region);
    assert_eq!(
        CertificateEntry::parse_vector(&mut buf).err(),
        Some(TlsError::InvalidCertificate)
    );
}

#[test]
fn parse_vector_without_extensions_length_fails() {
    let region = [0x00u8, 0x00, 0x02, 0xAA, 0xBB, 0x00];
    let mut buf = ParseBuffer::new(&region);
    assert_eq!(
        CertificateEntry::parse_vector(&mut buf).err(),
        Some(TlsError::InvalidExtensionsLength)
    );
    assert_eq!(buf.as_slice(), &[0x00u8]);
}

#[test]
fn parse_vector_over_capacity_stops_behind_the_certificate() {
    let mut region = numbered_region(16);
    region.extend_from_slice(&entry(&[0x77], &[0x01, 0x02]));
    let mut buf = ParseBuffer::new(&region);
    assert_eq!(CertificateEntry::parse_vector(&mut buf).err(), Some(TlsError::DecodeError));
    assert_eq!(buf.as_slice(), &[0x00u8, 0x02, 0x01, 0x02]);
}

#[test]
fn as_bytes_gives_the_bytes_of_either_kind() {
    let bytes = [1u8, 2, 3];
    assert_eq!(CertificateEntry::X509(&bytes).as_bytes(), &bytes);
    assert_eq!(CertificateEntry::RawPublicKey(&bytes).as_bytes(), &bytes);
}

#[test]
fn encode_of_no_entries_writes_the_envelope() {
    let mut mem = [0xEEu8; 8];
    let mut out = CryptoBuffer::wrap(&mut mem);
    assert_eq!(Certificate::new().encode(&mut out), Ok(()));
    assert_eq!(out.as_slice(), &[0u8, 0, 0, 0]);
}

#[test]
fn encode_writes_every_entry() {
    let mut region = entry(&[0xAA, 0xBB, 0xCC], &[]);
    region.extend_from_slice(&entry(&[0xDD], &[]));
    let data = message(&[], &region);
    let mut buf = ParseBuffer::new(&data);
    let certificate = Certificate::parse(&mut buf).unwrap();
    let mut mem = [0u8; 64];
    let mut out = CryptoBuffer::wrap(&mut mem);
    assert_eq!(certificate.encode(&mut out), Ok(()));
    assert_eq!(
        out.as_slice(),
        &[0u8, 0, 0, 14, 0, 0, 3, 0xAA, 0xBB, 0xCC, 0, 0, 0, 0, 1, 0xDD, 0, 0]
    );
}

#[test]
fn encode_appends_behind_what_is_written() {
    let data = message(&[], &entry(&[5], &[]));
    let mut buf = ParseBuffer::new(&data);
    let certificate = Certificate::parse(&mut buf).unwrap();
    let mut mem = [0u8; 16];
    let mut out = CryptoBuffer::wrap(&mut mem);
    assert_eq!(out.push(0x0B), Ok(()));
    assert_eq!(certificate.encode(&mut out), Ok(()));
    assert_eq!(out.as_slice(), &[0x0Bu8, 0, 0, 0, 6, 0, 0, 1, 5, 0, 0]);
}

#[test]
fn encode_drops_context_and_extensions() {
    let data = message(&[9, 9], &entry(&[1, 2], &[0xE0, 0xE1]));
    let mut buf = ParseBuffer::new(&data);
    let certificate = Certificate::parse(&mut buf).unwrap();
    let mut mem = [0u8; 32];
    let mut out = CryptoBuffer::wrap(&mut mem);
    assert_eq!(certificate.encode(&mut out), Ok(()));
    assert_eq!(out.as_slice(), message(&[], &entry(&[1, 2], &[])).as_slice());
}

#[test]
fn encode_into_exact_room_succeeds() {
    let data = message(&[], &entry(&[1, 2, 3], &[]));
    let mut buf = ParseBuffer::new(&data);
    let certificate = Certificate::parse(&mut buf).unwrap();
    let mut mem = [0u8; 12];
    let mut out = CryptoBuffer::wrap(&mut mem);
    assert_eq!(certificate.encode(&mut out), Ok(()));
    assert_eq!(out.len(), 12);
}

#[test]
fn encode_into_too_little_room_writes_nothing() {
    let data = message(&[], &entry(&[1, 2, 3], &[]));
    let mut buf = ParseBuffer::new(&data);
    let certificate = Certificate::parse(&mut buf).unwrap();
    let mut mem = [0u8; 11];
    let mut out = CryptoBuffer::wrap(&mut mem);
    assert_eq!(out.push(0x42), Ok(()));
    assert_eq!(certificate.encode(&mut out), Err(TlsError::EncodeError));
    assert_eq!(out.as_slice(), &[0x42u8]);
}

#[test]
fn encode_of_no_entries_into_three_bytes_fails() {
    let mut mem = [0u8; 3];
    let mut out = CryptoBuffer::wrap(&mut mem);
    assert_eq!(Certificate::new().encode(&mut out), Err(TlsError::EncodeError));
    assert!(out.is_empty());
}

#[test]
fn decode_inverts_encode() {
    let mut region = entry(&[0x30, 0x82, 0x01, 0x0A], &[0xE0]);
    region.extend_from_slice(&entry(&[], &[]));
    region.extend_from_slice(&entry(&[0xFF; 300], &[0xE1, 0xE2]));
    let data = message(&[1, 2, 3, 4], &region);
    let mut buf = ParseBuffer::new(&data);
    let first = Certificate::parse(&mut buf).unwrap();

    let mut mem = [0u8; 512];
    let mut out = CryptoBuffer::wrap(&mut mem);
    assert_eq!(first.encode(&mut out), Ok(()));
    let written = out.as_slice().to_vec();

    let mut again = ParseBuffer::new(&written);
    let second = Certificate::parse(&mut again).unwrap();
    assert!(again.is_empty());
    assert_eq!(second.entries(), first.entries());
    assert_eq!(second.entries().len(), 3);
    assert_eq!(second.entries()[2].as_bytes(), &[0xFFu8; 300]);
}

#[test]
fn decode_inverts_encode_for_a_full_chain() {
    let data = message(&[], &numbered_region(16));
    let mut buf = ParseBuffer::new(&data);
    let first = Certificate::parse(&mut buf).unwrap();
    let mut mem = [0u8; 256];
    let mut out = CryptoBuffer::wrap(&mut mem);
    assert_eq!(first.encode(&mut out), Ok(()));
    assert_eq!(out.as_slice(), data.as_slice());
    let written = out.as_slice().to_vec();
    let mut again = ParseBuffer::new(&written);
    let second = Certificate::parse(&mut again).unwrap();
    assert_eq!(second.entries(), first.entries());
}

#[test]
fn encoded_empty_certificate_does_not_decode() {
    let mut mem = [0u8; 4];
    let mut out = CryptoBuffer::wrap(&mut mem);
    assert_eq!(Certificate::new().encode(&mut out), Ok(()));
    let written = out.as_slice().to_vec();
    let mut buf = ParseBuffer::new(&written);
    assert_eq!(Certificate::parse(&mut buf).err(), Some(TlsError::InvalidCertificate));
}

#[test]
fn large_certificate_length_uses_all_three_bytes() {
    let cert = vec![0x5Au8; 0x01_02_03];
    let data = message(&[], &entry(&cert, &[]));
    assert_eq!(&data[4..7], &[0x01u8, 0x02, 0x03]);
    let mut buf = ParseBuffer::new(&data);
    let certificate = Certificate::parse(&mut buf).unwrap();
    assert_eq!(certificate.entries()[0].as_bytes().len(), 0x01_02_03);
    let mut mem = vec![0u8; data.len()];
    let mut out = CryptoBuffer::wrap(&mut mem);
    assert_eq!(certificate.encode(&mut out), Ok(()));
    assert_eq!(out.as_slice(), data.as_slice());
}
