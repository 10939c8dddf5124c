use ese_rs::error::EseError;
use ese_rs::header::{
    checksum_words, decode, is_supported_page_size, parse, verify_checksum, DatabaseState,
};

fn put32(bytes: &mut [u8], at: usize, v: u32) {
    bytes[at..at + 4].copy_from_slice(&v.to_le_bytes());
}

fn put64(bytes: &mut [u8], at: usize, v: u64) {
    bytes[at..at + 8].copy_from_slice(&v.to_le_bytes());
}

fn xor32(bytes: &[u8], first: usize) -> u32 {
    let mut acc: u32 = 0x89ab_cdef;
    let mut at = first;
    while at + 4 <= bytes.len() {
        acc ^= u32::from_le_bytes([bytes[at], bytes[at + 1], bytes[at + 2], bytes[at + 3]]);
        at += 4;
    }
    acc
}

fn header(version: u32, revision: u32, page_size: u32) -> Vec<u8> {
    let mut h = vec![0u8; 4096];
    put32(&mut h, 4, 0x89ab_cdef);
    put32(&mut h, 8, version);
    put32(&mut h, 12, 0);
    put64(&mut h, 16, 0x0102_0304_0506_0708);
    put64(&mut h, 28, 0x1111_2222_3333_4444);
    put32(&mut h, 52, 3);
    put64(&mut h, 72, 0x5555_6666_7777_8888);
    put32(&mut h, 232, revision);
    put32(&mut h, 236, page_size);
    let sum = xor32(&h, 4);
    put32(&mut h, 0, sum);
    h
}

#[test]
fn parse_returns_the_stored_fields() {
    let bytes = header(0x620, 0x0c, 8192);
    let h = parse(&bytes).unwrap();
    assert_eq!(h.signature, 0x89ab_cdef);
    assert_eq!(h.version, 0x620);
    assert_eq!(h.format_revision, 0x0c);
    assert_eq!(h.page_size, 8192);
    assert_eq!(h.file_type, 0);
    assert_eq!(h.database_time, 0x0102_0304_0506_0708);
    assert_eq!(h.creation_time, 0x1111_2222_3333_4444);
    assert_eq!(h.database_state, 3);
    assert_eq!(h.attach_time, 0x5555_6666_7777_8888);
    assert_eq!(h.checksum, xor32(&bytes, 4));
}

#[test]
fn parse_round_trips_every_page_size_and_revision() {
    for page_size in [2048u32, 4096, 8192, 16384, 32768] {
        for revision in [0u32, 0x09, 0x0b, 0x11, 0x14, 0x200] {
            let h = parse(&header(0x620, revision, page_size)).unwrap();
            assert_eq!(h.page_size, page_size);
            assert_eq!(h.format_revision, revision);
            assert_eq!(h.version, 0x620);
        }
    }
}

#[test]
fn wrong_signature_is_a_format_error() {
    let mut bytes = header(0x620, 0x0c, 4096);
    bytes[4] ^= 1;
    assert_eq!(parse(&bytes), Err(EseError::Format));
    assert_eq!(decode(&bytes), Err(EseError::Format));
}

#[test]
fn short_buffer_is_a_format_error() {
    let bytes = header(0x620, 0x0c, 4096);
    assert_eq!(parse(&bytes[..239]), Err(EseError::Format));
    assert_eq!(parse(&[]), Err(EseError::Format));
}

#[test]
fn unknown_version_or_revision_is_unsupported() {
    assert_eq!(
        parse(&header(0x621, 0x0c, 4096)),
        Err(EseError::UnsupportedVersion { version: 0x621, revision: 0x0c })
    );
    assert_eq!(
        parse(&header(0x620, 0x201, 4096)),
        Err(EseError::UnsupportedVersion { version: 0x620, revision: 0x201 })
    );
}

#[test]
fn unknown_page_size_is_a_format_error() {
    assert_eq!(parse(&header(0x620, 0x0c, 1000)), Err(EseError::Format));
    assert_eq!(parse(&header(0x620, 0x0c, 0)), Err(EseError::Format));
    assert!(is_supported_page_size(32768));
    assert!(!is_supported_page_size(65536));
}

#[test]
fn checksum_mismatch_is_reported_and_not_fatal_to_decoding() {
    let mut bytes = header(0x620, 0x0c, 4096);
    let stored = xor32(&bytes, 4);
    bytes[300] ^= 0x40;
    let computed = xor32(&bytes, 4);
    let err = EseError::Checksum { stored, computed };
    assert_ne!(stored, computed);
    assert_eq!(parse(&bytes), Err(err));
    assert_eq!(verify_checksum(&bytes), Err(err));
    assert!(!err.is_fatal());
    let h = decode(&bytes).unwrap();
    assert_eq!(h.page_size, 4096);
    assert_eq!(h.checksum, stored);
}

#[test]
fn checksum_is_the_seeded_exclusive_or_of_the_words() {
    let bytes: [u8; 12] = [0, 0, 0, 0, 0x01, 0, 0, 0, 0, 0, 0, 0x80];
    assert_eq!(checksum_words(&bytes, 4, 0), 0x89ab_cdef);
    assert_eq!(checksum_words(&bytes, 4, 1), 0x89ab_cdee);
    assert_eq!(checksum_words(&bytes, 4, 2), 0x09ab_cdee);
}

#[test]
fn errors_describe_themselves() {
    assert_eq!(EseError::TableNotFound.describe(), "no such table");
    assert!(EseError::Format.is_fatal());
    assert!(!EseError::PageChecksum { page: 1, stored: 2, computed: 3 }.is_fatal());
}

#[test]
fn header_names_the_state_of_the_database() {
    let mut bytes = header(0x620, 0x0c, 4096);
    let h = decode(&bytes).unwrap();
    assert_eq!(h.state(), DatabaseState::CleanShutdown);
    assert!(h.is_clean());
    put32(&mut bytes, 52, 2);
    let h = decode(&bytes).unwrap();
    assert_eq!(h.state(), DatabaseState::DirtyShutdown);
    assert!(!h.is_clean());
    put32(&mut bytes, 52, 77);
    assert_eq!(decode(&bytes).unwrap().state(), DatabaseState::Unknown(77));
}

#[test]
fn checksum_of_a_buffer_without_room_for_one_is_a_format_error() {
    assert_eq!(verify_checksum(&[1, 2, 3]), Err(EseError::Format));
    assert_eq!(verify_checksum(&0x89ab_cdefu32.to_le_bytes()), Ok(()));
}
