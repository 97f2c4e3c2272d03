use camellia_nexus_desktop::broker_identity::{
    digest_file_hex, digest_file_hex_with_limit, digest_hex, normalize_macho_code_signature,
    normalize_pe_authenticode, normalized_executable, read_u16_le, read_u32_le,
    remove_signature_blob, ExecutableFile, IdentityError,
};

#[test]
fn file_identity_is_bounded_and_matches_memory_identity() {
    let broker = ExecutableFile {
        is_regular_file: true,
        length: 15,
        bytes: b"MZ-short-broker".to_vec(),
    };
    assert_eq!(
        digest_file_hex_with_limit(&broker, 64).expect("bounded broker digest"),
        digest_hex(b"MZ-short-broker")
    );
    assert_eq!(
        digest_file_hex_with_limit(&broker, 8).expect_err("oversized broker must fail"),
        IdentityError::Unacceptable
    );
}

#[test]
fn pe_authenticode_blob_does_not_change_identity() {
    let mut unsigned = vec![0u8; 256];
    unsigned[..2].copy_from_slice(b"MZ");
    unsigned[0x3c..0x40].copy_from_slice(&64u32.to_le_bytes());
    unsigned[64..68].copy_from_slice(b"PE\0\0");
    unsigned[88..90].copy_from_slice(&0x20bu16.to_le_bytes());
    unsigned[200] = 42;

    let mut signed = unsigned.clone();
    signed[88 + 64..88 + 68].copy_from_slice(&123u32.to_le_bytes());
    let certificate_entry = 88 + 112 + 4 * 8;
    signed[certificate_entry..certificate_entry + 4]
        .copy_from_slice(&(unsigned.len() as u32).to_le_bytes());
    signed[certificate_entry + 4..certificate_entry + 8].copy_from_slice(&16u32.to_le_bytes());
    signed.extend_from_slice(&[7u8; 16]);

    assert_eq!(digest_hex(&unsigned), digest_hex(&signed));
    signed[200] ^= 1;
    assert_ne!(digest_hex(&unsigned), digest_hex(&signed));
}

#[test]
fn malformed_executables_fall_back_to_complete_file_identity() {
    assert_ne!(digest_hex(b"MZ-short-a"), digest_hex(b"MZ-short-b"));

    let mut malformed_macho = vec![0_u8; 72];
    malformed_macho[..4].copy_from_slice(&[0xcf, 0xfa, 0xed, 0xfe]);
    malformed_macho[16..20].copy_from_slice(&2_u32.to_le_bytes());
    malformed_macho[20..24].copy_from_slice(&24_u32.to_le_bytes());
    malformed_macho[32..36].copy_from_slice(&0x1d_u32.to_le_bytes());
    malformed_macho[36..40].copy_from_slice(&16_u32.to_le_bytes());
    malformed_macho[40..44].copy_from_slice(&64_u32.to_le_bytes());
    malformed_macho[44..48].copy_from_slice(&8_u32.to_le_bytes());
    malformed_macho[48..52].copy_from_slice(&1_u32.to_le_bytes());
    malformed_macho[52..56].copy_from_slice(&4_u32.to_le_bytes());
    let mut altered = malformed_macho.clone();
    altered[40..48].fill(0);
    assert_ne!(digest_hex(&malformed_macho), digest_hex(&altered));
}

#[test]
fn macho_code_signature_is_removed() {
    let mut image = vec![0_u8; 72];
    image[..4].copy_from_slice(&[0xcf, 0xfa, 0xed, 0xfe]);
    image[16..20].copy_from_slice(&1_u32.to_le_bytes());
    image[20..24].copy_from_slice(&16_u32.to_le_bytes());
    image[32..36].copy_from_slice(&0x1d_u32.to_le_bytes());
    image[36..40].copy_from_slice(&16_u32.to_le_bytes());
    image[40..44].copy_from_slice(&64_u32.to_le_bytes());
    image[44..48].copy_from_slice(&8_u32.to_le_bytes());
    let mut normalized = image.clone();
    assert!(normalize_macho_code_signature(&mut normalized));
    assert_eq!(normalized.len(), 64);
    assert_eq!(&normalized[40..48], &[0u8; 8]);
    assert_eq!(normalized_executable(&image), normalized);
    let mut plain = b"#!/bin/sh\n".to_vec();
    assert!(!normalize_macho_code_signature(&mut plain));
    assert!(!normalize_pe_authenticode(&mut plain));
    assert_eq!(normalized_executable(b"#!/bin/sh\n"), b"#!/bin/sh\n".to_vec());
}

#[test]
fn little_endian_reads_stay_inside_the_bytes() {
    let bytes = [0x34, 0x12, 0x78, 0x56];
    assert_eq!(read_u16_le(&bytes, 0), Some(0x1234));
    assert_eq!(read_u16_le(&bytes, 3), None);
    assert_eq!(read_u32_le(&bytes, 0), Some(0x5678_1234));
    assert_eq!(read_u32_le(&bytes, usize::MAX), None);
    let mut blob = b"abcdef".to_vec();
    remove_signature_blob(&mut blob, 2, 3);
    assert_eq!(blob, b"abf".to_vec());
    remove_signature_blob(&mut blob, 2, 9);
    assert_eq!(blob, b"abf".to_vec());
}

#[test]
fn broker_files_are_refused_when_empty_or_irregular() {
    let empty = ExecutableFile { is_regular_file: true, length: 0, bytes: Vec::new() };
    assert_eq!(digest_file_hex(&empty).expect_err("empty"), IdentityError::Unacceptable);
    let directory = ExecutableFile { is_regular_file: false, length: 4, bytes: b"MZ..".to_vec() };
    assert_eq!(digest_file_hex(&directory).expect_err("irregular"), IdentityError::Unacceptable);
    let shrunk = ExecutableFile { is_regular_file: true, length: 4, bytes: Vec::new() };
    assert_eq!(digest_file_hex(&shrunk).expect_err("shrunk"), IdentityError::EmptyOrTooLarge);
    let identity = digest_file_hex(&ExecutableFile {
        is_regular_file: true,
        length: 3,
        bytes: b"abc".to_vec(),
    })
    .expect("identity");
    assert_eq!(
        identity,
        "ba7816bf8f01cfea414140de5dae2223b00361a396177a9cb410ff61f20015ad"
    );
}
