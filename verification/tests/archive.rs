use spec_elf::archive::format::{
    ensure_available, is_archive, pack_files, read_back, read_manifest, ArchiveError, Entry,
    ErrorClass, PayloadInput,
};
use spec_elf::archive::select::{label_matches, payload_label, select_optimal, X86Level};

fn payload(name: &str, data: &[u8]) -> PayloadInput {
    PayloadInput {
        name: Some(name.to_string()),
        data: data.to_vec(),
    }
}

fn five_payloads() -> Vec<PayloadInput> {
    vec![
        payload("c-native", b"native payload"),
        payload("c-x86-64", b"x86-64 payload"),
        payload("c-x86-64-v2", b"x86-64-v2 payload"),
        payload("c-x86-64-v3", b"x86-64-v3 payload"),
        payload("c-x86-64-v4", b"x86-64-v4 payload"),
    ]
}

fn manifest_offset(archive: &[u8]) -> usize {
    let at = archive.len() - 25;
    u64::from_le_bytes(archive[at..at + 8].try_into().unwrap()) as usize
}

#[test]
fn normal_file_is_not_archive() {
    assert!(!is_archive(b"hello"));
}

#[test]
fn packed_file_is_archive() {
    let packed = pack_files(b"fake launcher", &five_payloads(), Some(7)).unwrap();
    assert!(is_archive(&packed));
}

#[test]
fn packed_file_reads_best_payload() {
    let native_hash = 0x1234_5678_9abc_def0u64;
    let packed = pack_files(b"fake launcher", &five_payloads(), Some(native_hash)).unwrap();
    let actual = read_back(&packed, X86Level::V3, Some(native_hash)).unwrap();
    assert_eq!(actual, b"native payload");
}

#[test]
fn selection_falls_back_to_a_lower_level() {
    let entries = vec![
        Entry {
            name: "c-x86-64".to_string(),
            offset: 10,
            compressed_size: 1,
            decompressed_size: 11,
        },
        Entry {
            name: "c-x86-64-v2".to_string(),
            offset: 20,
            compressed_size: 2,
            decompressed_size: 22,
        },
    ];

    let selected = select_optimal(&entries, &[0; 8], X86Level::V4, None).unwrap();
    assert_eq!(
        (selected.offset, selected.compressed_size, selected.decompressed_size),
        (20, 2, 22)
    );
}

#[test]
fn selection_accepts_windows_executable_names() {
    let entries = vec![Entry {
        name: "rust-x86_64_v3.exe".to_string(),
        offset: 42,
        compressed_size: 7,
        decompressed_size: 70,
    }];

    let selected = select_optimal(&entries, &[0; 8], X86Level::V3, None).unwrap();
    assert_eq!((selected.offset, selected.compressed_size), (42, 7));
}

#[test]
fn payloads_are_zstd_compressed() {
    let payload_bytes = vec![b'A'; 64 * 1024];
    let packed = pack_files(b"launcher", &[payload("c-x86-64", &payload_bytes)], None).unwrap();

    assert!((packed.len() as u64) < payload_bytes.len() as u64);
    assert_eq!(read_back(&packed, X86Level::V4, None).unwrap(), payload_bytes);
}

#[test]
fn corrupted_zstd_payload_is_rejected() {
    let mut packed =
        pack_files(b"launcher", &[payload("c-x86-64", &vec![b'A'; 64 * 1024])], None).unwrap();
    let offset = manifest_offset(&packed);
    packed[offset - 1] ^= 0xff;

    assert_eq!(
        read_back(&packed, X86Level::V4, None).unwrap_err().kind(),
        ErrorClass::InvalidData
    );
}

#[test]
fn malformed_manifest_range_is_rejected() {
    let mut packed = pack_files(b"fake launcher", &[payload("c-x86-64", b"payload")], None).unwrap();
    let at = packed.len() - 17;
    packed[at..at + 8].copy_from_slice(&u64::MAX.to_le_bytes());

    assert_eq!(
        read_back(&packed, X86Level::V4, None).unwrap_err().kind(),
        ErrorClass::InvalidData
    );
}

#[test]
fn read_back_of_packed_follows_the_host_level() {
    let packed = pack_files(b"fake launcher", &five_payloads(), Some(1)).unwrap();
    let cases: [(X86Level, &[u8]); 4] = [
        (X86Level::X86_64, b"x86-64 payload"),
        (X86Level::V2, b"x86-64-v2 payload"),
        (X86Level::V3, b"x86-64-v3 payload"),
        (X86Level::V4, b"x86-64-v4 payload"),
    ];
    for (level, expected) in cases {
        assert_eq!(read_back(&packed, level, Some(2)).unwrap(), expected);
        assert_eq!(read_back(&packed, level, None).unwrap(), expected);
    }
}

#[test]
fn native_identity_is_compared_as_stored() {
    let packed = pack_files(b"fake launcher", &five_payloads(), None).unwrap();
    assert_eq!(read_back(&packed, X86Level::V2, Some(0)).unwrap(), b"native payload");
    assert_eq!(read_back(&packed, X86Level::V2, Some(5)).unwrap(), b"x86-64-v2 payload");
}

#[test]
fn missing_level_is_not_found() {
    let packed = pack_files(b"l", &[payload("c-x86-64-v4", b"v4 only")], None).unwrap();
    let err = read_back(&packed, X86Level::V3, None).unwrap_err();
    assert_eq!(err, ArchiveError::NoCompatibleBinary);
    assert_eq!(err.kind(), ErrorClass::NotFound);
}

#[test]
fn packed_layout_is_launcher_payloads_manifest_footer() {
    let packed = pack_files(b"LAUNCH", &[payload("c-x86-64", b"data")], Some(9)).unwrap();
    assert_eq!(&packed[..6], b"LAUNCH");
    let footer = packed.len() - 33;
    assert_eq!(&packed[footer..footer + 8], b"VPKFOOT\0");
    assert_eq!(packed[packed.len() - 1], 1);
    assert_eq!(&packed[footer + 24..footer + 32], &9u64.to_le_bytes());
    let offset = manifest_offset(&packed);
    let size = u64::from_le_bytes(packed[footer + 16..footer + 24].try_into().unwrap()) as usize;
    assert_eq!(offset + size, footer);
    assert_eq!(&packed[offset..offset + 4], &1u32.to_le_bytes());
    let (entries, hash) = read_manifest(&packed).unwrap();
    assert_eq!(hash, &9u64.to_le_bytes());
    assert_eq!(entries.len(), 1);
    assert_eq!(entries[0].name, "c-x86-64");
    assert_eq!(entries[0].offset, 6);
    assert_eq!(size, 4 + 4 + "c-x86-64".len() + 8 + 8);
    assert_eq!(&packed[offset + 4..offset + 8], &8u32.to_le_bytes());
    assert_eq!(&packed[offset + 8..offset + 16], b"c-x86-64");
    assert_eq!(&packed[offset + 16..offset + 24], &6u64.to_le_bytes());
    assert_eq!(&packed[offset + 24..offset + 32], &entries[0].size.to_le_bytes());
    assert_eq!(offset, 6 + entries[0].size as usize);
    let frame = &packed[6..6 + entries[0].size as usize];
    assert_ne!(frame, b"data");
    assert_eq!(&frame[..4], &[0x28, 0xb5, 0x2f, 0xfd]);
}

#[test]
fn packing_refuses_bad_payloads() {
    let unnamed = PayloadInput {
        name: None,
        data: b"x".to_vec(),
    };
    assert_eq!(pack_files(b"l", &[unnamed], None).unwrap_err(), ArchiveError::NoFileName);
    let long_name = "a".repeat(4097);
    let err = pack_files(b"l", &[payload(&long_name, b"x")], None).unwrap_err();
    assert_eq!(err, ArchiveError::NameTooLong);
    assert_eq!(err.kind(), ErrorClass::InvalidInput);
    assert!(pack_files(b"l", &[payload(&"a".repeat(4096), b"x")], None).is_ok());
}

#[test]
fn reader_rejects_malformed_footers() {
    let packed = pack_files(b"fake launcher", &[payload("c-x86-64", b"payload")], None).unwrap();
    assert_eq!(read_back(&packed[..32], X86Level::V4, None).unwrap_err(), ArchiveError::FileTooSmall);

    let mut bad_magic = packed.clone();
    let footer = bad_magic.len() - 33;
    bad_magic[footer] = b'X';
    assert_eq!(read_back(&bad_magic, X86Level::V4, None).unwrap_err(), ArchiveError::InvalidMagic);
    assert!(!is_archive(&bad_magic));

    let mut bad_flag = packed.clone();
    let last = bad_flag.len() - 1;
    bad_flag[last] = 0;
    assert_eq!(read_back(&bad_flag, X86Level::V4, None).unwrap_err(), ArchiveError::InvalidLaunchFlag);
    assert!(!is_archive(&bad_flag));

    let mut overflow = packed.clone();
    overflow[footer + 16..footer + 24].copy_from_slice(&u64::MAX.to_le_bytes());
    assert_eq!(
        read_back(&overflow, X86Level::V4, None).unwrap_err(),
        ArchiveError::ManifestRangeOverflow
    );

    let mut shifted = packed.clone();
    let offset = manifest_offset(&shifted) as u64;
    shifted[footer + 8..footer + 16].copy_from_slice(&(offset - 1).to_le_bytes());
    assert_eq!(
        read_back(&shifted, X86Level::V4, None).unwrap_err(),
        ArchiveError::InvalidManifestRange
    );
}

#[test]
fn reader_rejects_malformed_manifests() {
    let packed = pack_files(b"fake launcher", &[payload("c-x86-64", b"payload")], None).unwrap();
    let offset = manifest_offset(&packed);

    let mut count = packed.clone();
    count[offset..offset + 4].copy_from_slice(&2u32.to_le_bytes());
    assert_eq!(read_back(&count, X86Level::V4, None).unwrap_err(), ArchiveError::InvalidEntryCount);

    let mut zero = packed.clone();
    zero[offset..offset + 4].copy_from_slice(&0u32.to_le_bytes());
    assert_eq!(
        read_back(&zero, X86Level::V4, None).unwrap_err(),
        ArchiveError::TrailingManifestData
    );

    let mut long_name = packed.clone();
    long_name[offset + 4..offset + 8].copy_from_slice(&4097u32.to_le_bytes());
    assert_eq!(
        read_back(&long_name, X86Level::V4, None).unwrap_err(),
        ArchiveError::StoredNameTooLong
    );

    let mut past_end = packed.clone();
    past_end[offset + 4..offset + 8].copy_from_slice(&9u32.to_le_bytes());
    assert_eq!(
        read_back(&past_end, X86Level::V4, None).unwrap_err(),
        ArchiveError::EntryOutOfBounds
    );

    let mut bad_utf8 = packed.clone();
    bad_utf8[offset + 8] = 0xff;
    assert_eq!(read_back(&bad_utf8, X86Level::V4, None).unwrap_err(), ArchiveError::InvalidName);

    let name_end = offset + 8 + "c-x86-64".len();
    let mut overlap = packed.clone();
    overlap[name_end..name_end + 8].copy_from_slice(&(offset as u64).to_le_bytes());
    assert_eq!(
        read_back(&overlap, X86Level::V4, None).unwrap_err(),
        ArchiveError::PayloadOverlapsManifest
    );

    let mut wrap = packed.clone();
    wrap[name_end..name_end + 8].copy_from_slice(&u64::MAX.to_le_bytes());
    assert_eq!(
        read_back(&wrap, X86Level::V4, None).unwrap_err(),
        ArchiveError::PayloadRangeOverflow
    );

    let mut truncated = packed.clone();
    truncated[name_end + 8..name_end + 16].copy_from_slice(&3u64.to_le_bytes());
    assert_eq!(
        read_back(&truncated, X86Level::V4, None).unwrap_err(),
        ArchiveError::PayloadDecodeFailed
    );

    let mut empty = packed.clone();
    empty[name_end + 8..name_end + 16].copy_from_slice(&0u64.to_le_bytes());
    assert_eq!(
        read_back(&empty, X86Level::V4, None).unwrap_err(),
        ArchiveError::PayloadDecodeFailed
    );
}

/// A zstd frame of run-length blocks of zeros: 8193 blocks of 128 KiB, one block more
/// than 1 GiB.
fn oversized_frame() -> Vec<u8> {
    let mut frame = vec![0x28, 0xb5, 0x2f, 0xfd, 0x00, 0x38];
    let blocks = 8193;
    for k in 0..blocks {
        let last = if k + 1 == blocks { 1u32 } else { 0 };
        let header = (131072u32 << 3) | (1 << 1) | last;
        frame.extend_from_slice(&header.to_le_bytes()[..3]);
        frame.push(0);
    }
    frame
}

#[test]
fn payload_over_one_gib_is_rejected_when_read() {
    let frame = oversized_frame();
    let mut archive = b"launcher".to_vec();
    let offset = archive.len() as u64;
    archive.extend_from_slice(&frame);
    let manifest_offset = archive.len() as u64;
    archive.extend_from_slice(&1u32.to_le_bytes());
    archive.extend_from_slice(&8u32.to_le_bytes());
    archive.extend_from_slice(b"c-x86-64");
    archive.extend_from_slice(&offset.to_le_bytes());
    archive.extend_from_slice(&(frame.len() as u64).to_le_bytes());
    let manifest_size = archive.len() as u64 - manifest_offset;
    archive.extend_from_slice(b"VPKFOOT\0");
    archive.extend_from_slice(&manifest_offset.to_le_bytes());
    archive.extend_from_slice(&manifest_size.to_le_bytes());
    archive.extend_from_slice(&0u64.to_le_bytes());
    archive.push(1);
    let err = read_back(&archive, X86Level::V4, None).unwrap_err();
    assert_eq!(err, ArchiveError::DecompressedTooLarge);
    assert_eq!(err.kind(), ErrorClass::InvalidData);
}

#[test]
fn labels_ignore_a_final_exe_extension() {
    assert_eq!(payload_label(b"rust-x86_64_v3.exe"), b"rust-x86_64_v3");
    assert_eq!(payload_label(b"rust-x86_64_v3.EXE"), b"rust-x86_64_v3");
    assert_eq!(payload_label(b"c-x86-64.tar"), b"c-x86-64.tar");
    assert_eq!(payload_label(b".exe"), b"");
    assert_eq!(payload_label(b"exe"), b"exe");
}

#[test]
fn labels_match_separated_suffixes() {
    assert!(label_matches(b"x86-64", b"x86-64"));
    assert!(label_matches(b"c-x86-64", b"x86-64"));
    assert!(label_matches(b"c_x86-64", b"x86-64"));
    assert!(!label_matches(b"cx86-64", b"x86-64"));
    assert!(!label_matches(b"c-x86-64-v2", b"x86-64"));
    assert!(!label_matches(b"-x86-64", b"c-x86-64"));
}

#[test]
fn manifest_reads_stay_inside_the_manifest() {
    assert!(ensure_available(10, 20, 10).is_ok());
    assert_eq!(ensure_available(10, 20, 11), Err(ArchiveError::EntryOutOfBounds));
    assert_eq!(ensure_available(usize::MAX, 20, 2), Err(ArchiveError::EntryOutOfBounds));
}

#[test]
fn packing_refuses_payloads_over_one_gib() {
    let big = PayloadInput {
        name: Some("c-x86-64".to_string()),
        data: vec![0u8; (1 << 30) + 1],
    };
    let err = pack_files(b"l", &[big], None).unwrap_err();
    assert_eq!(err, ArchiveError::PayloadTooLarge);
    assert_eq!(err.kind(), ErrorClass::InvalidInput);
}
