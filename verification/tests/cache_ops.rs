//! Whole-cache tests: round trips, set semantics, merge and difference.

use dxvk_cache::cache::{DxvkStateCache, ReadError};
use dxvk_cache::entry::{DxvkStateCacheEntry, DxvkStateCacheEntryHeader, EntryError, EntryWrapper};
use dxvk_cache::error::Error;
use dxvk_cache::header::DxvkStateCacheHeader;
use dxvk_cache::merge::{merge, LegacyMergeConfig};
use dxvk_cache::sep::Separated;

use sha1::{Digest, Sha1};

const SHA1_EMPTY: [u8; 20] = [
    0xda, 0x39, 0xa3, 0xee, 0x5e, 0x6b, 0x4b, 0x0d, 0x32, 0x55, 0xbf, 0xef, 0x95, 0x60, 0x18,
    0x90, 0xaf, 0xd8, 0x07, 0x09,
];

fn sha1_of(data: &[u8]) -> Vec<u8> {
    let mut h = Sha1::new();
    h.update(data);
    h.finalize().to_vec()
}

fn legacy_hash(data: &[u8]) -> Vec<u8> {
    let mut h = Sha1::new();
    h.update(data);
    h.update(SHA1_EMPTY);
    h.finalize().to_vec()
}

fn legacy_entry(data: &[u8]) -> DxvkStateCacheEntry {
    DxvkStateCacheEntry {
        header: None,
        hash: legacy_hash(data),
        data: data.to_vec(),
    }
}

fn standard_entry(stage_mask: u8, data: &[u8]) -> DxvkStateCacheEntry {
    DxvkStateCacheEntry {
        header: Some(DxvkStateCacheEntryHeader {
            stage_mask,
            entry_size: data.len() as u32,
        }),
        hash: sha1_of(data),
        data: data.to_vec(),
    }
}

fn standard_file(entries: Vec<DxvkStateCacheEntry>) -> Vec<u8> {
    let cache = DxvkStateCache {
        header: DxvkStateCacheHeader::new(8, 0),
        entries,
    };
    let mut bytes = Vec::new();
    cache.write_to(&mut bytes).unwrap();
    bytes
}

#[test]
fn legacy_round_trip() {
    let data = vec![0x00, 0x01, 0x02, 0x03];
    let entry = legacy_entry(&data);
    let header = DxvkStateCacheHeader::new(7, 24);
    let cache = DxvkStateCache {
        header,
        entries: vec![entry.clone()],
    };
    let mut bytes = Vec::new();
    cache.write_to(&mut bytes).unwrap();
    assert_eq!(bytes.len(), 12 + 24);
    let back = DxvkStateCache::from_reader(&bytes).unwrap();
    assert_eq!(back.header.version, 7);
    assert_eq!(back.header.entry_size, 24);
    assert_eq!(back.entries.len(), 1);
    assert_eq!(back.entries[0].header, None);
    assert_eq!(back.entries[0].hash, entry.hash);
    assert_eq!(back.entries[0].data, data);
}

#[test]
fn standard_round_trip() {
    let entry = standard_entry(0x05, b"hello");
    assert_eq!(
        entry.hash_display().hex(),
        "aaf4c61ddcc5e8a2dabede0f3b482cd9aea9434d"
    );
    let bytes = standard_file(vec![entry.clone()]);
    let back = DxvkStateCache::from_reader(&bytes).unwrap();
    assert_eq!(back.header.version, 8);
    assert_eq!(back.entries.len(), 1);
    let e = &back.entries[0];
    assert_eq!(e.header, entry.header);
    assert_eq!(e.hash, entry.hash);
    assert_eq!(e.data, b"hello".to_vec());
}

#[test]
fn reencode_reproduces_bytes() {
    let bytes = standard_file(vec![
        standard_entry(1, b"one"),
        standard_entry(2, b"two"),
    ]);
    let back = DxvkStateCache::from_reader(&bytes).unwrap();
    let mut again = Vec::new();
    back.write_to(&mut again).unwrap();
    assert_eq!(bytes, again);
}

#[test]
fn legacy_reencode_reproduces_bytes() {
    let cache = DxvkStateCache {
        header: DxvkStateCacheHeader::new(7, 24),
        entries: vec![legacy_entry(&[1, 2, 3, 4]), legacy_entry(&[5, 6, 7, 8])],
    };
    let mut bytes = Vec::new();
    cache.write_to(&mut bytes).unwrap();
    let back = DxvkStateCache::from_reader(&bytes).unwrap();
    let mut again = Vec::new();
    back.write_to(&mut again).unwrap();
    assert_eq!(bytes, again);
}

#[test]
fn legacy_corrupt_payload_fails_hash_check() {
    let cache = DxvkStateCache {
        header: DxvkStateCacheHeader::new(7, 24),
        entries: vec![legacy_entry(&[1, 2, 3, 4])],
    };
    let mut bytes = Vec::new();
    cache.write_to(&mut bytes).unwrap();
    // flip a payload bit: the Legacy entry starts right after the header
    bytes[12] ^= 0x01;
    match DxvkStateCache::from_reader(&bytes) {
        Err(ReadError::ReadEntry(EntryError::HashMismatch)) => {}
        other => panic!("expected hash-mismatch, got {:?}", other),
    }
}

#[test]
fn empty_cache_is_not_written() {
    let cache = DxvkStateCache {
        header: DxvkStateCacheHeader::new(8, 0),
        entries: Vec::new(),
    };
    let mut out = vec![0xaa];
    match cache.write_to(&mut out) {
        Err(Error::NoEntriesFound) => {}
        other => panic!("expected no-entries-found, got {:?}", other),
    }
    assert_eq!(out, vec![0xaa]);
}

#[test]
fn header_only_file_decodes_to_empty_cache() {
    let mut bytes = Vec::new();
    DxvkStateCacheHeader::new(8, 0).write_to(&mut bytes);
    let cache = DxvkStateCache::from_reader(&bytes).unwrap();
    assert_eq!(cache.header.version, 8);
    assert_eq!(cache.entries.len(), 0);
}

#[test]
fn duplicate_entry_fails_strict_decode() {
    let e = standard_entry(1, b"same");
    let bytes = standard_file(vec![e.clone(), e]);
    match DxvkStateCache::from_reader(&bytes) {
        Err(ReadError::DuplicateEntry) => {}
        other => panic!("expected duplicate-entry, got {:?}", other),
    }
}

#[test]
fn corrupt_hash_fails_strict_decode() {
    let mut bytes = standard_file(vec![standard_entry(1, b"payload")]);
    // flip a bit of the stored hash: it starts 4 bytes into the entry
    bytes[12 + 4] ^= 0x01;
    match DxvkStateCache::from_reader(&bytes) {
        Err(ReadError::ReadEntry(EntryError::HashMismatch)) => {}
        other => panic!("expected hash-mismatch, got {:?}", other),
    }
}

#[test]
fn legacy_empty_payload_is_accepted() {
    let entry = legacy_entry(&[]);
    let cache = DxvkStateCache {
        header: DxvkStateCacheHeader::new(7, 20),
        entries: vec![entry],
    };
    let mut bytes = Vec::new();
    cache.write_to(&mut bytes).unwrap();
    let back = DxvkStateCache::from_reader(&bytes).unwrap();
    assert_eq!(back.entries.len(), 1);
    assert_eq!(back.entries[0].data.len(), 0);
}

#[test]
fn insert_policies_keep_the_cache_duplicate_free() {
    let mut cache = DxvkStateCache {
        header: DxvkStateCacheHeader::new(8, 0),
        entries: Vec::new(),
    };
    let x = standard_entry(1, b"x");
    let y = standard_entry(2, b"y");
    cache.insert_strict(x.clone()).unwrap();
    cache.insert_strict(y.clone()).unwrap();
    match cache.insert_strict(x.clone()) {
        Err(ReadError::DuplicateEntry) => {}
        other => panic!("expected duplicate-entry, got {:?}", other),
    }
    assert_eq!(cache.entries.len(), 2);
    assert!(!cache.insert_silent(y.clone()));
    assert_eq!(cache.entries.len(), 2);
    let z = standard_entry(3, b"z");
    assert!(cache.insert_silent(z));
    assert_eq!(cache.entries.len(), 3);
    assert_eq!(cache.entries[0].hash, x.hash);
    assert_eq!(cache.entries[1].hash, y.hash);
}

#[test]
fn merge_deduplicates_in_first_seen_order() {
    let x = standard_entry(1, b"x");
    let y = standard_entry(2, b"y");
    let z = standard_entry(3, b"z");
    let file_a = standard_file(vec![x.clone(), y.clone()]);
    let file_b = standard_file(vec![y.clone(), z.clone()]);

    let (merged, omitted) = merge(&vec![file_a.clone(), file_b.clone()]).unwrap();
    assert_eq!(omitted, vec![0, 0]);
    let hashes: Vec<Vec<u8>> = merged.entries.iter().map(|e| e.hash.clone()).collect();
    assert_eq!(hashes, vec![x.hash.clone(), y.hash.clone(), z.hash.clone()]);

    let (merged, _) = merge(&vec![file_b, file_a]).unwrap();
    let hashes: Vec<Vec<u8>> = merged.entries.iter().map(|e| e.hash.clone()).collect();
    assert_eq!(hashes, vec![y.hash, z.hash, x.hash]);
}

#[test]
fn merge_rejects_version_mismatch() {
    let legacy = {
        let cache = DxvkStateCache {
            header: DxvkStateCacheHeader::new(7, 24),
            entries: vec![legacy_entry(&[0, 1, 2, 3])],
        };
        let mut bytes = Vec::new();
        cache.write_to(&mut bytes).unwrap();
        bytes
    };
    let standard = standard_file(vec![standard_entry(1, b"s")]);
    match merge(&vec![legacy, standard]) {
        Err(Error::VersionMismatch {
            expected: 7,
            found: 8,
        }) => {}
        other => panic!("expected version mismatch, got {:?}", other),
    }
}

#[test]
fn merge_skips_and_counts_corrupt_entries() {
    let a = standard_entry(1, b"alpha");
    let b = standard_entry(2, b"beta");
    let c = standard_entry(3, b"gamma");
    let mut bytes = standard_file(vec![a.clone(), b.clone(), c.clone()]);
    // flip a bit of the second entry's stored hash: the first entry
    // spans 4 + 20 + 5 bytes after the 12-byte file header
    bytes[12 + 29 + 4] ^= 0x80;

    match DxvkStateCache::from_reader(&bytes) {
        Err(ReadError::ReadEntry(EntryError::HashMismatch)) => {}
        other => panic!("expected hash-mismatch, got {:?}", other),
    }

    let (merged, omitted) = merge(&vec![bytes]).unwrap();
    assert_eq!(omitted, vec![1]);
    assert_eq!(merged.entries.len(), 2);
    assert_eq!(merged.entries[0].hash, a.hash);
    assert_eq!(merged.entries[1].hash, c.hash);
}

#[test]
fn merge_of_no_entries_fails() {
    match merge(&Vec::new()) {
        Err(Error::NoEntriesFound) => {}
        other => panic!("expected no-entries-found, got {:?}", other),
    }
    let mut header_only = Vec::new();
    DxvkStateCacheHeader::new(8, 0).write_to(&mut header_only);
    match merge(&vec![header_only]) {
        Err(Error::NoEntriesFound) => {}
        other => panic!("expected no-entries-found, got {:?}", other),
    }
}

#[test]
fn difference_keeps_first_cache_order() {
    let x = standard_entry(1, b"x");
    let y = standard_entry(2, b"y");
    let z = standard_entry(3, b"z");
    let a = DxvkStateCache::from_reader(&standard_file(vec![x.clone(), y.clone(), z.clone()]))
        .unwrap();
    let b = DxvkStateCache::from_reader(&standard_file(vec![y])).unwrap();
    let d = a.difference(&b);
    assert_eq!(d.header.version, 8);
    assert_eq!(d.entries.len(), 2);
    assert_eq!(d.entries[0].hash, x.hash);
    assert_eq!(d.entries[1].hash, z.hash);
}

#[test]
fn trailing_garbage_fails_strict_decode() {
    let mut bytes = standard_file(vec![standard_entry(1, b"whole")]);
    bytes.extend_from_slice(&[1, 2, 3]);
    match DxvkStateCache::from_reader(&bytes) {
        Err(ReadError::ReadEntry(EntryError::UnexpectedEof)) => {}
        other => panic!("expected unexpected eof, got {:?}", other),
    }
}

#[test]
fn legacy_undersized_entry_size_rejects_trailing_bytes() {
    // a Legacy header whose entry size cannot even hold a hash: fine
    // while the file holds no entries, a whole entry can never fit
    let mut bytes = Vec::new();
    DxvkStateCacheHeader::new(7, 5).write_to(&mut bytes);
    let cache = DxvkStateCache::from_reader(&bytes).unwrap();
    assert_eq!(cache.entries.len(), 0);
    bytes.extend_from_slice(&[1, 2, 3, 4, 5]);
    match DxvkStateCache::from_reader(&bytes) {
        Err(ReadError::ReadEntry(EntryError::UnexpectedEof)) => {}
        other => panic!("expected unexpected eof, got {:?}", other),
    }
}

#[test]
fn merge_omits_legacy_entries_of_another_entry_size() {
    let small = {
        let cache = DxvkStateCache {
            header: DxvkStateCacheHeader::new(7, 24),
            entries: vec![legacy_entry(&[1, 2, 3, 4])],
        };
        let mut bytes = Vec::new();
        cache.write_to(&mut bytes).unwrap();
        bytes
    };
    let large = {
        let cache = DxvkStateCache {
            header: DxvkStateCacheHeader::new(7, 28),
            entries: vec![legacy_entry(&[5, 6, 7, 8, 9, 10, 11, 12])],
        };
        let mut bytes = Vec::new();
        cache.write_to(&mut bytes).unwrap();
        bytes
    };
    // the first file fixes the output's entry size; the second file's
    // entries cannot take it and are omitted as invalid
    let (merged, omitted) = merge(&vec![small, large]).unwrap();
    assert_eq!(merged.header.entry_size, 24);
    assert_eq!(merged.entries.len(), 1);
    assert_eq!(omitted, vec![0, 1]);
}

#[test]
fn edition_defaults_to_standard() {
    assert_eq!(
        dxvk_cache::header::DxvkStateCacheEdition::default(),
        dxvk_cache::header::DxvkStateCacheEdition::Standard
    );
}

#[test]
fn check_header_sets_then_compares_versions() {
    let mut cfg = LegacyMergeConfig {
        files: vec!["a.dxvk-cache".to_string(), "b.dxvk-cache".to_string()],
        output: "out.dxvk-cache".to_string(),
        header_info: None,
    };
    assert_eq!(cfg.files().len(), 2);
    let h7 = DxvkStateCacheHeader::new(7, 24);
    let h7b = DxvkStateCacheHeader::new(7, 24);
    let h8 = DxvkStateCacheHeader::new(8, 0);
    cfg.check_header(&h7).unwrap();
    cfg.check_header(&h7b).unwrap();
    match cfg.check_header(&h8) {
        Err(Error::VersionMismatch {
            expected: 7,
            found: 8,
        }) => {}
        other => panic!("expected version mismatch, got {:?}", other),
    }
}

#[test]
fn entry_wrapper_compares_by_hash() {
    let a = EntryWrapper::from(standard_entry(1, b"same"));
    let b = EntryWrapper::from(standard_entry(7, b"same"));
    let c = EntryWrapper::from(standard_entry(1, b"other"));
    assert!(a == b);
    assert!(a != c);
    let unwrapped = a.unwrap();
    assert_eq!(unwrapped.data, b"same".to_vec());
}

#[test]
fn separated_joins_values() {
    let s = Separated::new(
        Some(" ".to_string()),
        vec!["a".to_string(), "b".to_string(), "c".to_string()],
    );
    assert_eq!(s.render(), "a b c");
    let none = Separated::new(None, vec!["x".to_string(), "y".to_string()]);
    assert_eq!(none.render(), "xy");
    let empty = Separated::new(Some(",".to_string()), Vec::new());
    assert_eq!(empty.render(), "");
    assert_eq!(s.values().len(), 3);
}
