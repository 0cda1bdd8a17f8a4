//! Byte-level tests of the header, entry-header and hash rendering.

use dxvk_cache::cache::{DxvkStateCache, ReadError};
use dxvk_cache::digest::HASH_SIZE;
use dxvk_cache::entry::{DxvkStateCacheEntry, DxvkStateCacheEntryHeader};
use dxvk_cache::header::{DxvkStateCacheEdition, DxvkStateCacheHeader, HeaderError};

use sha1::{Digest, Sha1};

fn sha1_of(data: &[u8]) -> Vec<u8> {
    let mut h = Sha1::new();
    h.update(data);
    h.finalize().to_vec()
}

#[test]
fn header_encodes_little_endian() {
    let h = DxvkStateCacheHeader::new(0x0102_0304, 0x0a0b_0c0d);
    let mut out = Vec::new();
    h.write_to(&mut out);
    assert_eq!(
        out,
        vec![
            b'D', b'X', b'V', b'K', 0x04, 0x03, 0x02, 0x01, 0x0d, 0x0c, 0x0b, 0x0a
        ]
    );
}

#[test]
fn header_round_trips() {
    let h = DxvkStateCacheHeader::new(8, 1337);
    let mut out = Vec::new();
    h.write_to(&mut out);
    let (h2, pos) = DxvkStateCacheHeader::from_reader(&out, 0).unwrap();
    assert_eq!(pos, 12);
    assert_eq!(h2.version, 8);
    assert_eq!(h2.entry_size, 1337);
}

#[test]
fn header_rejects_bad_magic() {
    let bytes = vec![b'D', b'X', b'V', b'_', 8, 0, 0, 0, 0, 0, 0, 0];
    match DxvkStateCacheHeader::from_reader(&bytes, 0) {
        Err(HeaderError::MagicStringMismatch) => {}
        other => panic!("expected magic mismatch, got {:?}", other),
    }
}

#[test]
fn header_rejects_zero_version() {
    let bytes = vec![b'D', b'X', b'V', b'K', 0, 0, 0, 0, 0, 0, 0, 0];
    match DxvkStateCacheHeader::from_reader(&bytes, 0) {
        Err(HeaderError::InvalidVersion) => {}
        other => panic!("expected invalid version, got {:?}", other),
    }
}

#[test]
fn header_rejects_truncation() {
    let bytes = vec![b'D', b'X', b'V', b'K', 8, 0];
    match DxvkStateCacheHeader::from_reader(&bytes, 0) {
        Err(HeaderError::UnexpectedEof) => {}
        other => panic!("expected unexpected eof, got {:?}", other),
    }
}

#[test]
fn edition_boundary() {
    assert_eq!(
        DxvkStateCacheHeader::new(7, 24).edition(),
        DxvkStateCacheEdition::Legacy
    );
    assert_eq!(
        DxvkStateCacheHeader::new(8, 0).edition(),
        DxvkStateCacheEdition::Standard
    );
    assert_eq!(
        DxvkStateCacheHeader::new(1, 24).edition(),
        DxvkStateCacheEdition::Legacy
    );
}

#[test]
fn entry_header_encodes_stage_mask_and_u24() {
    let eh = DxvkStateCacheEntryHeader {
        stage_mask: 0x05,
        entry_size: 0x0102_03,
    };
    let mut out = Vec::new();
    eh.write_to(&mut out);
    assert_eq!(out, vec![0x05, 0x03, 0x02, 0x01]);
}

#[test]
fn hash_display_renders_lowercase_hex() {
    let data: Vec<u8> = Vec::new();
    let hash = sha1_of(&data);
    let entry = DxvkStateCacheEntry {
        header: Some(DxvkStateCacheEntryHeader {
            stage_mask: 0,
            entry_size: 0,
        }),
        hash,
        data,
    };
    assert_eq!(
        entry.hash_display().hex(),
        "da39a3ee5e6b4b0d3255bfef95601890afd80709"
    );
}

#[test]
fn standard_entry_with_empty_payload_is_valid() {
    let data: Vec<u8> = Vec::new();
    let entry = DxvkStateCacheEntry {
        header: Some(DxvkStateCacheEntryHeader {
            stage_mask: 0,
            entry_size: 0,
        }),
        hash: sha1_of(&data),
        data,
    };
    assert!(entry.is_valid());
}

#[test]
fn entry_validity_follows_hash() {
    let data = b"hello".to_vec();
    let mut entry = DxvkStateCacheEntry {
        header: Some(DxvkStateCacheEntryHeader {
            stage_mask: 1,
            entry_size: 5,
        }),
        hash: sha1_of(&data),
        data,
    };
    assert!(entry.is_valid());
    entry.hash[0] ^= 0xff;
    assert!(!entry.is_valid());
}

#[test]
fn stage_mask_extremes_round_trip() {
    for mask in [0x00u8, 0xff] {
        let data = vec![9, 9, 9];
        let entry = DxvkStateCacheEntry {
            header: Some(DxvkStateCacheEntryHeader {
                stage_mask: mask,
                entry_size: 3,
            }),
            hash: sha1_of(&data),
            data,
        };
        let header = DxvkStateCacheHeader::new(8, 0);
        let cache = DxvkStateCache {
            header,
            entries: vec![entry],
        };
        let mut bytes = Vec::new();
        cache.write_to(&mut bytes).unwrap();
        let back = DxvkStateCache::from_reader(&bytes).unwrap();
        assert_eq!(back.entries.len(), 1);
        assert_eq!(back.entries[0].header.unwrap().stage_mask, mask);
    }
}

#[test]
fn truncated_entry_is_unexpected_eof() {
    let data = b"abcd".to_vec();
    let entry = DxvkStateCacheEntry {
        header: Some(DxvkStateCacheEntryHeader {
            stage_mask: 1,
            entry_size: 4,
        }),
        hash: sha1_of(&data),
        data,
    };
    let cache = DxvkStateCache {
        header: DxvkStateCacheHeader::new(8, 0),
        entries: vec![entry],
    };
    let mut bytes = Vec::new();
    cache.write_to(&mut bytes).unwrap();
    bytes.pop();
    match DxvkStateCache::from_reader(&bytes) {
        Err(ReadError::ReadEntry(dxvk_cache::entry::EntryError::UnexpectedEof)) => {}
        other => panic!("expected unexpected eof, got {:?}", other),
    }
    assert_eq!(HASH_SIZE, 20);
}
