//! The 12-byte file header and its codec.
//!
//! Wire layout: 4 magic bytes spelling the format tag, then the version
//! and the per-entry payload size, each a little-endian 32-bit integer.
//! The version determines the edition of every entry in the file.

use vstd::prelude::*;

use crate::bytes::{
    lemma_u32_le_bytes_of, lemma_u32_le_round_trip, read_u32_le, u32_le_bytes, u32_le_of,
    write_u32_le,
};

verus! {

/// Highest version that still uses the Legacy entry layout.
pub const LEGACY_VERSION: u32 = 7;

/// The four magic bytes that open every cache file (ASCII `D X V K`).
pub open spec fn magic_bytes() -> Seq<u8> {
    seq![0x44, 0x58, 0x56, 0x4b]
}

/// The layout family of a cache file: Legacy for versions up to
/// [`LEGACY_VERSION`], Standard above it.
#[derive(Clone, Copy, Debug, PartialEq, Eq, Structural)]
pub enum DxvkStateCacheEdition {
    Standard,
    Legacy,
}

impl Default for DxvkStateCacheEdition {
    /// The Standard edition, used by all current cache versions.
    fn default() -> (r: Self)
        ensures
            r == DxvkStateCacheEdition::Standard,
    {
        DxvkStateCacheEdition::Standard
    }
}

/// The file header: a non-zero format version and the per-entry byte
/// size, which sizes payloads only in the Legacy edition. The magic is
/// not stored; every header stands for a file that opens with it.
#[derive(Clone, Copy, Debug, PartialEq, Eq, Structural)]
pub struct DxvkStateCacheHeader {
    pub version: u32,
    pub entry_size: u32,
}

/// What can go wrong while decoding a file header.
#[derive(Clone, Copy, Debug, PartialEq, Eq, Structural)]
pub enum HeaderError {
    /// The input ended before the 12 header bytes were read.
    UnexpectedEof,
    /// The first four bytes are not the magic tag.
    MagicStringMismatch,
    /// The header carries the invalid version zero.
    InvalidVersion,
}

/// The exact 12 bytes that encode `h`.
pub open spec fn spec_header_bytes(h: DxvkStateCacheHeader) -> Seq<u8> {
    magic_bytes() + u32_le_bytes(h.version) + u32_le_bytes(h.entry_size)
}

/// Decoding a header from the start of `b`: the magic is checked first,
/// then the version must be non-zero; running out of bytes at any point
/// is an unexpected end of input. On success exactly 12 bytes are read.
pub open spec fn spec_read_header(b: Seq<u8>) -> Result<DxvkStateCacheHeader, HeaderError> {
    if b.len() < 4 {
        Err(HeaderError::UnexpectedEof)
    } else if b.subrange(0, 4) != magic_bytes() {
        Err(HeaderError::MagicStringMismatch)
    } else if b.len() < 8 {
        Err(HeaderError::UnexpectedEof)
    } else if u32_le_of(b.subrange(4, 8)) == 0 {
        Err(HeaderError::InvalidVersion)
    } else if b.len() < 12 {
        Err(HeaderError::UnexpectedEof)
    } else {
        Ok(
            DxvkStateCacheHeader {
                version: u32_le_of(b.subrange(4, 8)),
                entry_size: u32_le_of(b.subrange(8, 12)),
            },
        )
    }
}

impl DxvkStateCacheHeader {
    /// A header is well formed when its version is non-zero.
    pub open spec fn wf(&self) -> bool {
        self.version != 0
    }

    /// The edition that `version` selects.
    pub open spec fn spec_edition(&self) -> DxvkStateCacheEdition {
        if self.version > LEGACY_VERSION {
            DxvkStateCacheEdition::Standard
        } else {
            DxvkStateCacheEdition::Legacy
        }
    }

    /// Builds a header for a new cache of the given version.
    pub fn new(version: u32, entry_size: u32) -> (r: Self)
        requires
            version != 0,
        ensures
            r == (DxvkStateCacheHeader { version, entry_size }),
            r.wf(),
    {
        DxvkStateCacheHeader { version, entry_size }
    }

    /// The edition of every entry in a file with this header.
    pub fn edition(&self) -> (r: DxvkStateCacheEdition)
        ensures
            r == self.spec_edition(),
    {
        if self.version > LEGACY_VERSION {
            DxvkStateCacheEdition::Standard
        } else {
            DxvkStateCacheEdition::Legacy
        }
    }

    /// Appends the 12 header bytes to `out`.
    pub fn write_to(&self, out: &mut Vec<u8>)
        ensures
            final(out)@ == old(out)@ + spec_header_bytes(*self),
    {
        out.push(0x44);
        out.push(0x58);
        out.push(0x56);
        out.push(0x4b);
        write_u32_le(out, self.version);
        write_u32_le(out, self.entry_size);
        proof {
            assert(out@ =~= old(out)@ + spec_header_bytes(*self));
        }
    }

    /// Decodes a header from `bytes` starting at `pos`; on success the
    /// returned position sits just past the 12 header bytes.
    pub fn from_reader(bytes: &Vec<u8>, pos: usize) -> (r: Result<
        (DxvkStateCacheHeader, usize),
        HeaderError,
    >)
        requires
            pos <= bytes@.len(),
        ensures
            match r {
                Ok((h, n)) => spec_read_header(bytes@.skip(pos as int)) == Ok::<
                    DxvkStateCacheHeader,
                    HeaderError,
                >(h) && n == pos + 12 && h.wf(),
                Err(e) => spec_read_header(bytes@.skip(pos as int)) == Err::<
                    DxvkStateCacheHeader,
                    HeaderError,
                >(e),
            },
    {
        let ghost b = bytes@.skip(pos as int);
        if bytes.len() - pos < 4 {
            return Err(HeaderError::UnexpectedEof);
        }
        let magic_ok = bytes[pos] == 0x44 && bytes[pos + 1] == 0x58 && bytes[pos + 2] == 0x56
            && bytes[pos + 3] == 0x4b;
        proof {
            assert(b[0] == bytes@[pos as int]);
            assert(b[1] == bytes@[pos as int + 1]);
            assert(b[2] == bytes@[pos as int + 2]);
            assert(b[3] == bytes@[pos as int + 3]);
            if magic_ok {
                assert(b.subrange(0, 4) =~= magic_bytes());
            } else {
                assert(b.subrange(0, 4)[0] == b[0] && b.subrange(0, 4)[1] == b[1] && b.subrange(
                    0,
                    4,
                )[2] == b[2] && b.subrange(0, 4)[3] == b[3]);
                assert(b.subrange(0, 4) != magic_bytes());
            }
        }
        if !magic_ok {
            return Err(HeaderError::MagicStringMismatch);
        }
        if bytes.len() - pos < 8 {
            return Err(HeaderError::UnexpectedEof);
        }
        let version = read_u32_le(bytes, pos + 4);
        proof {
            assert(bytes@.subrange(pos as int + 4, pos as int + 8) =~= b.subrange(4, 8));
        }
        if version == 0 {
            return Err(HeaderError::InvalidVersion);
        }
        if bytes.len() - pos < 12 {
            return Err(HeaderError::UnexpectedEof);
        }
        let entry_size = read_u32_le(bytes, pos + 8);
        proof {
            assert(bytes@.subrange(pos as int + 8, pos as int + 12) =~= b.subrange(8, 12));
        }
        Ok((DxvkStateCacheHeader { version, entry_size }, pos + 12))
    }
}

/// A header's 12 encoded bytes decode back to the header, whatever
/// follows them.
pub proof fn lemma_read_header_of_encoded(h: DxvkStateCacheHeader, tail: Seq<u8>)
    requires
        h.wf(),
    ensures
        spec_header_bytes(h).len() == 12,
        spec_read_header(spec_header_bytes(h) + tail) == Ok::<DxvkStateCacheHeader, HeaderError>(h),
{
    lemma_u32_le_round_trip(h.version);
    lemma_u32_le_round_trip(h.entry_size);
    let b = spec_header_bytes(h) + tail;
    assert(b.subrange(0, 4) =~= magic_bytes());
    assert(b.subrange(4, 8) =~= u32_le_bytes(h.version));
    assert(b.subrange(8, 12) =~= u32_le_bytes(h.entry_size));
}

/// A successfully decoded header re-encodes to the 12 bytes it was read
/// from, and those bytes were present.
pub proof fn lemma_read_header_exact(b: Seq<u8>)
    requires
        spec_read_header(b) is Ok,
    ensures
        b.len() >= 12,
        spec_header_bytes(spec_read_header(b)->Ok_0) == b.subrange(0, 12),
        spec_read_header(b)->Ok_0.wf(),
{
    let h = spec_read_header(b)->Ok_0;
    lemma_u32_le_bytes_of(b.subrange(4, 8));
    lemma_u32_le_bytes_of(b.subrange(8, 12));
    assert(spec_header_bytes(h) =~= b.subrange(0, 12));
}

} // verus!
