//! Cache entries and their codec in both editions.
//!
//! A Legacy entry is a fixed-size payload followed by its 20-byte hash;
//! the payload size comes from the file header. A Standard entry opens
//! with a 4-byte entry header (stage mask, then a 24-bit payload size),
//! followed by the hash and the payload. An entry is valid when its hash
//! equals the SHA-1 of its payload — with the empty-string digest
//! appended to the payload first in the Legacy edition.

use vstd::prelude::*;

use crate::bytes::{
    bytes_eq, copy_bytes, lemma_u24_le_bytes_of, lemma_u24_le_round_trip, read_u24_le,
    u24_le_bytes, u24_le_of, write_u24_le,
};
use crate::digest::{sha1_digest, sha1_empty, sha1_empty_bytes, sha1_of, HashDisplay, HASH_SIZE};
use crate::header::{DxvkStateCacheEdition, DxvkStateCacheHeader};

verus! {

/// The 4-byte per-entry header of the Standard edition: an opaque stage
/// bitfield and the payload length, which must fit in 24 bits.
#[derive(Clone, Copy, Debug, PartialEq, Eq, Structural)]
pub struct DxvkStateCacheEntryHeader {
    pub stage_mask: u8,
    pub entry_size: u32,
}

/// The exact 4 bytes that encode `h`.
pub open spec fn spec_entry_header_bytes(h: DxvkStateCacheEntryHeader) -> Seq<u8> {
    seq![h.stage_mask] + u24_le_bytes(h.entry_size)
}

impl DxvkStateCacheEntryHeader {
    /// Appends the stage mask and the 24-bit payload size to `out`.
    pub fn write_to(&self, out: &mut Vec<u8>)
        requires
            self.entry_size < 0x100_0000,
        ensures
            final(out)@ == old(out)@ + spec_entry_header_bytes(*self),
    {
        out.push(self.stage_mask);
        write_u24_le(out, self.entry_size);
        proof {
            assert(out@ =~= old(out)@ + spec_entry_header_bytes(*self));
        }
    }
}

/// One cache entry: the per-entry header (present exactly in the
/// Standard edition), the 20-byte content hash, and the payload.
#[derive(Clone, Debug)]
pub struct DxvkStateCacheEntry {
    pub header: Option<DxvkStateCacheEntryHeader>,
    pub hash: Vec<u8>,
    pub data: Vec<u8>,
}

/// The mathematical value of an entry.
#[verifier::ext_equal]
pub struct EntryV {
    pub header: Option<DxvkStateCacheEntryHeader>,
    pub hash: Seq<u8>,
    pub data: Seq<u8>,
}

impl View for DxvkStateCacheEntry {
    type V = EntryV;

    open spec fn view(&self) -> EntryV {
        EntryV { header: self.header, hash: self.hash@, data: self.data@ }
    }
}

/// What can go wrong while decoding one entry.
#[derive(Clone, Copy, Debug, PartialEq, Eq, Structural)]
pub enum EntryError {
    /// The input ended in the middle of the entry.
    UnexpectedEof,
    /// The stored hash does not match the payload's content hash.
    HashMismatch,
}

/// The content hash an entry must carry: the SHA-1 of its payload, with
/// the empty-string digest appended first when the entry has no
/// per-entry header (the Legacy layout).
pub open spec fn spec_entry_hash(e: EntryV) -> Seq<u8> {
    if e.header is None {
        sha1_of(e.data + sha1_empty())
    } else {
        sha1_of(e.data)
    }
}

/// An entry is valid when its stored hash equals its content hash.
pub open spec fn entry_valid(e: EntryV) -> bool {
    e.hash == spec_entry_hash(e)
}

/// An entry has the shape that a file with header `h` demands: the
/// per-entry header is present exactly in the Standard edition, sizes
/// agree with the layout, and the hash is 20 bytes long.
pub open spec fn entry_shaped(e: EntryV, h: DxvkStateCacheHeader) -> bool {
    &&& e.hash.len() == HASH_SIZE as int
    &&& match h.spec_edition() {
        DxvkStateCacheEdition::Standard => {
            &&& e.header matches Some(eh)
            &&& eh.entry_size as int == e.data.len()
            &&& e.data.len() < 0x100_0000
        },
        DxvkStateCacheEdition::Legacy => {
            &&& e.header is None
            &&& e.data.len() + HASH_SIZE as int == h.entry_size as int
        },
    }
}

/// The exact bytes that encode `e` in the given edition: payload then
/// hash in Legacy; entry header (when present), hash, then payload in
/// Standard.
pub open spec fn spec_entry_bytes(e: EntryV, edition: DxvkStateCacheEdition) -> Seq<u8> {
    match edition {
        DxvkStateCacheEdition::Legacy => e.data + e.hash,
        DxvkStateCacheEdition::Standard => (match e.header {
            Some(eh) => spec_entry_header_bytes(eh),
            None => Seq::empty(),
        }) + e.hash + e.data,
    }
}

/// Reading the shape of one entry from the start of `b` under header
/// `h`: the result carries the entry and the count of bytes it spans.
/// `None` means the bytes at hand cannot hold a whole entry.
pub open spec fn spec_parse_entry(b: Seq<u8>, h: DxvkStateCacheHeader) -> Option<(EntryV, int)> {
    match h.spec_edition() {
        DxvkStateCacheEdition::Legacy => {
            let n = h.entry_size as int;
            if n < HASH_SIZE as int || b.len() < n {
                None
            } else {
                Some(
                    (
                        EntryV {
                            header: None,
                            hash: b.subrange(n - HASH_SIZE as int, n),
                            data: b.subrange(0, n - HASH_SIZE as int),
                        },
                        n,
                    ),
                )
            }
        },
        DxvkStateCacheEdition::Standard => {
            if b.len() < 4 {
                None
            } else {
                let size = u24_le_of(b.subrange(1, 4)) as int;
                if b.len() < 24 + size {
                    None
                } else {
                    Some(
                        (
                            EntryV {
                                header: Some(
                                    DxvkStateCacheEntryHeader {
                                        stage_mask: b[0],
                                        entry_size: u24_le_of(b.subrange(1, 4)),
                                    },
                                ),
                                hash: b.subrange(4, 24),
                                data: b.subrange(24, 24 + size),
                            },
                            24 + size,
                        ),
                    )
                }
            }
        },
    }
}

/// Strict decoding of one entry: a truncated entry is an unexpected end
/// of input, and a parsed entry must be valid.
pub open spec fn spec_read_entry(b: Seq<u8>, h: DxvkStateCacheHeader) -> Result<
    (EntryV, int),
    EntryError,
> {
    match spec_parse_entry(b, h) {
        None => Err(EntryError::UnexpectedEof),
        Some((e, n)) => if entry_valid(e) {
            Ok((e, n))
        } else {
            Err(EntryError::HashMismatch)
        },
    }
}

/// A parsed entry spans at least 20 bytes, at most the bytes at hand,
/// and is shaped for the header it was parsed under.
pub proof fn lemma_parse_entry_bounds(b: Seq<u8>, h: DxvkStateCacheHeader)
    ensures
        spec_parse_entry(b, h) matches Some((e, n)) ==> {
            &&& HASH_SIZE as int <= n <= b.len()
            &&& entry_shaped(e, h)
        },
{
    if h.spec_edition() is Standard && spec_parse_entry(b, h) is Some {
        lemma_u24_le_bytes_of(b.subrange(1, 4));
    }
}

/// A parsed entry re-encodes to exactly the bytes it spans.
pub proof fn lemma_parse_entry_exact(b: Seq<u8>, h: DxvkStateCacheHeader)
    ensures
        spec_parse_entry(b, h) matches Some((e, n)) ==> spec_entry_bytes(e, h.spec_edition())
            == b.subrange(0, n),
{
    if spec_parse_entry(b, h) is Some {
        let (e, n) = spec_parse_entry(b, h)->Some_0;
        match h.spec_edition() {
            DxvkStateCacheEdition::Legacy => {
                assert(spec_entry_bytes(e, h.spec_edition()) =~= b.subrange(0, n));
            },
            DxvkStateCacheEdition::Standard => {
                lemma_u24_le_bytes_of(b.subrange(1, 4));
                assert(spec_entry_header_bytes(e.header->Some_0) =~= b.subrange(0, 4));
                assert(spec_entry_bytes(e, h.spec_edition()) =~= b.subrange(0, n));
            },
        }
    }
}

/// An entry shaped for `h` parses back from its own encoding, whatever
/// follows it.
pub proof fn lemma_parse_entry_of_encoded(e: EntryV, h: DxvkStateCacheHeader, tail: Seq<u8>)
    requires
        entry_shaped(e, h),
    ensures
        spec_entry_bytes(e, h.spec_edition()).len() == e.data.len() + HASH_SIZE as int + (
        if h.spec_edition() is Standard {
            4int
        } else {
            0int
        }),
        spec_parse_entry(spec_entry_bytes(e, h.spec_edition()) + tail, h) == Some(
            (e, spec_entry_bytes(e, h.spec_edition()).len() as int),
        ),
{
    let eb = spec_entry_bytes(e, h.spec_edition());
    let b = eb + tail;
    match h.spec_edition() {
        DxvkStateCacheEdition::Legacy => {
            let n = h.entry_size as int;
            assert(eb.len() == n);
            assert(b.subrange(n - HASH_SIZE as int, n) =~= e.hash);
            assert(b.subrange(0, n - HASH_SIZE as int) =~= e.data);
            assert(spec_parse_entry(b, h)->Some_0.0 =~= e);
        },
        DxvkStateCacheEdition::Standard => {
            let eh = e.header->Some_0;
            lemma_u24_le_round_trip(eh.entry_size);
            assert(b.subrange(1, 4) =~= u24_le_bytes(eh.entry_size));
            assert(b[0] == eh.stage_mask);
            let size = eh.entry_size as int;
            assert(b.len() >= 24 + size);
            assert(b.subrange(4, 24) =~= e.hash);
            assert(b.subrange(24, 24 + size) =~= e.data);
            assert(spec_parse_entry(b, h)->Some_0.0 =~= e);
        },
    }
}

impl DxvkStateCacheEntry {
    /// Reads a Legacy entry: `size` payload-plus-hash bytes, payload
    /// first. Returns the entry and the position just past it, or
    /// `None` when a whole entry does not fit.
    fn from_reader_legacy(bytes: &Vec<u8>, pos: usize, size: u32) -> (r: Option<(Self, usize)>)
        requires
            pos <= bytes@.len(),
        ensures
            match r {
                Some((e, n)) => {
                    &&& spec_parse_entry(
                        bytes@.skip(pos as int),
                        DxvkStateCacheHeader { version: 1, entry_size: size },
                    ) == Some((e@, n - pos as int))
                    &&& pos < n <= bytes@.len()
                },
                None => spec_parse_entry(
                    bytes@.skip(pos as int),
                    DxvkStateCacheHeader { version: 1, entry_size: size },
                ) is None,
            },
    {
        let len = bytes.len();
        if size < HASH_SIZE as u32 {
            return None;
        }
        let size = size as usize;
        if len - pos < size {
            return None;
        }
        let data = copy_bytes(bytes, pos, pos + (size - HASH_SIZE));
        let hash = copy_bytes(bytes, pos + (size - HASH_SIZE), pos + size);
        proof {
            let b = bytes@.skip(pos as int);
            assert(data@ =~= b.subrange(0, size - HASH_SIZE));
            assert(hash@ =~= b.subrange(size - HASH_SIZE, size as int));
        }
        Some((DxvkStateCacheEntry { header: None, hash, data }, pos + size))
    }

    /// Reads a Standard entry: entry header, hash, then payload.
    /// Returns the entry and the position just past it, or `None` when
    /// a whole entry does not fit.
    fn from_reader_standard(bytes: &Vec<u8>, pos: usize) -> (r: Option<(Self, usize)>)
        requires
            pos <= bytes@.len(),
        ensures
            match r {
                Some((e, n)) => {
                    &&& spec_parse_entry(
                        bytes@.skip(pos as int),
                        DxvkStateCacheHeader { version: 8, entry_size: 0 },
                    ) == Some((e@, n - pos as int))
                    &&& pos < n <= bytes@.len()
                },
                None => spec_parse_entry(
                    bytes@.skip(pos as int),
                    DxvkStateCacheHeader { version: 8, entry_size: 0 },
                ) is None,
            },
    {
        let len = bytes.len();
        if len - pos < 4 {
            return None;
        }
        let stage_mask = bytes[pos];
        let size = read_u24_le(bytes, pos + 1);
        proof {
            let b = bytes@.skip(pos as int);
            assert(bytes@.subrange(pos as int + 1, pos as int + 4) =~= b.subrange(1, 4));
            assert(b[0] == bytes@[pos as int]);
        }
        let size = size as usize;
        if len - pos < 24 || len - pos - 24 < size {
            return None;
        }
        let hash = copy_bytes(bytes, pos + 4, pos + 24);
        let data = copy_bytes(bytes, pos + 24, pos + 24 + size);
        proof {
            let b = bytes@.skip(pos as int);
            assert(hash@ =~= b.subrange(4, 24));
            assert(data@ =~= b.subrange(24, 24 + size));
        }
        Some(
            (
                DxvkStateCacheEntry {
                    header: Some(
                        DxvkStateCacheEntryHeader { stage_mask, entry_size: size as u32 },
                    ),
                    hash,
                    data,
                },
                pos + 24 + size,
            ),
        )
    }

    /// Reads the shape of one entry from `bytes` at `pos` under the
    /// file header, without the hash check. Returns the entry and the
    /// position just past it, or `None` when no whole entry fits.
    pub(crate) fn parse_from(bytes: &Vec<u8>, pos: usize, top_header: &DxvkStateCacheHeader) -> (r:
        Option<(Self, usize)>)
        requires
            pos <= bytes@.len(),
        ensures
            match r {
                Some((e, n)) => {
                    &&& spec_parse_entry(bytes@.skip(pos as int), *top_header) == Some(
                        (e@, n - pos as int),
                    )
                    &&& pos < n <= bytes@.len()
                },
                None => spec_parse_entry(bytes@.skip(pos as int), *top_header) is None,
            },
    {
        let parsed = match top_header.edition() {
            DxvkStateCacheEdition::Standard => Self::from_reader_standard(bytes, pos),
            DxvkStateCacheEdition::Legacy => Self::from_reader_legacy(
                bytes,
                pos,
                top_header.entry_size,
            ),
        };
        proof {
            let b = bytes@.skip(pos as int);
            let probe_std = DxvkStateCacheHeader { version: 8, entry_size: 0 };
            let probe_leg = DxvkStateCacheHeader { version: 1, entry_size: top_header.entry_size };
            if top_header.spec_edition() is Standard {
                assert(spec_parse_entry(b, probe_std) == spec_parse_entry(b, *top_header));
            } else {
                assert(spec_parse_entry(b, probe_leg) == spec_parse_entry(b, *top_header));
            }
        }
        parsed
    }

    /// Strictly decodes one entry from `bytes` at `pos` under the file
    /// header: a truncated entry is an unexpected end of input, and the
    /// decoded entry must pass the hash check.
    pub fn from_reader(bytes: &Vec<u8>, pos: usize, top_header: &DxvkStateCacheHeader) -> (r:
        Result<(Self, usize), EntryError>)
        requires
            pos <= bytes@.len(),
        ensures
            match r {
                Ok((e, n)) => {
                    &&& spec_read_entry(bytes@.skip(pos as int), *top_header) == Ok::<
                        (EntryV, int),
                        EntryError,
                    >((e@, n - pos as int))
                    &&& pos < n <= bytes@.len()
                },
                Err(err) => spec_read_entry(bytes@.skip(pos as int), *top_header) == Err::<
                    (EntryV, int),
                    EntryError,
                >(err),
            },
    {
        match Self::parse_from(bytes, pos, top_header) {
            None => Err(EntryError::UnexpectedEof),
            Some((e, n)) => {
                if e.is_valid() {
                    Ok((e, n))
                } else {
                    Err(EntryError::HashMismatch)
                }
            },
        }
    }

    /// Whether the stored hash equals the entry's content hash.
    pub fn is_valid(&self) -> (r: bool)
        ensures
            r == entry_valid(self@),
    {
        let mut buf = copy_bytes(&self.data, 0, self.data.len());
        proof {
            assert(buf@ =~= self.data@);
        }
        if self.header.is_none() {
            let suffix = sha1_empty_bytes();
            crate::bytes::append_bytes(&mut buf, &suffix);
        }
        let digest = sha1_digest(&buf);
        bytes_eq(&digest, &self.hash)
    }

    /// Writes a Standard entry: the entry header when present, then the
    /// hash, then the payload.
    fn write_standard(&self, out: &mut Vec<u8>)
        requires
            self.header matches Some(eh) ==> eh.entry_size < 0x100_0000,
        ensures
            final(out)@ == old(out)@ + spec_entry_bytes(self@, DxvkStateCacheEdition::Standard),
    {
        if let Some(h) = self.header.as_ref() {
            h.write_to(out);
        }
        crate::bytes::append_bytes(out, &self.hash);
        crate::bytes::append_bytes(out, &self.data);
        proof {
            assert(out@ =~= old(out)@ + spec_entry_bytes(
                self@,
                DxvkStateCacheEdition::Standard,
            ));
        }
    }

    /// Writes a Legacy entry: the payload, then the hash.
    fn write_legacy(&self, out: &mut Vec<u8>)
        ensures
            final(out)@ == old(out)@ + spec_entry_bytes(self@, DxvkStateCacheEdition::Legacy),
    {
        crate::bytes::append_bytes(out, &self.data);
        crate::bytes::append_bytes(out, &self.hash);
        proof {
            assert(out@ =~= old(out)@ + spec_entry_bytes(self@, DxvkStateCacheEdition::Legacy));
        }
    }

    /// Appends the entry's encoding in the given edition to `out`.
    pub fn write_to(&self, out: &mut Vec<u8>, edition: DxvkStateCacheEdition)
        requires
            self.header matches Some(eh) ==> eh.entry_size < 0x100_0000,
        ensures
            final(out)@ == old(out)@ + spec_entry_bytes(self@, edition),
    {
        match edition {
            DxvkStateCacheEdition::Legacy => self.write_legacy(out),
            DxvkStateCacheEdition::Standard => self.write_standard(out),
        }
    }

    /// A copy of the entry with the same header, hash and payload.
    pub fn duplicate(&self) -> (r: Self)
        ensures
            r@ == self@,
    {
        let hash = copy_bytes(&self.hash, 0, self.hash.len());
        let data = copy_bytes(&self.data, 0, self.data.len());
        proof {
            assert(hash@ =~= self.hash@);
            assert(data@ =~= self.data@);
        }
        DxvkStateCacheEntry { header: self.header, hash, data }
    }

    /// The entry's hash, held for rendering as hexadecimal text.
    pub fn hash_display(&self) -> (r: HashDisplay)
        ensures
            r.0@ == self.hash@,
    {
        let h = copy_bytes(&self.hash, 0, self.hash.len());
        proof {
            assert(h@ =~= self.hash@);
        }
        HashDisplay(h)
    }
}

/// An entry keyed by its hash: two wrapped entries count as the same
/// element exactly when their hashes are equal byte for byte.
#[derive(Clone, Debug)]
pub struct EntryWrapper(pub DxvkStateCacheEntry);

impl View for EntryWrapper {
    type V = EntryV;

    open spec fn view(&self) -> EntryV {
        self.0@
    }
}

impl PartialEq for EntryWrapper {
    fn eq(&self, other: &EntryWrapper) -> (r: bool) {
        bytes_eq(&self.0.hash, &other.0.hash)
    }
}

impl vstd::std_specs::cmp::PartialEqSpecImpl for EntryWrapper {
    open spec fn obeys_eq_spec() -> bool {
        true
    }

    open spec fn eq_spec(&self, other: &EntryWrapper) -> bool {
        self@.hash == other@.hash
    }
}

impl From<DxvkStateCacheEntry> for EntryWrapper {
    fn from(e: DxvkStateCacheEntry) -> (r: EntryWrapper) {
        EntryWrapper(e)
    }
}

impl vstd::std_specs::convert::FromSpecImpl<DxvkStateCacheEntry> for EntryWrapper {
    open spec fn obeys_from_spec() -> bool {
        true
    }

    open spec fn from_spec(e: DxvkStateCacheEntry) -> EntryWrapper {
        EntryWrapper(e)
    }
}

impl EntryWrapper {
    /// Hands the wrapped entry back.
    pub fn unwrap(self) -> (r: DxvkStateCacheEntry)
        ensures
            r@ == self@,
    {
        self.0
    }
}

} // verus!
