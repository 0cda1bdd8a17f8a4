//! The in-memory cache container and the whole-file codec.
//!
//! A cache is a file header plus the entries of the file in their
//! on-disk order. The container keeps set semantics keyed by the
//! 20-byte entry hash: no two stored entries share a hash, and entries
//! keep the position of their first insertion.

use vstd::prelude::*;

use crate::entry::{
    entry_shaped, entry_valid, lemma_parse_entry_bounds, lemma_parse_entry_exact,
    spec_entry_bytes, spec_entry_hash, spec_parse_entry, DxvkStateCacheEntry, EntryError, EntryV,
};
use crate::error::Error;
use crate::header::{
    spec_header_bytes, spec_read_header, DxvkStateCacheEdition, DxvkStateCacheHeader, HeaderError,
};

verus! {

/// What can go wrong while decoding a whole cache file strictly.
#[derive(Clone, Copy, Debug, PartialEq, Eq, Structural)]
pub enum ReadError {
    /// The file header could not be decoded.
    ReadHeader(HeaderError),
    /// An entry could not be decoded.
    ReadEntry(EntryError),
    /// Two entries of the file carry the same hash.
    DuplicateEntry,
}

/// The mathematical value of a cache: its header and its entries in
/// iteration order.
#[verifier::ext_equal]
pub struct CacheV {
    pub header: DxvkStateCacheHeader,
    pub entries: Seq<EntryV>,
}

/// A state cache: the file header and the entries in insertion order.
#[derive(Debug)]
pub struct DxvkStateCache {
    pub header: DxvkStateCacheHeader,
    pub entries: Vec<DxvkStateCacheEntry>,
}

/// The values of a run of entries.
pub open spec fn entries_view(es: Seq<DxvkStateCacheEntry>) -> Seq<EntryV> {
    es.map_values(|e: DxvkStateCacheEntry| e@)
}

impl View for DxvkStateCache {
    type V = CacheV;

    open spec fn view(&self) -> CacheV {
        CacheV { header: self.header, entries: entries_view(self.entries@) }
    }
}

/// Whether some entry of `es` carries the hash `h`.
pub open spec fn contains_hash(es: Seq<EntryV>, h: Seq<u8>) -> bool {
    exists|i: int| 0 <= i < es.len() && es[i].hash == h
}

/// No two entries of `es` carry the same hash.
pub open spec fn unique_hashes(es: Seq<EntryV>) -> bool {
    forall|i: int, j: int| 0 <= i < j < es.len() ==> es[i].hash != es[j].hash
}

/// A well-formed cache: a well-formed header, every entry shaped for
/// that header and carrying its own content hash, and no hash stored
/// twice.
pub open spec fn cache_wf(c: CacheV) -> bool {
    &&& c.header.wf()
    &&& forall|i: int|
        0 <= i < c.entries.len() ==> entry_shaped(#[trigger] c.entries[i], c.header)
            && entry_valid(c.entries[i])
    &&& unique_hashes(c.entries)
}

/// The bytes of a run of entries, encoded one after the other.
pub open spec fn spec_entries_bytes(es: Seq<EntryV>, edition: DxvkStateCacheEdition) -> Seq<u8>
    decreases es.len(),
{
    if es.len() == 0 {
        Seq::empty()
    } else {
        spec_entry_bytes(es[0], edition) + spec_entries_bytes(es.skip(1), edition)
    }
}

/// Encoding one more entry appends its bytes.
pub proof fn lemma_entries_bytes_push(es: Seq<EntryV>, e: EntryV, edition: DxvkStateCacheEdition)
    ensures
        spec_entries_bytes(es.push(e), edition) == spec_entries_bytes(es, edition)
            + spec_entry_bytes(e, edition),
    decreases es.len(),
{
    assert(spec_entries_bytes(es.push(e), edition) == spec_entry_bytes(es.push(e)[0], edition)
        + spec_entries_bytes(es.push(e).skip(1), edition));
    if es.len() == 0 {
        assert(es.push(e)[0] == e);
        assert(es.push(e).skip(1) =~= Seq::<EntryV>::empty());
        assert(spec_entries_bytes(es.push(e).skip(1), edition) == Seq::<u8>::empty());
        assert(spec_entries_bytes(es, edition) == Seq::<u8>::empty());
        assert(spec_entries_bytes(es.push(e), edition) =~= spec_entries_bytes(es, edition)
            + spec_entry_bytes(e, edition));
    } else {
        assert(es.push(e)[0] == es[0]);
        assert(es.push(e).skip(1) =~= es.skip(1).push(e));
        lemma_entries_bytes_push(es.skip(1), e, edition);
        assert(spec_entries_bytes(es.push(e), edition) =~= spec_entries_bytes(es, edition)
            + spec_entry_bytes(e, edition));
    }
}

/// Strict decoding of a run of entries from `b` onto the entries
/// already read in `acc`: reading stops cleanly when no bytes remain; a
/// truncated entry, an invalid entry, or a hash seen before is an
/// error.
pub open spec fn spec_read_entries(
    b: Seq<u8>,
    h: DxvkStateCacheHeader,
    acc: Seq<EntryV>,
) -> Result<Seq<EntryV>, ReadError>
    decreases b.len(),
        via spec_read_entries_decreases
{
    if b.len() == 0 {
        Ok(acc)
    } else {
        match spec_parse_entry(b, h) {
            None => Err(ReadError::ReadEntry(EntryError::UnexpectedEof)),
            Some((e, n)) => if !entry_valid(e) {
                Err(ReadError::ReadEntry(EntryError::HashMismatch))
            } else if contains_hash(acc, e.hash) {
                Err(ReadError::DuplicateEntry)
            } else {
                spec_read_entries(b.skip(n), h, acc.push(e))
            },
        }
    }
}

#[via_fn]
proof fn spec_read_entries_decreases(b: Seq<u8>, h: DxvkStateCacheHeader, acc: Seq<EntryV>) {
    lemma_parse_entry_bounds(b, h);
}

/// Strict decoding of a whole cache file: the header, then entries
/// until the bytes run out exactly at an entry boundary.
pub open spec fn spec_read_cache(b: Seq<u8>) -> Result<CacheV, ReadError> {
    match spec_read_header(b) {
        Err(e) => Err(ReadError::ReadHeader(e)),
        Ok(h) => match spec_read_entries(b.skip(12), h, Seq::empty()) {
            Err(e) => Err(e),
            Ok(es) => Ok(CacheV { header: h, entries: es }),
        },
    }
}

/// The exact bytes that encode the cache `c`: its header, then its
/// entries in iteration order.
pub open spec fn spec_cache_bytes(c: CacheV) -> Seq<u8> {
    spec_header_bytes(c.header) + spec_entries_bytes(c.entries, c.header.spec_edition())
}

/// Every entry stored in a well-formed cache carries exactly the
/// content hash that the entry's layout assigns to its payload.
pub proof fn lemma_cache_entries_hashed(c: CacheV)
    requires
        cache_wf(c),
    ensures
        forall|i: int|
            0 <= i < c.entries.len() ==> (#[trigger] c.entries[i]).hash == spec_entry_hash(
                c.entries[i],
            ),
{
}

/// The entries of `a` whose hash no entry of `b` carries, in the order
/// they stand in `a`.
pub open spec fn spec_difference(a: Seq<EntryV>, b: Seq<EntryV>) -> Seq<EntryV>
    decreases a.len(),
{
    if a.len() == 0 {
        Seq::empty()
    } else if contains_hash(b, a[0].hash) {
        spec_difference(a.skip(1), b)
    } else {
        seq![a[0]] + spec_difference(a.skip(1), b)
    }
}

/// Extending `a` by one entry extends its difference with `b` by that
/// entry exactly when `b` does not carry its hash.
pub proof fn lemma_difference_push(a: Seq<EntryV>, b: Seq<EntryV>, e: EntryV)
    ensures
        spec_difference(a.push(e), b) == if contains_hash(b, e.hash) {
            spec_difference(a, b)
        } else {
            spec_difference(a, b).push(e)
        },
    decreases a.len(),
{
    if a.len() == 0 {
        assert(a.push(e)[0] == e);
        assert(a.push(e).skip(1) =~= Seq::<EntryV>::empty());
        assert(spec_difference(a.push(e).skip(1), b) == Seq::<EntryV>::empty());
        if contains_hash(b, e.hash) {
            assert(spec_difference(a.push(e), b) =~= spec_difference(a, b));
        } else {
            assert(spec_difference(a.push(e), b) =~= spec_difference(a, b).push(e));
        }
    } else {
        assert(a.push(e)[0] == a[0]);
        assert(a.push(e).skip(1) =~= a.skip(1).push(e));
        lemma_difference_push(a.skip(1), b, e);
        if contains_hash(b, e.hash) {
            assert(spec_difference(a.push(e), b) =~= spec_difference(a, b));
        } else {
            assert(spec_difference(a.push(e), b) =~= spec_difference(a, b).push(e));
        }
    }
}

/// The difference of `a` and `b` holds exactly the hashes of `a` that
/// `b` lacks; each of its entries is an entry of `a`; and it repeats no
/// hash when `a` repeats none.
pub proof fn lemma_difference_membership(a: Seq<EntryV>, b: Seq<EntryV>)
    ensures
        forall|x: Seq<u8>|
            #[trigger] contains_hash(spec_difference(a, b), x) <==> contains_hash(a, x)
                && !contains_hash(b, x),
        forall|i: int|
            0 <= i < spec_difference(a, b).len() ==> a.contains(#[trigger] spec_difference(a, b)[i]),
        unique_hashes(a) ==> unique_hashes(spec_difference(a, b)),
    decreases a.len(),
{
    let d = spec_difference(a, b);
    if a.len() == 0 {
    } else {
        let tail = a.skip(1);
        lemma_difference_membership(tail, b);
        let dt = spec_difference(tail, b);
        assert(forall|i: int| 0 <= i < tail.len() ==> a[i + 1] == #[trigger] tail[i]);
        // every hash of `a` is the head's hash or a hash of the tail
        assert forall|x: Seq<u8>| #[trigger] contains_hash(a, x) implies (a[0].hash == x
            || contains_hash(tail, x)) by {
            let i = choose|i: int| 0 <= i < a.len() && a[i].hash == x;
            if i > 0 {
                assert(tail[i - 1].hash == x);
            }
        }
        assert forall|x: Seq<u8>| (a[0].hash == x || contains_hash(tail, x)) implies #[trigger]
            contains_hash(a, x) by {
            if a[0].hash == x {
            } else {
                let i = choose|i: int| 0 <= i < tail.len() && tail[i].hash == x;
                assert(a[i + 1].hash == x);
            }
        }
        // every entry of the tail, and so of its difference, is an entry of `a`
        assert forall|i: int| 0 <= i < dt.len() implies a.contains(#[trigger] dt[i]) by {
            assert(tail.contains(dt[i]));
            let j = choose|j: int| 0 <= j < tail.len() && tail[j] == dt[i];
            assert(a[j + 1] == dt[i]);
        }
        if contains_hash(b, a[0].hash) {
            assert(d == dt);
        } else {
            assert(d == seq![a[0]] + dt);
            assert(d[0] == a[0]);
            assert(a.contains(a[0])) by {
                assert(a[0] == a[0]);
            }
            assert(forall|i: int| 0 <= i < dt.len() ==> d[i + 1] == #[trigger] dt[i]);
            // hashes of `d` are the head's hash and those of `dt`
            assert forall|x: Seq<u8>| #[trigger] contains_hash(d, x) implies (a[0].hash == x
                || contains_hash(dt, x)) by {
                let i = choose|i: int| 0 <= i < d.len() && d[i].hash == x;
                if i > 0 {
                    assert(dt[i - 1].hash == x);
                }
            }
            assert forall|x: Seq<u8>| (a[0].hash == x || contains_hash(dt, x)) implies #[trigger]
                contains_hash(d, x) by {
                if a[0].hash == x {
                    assert(d[0].hash == x);
                } else {
                    let i = choose|i: int| 0 <= i < dt.len() && dt[i].hash == x;
                    assert(d[i + 1].hash == x);
                }
            }
            assert forall|i: int| 0 <= i < d.len() implies a.contains(#[trigger] d[i]) by {
                if i == 0 {
                    assert(d[0] == a[0]);
                } else {
                    assert(d[i] == dt[i - 1]);
                }
            }
            if unique_hashes(a) {
                assert(unique_hashes(tail)) by {
                    assert(forall|i: int, j: int|
                        0 <= i < j < tail.len() ==> (#[trigger] tail[i]).hash != (
                        #[trigger] tail[j]).hash) by {
                        assert(forall|i: int|
                            0 <= i < tail.len() ==> a[i + 1] == #[trigger] tail[i]);
                    }
                }
                // the head's hash is not among the tail's, so not among those of `dt`
                assert(!contains_hash(tail, a[0].hash)) by {
                    if contains_hash(tail, a[0].hash) {
                        let i = choose|i: int| 0 <= i < tail.len() && tail[i].hash == a[0].hash;
                        assert(a[i + 1] == tail[i]);
                        assert(false);
                    }
                }
                assert forall|i: int, j: int| 0 <= i < j < d.len() implies (#[trigger] d[i]).hash
                    != (#[trigger] d[j]).hash by {
                    if i == 0 {
                        assert(d[j] == dt[j - 1]);
                        assert(contains_hash(dt, dt[j - 1].hash)) by {
                            assert(dt[j - 1].hash == dt[j - 1].hash);
                        }
                        assert(contains_hash(tail, dt[j - 1].hash));
                        assert(d[0].hash != d[j].hash);
                    } else {
                        assert(d[i] == dt[i - 1] && d[j] == dt[j - 1]);
                    }
                }
            }
        }
    }
}

/// Extending a well-formed cache by a shaped, valid entry whose hash it
/// lacks keeps it well formed.
pub proof fn lemma_cache_push_wf(c: CacheV, e: EntryV)
    requires
        cache_wf(c),
        entry_shaped(e, c.header),
        entry_valid(e),
        !contains_hash(c.entries, e.hash),
    ensures
        cache_wf(CacheV { header: c.header, entries: c.entries.push(e) }),
{
    let es = c.entries.push(e);
    assert(forall|i: int| 0 <= i < c.entries.len() ==> #[trigger] es[i] == c.entries[i]);
    assert(es[c.entries.len() as int] == e);
    assert(forall|i: int|
        0 <= i < es.len() ==> entry_shaped(#[trigger] es[i], c.header) && entry_valid(es[i]));
    assert(unique_hashes(es)) by {
        assert(forall|i: int| 0 <= i < c.entries.len() ==> c.entries[i].hash != e.hash);
    }
}

/// What a successful strict read of entries guarantees: the entries
/// already read stay as a prefix, the new entries re-encode to exactly
/// the bytes read, each is shaped and valid, and no hash repeats.
pub proof fn lemma_read_entries_exact(b: Seq<u8>, h: DxvkStateCacheHeader, acc: Seq<EntryV>)
    requires
        spec_read_entries(b, h, acc) is Ok,
        unique_hashes(acc),
    ensures
        ({
            let es = spec_read_entries(b, h, acc)->Ok_0;
            &&& es.len() >= acc.len()
            &&& es.subrange(0, acc.len() as int) == acc
            &&& spec_entries_bytes(es.skip(acc.len() as int), h.spec_edition()) == b
            &&& forall|i: int|
                acc.len() <= i < es.len() ==> entry_shaped(#[trigger] es[i], h) && entry_valid(
                    es[i],
                )
            &&& unique_hashes(es)
        }),
    decreases b.len(),
{
    let es = spec_read_entries(b, h, acc)->Ok_0;
    if b.len() == 0 {
        assert(es == acc);
        assert(es.subrange(0, acc.len() as int) =~= acc);
        assert(es.skip(acc.len() as int) =~= Seq::<EntryV>::empty());
        assert(spec_entries_bytes(es.skip(acc.len() as int), h.spec_edition()) =~= b);
    } else {
        lemma_parse_entry_bounds(b, h);
        lemma_parse_entry_exact(b, h);
        let (e, n) = spec_parse_entry(b, h)->Some_0;
        assert(unique_hashes(acc.push(e))) by {
            assert(forall|i: int, j: int|
                0 <= i < j < acc.push(e).len() ==> acc.push(e)[i].hash != acc.push(e)[j].hash) by {
                assert(forall|i: int|
                    0 <= i < acc.len() ==> #[trigger] acc.push(e)[i] == acc[i]);
                assert(acc.push(e)[acc.len() as int] == e);
                assert(forall|i: int| 0 <= i < acc.len() ==> acc[i].hash != e.hash);
            }
        }
        lemma_read_entries_exact(b.skip(n), h, acc.push(e));
        let acc2 = acc.push(e);
        assert(spec_read_entries(b.skip(n), h, acc2)->Ok_0 == es);
        // the prefix of length `acc.len()` of `es` is `acc`
        assert(es.subrange(0, acc2.len() as int) == acc2);
        assert(forall|i: int| 0 <= i < acc2.len() ==> #[trigger] es[i] == acc2[i]) by {
            assert(forall|i: int|
                0 <= i < acc2.len() ==> #[trigger] es.subrange(0, acc2.len() as int)[i] == es[i]);
        }
        assert(es.subrange(0, acc.len() as int) =~= acc);
        // the bytes of the new entries tile `b`
        assert(es[acc.len() as int] == e);
        let rest = es.skip(acc.len() as int);
        assert(rest[0] == e);
        assert(rest.skip(1) =~= es.skip(acc2.len() as int));
        assert(spec_entries_bytes(rest, h.spec_edition()) == spec_entry_bytes(e, h.spec_edition())
            + spec_entries_bytes(es.skip(acc2.len() as int), h.spec_edition()));
        assert(spec_entry_bytes(e, h.spec_edition()) == b.subrange(0, n));
        assert(b.subrange(0, n) + b.skip(n) =~= b);
    }
}

/// Strictly reading the encoding of shaped, valid entries with fresh
/// hashes appends exactly those entries.
pub proof fn lemma_read_entries_of_encoded(
    es: Seq<EntryV>,
    h: DxvkStateCacheHeader,
    acc: Seq<EntryV>,
)
    requires
        forall|i: int|
            0 <= i < es.len() ==> entry_shaped(#[trigger] es[i], h) && entry_valid(es[i]),
        unique_hashes(acc + es),
    ensures
        spec_read_entries(spec_entries_bytes(es, h.spec_edition()), h, acc) == Ok::<
            Seq<EntryV>,
            ReadError,
        >(acc + es),
    decreases es.len(),
{
    let ed = h.spec_edition();
    let b = spec_entries_bytes(es, ed);
    if es.len() == 0 {
        assert(acc + es =~= acc);
    } else {
        let e = es[0];
        let rest = es.skip(1);
        let rb = spec_entries_bytes(rest, ed);
        crate::entry::lemma_parse_entry_of_encoded(e, h, rb);
        let eb = spec_entry_bytes(e, ed);
        assert(b == eb + rb);
        assert(spec_parse_entry(b, h) == Some((e, eb.len() as int)));
        assert(entry_valid(e));
        assert(!contains_hash(acc, e.hash)) by {
            if contains_hash(acc, e.hash) {
                let i = choose|i: int| 0 <= i < acc.len() && acc[i].hash == e.hash;
                assert((acc + es)[i] == acc[i]);
                assert((acc + es)[acc.len() as int] == e);
                assert(false);
            }
        }
        assert(b.skip(eb.len() as int) =~= rb);
        assert(acc.push(e) + rest =~= acc + es);
        assert(forall|i: int| 0 <= i < rest.len() ==> #[trigger] rest[i] == es[i + 1]);
        lemma_read_entries_of_encoded(rest, h, acc.push(e));
        assert(spec_read_entries(b, h, acc) == spec_read_entries(
            b.skip(eb.len() as int),
            h,
            acc.push(e),
        ));
    }
}

/// Encoding a well-formed cache and decoding the bytes yields the cache
/// back: the same header and the same entries in the same order.
pub proof fn lemma_encode_then_decode(c: CacheV)
    requires
        cache_wf(c),
    ensures
        spec_read_cache(spec_cache_bytes(c)) == Ok::<CacheV, ReadError>(c),
{
    let ed = c.header.spec_edition();
    let eb = spec_entries_bytes(c.entries, ed);
    crate::header::lemma_read_header_of_encoded(c.header, eb);
    let b = spec_cache_bytes(c);
    assert(spec_read_header(b) == Ok::<DxvkStateCacheHeader, HeaderError>(c.header));
    assert(b.skip(12) =~= eb);
    assert(Seq::<EntryV>::empty() + c.entries =~= c.entries);
    lemma_read_entries_of_encoded(c.entries, c.header, Seq::empty());
    assert(spec_read_cache(b)->Ok_0 =~= c);
}

/// A byte sequence that decodes to a cache is exactly that cache's
/// encoding, and the decoded cache is well formed.
pub proof fn lemma_decode_then_encode(b: Seq<u8>)
    requires
        spec_read_cache(b) is Ok,
    ensures
        cache_wf(spec_read_cache(b)->Ok_0),
        spec_cache_bytes(spec_read_cache(b)->Ok_0) == b,
{
    let c = spec_read_cache(b)->Ok_0;
    crate::header::lemma_read_header_exact(b);
    lemma_read_entries_exact(b.skip(12), c.header, Seq::empty());
    assert(c.entries.skip(0) =~= c.entries);
    assert(spec_entries_bytes(c.entries, c.header.spec_edition()) == b.skip(12));
    assert(b.subrange(0, 12) + b.skip(12) =~= b);
}

/// Decoding succeeds exactly on the encodings of well-formed caches:
/// the bytes end precisely at an entry boundary, with every entry
/// whole, valid and fresh.
pub proof fn lemma_decode_ok_iff(b: Seq<u8>)
    ensures
        (spec_read_cache(b) is Ok) <==> (exists|c: CacheV|
            cache_wf(c) && b == #[trigger] spec_cache_bytes(c)),
{
    if spec_read_cache(b) is Ok {
        lemma_decode_then_encode(b);
        let c = spec_read_cache(b)->Ok_0;
        assert(cache_wf(c) && b == spec_cache_bytes(c));
    }
    if exists|c: CacheV| cache_wf(c) && b == #[trigger] spec_cache_bytes(c) {
        let c = choose|c: CacheV| cache_wf(c) && b == #[trigger] spec_cache_bytes(c);
        lemma_encode_then_decode(c);
    }
}

/// Scans `entries` for one whose hash equals `hash` byte for byte.
fn find_hash(entries: &Vec<DxvkStateCacheEntry>, hash: &Vec<u8>) -> (r: bool)
    ensures
        r == contains_hash(entries_view(entries@), hash@),
{
    let ghost evs = entries_view(entries@);
    let mut i: usize = 0;
    while i < entries.len()
        invariant
            i <= entries@.len(),
            evs == entries_view(entries@),
            forall|j: int| 0 <= j < i ==> evs[j].hash != hash@,
        decreases entries@.len() - i,
    {
        if crate::bytes::bytes_eq(&entries[i].hash, hash) {
            proof {
                assert(evs[i as int].hash == hash@);
            }
            return true;
        }
        i = i + 1;
    }
    false
}

impl DxvkStateCache {
    /// A well-formed cache value.
    pub open spec fn wf(&self) -> bool {
        cache_wf(self@)
    }

    /// The stored entries, in insertion order.
    pub fn iter(&self) -> (r: &Vec<DxvkStateCacheEntry>)
        ensures
            *r == self.entries,
    {
        &self.entries
    }

    /// Appends the cache's whole encoding to `out`: the header, then
    /// every entry in insertion order. A cache with no entries is not
    /// written.
    pub fn write_to(&self, out: &mut Vec<u8>) -> (r: Result<(), Error>)
        requires
            self.wf(),
        ensures
            self@.entries.len() == 0 ==> r == Err::<(), Error>(Error::NoEntriesFound)
                && final(out)@ == old(out)@,
            self@.entries.len() > 0 ==> r == Ok::<(), Error>(()) && final(out)@ == old(out)@
                + spec_cache_bytes(self@),
    {
        if self.entries.len() < 1 {
            return Err(Error::NoEntriesFound);
        }
        self.header.write_to(out);
        let edition = self.header.edition();
        let ghost evs = entries_view(self.entries@);
        let mut i: usize = 0;
        proof {
            assert(evs.subrange(0, 0) =~= Seq::<EntryV>::empty());
            assert(out@ =~= old(out)@ + spec_header_bytes(self.header) + spec_entries_bytes(
                evs.subrange(0, 0),
                edition,
            ));
        }
        while i < self.entries.len()
            invariant
                i <= self.entries@.len(),
                self.wf(),
                evs == entries_view(self.entries@),
                edition == self.header.spec_edition(),
                out@ == old(out)@ + spec_header_bytes(self.header) + spec_entries_bytes(
                    evs.subrange(0, i as int),
                    edition,
                ),
            decreases self.entries@.len() - i,
        {
            proof {
                assert(entry_shaped(self@.entries[i as int], self@.header));
            }
            self.entries[i].write_to(out, edition);
            i = i + 1;
            proof {
                lemma_entries_bytes_push(evs.subrange(0, i - 1), evs[i - 1], edition);
                assert(evs.subrange(0, i - 1).push(evs[i - 1]) =~= evs.subrange(0, i as int));
                assert(out@ =~= old(out)@ + spec_header_bytes(self.header) + spec_entries_bytes(
                    evs.subrange(0, i as int),
                    edition,
                ));
            }
        }
        proof {
            assert(evs.subrange(0, evs.len() as int) =~= evs);
            assert(out@ =~= old(out)@ + spec_cache_bytes(self@));
        }
        Ok(())
    }

    /// Inserts an entry under the strict policy: a hash already stored
    /// is an error and the cache is unchanged.
    pub fn insert_strict(&mut self, entry: DxvkStateCacheEntry) -> (r: Result<(), ReadError>)
        requires
            old(self).wf(),
            entry_shaped(entry@, old(self).header),
            entry_valid(entry@),
        ensures
            final(self).header == old(self).header,
            contains_hash(old(self)@.entries, entry@.hash) ==> r == Err::<(), ReadError>(
                ReadError::DuplicateEntry,
            ) && final(self)@ == old(self)@,
            !contains_hash(old(self)@.entries, entry@.hash) ==> r == Ok::<(), ReadError>(())
                && final(self)@.entries == old(self)@.entries.push(entry@),
            final(self).wf(),
    {
        if find_hash(&self.entries, &entry.hash) {
            return Err(ReadError::DuplicateEntry);
        }
        proof {
            lemma_cache_push_wf(self@, entry@);
        }
        let ghost pre = entries_view(self.entries@);
        self.entries.push(entry);
        proof {
            assert(entries_view(self.entries@) =~= pre.push(entry@));
        }
        Ok(())
    }

    /// Inserts an entry under the silent policy: a hash already stored
    /// leaves the cache unchanged, and the first occurrence keeps its
    /// position. Returns whether the entry was inserted.
    pub fn insert_silent(&mut self, entry: DxvkStateCacheEntry) -> (r: bool)
        requires
            old(self).wf(),
            entry_shaped(entry@, old(self).header),
            entry_valid(entry@),
        ensures
            final(self).header == old(self).header,
            r == !contains_hash(old(self)@.entries, entry@.hash),
            !r ==> final(self)@ == old(self)@,
            r ==> final(self)@.entries == old(self)@.entries.push(entry@),
            final(self).wf(),
    {
        if find_hash(&self.entries, &entry.hash) {
            return false;
        }
        proof {
            lemma_cache_push_wf(self@, entry@);
        }
        let ghost pre = entries_view(self.entries@);
        self.entries.push(entry);
        proof {
            assert(entries_view(self.entries@) =~= pre.push(entry@));
        }
        true
    }

    /// The entries of this cache whose hash the other cache lacks, in
    /// this cache's order, under this cache's header. Both caches must
    /// carry the same version.
    pub fn difference(&self, other: &DxvkStateCache) -> (r: DxvkStateCache)
        requires
            self.wf(),
            other.wf(),
            self.header.version == other.header.version,
        ensures
            r@.header == self@.header,
            r@.entries == spec_difference(self@.entries, other@.entries),
            r.wf(),
    {
        let ghost a = entries_view(self.entries@);
        let ghost b = entries_view(other.entries@);
        let mut entries: Vec<DxvkStateCacheEntry> = Vec::new();
        let mut i: usize = 0;
        proof {
            assert(a.subrange(0, 0) =~= Seq::<EntryV>::empty());
            assert(entries_view(entries@) =~= spec_difference(a.subrange(0, 0), b));
        }
        while i < self.entries.len()
            invariant
                i <= self.entries@.len(),
                a == entries_view(self.entries@),
                b == entries_view(other.entries@),
                entries_view(entries@) == spec_difference(a.subrange(0, i as int), b),
            decreases self.entries@.len() - i,
        {
            let ghost pre = entries_view(entries@);
            let keep = !find_hash(&other.entries, &self.entries[i].hash);
            if keep {
                entries.push(self.entries[i].duplicate());
                proof {
                    assert(entries_view(entries@) =~= pre.push(a[i as int]));
                }
            }
            i = i + 1;
            proof {
                lemma_difference_push(a.subrange(0, i - 1), b, a[i - 1]);
                assert(a.subrange(0, i - 1).push(a[i - 1]) =~= a.subrange(0, i as int));
            }
        }
        proof {
            assert(a.subrange(0, a.len() as int) =~= a);
        }
        let r = DxvkStateCache { header: self.header, entries };
        proof {
            lemma_difference_membership(a, b);
            let d = spec_difference(a, b);
            assert(r@.entries =~= d);
            assert forall|i: int|
                0 <= i < d.len() implies entry_shaped(#[trigger] d[i], self.header)
                && entry_valid(d[i]) by {
                assert(a.contains(d[i]));
                let j = choose|j: int| 0 <= j < a.len() && a[j] == d[i];
                assert(entry_shaped(a[j], self.header) && entry_valid(a[j]));
            }
        }
        r
    }

    /// Strictly decodes a whole cache file from `bytes`: the header,
    /// then entries until the input ends at an entry boundary. Every
    /// entry must pass the hash check, and no hash may appear twice.
    pub fn from_reader(bytes: &Vec<u8>) -> (r: Result<Self, ReadError>)
        ensures
            match r {
                Ok(c) => spec_read_cache(bytes@) == Ok::<CacheV, ReadError>(c@) && c.wf(),
                Err(e) => spec_read_cache(bytes@) == Err::<CacheV, ReadError>(e),
            },
    {
        proof {
            assert(bytes@.skip(0) =~= bytes@);
        }
        let header = match DxvkStateCacheHeader::from_reader(bytes, 0) {
            Err(e) => {
                return Err(ReadError::ReadHeader(e));
            },
            Ok((h, _)) => h,
        };
        let mut entries: Vec<DxvkStateCacheEntry> = Vec::new();
        let mut pos: usize = 12;
        proof {
            assert(entries_view(entries@) =~= Seq::<EntryV>::empty());
        }
        while pos < bytes.len()
            invariant
                12 <= pos <= bytes@.len(),
                spec_read_header(bytes@) == Ok::<DxvkStateCacheHeader, HeaderError>(header),
                spec_read_entries(bytes@.skip(12), header, Seq::empty()) == spec_read_entries(
                    bytes@.skip(pos as int),
                    header,
                    entries_view(entries@),
                ),
            decreases bytes@.len() - pos,
        {
            let ghost acc = entries_view(entries@);
            let ghost b_pos = bytes@.skip(pos as int);
            match DxvkStateCacheEntry::from_reader(bytes, pos, &header) {
                Err(err) => {
                    proof {
                        assert(spec_read_entries(b_pos, header, acc) == Err::<
                            Seq<EntryV>,
                            ReadError,
                        >(ReadError::ReadEntry(err)));
                    }
                    return Err(ReadError::ReadEntry(err));
                },
                Ok((e, n)) => {
                    if find_hash(&entries, &e.hash) {
                        proof {
                            assert(spec_read_entries(b_pos, header, acc) == Err::<
                                Seq<EntryV>,
                                ReadError,
                            >(ReadError::DuplicateEntry));
                        }
                        return Err(ReadError::DuplicateEntry);
                    }
                    proof {
                        assert(b_pos.skip(n - pos as int) =~= bytes@.skip(n as int));
                        assert(entries_view(entries@.push(e)) =~= acc.push(e@));
                        assert(spec_read_entries(b_pos, header, acc) == spec_read_entries(
                            bytes@.skip(n as int),
                            header,
                            acc.push(e@),
                        ));
                    }
                    entries.push(e);
                    pos = n;
                },
            }
        }
        proof {
            assert(bytes@.skip(pos as int).len() == 0);
            assert(spec_read_entries(bytes@.skip(pos as int), header, entries_view(entries@))
                == Ok::<Seq<EntryV>, ReadError>(entries_view(entries@)));
            lemma_read_entries_exact(bytes@.skip(12), header, Seq::empty());
        }
        let cache = DxvkStateCache { header, entries };
        proof {
            assert(cache@.entries =~= entries_view(cache.entries@));
        }
        Ok(cache)
    }
}

} // verus!
