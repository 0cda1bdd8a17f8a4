//! Merging several cache files into one.
//!
//! The first input fixes the output header; every further input must
//! carry the same version. Entries are read leniently: a truncated tail
//! ends a file's entries, an entry that fails the hash check (or cannot
//! take the output header's fixed payload size, in the Legacy edition)
//! is counted and omitted, and a hash seen before keeps its first
//! occurrence's position. A merge that gathers no entries fails.

use vstd::prelude::*;

use crate::cache::{contains_hash, entries_view, CacheV, DxvkStateCache};
use crate::entry::{
    entry_shaped, entry_valid, lemma_parse_entry_bounds, spec_parse_entry, DxvkStateCacheEntry,
    EntryV,
};
use crate::error::Error;
use crate::header::{
    spec_read_header, DxvkStateCacheEdition, DxvkStateCacheHeader, HeaderError,
};

verus! {

/// The running state of a merge: the header fixed by the first input,
/// the entries gathered so far, and one omitted-entry count per input
/// already read.
#[verifier::ext_equal]
pub struct MergeState {
    pub header: Option<DxvkStateCacheHeader>,
    pub entries: Seq<EntryV>,
    pub omitted: Seq<int>,
}

/// The values of a run of input files.
pub open spec fn inputs_view(inputs: Seq<Vec<u8>>) -> Seq<Seq<u8>> {
    inputs.map_values(|v: Vec<u8>| v@)
}

/// Lenient reading of a run of entries from `b`: parsed under the
/// file's own header `file_h`, gathered onto `acc` for a cache with
/// header `out_h`. Reading stops at the first spot where no whole
/// entry fits; an invalid or ill-fitting entry is counted in `omitted`;
/// a hash already gathered keeps its first occurrence.
pub open spec fn spec_merge_entries(
    b: Seq<u8>,
    file_h: DxvkStateCacheHeader,
    out_h: DxvkStateCacheHeader,
    acc: Seq<EntryV>,
    omitted: int,
) -> (Seq<EntryV>, int)
    decreases b.len(),
        via spec_merge_entries_decreases
{
    match spec_parse_entry(b, file_h) {
        None => (acc, omitted),
        Some((e, n)) => if !(entry_valid(e) && entry_shaped(e, out_h)) {
            spec_merge_entries(b.skip(n), file_h, out_h, acc, omitted + 1)
        } else if contains_hash(acc, e.hash) {
            spec_merge_entries(b.skip(n), file_h, out_h, acc, omitted)
        } else {
            spec_merge_entries(b.skip(n), file_h, out_h, acc.push(e), omitted)
        },
    }
}

#[via_fn]
proof fn spec_merge_entries_decreases(
    b: Seq<u8>,
    file_h: DxvkStateCacheHeader,
    out_h: DxvkStateCacheHeader,
    acc: Seq<EntryV>,
    omitted: int,
) {
    lemma_parse_entry_bounds(b, file_h);
}

/// One input file of a merge: its header is decoded and checked
/// against the state, then its entries are read leniently.
pub open spec fn spec_merge_step(file: Seq<u8>, st: MergeState) -> Result<MergeState, Error> {
    match spec_read_header(file) {
        Err(e) => Err(Error::ReadHeader(e)),
        Ok(h) => {
            if st.header matches Some(h0) && h0.version != h.version {
                Err(Error::VersionMismatch { expected: st.header->Some_0.version, found: h.version })
            } else {
                let out_h = if st.header is Some {
                    st.header->Some_0
                } else {
                    h
                };
                let (es, om) = spec_merge_entries(file.skip(12), h, out_h, st.entries, 0);
                Ok(MergeState { header: Some(out_h), entries: es, omitted: st.omitted.push(om) })
            }
        },
    }
}

/// A whole merge run over `inputs`, file by file.
pub open spec fn spec_merge_files(inputs: Seq<Seq<u8>>, st: MergeState) -> Result<
    MergeState,
    Error,
>
    decreases inputs.len(),
{
    if inputs.len() == 0 {
        Ok(st)
    } else {
        match spec_merge_step(inputs[0], st) {
            Err(e) => Err(e),
            Ok(st2) => spec_merge_files(inputs.skip(1), st2),
        }
    }
}

/// The outcome of merging `inputs`: the merged cache and one
/// omitted-entry count per input, or the first error. A merge that
/// gathers no entries fails.
pub open spec fn spec_merge_result(inputs: Seq<Seq<u8>>) -> Result<(CacheV, Seq<int>), Error> {
    let st0 = MergeState { header: None, entries: Seq::empty(), omitted: Seq::empty() };
    match spec_merge_files(inputs, st0) {
        Err(e) => Err(e),
        Ok(st) => if st.header is None || st.entries.len() == 0 {
            Err(Error::NoEntriesFound)
        } else {
            Ok((CacheV { header: st.header->Some_0, entries: st.entries }, st.omitted))
        },
    }
}

/// The header accumulator of a merge driven from outside: the list of
/// input names, the output name, and the header fixed by the first
/// input seen.
pub struct LegacyMergeConfig {
    pub files: Vec<String>,
    pub output: String,
    pub header_info: Option<DxvkStateCacheHeader>,
}

impl LegacyMergeConfig {
    /// Sets the header on first sight, and afterwards checks each
    /// further header's version against it: the first mismatch is a
    /// version-mismatch error naming both versions.
    pub fn check_header(&mut self, header: &DxvkStateCacheHeader) -> (r: Result<(), Error>)
        ensures
            final(self).files == old(self).files,
            final(self).output == old(self).output,
            old(self).header_info is None ==> r == Ok::<(), Error>(()) && final(self).header_info
                == Some(*header),
            old(self).header_info matches Some(h0) ==> final(self).header_info == Some(h0) && (
            if h0.version != header.version {
                r == Err::<(), Error>(
                    Error::VersionMismatch { expected: h0.version, found: header.version },
                )
            } else {
                r == Ok::<(), Error>(())
            }),
    {
        match &self.header_info {
            None => {
                self.header_info = Some(*header);
                Ok(())
            },
            Some(h0) => {
                if h0.version != header.version {
                    Err(Error::version_mismatch(h0.version, header.version))
                } else {
                    Ok(())
                }
            },
        }
    }

    /// The input file names.
    pub fn files(&self) -> (r: &Vec<String>)
        ensures
            *r == self.files,
    {
        &self.files
    }
}

/// The merge state that the running cache and counts stand for: no
/// header is fixed before the first input has been read.
pub open spec fn exec_merge_state(
    cache: DxvkStateCache,
    have_header: bool,
    omitted: Seq<usize>,
) -> MergeState {
    MergeState {
        header: if have_header {
            Some(cache.header)
        } else {
            None
        },
        entries: entries_view(cache.entries@),
        omitted: omitted.map_values(|x: usize| x as int),
    }
}

/// Merges the input files, each given as its full byte contents, into
/// one cache, returning it with one omitted-entry count per input.
pub fn merge(inputs: &Vec<Vec<u8>>) -> (r: Result<(DxvkStateCache, Vec<usize>), Error>)
    ensures
        match r {
            Ok((c, om)) => spec_merge_result(inputs_view(inputs@)) == Ok::<
                (CacheV, Seq<int>),
                Error,
            >((c@, om@.map_values(|x: usize| x as int))) && c.wf(),
            Err(e) => spec_merge_result(inputs_view(inputs@)) == Err::<
                (CacheV, Seq<int>),
                Error,
            >(e),
        },
{
    let ghost ivs = inputs_view(inputs@);
    let ghost st0 = MergeState { header: None, entries: Seq::empty(), omitted: Seq::empty() };
    let mut cache = DxvkStateCache { header: DxvkStateCacheHeader::new(1, 0), entries: Vec::new() };
    let mut have_header = false;
    let mut omitted: Vec<usize> = Vec::new();
    let mut fi: usize = 0;
    proof {
        assert(entries_view(cache.entries@) =~= Seq::<EntryV>::empty());
        assert(omitted@.map_values(|x: usize| x as int) =~= Seq::<int>::empty());
        assert(exec_merge_state(cache, have_header, omitted@) =~= st0);
        assert(ivs.skip(0) =~= ivs);
    }
    while fi < inputs.len()
        invariant
            fi <= inputs@.len(),
            ivs == inputs_view(inputs@),
            st0 == (MergeState { header: None, entries: Seq::<EntryV>::empty(), omitted: Seq::<
                int,
            >::empty() }),
            cache.wf(),
            !have_header ==> cache.entries@.len() == 0,
            omitted@.len() == fi,
            spec_merge_files(ivs, st0) == spec_merge_files(
                ivs.skip(fi as int),
                exec_merge_state(cache, have_header, omitted@),
            ),
        decreases inputs@.len() - fi,
    {
        proof {
            assert(ivs.skip(fi as int)[0] == ivs[fi as int]);
        }
        let ghost st_cur = exec_merge_state(cache, have_header, omitted@);
        let file = &inputs[fi];
        proof {
            assert(ivs[fi as int] == file@);
            assert(file@.skip(0) =~= file@);
        }
        let fh = match DxvkStateCacheHeader::from_reader(file, 0) {
            Err(e) => {
                proof {
                    assert(spec_merge_step(ivs[fi as int], st_cur) == Err::<MergeState, Error>(
                        Error::ReadHeader(e),
                    ));
                    assert(spec_merge_files(ivs.skip(fi as int), st_cur) == Err::<
                        MergeState,
                        Error,
                    >(Error::ReadHeader(e)));
                }
                return Err(Error::ReadHeader(e));
            },
            Ok((h, _)) => h,
        };
        if have_header {
            if cache.header.version != fh.version {
                proof {
                    assert(spec_merge_step(ivs[fi as int], st_cur) == Err::<MergeState, Error>(
                        Error::VersionMismatch {
                            expected: cache.header.version,
                            found: fh.version,
                        },
                    ));
                    assert(spec_merge_files(ivs.skip(fi as int), st_cur) == Err::<
                        MergeState,
                        Error,
                    >(Error::VersionMismatch {
                        expected: cache.header.version,
                        found: fh.version,
                    }));
                }
                return Err(Error::version_mismatch(cache.header.version, fh.version));
            }
        } else {
            cache.header = fh;
            have_header = true;
        }
        let out_h = cache.header;
        let ghost acc0 = entries_view(cache.entries@);
        let mut pos: usize = 12;
        let mut om: usize = 0;
        let ghost flen = file@.len() as int;
        proof {
            assert(spec_read_header(file@) == Ok::<DxvkStateCacheHeader, HeaderError>(fh));
            assert(flen >= 12);
        }
        loop
            invariant
                cache.wf(),
                cache.header == out_h,
                have_header,
                fh.version == out_h.version,
                12 <= pos <= flen,
                flen == file@.len(),
                20 * (om as int) <= pos - 12,
                spec_merge_entries(file@.skip(12), fh, out_h, acc0, 0) == spec_merge_entries(
                    file@.skip(pos as int),
                    fh,
                    out_h,
                    entries_view(cache.entries@),
                    om as int,
                ),
            ensures
                cache.wf(),
                cache.header == out_h,
                have_header,
                spec_merge_entries(file@.skip(12), fh, out_h, acc0, 0) == (
                    entries_view(cache.entries@),
                    om as int,
                ),
            decreases flen - pos,
        {
            let ghost b_pos = file@.skip(pos as int);
            let parsed = DxvkStateCacheEntry::parse_from(file, pos, &fh);
            match parsed {
                None => {
                    proof {
                        assert(spec_merge_entries(b_pos, fh, out_h, entries_view(cache.entries@),
                            om as int) == (entries_view(cache.entries@), om as int));
                    }
                    break;
                },
                Some((e, n)) => {
                    proof {
                        lemma_parse_entry_bounds(b_pos, fh);
                        assert(b_pos.skip(n - pos as int) =~= file@.skip(n as int));
                    }
                    let valid = e.is_valid();
                    let edition_standard = match out_h.edition() {
                        DxvkStateCacheEdition::Standard => true,
                        DxvkStateCacheEdition::Legacy => false,
                    };
                    let insertable = valid && (edition_standard || fh.entry_size
                        == out_h.entry_size);
                    proof {
                        assert(fh.version == out_h.version);
                        assert(entry_shaped(e@, fh));
                        if insertable {
                            assert(entry_shaped(e@, out_h));
                        } else {
                            assert(!(entry_valid(e@) && entry_shaped(e@, out_h)));
                        }
                    }
                    if insertable {
                        let ghost pre = entries_view(cache.entries@);
                        let _ = cache.insert_silent(e);
                        proof {
                            assert(spec_merge_entries(b_pos, fh, out_h, pre, om as int)
                                == spec_merge_entries(file@.skip(n as int), fh, out_h,
                                entries_view(cache.entries@), om as int));
                        }
                    } else {
                        om = om + 1;
                        proof {
                            assert(spec_merge_entries(b_pos, fh, out_h,
                                entries_view(cache.entries@), om as int - 1)
                                == spec_merge_entries(file@.skip(n as int), fh, out_h,
                                entries_view(cache.entries@), om as int));
                        }
                    }
                    pos = n;
                },
            }
        }
        omitted.push(om);
        fi = fi + 1;
        proof {
            let st_next = exec_merge_state(cache, have_header, omitted@);
            assert(omitted@.map_values(|x: usize| x as int) =~= st_cur.omitted.push(om as int));
            assert(spec_merge_step(ivs[fi as int - 1], st_cur) == Ok::<MergeState, Error>(st_next))
                by {
                assert(spec_read_header(ivs[fi as int - 1]) == Ok::<
                    DxvkStateCacheHeader,
                    HeaderError,
                >(fh));
                assert(st_next =~= MergeState {
                    header: Some(out_h),
                    entries: spec_merge_entries(
                        ivs[fi as int - 1].skip(12),
                        fh,
                        out_h,
                        st_cur.entries,
                        0,
                    ).0,
                    omitted: st_cur.omitted.push(
                        spec_merge_entries(
                            ivs[fi as int - 1].skip(12),
                            fh,
                            out_h,
                            st_cur.entries,
                            0,
                        ).1,
                    ),
                });
            }
            assert(ivs.skip(fi as int - 1).skip(1) =~= ivs.skip(fi as int));
            assert(ivs.skip(fi as int - 1)[0] == ivs[fi as int - 1]);
        }
    }
    proof {
        assert(ivs.skip(fi as int).len() == 0);
    }
    if !have_header {
        return Err(Error::NoEntriesFound);
    }
    if cache.entries.len() == 0 {
        return Err(Error::NoEntriesFound);
    }
    Ok((cache, omitted))
}

} // verus!
