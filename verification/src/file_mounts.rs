//! The mount-reporting entry point: resolve every requested path to its
//! datasets of interest, for display of the mounts themselves rather than of
//! version histories.

use vstd::prelude::*;
use crate::config::{AliasEntry, DatasetCollection, MountDisplay};
use crate::data::{views_of, PathData, PathDataV};
use crate::mounts::DatasetMetadata;
use crate::results::{HttmError, HttmErrorKind, HttmResult};
use crate::text::str_eq;
use crate::versions::{opt_entries, spec_resolve, ProximateDatasetAndOptAlts, ResolvedV};

verus! {

/// The views of a sequence of resolved datasets.
pub open spec fn rv_views(s: Seq<ProximateDatasetAndOptAlts>) -> Seq<ResolvedV> {
    s.map_values(|p: ProximateDatasetAndOptAlts| p@)
}

/// The resolutions of the paths, in input order, skipping paths whose
/// filesystem is unsupported.
pub open spec fn spec_mounts_list(
    paths: Seq<PathDataV>,
    datasets: Seq<(String, DatasetMetadata)>,
    aliases: Option<Seq<(String, AliasEntry)>>,
    alts: Option<Seq<(String, Vec<String>)>>,
) -> Seq<ResolvedV>
    decreases paths.len(),
{
    if paths.len() == 0 {
        Seq::<ResolvedV>::empty()
    } else {
        spec_mounts_list(paths.drop_last(), datasets, aliases, alts) + (match spec_resolve(
            paths.last(),
            datasets,
            aliases,
            alts,
        ) {
            Option::Some(r) => seq![r],
            Option::None => Seq::<ResolvedV>::empty(),
        })
    }
}

/// Drop resolutions whose record already occurred: one entry per distinct
/// input record, the first occurrence winning. Equal records resolve alike,
/// so this is exactly the set of distinct resolutions.
pub open spec fn spec_dedup_mounts(s: Seq<ResolvedV>) -> Seq<ResolvedV>
    decreases s.len(),
{
    if s.len() == 0 {
        Seq::<ResolvedV>::empty()
    } else {
        let pre = spec_dedup_mounts(s.drop_last());
        if exists|j: int| 0 <= j < s.len() - 1 && (#[trigger] s[j]).pathdata == s.last().pathdata {
            pre
        } else {
            pre.push(s.last())
        }
    }
}

/// Some resolution in `s` is for the record `p`.
pub open spec fn has_record(s: Seq<ResolvedV>, p: PathDataV) -> bool {
    exists|j: int| 0 <= j < s.len() && (#[trigger] s[j]).pathdata == p
}

/// Deduplication keeps exactly the records that were there.
proof fn lemma_dedup_mounts_keys(s: Seq<ResolvedV>)
    ensures
        forall|p: PathDataV| #[trigger]
            has_record(spec_dedup_mounts(s), p) == has_record(s, p),
    decreases s.len(),
{
    if s.len() == 0 {
        assert forall|p: PathDataV| #[trigger]
            has_record(spec_dedup_mounts(s), p) == has_record(s, p) by {
            assert(!has_record(s, p));
            assert(!has_record(spec_dedup_mounts(s), p));
        }
    } else {
        lemma_dedup_mounts_keys(s.drop_last());
        let pre = spec_dedup_mounts(s.drop_last());
        let d = spec_dedup_mounts(s);
        assert(forall|j: int| 0 <= j < s.len() - 1 ==> s.drop_last()[j] == s[j]);
        assert forall|p: PathDataV| #[trigger] has_record(d, p) == has_record(s, p) by {
            if exists|j: int|
                0 <= j < s.len() - 1 && (#[trigger] s[j]).pathdata == s.last().pathdata {
                assert(d == pre);
                if has_record(s, p) {
                    let j = choose|j: int| 0 <= j < s.len() && (#[trigger] s[j]).pathdata == p;
                    if j == s.len() - 1 {
                        let w = choose|w: int|
                            0 <= w < s.len() - 1 && (#[trigger] s[w]).pathdata
                                == s.last().pathdata;
                        assert(s.drop_last()[w].pathdata == p);
                        assert(has_record(s.drop_last(), p));
                    } else {
                        assert(s.drop_last()[j].pathdata == p);
                        assert(has_record(s.drop_last(), p));
                    }
                    assert(has_record(pre, p));
                }
                if has_record(pre, p) {
                    let k = choose|k: int|
                        0 <= k < s.drop_last().len() && (#[trigger] s.drop_last()[k]).pathdata
                            == p;
                    assert(s[k].pathdata == p);
                    assert(has_record(s, p));
                }
            } else {
                assert(d == pre.push(s.last()));
                if has_record(s, p) {
                    let j = choose|j: int| 0 <= j < s.len() && (#[trigger] s[j]).pathdata == p;
                    if j == s.len() - 1 {
                        assert(d[d.len() - 1].pathdata == p);
                        assert(has_record(d, p));
                    } else {
                        assert(s.drop_last()[j].pathdata == p);
                        assert(has_record(s.drop_last(), p));
                        assert(has_record(pre, p));
                        let k = choose|k: int|
                            0 <= k < pre.len() && (#[trigger] pre[k]).pathdata == p;
                        assert(d[k] == pre[k]);
                        assert(d[k].pathdata == p);
                        assert(has_record(d, p));
                    }
                }
                if has_record(d, p) {
                    let k = choose|k: int| 0 <= k < d.len() && (#[trigger] d[k]).pathdata == p;
                    if k == d.len() - 1 {
                        assert(s[s.len() - 1].pathdata == p);
                        assert(has_record(s, p));
                    } else {
                        assert(pre[k].pathdata == p);
                        assert(has_record(pre, p));
                        let j = choose|j: int|
                            0 <= j < s.drop_last().len() && (#[trigger] s.drop_last()[j]).pathdata
                                == p;
                        assert(s[j].pathdata == p);
                        assert(has_record(s, p));
                    }
                }
            }
        }
    }
}

/// Equality of two records, on both path and captured metadata.
fn pathdata_eq(a: &PathData, b: &PathData) -> (r: bool)
    ensures
        r == (a@ == b@),
{
    let md_same = match (&a.metadata, &b.metadata) {
        (None, None) => true,
        (Some(x), Some(y)) => x.modify_time == y.modify_time && x.size == y.size && x.content_id
            == y.content_id,
        _ => false,
    };
    let path_same = str_eq(a.path.as_str(), b.path.as_str());
    proof {
        if md_same && path_same {
            assert(a@ =~= b@);
        }
    }
    md_same && path_same
}

/// The resolved mounts for a set of requested paths, and the aspect of them
/// the caller wants displayed.
#[derive(Debug)]
pub struct MountsForFiles {
    pub inner: Vec<ProximateDatasetAndOptAlts>,
    pub mount_display: MountDisplay,
}

impl MountsForFiles {
    /// The aspect of the mounts to display.
    pub fn mount_display(&self) -> (r: MountDisplay)
        ensures
            r == self.mount_display,
    {
        self.mount_display
    }

    /// Resolve every requested path, skipping paths on unsupported
    /// filesystems, one entry per distinct record in input order. Fails
    /// exactly when nothing resolved at all, or when none of the requested
    /// records exists live.
    pub fn new(
        mount_display: MountDisplay,
        paths: &Vec<PathData>,
        collection: &DatasetCollection,
    ) -> (r: HttmResult<MountsForFiles>)
        ensures
            ({
                let resolved = spec_dedup_mounts(
                    spec_mounts_list(
                        views_of(paths@),
                        collection.map_of_datasets@,
                        opt_entries(collection.opt_map_of_aliases),
                        opt_entries(collection.opt_map_of_alts),
                    ),
                );
                let failed = resolved.len() == 0 || (forall|i: int|
                    0 <= i < resolved.len() ==> (#[trigger] resolved[i]).pathdata.metadata
                        is None);
                if failed {
                    r is Err && r->Err_0.kind == HttmErrorKind::MountsUnresolved
                } else {
                    r is Ok && rv_views(r->Ok_0.inner@) == resolved && r->Ok_0.mount_display
                        == mount_display
                }
            }),
    {
        let ghost datasets = collection.map_of_datasets@;
        let ghost aliases = opt_entries(collection.opt_map_of_aliases);
        let ghost alts = opt_entries(collection.opt_map_of_alts);
        let ghost pv = views_of(paths@);
        let mut inner: Vec<ProximateDatasetAndOptAlts> = Vec::new();
        let mut i: usize = 0;
        proof {
            assert(pv.take(0) =~= Seq::<PathDataV>::empty());
            assert(rv_views(inner@) =~~= spec_dedup_mounts(
                spec_mounts_list(pv.take(0), datasets, aliases, alts),
            ));
        }
        while i < paths.len()
            invariant
                i <= paths@.len(),
                pv == views_of(paths@),
                datasets == collection.map_of_datasets@,
                aliases == opt_entries(collection.opt_map_of_aliases),
                alts == opt_entries(collection.opt_map_of_alts),
                rv_views(inner@) == spec_dedup_mounts(
                    spec_mounts_list(pv.take(i as int), datasets, aliases, alts),
                ),
            decreases paths@.len() - i,
        {
            let ghost pre_list = spec_mounts_list(pv.take(i as int), datasets, aliases, alts);
            let ghost cur_list = spec_mounts_list(pv.take(i + 1), datasets, aliases, alts);
            proof {
                assert(pv.take(i + 1).drop_last() =~= pv.take(i as int));
                assert(pv.take(i + 1).last() == pv[i as int]);
                assert(pv[i as int] == paths@[i as int]@);
            }
            match ProximateDatasetAndOptAlts::new(&paths[i], collection) {
                Ok(prox) => {
                    proof {
                        assert(cur_list =~~= pre_list.push(prox@));
                    }
                    let mut dup: bool = false;
                    let mut k: usize = 0;
                    while k < inner.len()
                        invariant
                            k <= inner@.len(),
                            dup == exists|t: int|
                                0 <= t < k && (#[trigger] rv_views(inner@)[t]).pathdata
                                    == prox@.pathdata,
                        decreases inner@.len() - k,
                    {
                        let same = pathdata_eq(&inner[k].pathdata, &prox.pathdata);
                        proof {
                            assert(rv_views(inner@)[k as int] == inner@[k as int]@);
                            if same {
                                assert(rv_views(inner@)[k as int].pathdata == prox@.pathdata);
                            }
                        }
                        if same {
                            dup = true;
                        }
                        k = k + 1;
                    }
                    let ghost old_views = rv_views(inner@);
                    proof {
                        lemma_dedup_mounts_keys(pre_list);
                        assert(dup == has_record(old_views, prox@.pathdata));
                        assert(has_record(old_views, prox@.pathdata) == has_record(
                            pre_list,
                            prox@.pathdata,
                        ));
                        if has_record(pre_list, prox@.pathdata) {
                            assert(exists|j: int|
                                0 <= j < cur_list.len() - 1 && (#[trigger] cur_list[j]).pathdata
                                    == cur_list.last().pathdata) by {
                                let j = choose|j: int|
                                    0 <= j < pre_list.len() && (#[trigger] pre_list[j]).pathdata
                                        == prox@.pathdata;
                                assert(cur_list[j].pathdata == cur_list.last().pathdata);
                            }
                        } else {
                            assert forall|j: int|
                                0 <= j < cur_list.len() - 1 implies (
                            #[trigger] cur_list[j]).pathdata != cur_list.last().pathdata by {
                                if cur_list[j].pathdata == prox@.pathdata {
                                    assert(pre_list[j].pathdata == prox@.pathdata);
                                    assert(has_record(pre_list, prox@.pathdata));
                                }
                            }
                        }
                    }
                    if !dup {
                        inner.push(prox);
                        proof {
                            assert(cur_list.drop_last() =~~= pre_list);
                            assert(rv_views(inner@) =~~= old_views.push(cur_list.last()));
                            assert(rv_views(inner@) =~~= spec_dedup_mounts(cur_list));
                        }
                    } else {
                        proof {
                            assert(cur_list.drop_last() =~~= pre_list);
                            assert(spec_dedup_mounts(cur_list) == spec_dedup_mounts(pre_list));
                            assert(rv_views(inner@) =~~= spec_dedup_mounts(cur_list));
                        }
                    }
                },
                Err(_) => {
                    proof {
                        assert(cur_list =~~= pre_list);
                        assert(spec_dedup_mounts(cur_list) == spec_dedup_mounts(pre_list));
                        assert(rv_views(inner@) =~~= spec_dedup_mounts(cur_list));
                    }
                },
            }
            i = i + 1;
        }
        proof {
            assert(pv.take(pv.len() as int) =~= pv);
        }
        let ghost resolved = spec_dedup_mounts(spec_mounts_list(pv, datasets, aliases, alts));
        let mut all_phantom: bool = true;
        let mut j: usize = 0;
        while j < inner.len()
            invariant
                j <= inner@.len(),
                rv_views(inner@) == resolved,
                all_phantom == (forall|t: int|
                    0 <= t < j ==> (#[trigger] rv_views(inner@)[t]).pathdata.metadata is None),
            decreases inner@.len() - j,
        {
            proof {
                assert(rv_views(inner@)[j as int] == inner@[j as int]@);
            }
            if inner[j].pathdata.metadata.is_some() {
                all_phantom = false;
            }
            j = j + 1;
        }
        if inner.len() == 0 || all_phantom {
            return Err(HttmError::new(HttmErrorKind::MountsUnresolved));
        }
        Ok(MountsForFiles { inner, mount_display })
    }
}

} // verus!
