//! The version aggregator: per input path, resolve its datasets, probe every
//! snapshot root for a historical copy, then order and deduplicate what was
//! found and apply the post-processing policies.

use rayon::iter::{IntoParallelRefIterator, ParallelIterator};
use vstd::prelude::*;
use vstd::relations::sorted_by;
use vstd::seq_lib::lemma_sorted_unique;
use vstd::multiset::Multiset;
use crate::assoc::{assoc_index, best_prefix, best_prefix_index, clone_strings, find_entry,
    lemma_best_prefix_props, string_views};
use crate::config::{AliasEntry, Config, DatasetCollection, LastSnapMode};
use crate::data::{policy_eq, policy_eq_exec, spec_probe, version_le, version_le_exec,
    version_le_fn, views_of, lemma_version_le_refl, lemma_version_le_total,
    lemma_version_le_total_ordering, lemma_version_le_trans, ListSnapsOfType, PathData, PathDataV,
    ProbeOutcome, ProbeTable};
use crate::data::{md_eq, md_eq_exec, path_le, path_le_exec, path_le_fn, lemma_path_le_refl,
    lemma_path_le_total, lemma_path_le_total_ordering, lemma_path_le_trans};
use crate::mounts::DatasetMetadata;
use crate::results::{HttmError, HttmErrorKind, HttmResult};
use crate::text::{is_path_prefix, path_join, path_prefix_of, relative_of, spec_path_join, str_eq,
    spec_relative_of};

verus! {

broadcast use {vstd::seq_lib::group_to_multiset_ensures, vstd::multiset::group_multiset_axioms};

/// The canonical ascending arrangement of a collection of version records.
pub open spec fn spec_sort_versions(s: Seq<PathDataV>) -> Seq<PathDataV> {
    s.sort_by(version_le_fn())
}

proof fn lemma_views_push(s: Seq<PathData>, x: PathData)
    ensures
        views_of(s.push(x)) =~= views_of(s).push(x@),
{
}

proof fn lemma_views_remove(s: Seq<PathData>, i: int)
    requires
        0 <= i < s.len(),
    ensures
        views_of(s.remove(i)) =~= views_of(s).remove(i),
{
    s.remove_ensures(i);
    views_of(s).remove_ensures(i);
}

proof fn lemma_multiset_transfer(a: Multiset<PathDataV>, b: Multiset<PathDataV>, x: PathDataV)
    requires
        b.count(x) > 0,
    ensures
        a.insert(x).add(b.remove(x)) =~= a.add(b),
{
}

/// Sort version records ascending under the version order. The order is total,
/// so the sorted arrangement stated here is unique.
pub fn sort_versions(v: Vec<PathData>) -> (r: Vec<PathData>)
    ensures
        views_of(r@) == spec_sort_versions(views_of(v@)),
        r@.len() == v@.len(),
{
    let ghost total: Seq<PathDataV> = views_of(v@);
    let mut rest = v;
    let mut out: Vec<PathData> = Vec::new();
    proof {
        assert(views_of(out@) =~= Seq::<PathDataV>::empty());
        assert(views_of(out@).to_multiset().add(views_of(rest@).to_multiset())
            =~= total.to_multiset());
    }
    while rest.len() > 0
        invariant
            sorted_by(views_of(out@), version_le_fn()),
            views_of(out@).to_multiset().add(views_of(rest@).to_multiset())
                == total.to_multiset(),
            out@.len() + rest@.len() == total.len(),
            total == views_of(v@),
            forall|i: int, j: int|
                0 <= i < out@.len() && 0 <= j < rest@.len() ==> #[trigger] version_le(
                    out@[i]@,
                    rest@[j]@,
                ),
        decreases rest.len(),
    {
        let mut min_i: usize = 0;
        let mut k: usize = 1;
        proof {
            lemma_version_le_refl(rest@[0]@);
        }
        while k < rest.len()
            invariant
                min_i < k,
                k <= rest@.len(),
                rest@.len() > 0,
                forall|t: int| 0 <= t < k ==> #[trigger] version_le(rest@[min_i as int]@, rest@[t]@),
            decreases rest@.len() - k,
        {
            if version_le_exec(&rest[k], &rest[min_i]) {
                proof {
                    assert forall|t: int| 0 <= t < k + 1 implies #[trigger] version_le(
                        rest@[k as int]@,
                        rest@[t]@,
                    ) by {
                        if t < k {
                            lemma_version_le_trans(rest@[k as int]@, rest@[min_i as int]@, rest@[t]@);
                        } else {
                            lemma_version_le_refl(rest@[k as int]@);
                        }
                    }
                }
                min_i = k;
            } else {
                proof {
                    lemma_version_le_total(rest@[min_i as int]@, rest@[k as int]@);
                }
            }
            k = k + 1;
        }
        let ghost old_out = out@;
        let ghost old_rest = rest@;
        let x = rest.remove(min_i);
        out.push(x);
        proof {
            lemma_views_remove(old_rest, min_i as int);
            lemma_views_push(old_out, x);
            let ov = views_of(old_out);
            let rv = views_of(old_rest);
            let xv = x@;
            assert(views_of(out@) =~= ov.push(xv));
            assert(views_of(rest@) =~= rv.remove(min_i as int));
            assert(rv[min_i as int] == xv);
            assert(rv.to_multiset().count(xv) > 0) by {
                assert(rv.contains(xv));
            }
            assert(ov.push(xv).to_multiset() =~= ov.to_multiset().insert(xv));
            assert(rv.remove(min_i as int).to_multiset() =~= rv.to_multiset().remove(xv));
            lemma_multiset_transfer(ov.to_multiset(), rv.to_multiset(), xv);
            assert(views_of(out@).to_multiset().add(views_of(rest@).to_multiset())
                =~= total.to_multiset());
            // the pushed element keeps the output sorted and below the rest
            assert forall|i: int, j: int|
                0 <= i < j < views_of(out@).len() implies #[trigger] version_le_fn()(
                views_of(out@)[i],
                views_of(out@)[j],
            ) by {
                if j < ov.len() {
                    assert(version_le_fn()(ov[i], ov[j]));
                } else {
                    assert(views_of(out@)[j] == xv);
                    assert(version_le(ov[i], rv[min_i as int]));
                }
            }
            assert forall|i: int, j: int|
                0 <= i < out@.len() && 0 <= j < rest@.len() implies #[trigger] version_le(
                out@[i]@,
                rest@[j]@,
            ) by {
                old_rest.remove_ensures(min_i as int);
                let j_orig: int = if j < min_i as int {
                    j
                } else {
                    j + 1
                };
                assert(rest@[j] == old_rest[j_orig]);
                if i < old_out.len() {
                    assert(version_le(old_out[i]@, old_rest[j_orig]@));
                } else {
                    assert(out@[i] == x);
                    assert(version_le(rv[min_i as int], rv[j_orig]));
                }
            }
        }
    }
    proof {
        assert(views_of(rest@) =~= Seq::<PathDataV>::empty());
        assert(views_of(out@).to_multiset() =~= total.to_multiset());
        lemma_version_le_total_ordering();
        total.lemma_sort_by_ensures(version_le_fn());
        lemma_sorted_unique(views_of(out@), spec_sort_versions(total), version_le_fn());
        assert(views_of(out@).len() == views_of(out@).to_multiset().len());
        assert(total.len() == total.to_multiset().len());
    }
    out
}

/// Collapse immediately-adjacent records that the uniqueness policy considers
/// the same, keeping the earliest of each equal run.
pub open spec fn spec_dedup_adjacent(s: Seq<PathDataV>, u: ListSnapsOfType) -> Seq<PathDataV>
    decreases s.len(),
{
    if s.len() <= 1 {
        s
    } else if policy_eq(u, s[s.len() - 2], s[s.len() - 1]) {
        spec_dedup_adjacent(s.drop_last(), u)
    } else {
        spec_dedup_adjacent(s.drop_last(), u).push(s.last())
    }
}

pub fn dedup_adjacent(v: Vec<PathData>, uniqueness: &ListSnapsOfType) -> (r: Vec<PathData>)
    ensures
        views_of(r@) == spec_dedup_adjacent(views_of(v@), *uniqueness),
{
    let mut out: Vec<PathData> = Vec::new();
    let mut i: usize = 0;
    proof {
        assert(views_of(v@).take(0) =~= Seq::<PathDataV>::empty());
        assert(views_of(out@) =~= spec_dedup_adjacent(views_of(v@).take(0), *uniqueness));
    }
    while i < v.len()
        invariant
            i <= v@.len(),
            views_of(out@) == spec_dedup_adjacent(views_of(v@).take(i as int), *uniqueness),
        decreases v@.len() - i,
    {
        let keep: bool = if i == 0 {
            true
        } else {
            !policy_eq_exec(uniqueness, &v[i - 1], &v[i])
        };
        let ghost old_out = views_of(out@);
        if keep {
            let item = v[i].duplicate();
            out.push(item);
        }
        proof {
            let vs = views_of(v@);
            let pre = vs.take(i as int);
            let cur = vs.take(i + 1);
            assert(cur.drop_last() =~= pre);
            assert(cur.last() == vs[i as int]);
            if i == 0 {
                assert(cur.len() == 1);
                assert(spec_dedup_adjacent(cur, *uniqueness) =~= cur);
                assert(views_of(out@) =~= old_out.push(vs[0]));
                assert(views_of(out@) =~= cur);
            } else {
                assert(cur[cur.len() - 2] == vs[i - 1]);
                if keep {
                    assert(views_of(out@) =~= old_out.push(vs[i as int]));
                } else {
                    assert(views_of(out@) == old_out);
                }
            }
        }
        i = i + 1;
    }
    proof {
        assert(views_of(v@).take(v@.len() as int) =~= views_of(v@));
    }
    out
}

/// Sorting then collapsing adjacent equals: the processed version list.
pub open spec fn spec_process_versions(s: Seq<PathDataV>, u: ListSnapsOfType) -> Seq<PathDataV> {
    spec_dedup_adjacent(spec_sort_versions(s), u)
}


/// The per-path, per-search-mode output of the dataset resolver: the proximate
/// dataset for a path, the path's suffix below it, and the replicated datasets
/// to search as well, where alternate search is requested and any exist.
#[derive(Clone, Debug)]
pub struct ProximateDatasetAndOptAlts {
    pub pathdata: PathData,
    pub proximate_dataset: String,
    pub relative_path: String,
    pub opt_alts: Option<Vec<String>>,
}

/// Mathematical image of a resolved dataset.
#[verifier::ext_equal]
pub struct ResolvedV {
    pub pathdata: PathDataV,
    pub proximate_dataset: Seq<char>,
    pub relative_path: Seq<char>,
    pub opt_alts: Option<Seq<Seq<char>>>,
}

impl View for ProximateDatasetAndOptAlts {
    type V = ResolvedV;

    open spec fn view(&self) -> ResolvedV {
        ResolvedV {
            pathdata: self.pathdata@,
            proximate_dataset: self.proximate_dataset@,
            relative_path: self.relative_path@,
            opt_alts: match self.opt_alts {
                Option::Some(v) => Some(string_views(v@)),
                Option::None => None,
            },
        }
    }
}

/// Resolution of one path against the read-only maps: the alias target if an
/// alias prefix matches, else the longest dataset mount prefix; the declared
/// or computed relative path; and the alternates bound to the proximate mount.
/// `None` when no ancestor of the path is a recognized mount, or when an alias
/// target without a declared relative path is not a prefix of the path.
pub open spec fn spec_resolve(
    pd: PathDataV,
    datasets: Seq<(String, DatasetMetadata)>,
    aliases: Option<Seq<(String, AliasEntry)>>,
    alts: Option<Seq<(String, Vec<String>)>>,
) -> Option<ResolvedV> {
    let opt_alias: Option<AliasEntry> = match aliases {
        Option::None => None,
        Option::Some(am) => match best_prefix(am, pd.path) {
            Option::Some(i) => Some(am[i].1),
            Option::None => None,
        },
    };
    let opt_prox: Option<Seq<char>> = match opt_alias {
        Option::Some(a) => Some(a.proximate_dataset@),
        Option::None => match best_prefix(datasets, pd.path) {
            Option::Some(j) => Some(datasets[j].0@),
            Option::None => None,
        },
    };
    match opt_prox {
        Option::None => None,
        Option::Some(prox) => {
            let opt_rel: Option<Seq<char>> = match opt_alias {
                Option::Some(a) => match a.opt_relative_path {
                    Option::Some(r) => Some(r@),
                    Option::None => if path_prefix_of(prox, pd.path) {
                        Some(spec_relative_of(prox, pd.path))
                    } else {
                        None
                    },
                },
                Option::None => Some(spec_relative_of(prox, pd.path)),
            };
            match opt_rel {
                Option::None => None,
                Option::Some(rel) => Some(
                    ResolvedV {
                        pathdata: pd,
                        proximate_dataset: prox,
                        relative_path: rel,
                        opt_alts: match alts {
                            Option::None => None,
                            Option::Some(m) => match find_entry(m, prox) {
                                Option::Some(v) => Some(string_views(v@)),
                                Option::None => None,
                            },
                        },
                    },
                ),
            }
        },
    }
}

/// The view of an optional map.
pub open spec fn opt_entries<V>(o: Option<Vec<(String, V)>>) -> Option<Seq<(String, V)>> {
    match o {
        Option::Some(v) => Some(v@),
        Option::None => None,
    }
}

impl ProximateDatasetAndOptAlts {
    /// Resolve `pathdata` against the collection's maps. Fails exactly when no
    /// resolution exists, and the caller then skips this path with a warning.
    pub fn new(pathdata: &PathData, collection: &DatasetCollection) -> (r: HttmResult<
        ProximateDatasetAndOptAlts,
    >)
        ensures
            r is Ok <==> spec_resolve(
                pathdata@,
                collection.map_of_datasets@,
                opt_entries(collection.opt_map_of_aliases),
                opt_entries(collection.opt_map_of_alts),
            ) is Some,
            r is Ok ==> r->Ok_0@ == spec_resolve(
                pathdata@,
                collection.map_of_datasets@,
                opt_entries(collection.opt_map_of_aliases),
                opt_entries(collection.opt_map_of_alts),
            )->Some_0,
            r is Err ==> r->Err_0.kind == HttmErrorKind::DatasetUnresolved,
    {
        let opt_alias: Option<&AliasEntry> = match &collection.opt_map_of_aliases {
            Some(am) => match best_prefix_index(am, pathdata.path.as_str()) {
                Some(i) => Some(&am[i].1),
                None => None,
            },
            None => None,
        };
        let proximate_dataset: String = match &opt_alias {
            Some(a) => a.proximate_dataset.clone(),
            None => match best_prefix_index(&collection.map_of_datasets, pathdata.path.as_str()) {
                Some(j) => {
                    proof {
                        lemma_best_prefix_props(collection.map_of_datasets@, pathdata.path@);
                    }
                    collection.map_of_datasets[j].0.clone()
                },
                None => {
                    return Err(HttmError::new(HttmErrorKind::DatasetUnresolved));
                },
            },
        };
        let relative_path: String = match &opt_alias {
            Some(a) => match &a.opt_relative_path {
                Some(r) => r.clone(),
                None => {
                    if !is_path_prefix(proximate_dataset.as_str(), pathdata.path.as_str()) {
                        return Err(HttmError::new(HttmErrorKind::DatasetUnresolved));
                    }
                    relative_of(proximate_dataset.as_str(), pathdata.path.as_str())
                },
            },
            None => relative_of(proximate_dataset.as_str(), pathdata.path.as_str()),
        };
        let opt_alts: Option<Vec<String>> = match &collection.opt_map_of_alts {
            Some(m) => match assoc_index(m, proximate_dataset.as_str()) {
                Some(i) => Some(clone_strings(&m[i].1)),
                None => None,
            },
            None => None,
        };
        Ok(ProximateDatasetAndOptAlts {
            pathdata: pathdata.duplicate(),
            proximate_dataset,
            relative_path,
            opt_alts,
        })
    }

    /// The datasets to search for this path, alternates first, the proximate
    /// dataset always last.
    pub open spec fn spec_datasets_of_interest(r: ResolvedV) -> Seq<Seq<char>> {
        (match r.opt_alts {
            Option::Some(a) => a,
            Option::None => Seq::<Seq<char>>::empty(),
        }) + seq![r.proximate_dataset]
    }

    /// The mounts to search, in search order: every alternate dataset, then
    /// the proximate dataset.
    pub fn datasets_of_interest(&self) -> (r: Vec<String>)
        ensures
            string_views(r@) == Self::spec_datasets_of_interest(self@),
    {
        let mut out: Vec<String> = match &self.opt_alts {
            Some(a) => clone_strings(a),
            None => Vec::new(),
        };
        out.push(self.proximate_dataset.clone());
        proof {
            let alts = match self@.opt_alts {
                Option::Some(a) => a,
                Option::None => Seq::<Seq<char>>::empty(),
            };
            assert(string_views(out@) =~= alts + seq![self@.proximate_dataset]);
        }
        out
    }

    /// One search bundle for every dataset of interest that has snapshots in
    /// the snapshot index, in search order; a dataset without an index entry
    /// contributes none.
    pub fn into_search_bundles(&self, map_of_snaps: &Vec<(String, Vec<String>)>) -> (r: Vec<
        RelativePathAndSnapMounts,
    >)
        ensures
            bundle_views(r@) == spec_search_bundles(self@, map_of_snaps@),
    {
        let ds = self.datasets_of_interest();
        let mut out: Vec<RelativePathAndSnapMounts> = Vec::new();
        let mut i: usize = 0;
        let ghost dsv = string_views(ds@);
        proof {
            assert(dsv.skip(0) =~= dsv);
            assert(bundle_views(out@) + spec_bundles_from(
                dsv,
                self@.pathdata,
                self@.relative_path,
                map_of_snaps@,
            ) =~= spec_bundles_from(dsv, self@.pathdata, self@.relative_path, map_of_snaps@));
        }
        while i < ds.len()
            invariant
                i <= ds@.len(),
                dsv == string_views(ds@),
                bundle_views(out@) + spec_bundles_from(
                    dsv.skip(i as int),
                    self@.pathdata,
                    self@.relative_path,
                    map_of_snaps@,
                ) == spec_bundles_from(dsv, self@.pathdata, self@.relative_path, map_of_snaps@),
            decreases ds@.len() - i,
        {
            let ghost old_out = bundle_views(out@);
            proof {
                assert(dsv.skip(i as int)[0] == dsv[i as int]);
                assert(dsv.skip(i as int).skip(1) =~= dsv.skip(i + 1));
            }
            match assoc_index(map_of_snaps, ds[i].as_str()) {
                Some(j) => {
                    let bundle = RelativePathAndSnapMounts {
                        pathdata: self.pathdata.duplicate(),
                        relative_path: self.relative_path.clone(),
                        snap_mounts: clone_strings(&map_of_snaps[j].1),
                    };
                    proof {
                        assert(bundle@ == (BundleV {
                            pathdata: self@.pathdata,
                            relative_path: self@.relative_path,
                            snap_mounts: string_views(map_of_snaps@[j as int].1@),
                        }));
                    }
                    out.push(bundle);
                    proof {
                        assert(bundle_views(out@) =~= old_out.push((BundleV {
                            pathdata: self@.pathdata,
                            relative_path: self@.relative_path,
                            snap_mounts: string_views(map_of_snaps@[j as int].1@),
                        })));
                    }
                },
                None => {
                },
            }
            proof {
                assert(bundle_views(out@) + spec_bundles_from(
                    dsv.skip(i + 1),
                    self@.pathdata,
                    self@.relative_path,
                    map_of_snaps@,
                ) =~= spec_bundles_from(dsv, self@.pathdata, self@.relative_path, map_of_snaps@));
            }
            i = i + 1;
        }
        proof {
            assert(dsv.skip(i as int).len() == 0);
            assert(bundle_views(out@) + Seq::<BundleV>::empty() =~= bundle_views(out@));
        }
        out
    }
}

/// The relative suffix of one input path beneath a dataset, and the snapshot
/// roots to probe for that dataset.
#[derive(Clone, Debug)]
pub struct RelativePathAndSnapMounts {
    pub pathdata: PathData,
    pub relative_path: String,
    pub snap_mounts: Vec<String>,
}

/// Mathematical image of a search bundle.
#[verifier::ext_equal]
pub struct BundleV {
    pub pathdata: PathDataV,
    pub relative_path: Seq<char>,
    pub snap_mounts: Seq<Seq<char>>,
}

impl View for RelativePathAndSnapMounts {
    type V = BundleV;

    open spec fn view(&self) -> BundleV {
        BundleV {
            pathdata: self.pathdata@,
            relative_path: self.relative_path@,
            snap_mounts: string_views(self.snap_mounts@),
        }
    }
}

/// The views of a sequence of bundles.
pub open spec fn bundle_views(s: Seq<RelativePathAndSnapMounts>) -> Seq<BundleV> {
    s.map_values(|b: RelativePathAndSnapMounts| b@)
}

/// The search bundles for the datasets in `ds`, in order, skipping datasets
/// with no entry in the snapshot index.
pub open spec fn spec_bundles_from(
    ds: Seq<Seq<char>>,
    pd: PathDataV,
    rel: Seq<char>,
    snaps: Seq<(String, Vec<String>)>,
) -> Seq<BundleV>
    decreases ds.len(),
{
    if ds.len() == 0 {
        Seq::<BundleV>::empty()
    } else {
        (match find_entry(snaps, ds[0]) {
            Option::Some(mounts) => seq![
                BundleV { pathdata: pd, relative_path: rel, snap_mounts: string_views(mounts@) },
            ],
            Option::None => Seq::<BundleV>::empty(),
        }) + spec_bundles_from(ds.skip(1), pd, rel, snaps)
    }
}

/// The search bundles of a resolved dataset.
pub open spec fn spec_search_bundles(r: ResolvedV, snaps: Seq<(String, Vec<String>)>) -> Seq<
    BundleV,
> {
    spec_bundles_from(
        ProximateDatasetAndOptAlts::spec_datasets_of_interest(r),
        r.pathdata,
        r.relative_path,
        snaps,
    )
}


/// The candidate snapshot copies of a bundle's path: each snapshot root joined
/// with the bundle's relative path.
pub open spec fn spec_candidates(b: BundleV) -> Seq<Seq<char>> {
    b.snap_mounts.map_values(|m: Seq<char>| spec_path_join(m, b.relative_path))
}

/// Index of the first candidate whose probe came back permission-denied.
pub open spec fn first_denied(
    table: Seq<(String, ProbeOutcome)>,
    cands: Seq<Seq<char>>,
) -> Option<int>
    decreases cands.len(),
{
    if cands.len() == 0 {
        None
    } else if spec_probe(table, cands[0]) == ProbeOutcome::Denied {
        Some(0int)
    } else {
        match first_denied(table, cands.skip(1)) {
            Option::Some(i) => Some(i + 1),
            Option::None => None,
        }
    }
}

pub proof fn lemma_first_denied(table: Seq<(String, ProbeOutcome)>, cands: Seq<Seq<char>>)
    ensures
        match first_denied(table, cands) {
            Some(i) => 0 <= i < cands.len() && spec_probe(table, cands[i]) == ProbeOutcome::Denied
                && forall|j: int|
                0 <= j < i ==> #[trigger] spec_probe(table, cands[j]) != ProbeOutcome::Denied,
            None => forall|j: int|
                0 <= j < cands.len() ==> #[trigger] spec_probe(table, cands[j])
                    != ProbeOutcome::Denied,
        },
    decreases cands.len(),
{
    if cands.len() > 0 {
        lemma_first_denied(table, cands.skip(1));
        assert(forall|j: int| 0 <= j < cands.len() - 1 ==> cands.skip(1)[j] == cands[j + 1]);
        if spec_probe(table, cands[0]) == ProbeOutcome::Denied {
        } else {
            match first_denied(table, cands.skip(1)) {
                Some(i) => {
                    assert(first_denied(table, cands) == Some(i + 1));
                    assert(spec_probe(table, cands[i + 1]) == ProbeOutcome::Denied);
                    assert forall|j: int| 0 <= j < i + 1 implies #[trigger] spec_probe(
                        table,
                        cands[j],
                    ) != ProbeOutcome::Denied by {
                        if j > 0 {
                            assert(spec_probe(table, cands.skip(1)[j - 1]) != ProbeOutcome::Denied);
                        }
                    }
                },
                None => {
                    assert forall|j: int| 0 <= j < cands.len() implies #[trigger] spec_probe(
                        table,
                        cands[j],
                    ) != ProbeOutcome::Denied by {
                        if j > 0 {
                            assert(spec_probe(table, cands.skip(1)[j - 1]) != ProbeOutcome::Denied);
                        }
                    }
                },
            }
        }
    }
}

/// The version records found among the candidates, in candidate order: one
/// record per candidate whose probe found metadata.
pub open spec fn found_versions(
    table: Seq<(String, ProbeOutcome)>,
    cands: Seq<Seq<char>>,
) -> Seq<PathDataV>
    decreases cands.len(),
{
    if cands.len() == 0 {
        Seq::<PathDataV>::empty()
    } else {
        (match spec_probe(table, cands[0]) {
            ProbeOutcome::Found(md) => seq![
                PathDataV { path: cands[0], metadata: Some(md) },
            ],
            _ => Seq::<PathDataV>::empty(),
        }) + found_versions(table, cands.skip(1))
    }
}

impl RelativePathAndSnapMounts {
    /// Probe every snapshot root for a copy of this path, in snapshot order: a
    /// record for each candidate that was found, a silent skip for each that
    /// was missing, and an immediate permission error for the first candidate
    /// whose probe was denied.
    pub fn versions_unprocessed(&self, probes: &ProbeTable) -> (r: HttmResult<Vec<PathData>>)
        ensures
            match first_denied(probes.entries@, spec_candidates(self@)) {
                Some(i) => r is Err && r->Err_0.kind == HttmErrorKind::PermissionDenied
                    && r->Err_0.opt_path is Some && r->Err_0.opt_path->0@ == spec_candidates(
                    self@,
                )[i],
                None => r is Ok && views_of(r->Ok_0@) == found_versions(
                    probes.entries@,
                    spec_candidates(self@),
                ),
            },
    {
        let ghost cands = spec_candidates(self@);
        let ghost table = probes.entries@;
        let mut out: Vec<PathData> = Vec::new();
        let mut i: usize = 0;
        proof {
            lemma_first_denied(table, cands);
            assert(cands.skip(0) =~= cands);
        }
        while i < self.snap_mounts.len()
            invariant
                i <= self.snap_mounts@.len(),
                cands == spec_candidates(self@),
                cands.len() == self.snap_mounts@.len(),
                table == probes.entries@,
                forall|j: int|
                    0 <= j < i ==> #[trigger] spec_probe(table, cands[j]) != ProbeOutcome::Denied,
                views_of(out@) + found_versions(table, cands.skip(i as int)) == found_versions(
                    table,
                    cands,
                ),
            decreases self.snap_mounts@.len() - i,
        {
            let candidate = path_join(self.snap_mounts[i].as_str(), self.relative_path.as_str());
            proof {
                assert(candidate@ == cands[i as int]);
                assert(cands.skip(i as int)[0] == cands[i as int]);
                assert(cands.skip(i as int).skip(1) =~= cands.skip(i + 1));
            }
            let ghost old_out = views_of(out@);
            match probes.lookup(candidate.as_str()) {
                ProbeOutcome::Found(md) => {
                    out.push(PathData { path: candidate, metadata: Some(md) });
                    proof {
                        assert(views_of(out@) =~= old_out.push(
                            PathDataV { path: cands[i as int], metadata: Some(md) },
                        ));
                        assert(views_of(out@) + found_versions(table, cands.skip(i + 1))
                            =~= found_versions(table, cands));
                    }
                },
                ProbeOutcome::Missing => {
                    proof {
                        assert(views_of(out@) + found_versions(table, cands.skip(i + 1))
                            =~= found_versions(table, cands));
                    }
                },
                ProbeOutcome::Denied => {
                    proof {
                        lemma_first_denied(table, cands);
                        match first_denied(table, cands) {
                            Some(w) => {
                                if w < i {
                                    assert(spec_probe(table, cands[w]) != ProbeOutcome::Denied);
                                }
                                if w > i {
                                    assert(spec_probe(table, cands[i as int])
                                        != ProbeOutcome::Denied);
                                }
                            },
                            None => {
                                assert(spec_probe(table, cands[i as int]) != ProbeOutcome::Denied);
                            },
                        }
                    }
                    return Err(
                        HttmError::with_path(HttmErrorKind::PermissionDenied, candidate),
                    );
                },
            }
            i = i + 1;
        }
        proof {
            assert(cands.skip(i as int).len() == 0);
            assert(views_of(out@) + Seq::<PathDataV>::empty() =~= views_of(out@));
            lemma_first_denied(table, cands);
            if first_denied(table, cands) is Some {
                let w = first_denied(table, cands)->Some_0;
                assert(spec_probe(table, cands[w]) != ProbeOutcome::Denied);
            }
        }
        Ok(out)
    }

    /// The probed versions of this bundle, sorted ascending and collapsed
    /// under the uniqueness policy.
    pub fn versions_processed(&self, uniqueness: &ListSnapsOfType, probes: &ProbeTable) -> (r:
        HttmResult<Vec<PathData>>)
        ensures
            match first_denied(probes.entries@, spec_candidates(self@)) {
                Some(i) => r is Err && r->Err_0.kind == HttmErrorKind::PermissionDenied
                    && r->Err_0.opt_path is Some && r->Err_0.opt_path->0@ == spec_candidates(
                    self@,
                )[i],
                None => r is Ok && views_of(r->Ok_0@) == spec_process_versions(
                    found_versions(probes.entries@, spec_candidates(self@)),
                    *uniqueness,
                ),
            },
    {
        match self.versions_unprocessed(probes) {
            Ok(all_versions) => Ok(dedup_adjacent(sort_versions(all_versions), uniqueness)),
            Err(e) => Err(e),
        }
    }

    /// The most recent processed version, if any.
    pub fn last_version(&self, probes: &ProbeTable) -> (r: HttmResult<Option<PathData>>)
        ensures
            match first_denied(probes.entries@, spec_candidates(self@)) {
                Some(i) => r is Err,
                None => {
                    let processed = spec_process_versions(
                        found_versions(probes.entries@, spec_candidates(self@)),
                        ListSnapsOfType::All,
                    );
                    r is Ok && (match r->Ok_0 {
                        Option::Some(p) => processed.len() > 0 && p@ == processed.last(),
                        Option::None => processed.len() == 0,
                    })
                },
            },
    {
        let uniqueness = ListSnapsOfType::All;
        match self.versions_processed(&uniqueness, probes) {
            Ok(mut sorted_versions) => {
                let last = sorted_versions.pop();
                Ok(last)
            },
            Err(e) => Err(e),
        }
    }
}


/// The canonical map-key arrangement of a collection of records: ascending by
/// path.
pub open spec fn spec_sort_keys(s: Seq<PathDataV>) -> Seq<PathDataV> {
    s.sort_by(path_le_fn())
}

/// Sort records ascending under the map-keying order (by path).
pub fn sort_keys(v: Vec<PathData>) -> (r: Vec<PathData>)
    ensures
        views_of(r@) == spec_sort_keys(views_of(v@)),
        r@.len() == v@.len(),
{
    let ghost total: Seq<PathDataV> = views_of(v@);
    let mut rest = v;
    let mut out: Vec<PathData> = Vec::new();
    proof {
        assert(views_of(out@) =~= Seq::<PathDataV>::empty());
        assert(views_of(out@).to_multiset().add(views_of(rest@).to_multiset())
            =~= total.to_multiset());
    }
    while rest.len() > 0
        invariant
            sorted_by(views_of(out@), path_le_fn()),
            views_of(out@).to_multiset().add(views_of(rest@).to_multiset())
                == total.to_multiset(),
            out@.len() + rest@.len() == total.len(),
            total == views_of(v@),
            forall|i: int, j: int|
                0 <= i < out@.len() && 0 <= j < rest@.len() ==> #[trigger] path_le(
                    out@[i]@,
                    rest@[j]@,
                ),
        decreases rest.len(),
    {
        let mut min_i: usize = 0;
        let mut k: usize = 1;
        proof {
            lemma_path_le_refl(rest@[0]@);
        }
        while k < rest.len()
            invariant
                min_i < k,
                k <= rest@.len(),
                rest@.len() > 0,
                forall|t: int| 0 <= t < k ==> #[trigger] path_le(rest@[min_i as int]@, rest@[t]@),
            decreases rest@.len() - k,
        {
            if path_le_exec(&rest[k], &rest[min_i]) {
                proof {
                    assert forall|t: int| 0 <= t < k + 1 implies #[trigger] path_le(
                        rest@[k as int]@,
                        rest@[t]@,
                    ) by {
                        if t < k {
                            lemma_path_le_trans(rest@[k as int]@, rest@[min_i as int]@, rest@[t]@);
                        } else {
                            lemma_path_le_refl(rest@[k as int]@);
                        }
                    }
                }
                min_i = k;
            } else {
                proof {
                    lemma_path_le_total(rest@[min_i as int]@, rest@[k as int]@);
                }
            }
            k = k + 1;
        }
        let ghost old_out = out@;
        let ghost old_rest = rest@;
        let x = rest.remove(min_i);
        out.push(x);
        proof {
            lemma_views_remove(old_rest, min_i as int);
            lemma_views_push(old_out, x);
            let ov = views_of(old_out);
            let rv = views_of(old_rest);
            let xv = x@;
            assert(views_of(out@) =~= ov.push(xv));
            assert(views_of(rest@) =~= rv.remove(min_i as int));
            assert(rv[min_i as int] == xv);
            assert(rv.to_multiset().count(xv) > 0) by {
                assert(rv.contains(xv));
            }
            assert(ov.push(xv).to_multiset() =~= ov.to_multiset().insert(xv));
            assert(rv.remove(min_i as int).to_multiset() =~= rv.to_multiset().remove(xv));
            lemma_multiset_transfer(ov.to_multiset(), rv.to_multiset(), xv);
            assert(views_of(out@).to_multiset().add(views_of(rest@).to_multiset())
                =~= total.to_multiset());
            assert forall|i: int, j: int|
                0 <= i < j < views_of(out@).len() implies #[trigger] path_le_fn()(
                views_of(out@)[i],
                views_of(out@)[j],
            ) by {
                if j < ov.len() {
                    assert(path_le_fn()(ov[i], ov[j]));
                } else {
                    assert(views_of(out@)[j] == xv);
                    assert(path_le(ov[i], rv[min_i as int]));
                }
            }
            assert forall|i: int, j: int|
                0 <= i < out@.len() && 0 <= j < rest@.len() implies #[trigger] path_le(
                out@[i]@,
                rest@[j]@,
            ) by {
                old_rest.remove_ensures(min_i as int);
                let j_orig: int = if j < min_i as int {
                    j
                } else {
                    j + 1
                };
                assert(rest@[j] == old_rest[j_orig]);
                if i < old_out.len() {
                    assert(path_le(old_out[i]@, old_rest[j_orig]@));
                } else {
                    assert(out@[i] == x);
                    assert(path_le(rv[min_i as int], rv[j_orig]));
                }
            }
        }
    }
    proof {
        assert(views_of(rest@) =~= Seq::<PathDataV>::empty());
        assert(views_of(out@).to_multiset() =~= total.to_multiset());
        lemma_path_le_total_ordering();
        total.lemma_sort_by_ensures(path_le_fn());
        lemma_sorted_unique(views_of(out@), spec_sort_keys(total), path_le_fn());
        assert(views_of(out@).len() == views_of(out@).to_multiset().len());
        assert(total.len() == total.to_multiset().len());
    }
    out
}

/// Drop records whose path already occurred earlier in the sequence: the first
/// record of each path wins, as when a map is filled in input order.
pub open spec fn spec_dedup_paths(s: Seq<PathDataV>) -> Seq<PathDataV>
    decreases s.len(),
{
    if s.len() == 0 {
        Seq::<PathDataV>::empty()
    } else {
        let pre = spec_dedup_paths(s.drop_last());
        if exists|j: int| 0 <= j < s.len() - 1 && s[j].path == s.last().path {
            pre
        } else {
            pre.push(s.last())
        }
    }
}

pub fn dedup_paths(v: &Vec<PathData>) -> (r: Vec<PathData>)
    ensures
        views_of(r@) == spec_dedup_paths(views_of(v@)),
{
    let mut out: Vec<PathData> = Vec::new();
    let mut i: usize = 0;
    let ghost vs = views_of(v@);
    proof {
        assert(vs.take(0) =~= Seq::<PathDataV>::empty());
        assert(views_of(out@) =~= spec_dedup_paths(vs.take(0)));
    }
    while i < v.len()
        invariant
            i <= v@.len(),
            vs == views_of(v@),
            views_of(out@) == spec_dedup_paths(vs.take(i as int)),
        decreases v@.len() - i,
    {
        let mut seen: bool = false;
        let mut j: usize = 0;
        while j < i
            invariant
                j <= i,
                i < v@.len(),
                vs == views_of(v@),
                seen == exists|t: int| 0 <= t < j && vs[t].path == vs[i as int].path,
            decreases i - j,
        {
            let same = str_eq(v[j].path.as_str(), v[i].path.as_str());
            proof {
                assert(vs[j as int].path == v@[j as int].path@);
                assert(vs[i as int].path == v@[i as int].path@);
                if same {
                    assert(vs[j as int].path == vs[i as int].path);
                }
            }
            if same {
                seen = true;
            }
            j = j + 1;
        }
        let ghost old_out = views_of(out@);
        if !seen {
            out.push(v[i].duplicate());
        }
        proof {
            let cur = vs.take(i + 1);
            assert(cur.drop_last() =~= vs.take(i as int));
            assert(cur.last() == vs[i as int]);
            assert(forall|t: int| 0 <= t < i ==> cur[t] == vs[t]);
            if seen {
                assert(exists|t: int| 0 <= t < cur.len() - 1 && cur[t].path == cur.last().path);
                assert(views_of(out@) == old_out);
            } else {
                assert(!exists|t: int| 0 <= t < cur.len() - 1 && cur[t].path == cur.last().path);
                assert(views_of(out@) =~= old_out.push(vs[i as int]));
            }
        }
        i = i + 1;
    }
    proof {
        assert(vs.take(vs.len() as int) =~= vs);
    }
    out
}


/// All versions found across the bundles, in bundle (search) order.
pub open spec fn spec_all_found(
    bs: Seq<BundleV>,
    table: Seq<(String, ProbeOutcome)>,
) -> Seq<PathDataV>
    decreases bs.len(),
{
    if bs.len() == 0 {
        Seq::<PathDataV>::empty()
    } else {
        found_versions(table, spec_candidates(bs[0])) + spec_all_found(bs.skip(1), table)
    }
}

/// The first denied candidate across the bundles, in search order.
pub open spec fn spec_bundles_denial(
    bs: Seq<BundleV>,
    table: Seq<(String, ProbeOutcome)>,
) -> Option<Seq<char>>
    decreases bs.len(),
{
    if bs.len() == 0 {
        None
    } else {
        match first_denied(table, spec_candidates(bs[0])) {
            Option::Some(i) => Some(spec_candidates(bs[0])[i]),
            Option::None => spec_bundles_denial(bs.skip(1), table),
        }
    }
}

/// The first denied candidate for one path, if its datasets resolve at all.
pub open spec fn spec_path_denial(
    pd: PathDataV,
    datasets: Seq<(String, DatasetMetadata)>,
    aliases: Option<Seq<(String, AliasEntry)>>,
    alts: Option<Seq<(String, Vec<String>)>>,
    snaps: Seq<(String, Vec<String>)>,
    table: Seq<(String, ProbeOutcome)>,
) -> Option<Seq<char>> {
    match spec_resolve(pd, datasets, aliases, alts) {
        Option::None => None,
        Option::Some(r) => spec_bundles_denial(spec_search_bundles(r, snaps), table),
    }
}

/// The version list owed to one path when no probe is denied: empty when its
/// filesystem is unsupported, else every version found across its bundles,
/// sorted and collapsed under the uniqueness policy.
pub open spec fn spec_value_for(
    pd: PathDataV,
    datasets: Seq<(String, DatasetMetadata)>,
    aliases: Option<Seq<(String, AliasEntry)>>,
    alts: Option<Seq<(String, Vec<String>)>>,
    snaps: Seq<(String, Vec<String>)>,
    table: Seq<(String, ProbeOutcome)>,
    u: ListSnapsOfType,
) -> Seq<PathDataV> {
    match spec_resolve(pd, datasets, aliases, alts) {
        Option::None => Seq::<PathDataV>::empty(),
        Option::Some(r) => spec_process_versions(
            spec_all_found(spec_search_bundles(r, snaps), table),
            u,
        ),
    }
}

/// Everything `versions_for_path` promises of its result, as one statement,
/// shared with the parallel driver.
pub open spec fn versions_for_path_post(
    pd: PathDataV,
    collection: DatasetCollection,
    probes: ProbeTable,
    u: ListSnapsOfType,
    r: HttmResult<Vec<PathData>>,
) -> bool {
    let datasets = collection.map_of_datasets@;
    let aliases = opt_entries(collection.opt_map_of_aliases);
    let alts = opt_entries(collection.opt_map_of_alts);
    let snaps = collection.map_of_snaps@;
    let table = probes.entries@;
    match spec_path_denial(pd, datasets, aliases, alts, snaps, table) {
        Option::Some(p) => r is Err && r->Err_0.kind == HttmErrorKind::PermissionDenied
            && r->Err_0.opt_path is Some && r->Err_0.opt_path->0@ == p,
        Option::None => r is Ok && views_of(r->Ok_0@) == spec_value_for(
            pd,
            datasets,
            aliases,
            alts,
            snaps,
            table,
            u,
        ),
    }
}

/// The whole version history owed to one input path: resolve its datasets (a
/// path on an unsupported filesystem yields an empty list), probe every bundle
/// in search order, then sort and collapse what was found.
pub fn versions_for_path(
    pathdata: &PathData,
    collection: &DatasetCollection,
    uniqueness: &ListSnapsOfType,
    probes: &ProbeTable,
) -> (r: HttmResult<Vec<PathData>>)
    ensures
        versions_for_path_post(pathdata@, *collection, *probes, *uniqueness, r),
{
    let ghost datasets = collection.map_of_datasets@;
    let ghost aliases = opt_entries(collection.opt_map_of_aliases);
    let ghost alts = opt_entries(collection.opt_map_of_alts);
    let ghost snaps = collection.map_of_snaps@;
    let ghost table = probes.entries@;
    match ProximateDatasetAndOptAlts::new(pathdata, collection) {
        Err(_) => {
            let empty_versions: Vec<PathData> = Vec::new();
            proof {
                assert(views_of(empty_versions@) =~= Seq::<PathDataV>::empty());
            }
            Ok(empty_versions)
        },
        Ok(prox) => {
            let bundles = prox.into_search_bundles(&collection.map_of_snaps);
            let ghost bv = bundle_views(bundles@);
            let mut all: Vec<PathData> = Vec::new();
            let mut i: usize = 0;
            proof {
                assert(bv.skip(0) =~= bv);
                assert(views_of(all@) + spec_all_found(bv, table) =~= spec_all_found(bv, table));
            }
            while i < bundles.len()
                invariant
                    i <= bundles@.len(),
                    bv == bundle_views(bundles@),
                    table == probes.entries@,
                    datasets == collection.map_of_datasets@,
                    aliases == opt_entries(collection.opt_map_of_aliases),
                    alts == opt_entries(collection.opt_map_of_alts),
                    snaps == collection.map_of_snaps@,
                    spec_resolve(pathdata@, datasets, aliases, alts) == Some(prox@),
                    bv == spec_search_bundles(prox@, snaps),
                    spec_bundles_denial(bv.skip(i as int), table) == spec_bundles_denial(bv, table),
                    views_of(all@) + spec_all_found(bv.skip(i as int), table) == spec_all_found(
                        bv,
                        table,
                    ),
                decreases bundles@.len() - i,
            {
                proof {
                    assert(bundles@[i as int]@ == bv[i as int]);
                    assert(bv.skip(i as int)[0] == bv[i as int]);
                    assert(bv.skip(i as int).skip(1) =~= bv.skip(i + 1));
                }
                let ghost old_all = views_of(all@);
                match bundles[i].versions_unprocessed(probes) {
                    Ok(mut found) => {
                        let ghost found_views = views_of(found@);
                        proof {
                            assert(first_denied(table, spec_candidates(bv[i as int])) is None);
                            assert(found_views == found_versions(
                                table,
                                spec_candidates(bv[i as int]),
                            ));
                        }
                        all.append(&mut found);
                        proof {
                            assert(views_of(all@) =~= old_all + found_views);
                            assert(spec_all_found(bv.skip(i as int), table) == found_versions(
                                table,
                                spec_candidates(bv[i as int]),
                            ) + spec_all_found(bv.skip(i + 1), table));
                            assert(views_of(all@) + spec_all_found(bv.skip(i + 1), table)
                                =~= old_all + spec_all_found(bv.skip(i as int), table));
                        }
                    },
                    Err(e) => {
                        proof {
                            let cands = spec_candidates(bv[i as int]);
                            assert(first_denied(table, cands) is Some);
                            let k = first_denied(table, cands)->Some_0;
                            assert(e.opt_path->0@ == cands[k]);
                            assert(spec_bundles_denial(bv.skip(i as int), table) == Some(cands[k]));
                            assert(spec_path_denial(pathdata@, datasets, aliases, alts, snaps, table)
                                == Some(cands[k]));
                        }
                        return Err(e);
                    },
                }
                i = i + 1;
            }
            proof {
                assert(bv.skip(i as int).len() == 0);
                assert(views_of(all@) + Seq::<PathDataV>::empty() =~= views_of(all@));
                assert(spec_bundles_denial(bv, table) is None);
            }
            Ok(dedup_adjacent(sort_versions(all), uniqueness))
        },
    }
}

/// Relies on rayon: `par_iter().map(f).collect::<Vec<_>>()` applies `f` to
/// every element of the vector and collects the results in input order; `f`
/// here is the verified per-path aggregation.
#[verifier::external_body]
fn par_versions_for_paths(
    paths: &Vec<PathData>,
    collection: &DatasetCollection,
    uniqueness: &ListSnapsOfType,
    probes: &ProbeTable,
) -> (r: Vec<HttmResult<Vec<PathData>>>)
    ensures
        r@.len() == paths@.len(),
        forall|i: int|
            0 <= i < paths@.len() ==> versions_for_path_post(
                paths@[i]@,
                *collection,
                *probes,
                *uniqueness,
                r@[i],
            ),
{
    paths.par_iter().map(|pd| versions_for_path(pd, collection, uniqueness, probes)).collect()
}


/// An owned copy of the first `n` records of `v`.
pub fn clone_records_take(v: &Vec<PathData>, n: usize) -> (r: Vec<PathData>)
    requires
        n <= v@.len(),
    ensures
        views_of(r@) == views_of(v@).take(n as int),
{
    let mut out: Vec<PathData> = Vec::new();
    let mut i: usize = 0;
    proof {
        assert(views_of(out@) =~= views_of(v@).take(0));
    }
    while i < n
        invariant
            i <= n <= v@.len(),
            views_of(out@) == views_of(v@).take(i as int),
        decreases n - i,
    {
        out.push(v[i].duplicate());
        proof {
            assert(views_of(v@).take(i + 1) =~= views_of(v@).take(i as int).push(v@[i as int]@));
            assert(views_of(out@) =~= views_of(v@).take(i + 1));
        }
        i = i + 1;
    }
    out
}

/// The views of a version map's entries.
pub open spec fn vm_views(s: Seq<(PathData, Vec<PathData>)>) -> Seq<(PathDataV, Seq<PathDataV>)> {
    s.map_values(|e: (PathData, Vec<PathData>)| (e.0@, views_of(e.1@)))
}

/// The canonical key sequence for a set of input paths: one record per
/// distinct path (the first record of each path wins), sorted by path.
pub open spec fn spec_keys(paths: Seq<PathDataV>) -> Seq<PathDataV> {
    spec_sort_keys(spec_dedup_paths(paths))
}

/// The first denied candidate across the keys, in key order.
pub open spec fn spec_map_denial(
    keys: Seq<PathDataV>,
    datasets: Seq<(String, DatasetMetadata)>,
    aliases: Option<Seq<(String, AliasEntry)>>,
    alts: Option<Seq<(String, Vec<String>)>>,
    snaps: Seq<(String, Vec<String>)>,
    table: Seq<(String, ProbeOutcome)>,
) -> Option<Seq<char>>
    decreases keys.len(),
{
    if keys.len() == 0 {
        None
    } else {
        match spec_path_denial(keys[0], datasets, aliases, alts, snaps, table) {
            Option::Some(p) => Some(p),
            Option::None => spec_map_denial(keys.skip(1), datasets, aliases, alts, snaps, table),
        }
    }
}

/// The freshly built map, before the post-processing passes: every key bound
/// to the version list owed to it.
pub open spec fn spec_raw_map(
    keys: Seq<PathDataV>,
    datasets: Seq<(String, DatasetMetadata)>,
    aliases: Option<Seq<(String, AliasEntry)>>,
    alts: Option<Seq<(String, Vec<String>)>>,
    snaps: Seq<(String, Vec<String>)>,
    table: Seq<(String, ProbeOutcome)>,
    u: ListSnapsOfType,
) -> Seq<(PathDataV, Seq<PathDataV>)> {
    keys.map_values(
        |k: PathDataV| (k, spec_value_for(k, datasets, aliases, alts, snaps, table, u)),
    )
}

pub open spec fn spec_all_values_empty(m: Seq<(PathDataV, Seq<PathDataV>)>) -> bool {
    forall|i: int| 0 <= i < m.len() ==> (#[trigger] m[i]).1.len() == 0
}

pub open spec fn spec_all_keys_phantom(m: Seq<(PathDataV, Seq<PathDataV>)>) -> bool {
    forall|i: int| 0 <= i < m.len() ==> (#[trigger] m[i]).0.metadata is None
}

/// A non-empty version list whose most recent entry carries the live record's
/// metadata: the last snapshot tells a reader nothing new.
pub open spec fn spec_live_redundant(live: PathDataV, vs: Seq<PathDataV>) -> bool {
    vs.len() > 0 && md_eq(vs.last().metadata, live.metadata)
}

/// Ditto omission for one entry: drop the last version exactly when it is
/// metadata-identical to the live record; earlier versions are untouched.
pub open spec fn spec_omit_one(k: PathDataV, vs: Seq<PathDataV>) -> Seq<PathDataV> {
    if spec_live_redundant(k, vs) {
        vs.drop_last()
    } else {
        vs
    }
}

pub open spec fn spec_omit_ditto(m: Seq<(PathDataV, Seq<PathDataV>)>) -> Seq<
    (PathDataV, Seq<PathDataV>),
> {
    m.map_values(|e: (PathDataV, Seq<PathDataV>)| (e.0, spec_omit_one(e.0, e.1)))
}

/// The last-snapshot policy for one entry, exactly the mode table: with a last
/// snapshot, keep it alone under `Any`, under `DittoOnly` when it matches the
/// live metadata, under the no-ditto modes when it differs, and never under
/// `Without`; with no snapshot at all, `Without` and `NoDittoInclusive` keep
/// the live record itself, the rest keep nothing.
pub open spec fn spec_last_snap_one(
    mode: LastSnapMode,
    k: PathDataV,
    vs: Seq<PathDataV>,
) -> Seq<PathDataV> {
    if vs.len() > 0 {
        let last = vs.last();
        match mode {
            LastSnapMode::Any => seq![last],
            LastSnapMode::DittoOnly => if md_eq(k.metadata, last.metadata) {
                seq![last]
            } else {
                Seq::<PathDataV>::empty()
            },
            LastSnapMode::NoDittoExclusive | LastSnapMode::NoDittoInclusive => if !md_eq(
                k.metadata,
                last.metadata,
            ) {
                seq![last]
            } else {
                Seq::<PathDataV>::empty()
            },
            LastSnapMode::Without => Seq::<PathDataV>::empty(),
        }
    } else {
        match mode {
            LastSnapMode::Without | LastSnapMode::NoDittoInclusive => seq![k],
            _ => Seq::<PathDataV>::empty(),
        }
    }
}

pub open spec fn spec_last_snap(
    m: Seq<(PathDataV, Seq<PathDataV>)>,
    mode: LastSnapMode,
) -> Seq<(PathDataV, Seq<PathDataV>)> {
    m.map_values(|e: (PathDataV, Seq<PathDataV>)| (e.0, spec_last_snap_one(mode, e.0, e.1)))
}

/// The two optional post-processing passes, in their fixed order: ditto
/// omission first, then the last-snapshot policy.
pub open spec fn spec_apply_policies(
    m: Seq<(PathDataV, Seq<PathDataV>)>,
    cfg: Config,
) -> Seq<(PathDataV, Seq<PathDataV>)> {
    let m1 = if cfg.opt_omit_ditto {
        spec_omit_ditto(m)
    } else {
        m
    };
    match cfg.opt_last_snap {
        Option::Some(mode) => spec_last_snap(m1, mode),
        Option::None => m1,
    }
}

/// The final entity: one ordered, deduplicated version list per input path,
/// keyed and iterated in ascending path order.
#[derive(Debug)]
pub struct VersionsMap {
    pub inner: Vec<(PathData, Vec<PathData>)>,
}

impl VersionsMap {
    /// Whether the live record's metadata matches its newest snapshot version.
    pub fn is_live_version_redundant(live_pathdata: &PathData, snaps: &Vec<PathData>) -> (r: bool)
        ensures
            r == spec_live_redundant(live_pathdata@, views_of(snaps@)),
    {
        if snaps.len() == 0 {
            return false;
        }
        let last = &snaps[snaps.len() - 1];
        proof {
            assert(views_of(snaps@).last() == snaps@[snaps@.len() - 1]@);
        }
        md_eq_exec(&last.metadata, &live_pathdata.metadata)
    }

    /// Ditto omission: for every path, drop the most recent version exactly
    /// when its metadata is identical to the live record's.
    pub fn omit_ditto(&mut self)
        ensures
            vm_views(final(self).inner@) == spec_omit_ditto(vm_views(old(self).inner@)),
    {
        let ghost m0 = vm_views(self.inner@);
        let mut out: Vec<(PathData, Vec<PathData>)> = Vec::new();
        let mut i: usize = 0;
        proof {
            assert(vm_views(out@) =~~= spec_omit_ditto(m0).take(0));
        }
        while i < self.inner.len()
            invariant
                i <= self.inner@.len(),
                m0 == vm_views(self.inner@),
                vm_views(out@) == spec_omit_ditto(m0).take(i as int),
            decreases self.inner@.len() - i,
        {
            let key = &self.inner[i].0;
            let vs = &self.inner[i].1;
            let red = Self::is_live_version_redundant(key, vs);
            let n: usize = if red {
                vs.len() - 1
            } else {
                vs.len()
            };
            let new_vs = clone_records_take(vs, n);
            proof {
                if red {
                    assert(views_of(vs@).take(n as int) =~= views_of(vs@).drop_last());
                } else {
                    assert(views_of(vs@).take(n as int) =~= views_of(vs@));
                }
            }
            let new_key = key.duplicate();
            let ghost old_m = vm_views(out@);
            out.push((new_key, new_vs));
            proof {
                assert(m0[i as int] == (self.inner@[i as int].0@, views_of(
                    self.inner@[i as int].1@,
                )));
                assert(vm_views(out@) =~~= old_m.push((new_key@, views_of(new_vs@))));
                assert(spec_omit_ditto(m0)[i as int] == (m0[i as int].0, spec_omit_one(
                    m0[i as int].0,
                    m0[i as int].1,
                )));
                assert(vm_views(out@) =~~= spec_omit_ditto(m0).take(i + 1));
            }
            i = i + 1;
        }
        proof {
            assert(spec_omit_ditto(m0).take(m0.len() as int) =~~= spec_omit_ditto(m0));
        }
        self.inner = out;
    }

    /// The last-snapshot policy: collapse every path's list to at most one
    /// entry, as the mode directs.
    pub fn last_snap(&mut self, last_snap_mode: &LastSnapMode)
        ensures
            vm_views(final(self).inner@) == spec_last_snap(
                vm_views(old(self).inner@),
                *last_snap_mode,
            ),
    {
        let ghost m0 = vm_views(self.inner@);
        let ghost mode = *last_snap_mode;
        let mut out: Vec<(PathData, Vec<PathData>)> = Vec::new();
        let mut i: usize = 0;
        proof {
            assert(vm_views(out@) =~~= spec_last_snap(m0, mode).take(0));
        }
        while i < self.inner.len()
            invariant
                i <= self.inner@.len(),
                m0 == vm_views(self.inner@),
                mode == *last_snap_mode,
                vm_views(out@) == spec_last_snap(m0, mode).take(i as int),
            decreases self.inner@.len() - i,
        {
            let key = &self.inner[i].0;
            let vs = &self.inner[i].1;
            let mut new_vs: Vec<PathData> = Vec::new();
            if vs.len() > 0 {
                let last = &vs[vs.len() - 1];
                proof {
                    assert(views_of(vs@).last() == vs@[vs@.len() - 1]@);
                }
                let keep: bool = match last_snap_mode {
                    LastSnapMode::Any => true,
                    LastSnapMode::DittoOnly => md_eq_exec(&key.metadata, &last.metadata),
                    LastSnapMode::NoDittoExclusive | LastSnapMode::NoDittoInclusive => !md_eq_exec(
                        &key.metadata,
                        &last.metadata,
                    ),
                    LastSnapMode::Without => false,
                };
                if keep {
                    new_vs.push(last.duplicate());
                }
            } else {
                let keep_live: bool = match last_snap_mode {
                    LastSnapMode::Without | LastSnapMode::NoDittoInclusive => true,
                    _ => false,
                };
                if keep_live {
                    new_vs.push(key.duplicate());
                }
            }
            proof {
                assert(views_of(new_vs@) =~= spec_last_snap_one(
                    mode,
                    self.inner@[i as int].0@,
                    views_of(self.inner@[i as int].1@),
                ));
            }
            let new_key = key.duplicate();
            let ghost old_m = vm_views(out@);
            out.push((new_key, new_vs));
            proof {
                assert(m0[i as int] == (self.inner@[i as int].0@, views_of(
                    self.inner@[i as int].1@,
                )));
                assert(vm_views(out@) =~~= old_m.push((new_key@, views_of(new_vs@))));
                assert(spec_last_snap(m0, mode)[i as int] == (m0[i as int].0, spec_last_snap_one(
                    mode,
                    m0[i as int].0,
                    m0[i as int].1,
                )));
                assert(vm_views(out@) =~~= spec_last_snap(m0, mode).take(i + 1));
            }
            i = i + 1;
        }
        proof {
            assert(spec_last_snap(m0, mode).take(m0.len() as int) =~~= spec_last_snap(m0, mode));
        }
        self.inner = out;
    }

    /// Build the version map for a set of input paths: one key per distinct
    /// path, in path order; per key every snapshot version found, sorted and
    /// collapsed under the uniqueness policy; a permission-denied probe fails
    /// the whole operation; a run in which no path has either a live version
    /// or any snapshot version fails with the nothing-found condition, unless
    /// the bulk-exclusion carve-out is requested; finally the two optional
    /// passes, ditto omission then last-snapshot filtering, in that order.
    pub fn new(config: &Config, path_set: &Vec<PathData>, probes: &ProbeTable) -> (r: HttmResult<
        VersionsMap,
    >)
        ensures
            ({
                let keys = spec_keys(views_of(path_set@));
                let datasets = config.dataset_collection.map_of_datasets@;
                let aliases = opt_entries(config.dataset_collection.opt_map_of_aliases);
                let alts = opt_entries(config.dataset_collection.opt_map_of_alts);
                let snaps = config.dataset_collection.map_of_snaps@;
                let table = probes.entries@;
                match spec_map_denial(keys, datasets, aliases, alts, snaps, table) {
                    Option::Some(p) => r is Err && r->Err_0.kind == HttmErrorKind::PermissionDenied
                        && r->Err_0.opt_path is Some && r->Err_0.opt_path->0@ == p,
                    Option::None => {
                        let m0 = spec_raw_map(
                            keys,
                            datasets,
                            aliases,
                            alts,
                            snaps,
                            table,
                            config.uniqueness,
                        );
                        if spec_all_values_empty(m0) && spec_all_keys_phantom(m0)
                            && !config.opt_bulk_exclusion {
                            r is Err && r->Err_0.kind == HttmErrorKind::NothingFound
                        } else {
                            r is Ok && vm_views(r->Ok_0.inner@) == spec_apply_policies(m0, *config)
                        }
                    },
                }
            }),
    {
        let ghost datasets = config.dataset_collection.map_of_datasets@;
        let ghost aliases = opt_entries(config.dataset_collection.opt_map_of_aliases);
        let ghost alts = opt_entries(config.dataset_collection.opt_map_of_alts);
        let ghost snaps = config.dataset_collection.map_of_snaps@;
        let ghost table = probes.entries@;
        let unique = dedup_paths(path_set);
        let keys = sort_keys(unique);
        let ghost kv = views_of(keys@);
        let results = par_versions_for_paths(
            &keys,
            &config.dataset_collection,
            &config.uniqueness,
            probes,
        );
        let mut inner: Vec<(PathData, Vec<PathData>)> = Vec::new();
        let mut i: usize = 0;
        let ghost m0 = spec_raw_map(kv, datasets, aliases, alts, snaps, table, config.uniqueness);
        proof {
            assert(kv.skip(0) =~= kv);
            assert(vm_views(inner@) =~~= m0.take(0));
        }
        while i < keys.len()
            invariant
                i <= keys@.len(),
                keys@.len() == results@.len(),
                kv == views_of(keys@),
                kv == spec_keys(views_of(path_set@)),
                m0 == spec_raw_map(kv, datasets, aliases, alts, snaps, table, config.uniqueness),
                datasets == config.dataset_collection.map_of_datasets@,
                aliases == opt_entries(config.dataset_collection.opt_map_of_aliases),
                alts == opt_entries(config.dataset_collection.opt_map_of_alts),
                snaps == config.dataset_collection.map_of_snaps@,
                table == probes.entries@,
                forall|t: int|
                    0 <= t < keys@.len() ==> versions_for_path_post(
                        kv[t],
                        config.dataset_collection,
                        *probes,
                        config.uniqueness,
                        #[trigger] results@[t],
                    ),
                spec_map_denial(kv.skip(i as int), datasets, aliases, alts, snaps, table)
                    == spec_map_denial(kv, datasets, aliases, alts, snaps, table),
                vm_views(inner@) == m0.take(i as int),
            decreases keys@.len() - i,
        {
            proof {
                assert(kv.skip(i as int)[0] == kv[i as int]);
                assert(kv.skip(i as int).skip(1) =~= kv.skip(i + 1));
            }
            match &results[i] {
                Ok(v) => {
                    proof {
                        assert(spec_path_denial(kv[i as int], datasets, aliases, alts, snaps, table)
                            is None);
                    }
                    let value = clone_records_take(v, v.len());
                    proof {
                        assert(views_of(v@).take(v@.len() as int) =~= views_of(v@));
                    }
                    let key = keys[i].duplicate();
                    let ghost old_m = vm_views(inner@);
                    let ghost value_v = views_of(value@);
                    let ghost key_v = key@;
                    out_push_entry(&mut inner, key, value);
                    proof {
                        assert(m0[i as int] == (kv[i as int], spec_value_for(
                            kv[i as int],
                            datasets,
                            aliases,
                            alts,
                            snaps,
                            table,
                            config.uniqueness,
                        )));
                        assert(vm_views(inner@) =~~= old_m.push((key_v, value_v)));
                        assert(vm_views(inner@) =~~= m0.take(i + 1));
                    }
                },
                Err(e) => {
                    proof {
                        assert(spec_path_denial(kv[i as int], datasets, aliases, alts, snaps, table)
                            is Some);
                    }
                    return Err(e.duplicate());
                },
            }
            i = i + 1;
        }
        proof {
            assert(kv.skip(kv.len() as int).len() == 0);
            assert(m0.take(m0.len() as int) =~~= m0);
        }
        let mut all_empty: bool = true;
        let mut all_phantom: bool = true;
        let mut j: usize = 0;
        while j < inner.len()
            invariant
                j <= inner@.len(),
                vm_views(inner@) == m0,
                all_empty == (forall|t: int|
                    0 <= t < j ==> (#[trigger] vm_views(inner@)[t]).1.len() == 0),
                all_phantom == (forall|t: int|
                    0 <= t < j ==> (#[trigger] vm_views(inner@)[t]).0.metadata is None),
            decreases inner@.len() - j,
        {
            proof {
                assert(vm_views(inner@)[j as int] == (inner@[j as int].0@, views_of(
                    inner@[j as int].1@,
                )));
            }
            if inner[j].1.len() > 0 {
                all_empty = false;
            }
            if inner[j].0.metadata.is_some() {
                all_phantom = false;
            }
            j = j + 1;
        }
        if all_empty && all_phantom && !config.opt_bulk_exclusion {
            return Err(HttmError::new(HttmErrorKind::NothingFound));
        }
        let mut versions_map = VersionsMap { inner };
        if config.opt_omit_ditto {
            versions_map.omit_ditto();
        }
        match &config.opt_last_snap {
            Some(mode) => {
                versions_map.last_snap(mode);
            },
            None => {},
        }
        Ok(versions_map)
    }
}

/// Append one entry to the map under construction.
fn out_push_entry(
    inner: &mut Vec<(PathData, Vec<PathData>)>,
    key: PathData,
    value: Vec<PathData>,
)
    ensures
        final(inner)@ == old(inner)@.push((key, value)),
{
    inner.push((key, value));
}

} // verus!
