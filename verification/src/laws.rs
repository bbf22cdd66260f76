//! The engine's cross-cutting guarantees, stated and proved over the same
//! spec functions that the executable functions' contracts use.

use vstd::prelude::*;
use vstd::relations::sorted_by;
use vstd::seq_lib::lemma_sorted_unique;
use crate::config::LastSnapMode;
use crate::data::{mtime_rank, policy_eq, version_le, version_le_fn,
    lemma_version_le_total_ordering, ListSnapsOfType, PathDataV};
use crate::versions::{spec_dedup_adjacent, spec_last_snap_one, spec_live_redundant,
    spec_omit_one, spec_process_versions, spec_sort_versions, ProximateDatasetAndOptAlts,
    ResolvedV};

verus! {

/// The uniqueness policies are symmetric relations.
proof fn lemma_policy_eq_sym(u: ListSnapsOfType, a: PathDataV, b: PathDataV)
    ensures
        policy_eq(u, a, b) == policy_eq(u, b, a),
{
}

/// The uniqueness policies are transitive relations.
proof fn lemma_policy_eq_trans(u: ListSnapsOfType, a: PathDataV, b: PathDataV, c: PathDataV)
    requires
        policy_eq(u, a, b),
        policy_eq(u, b, c),
    ensures
        policy_eq(u, a, c),
{
}

/// Every record of a collapsed sequence stands somewhere in the original.
proof fn lemma_dedup_members(s: Seq<PathDataV>, u: ListSnapsOfType)
    ensures
        forall|k: int|
            0 <= k < spec_dedup_adjacent(s, u).len() ==> s.contains(
                #[trigger] spec_dedup_adjacent(s, u)[k],
            ),
    decreases s.len(),
{
    let d = spec_dedup_adjacent(s, u);
    if s.len() <= 1 {
        assert forall|k: int| 0 <= k < d.len() implies s.contains(#[trigger] d[k]) by {
            assert(d[k] == s[k]);
        }
    } else {
        lemma_dedup_members(s.drop_last(), u);
        let pre = spec_dedup_adjacent(s.drop_last(), u);
        assert(forall|i: int| 0 <= i < s.len() - 1 ==> s.drop_last()[i] == s[i]);
        assert forall|k: int| 0 <= k < d.len() implies s.contains(#[trigger] d[k]) by {
            if k < pre.len() {
                assert(s.drop_last().contains(pre[k]));
                let i = choose|i: int| 0 <= i < s.drop_last().len() && s.drop_last()[i] == pre[k];
                assert(d[k] == pre[k]);
                assert(s[i] == pre[k]);
            } else {
                assert(!policy_eq(u, s[s.len() - 2], s[s.len() - 1]));
                assert(d[k] == s[s.len() - 1]);
            }
        }
    }
}

/// Collapsing adjacent equals keeps a sorted sequence sorted.
pub proof fn lemma_dedup_preserves_sorted(s: Seq<PathDataV>, u: ListSnapsOfType)
    requires
        sorted_by(s, version_le_fn()),
    ensures
        sorted_by(spec_dedup_adjacent(s, u), version_le_fn()),
    decreases s.len(),
{
    if s.len() <= 1 {
    } else {
        assert(sorted_by(s.drop_last(), version_le_fn())) by {
            assert(forall|i: int| 0 <= i < s.len() - 1 ==> s.drop_last()[i] == s[i]);
        }
        lemma_dedup_preserves_sorted(s.drop_last(), u);
        let pre = spec_dedup_adjacent(s.drop_last(), u);
        if !policy_eq(u, s[s.len() - 2], s[s.len() - 1]) {
            lemma_dedup_members(s.drop_last(), u);
            let d = spec_dedup_adjacent(s, u);
            assert forall|i: int, j: int| 0 <= i < j < d.len() implies #[trigger] version_le_fn()(
                d[i],
                d[j],
            ) by {
                if j < pre.len() {
                    assert(version_le_fn()(pre[i], pre[j]));
                } else {
                    assert(d[j] == s[s.len() - 1]);
                    assert(s.drop_last().contains(pre[i]));
                    let w = choose|w: int|
                        0 <= w < s.drop_last().len() && s.drop_last()[w] == pre[i];
                    assert(d[i] == s[w]);
                    assert(version_le_fn()(s[w], s[s.len() - 1]));
                }
            }
        }
    }
}

/// The collapsed sequence is non-empty when the input is, and its last record
/// is the input's last record or policy-equal to it.
proof fn lemma_dedup_last_linked(s: Seq<PathDataV>, u: ListSnapsOfType)
    requires
        s.len() > 0,
    ensures
        spec_dedup_adjacent(s, u).len() > 0,
        spec_dedup_adjacent(s, u).last() == s.last() || policy_eq(
            u,
            spec_dedup_adjacent(s, u).last(),
            s.last(),
        ),
    decreases s.len(),
{
    if s.len() == 1 {
    } else if policy_eq(u, s[s.len() - 2], s[s.len() - 1]) {
        lemma_dedup_last_linked(s.drop_last(), u);
        let pre = spec_dedup_adjacent(s.drop_last(), u);
        assert(s.drop_last().last() == s[s.len() - 2]);
        if pre.last() == s[s.len() - 2] {
        } else {
            lemma_policy_eq_trans(u, pre.last(), s[s.len() - 2], s[s.len() - 1]);
        }
    } else {
    }
}

/// No two adjacent records of a collapsed sequence are policy-equal.
proof fn lemma_dedup_no_adjacent(s: Seq<PathDataV>, u: ListSnapsOfType)
    ensures
        forall|i: int|
            0 < i < spec_dedup_adjacent(s, u).len() ==> !policy_eq(
                u,
                spec_dedup_adjacent(s, u)[i - 1],
                #[trigger] spec_dedup_adjacent(s, u)[i],
            ),
    decreases s.len(),
{
    if s.len() <= 1 {
    } else {
        lemma_dedup_no_adjacent(s.drop_last(), u);
        let pre = spec_dedup_adjacent(s.drop_last(), u);
        let d = spec_dedup_adjacent(s, u);
        if policy_eq(u, s[s.len() - 2], s[s.len() - 1]) {
        } else {
            assert forall|i: int| 0 < i < d.len() implies !policy_eq(
                u,
                d[i - 1],
                #[trigger] d[i],
            ) by {
                if i < pre.len() {
                    assert(d[i] == pre[i] && d[i - 1] == pre[i - 1]);
                } else {
                    assert(d[i] == s.last());
                    assert(d[i - 1] == pre.last());
                    if pre.len() > 0 {
                        lemma_dedup_last_linked(s.drop_last(), u);
                        assert(s.drop_last().last() == s[s.len() - 2]);
                        if policy_eq(u, pre.last(), s.last()) {
                            if pre.last() == s[s.len() - 2] {
                                assert(false);
                            } else {
                                lemma_policy_eq_sym(u, pre.last(), s[s.len() - 2]);
                                lemma_policy_eq_trans(
                                    u,
                                    s[s.len() - 2],
                                    pre.last(),
                                    s.last(),
                                );
                                assert(false);
                            }
                        }
                    }
                }
            }
        }
    }
}

/// Collapsing a sequence with no adjacent policy-equal records changes
/// nothing.
proof fn lemma_dedup_of_clean(s: Seq<PathDataV>, u: ListSnapsOfType)
    requires
        forall|i: int| 0 < i < s.len() ==> !policy_eq(u, s[i - 1], #[trigger] s[i]),
    ensures
        spec_dedup_adjacent(s, u) == s,
    decreases s.len(),
{
    if s.len() <= 1 {
    } else {
        assert(!policy_eq(u, s[s.len() - 2], s[s.len() - 1]));
        assert(forall|i: int| 0 <= i < s.len() - 1 ==> s.drop_last()[i] == s[i]);
        lemma_dedup_of_clean(s.drop_last(), u);
        assert(spec_dedup_adjacent(s, u) =~= s.drop_last().push(s.last()));
        assert(s.drop_last().push(s.last()) =~= s);
    }
}

/// Collapsing adjacent equals twice is the same as collapsing once.
pub proof fn lemma_dedup_idempotent(s: Seq<PathDataV>, u: ListSnapsOfType)
    ensures
        spec_dedup_adjacent(spec_dedup_adjacent(s, u), u) == spec_dedup_adjacent(s, u),
{
    lemma_dedup_no_adjacent(s, u);
    lemma_dedup_of_clean(spec_dedup_adjacent(s, u), u);
}

/// Sorting an already sorted sequence changes nothing.
pub proof fn lemma_sort_of_sorted(s: Seq<PathDataV>)
    requires
        sorted_by(s, version_le_fn()),
    ensures
        spec_sort_versions(s) == s,
{
    lemma_version_le_total_ordering();
    s.lemma_sort_by_ensures(version_le_fn());
    lemma_sorted_unique(spec_sort_versions(s), s, version_le_fn());
}

/// Dedup idempotence: re-running the whole ordering-and-collapsing step on its
/// own output returns that output unchanged, under every uniqueness policy.
pub proof fn lemma_process_versions_idempotent(s: Seq<PathDataV>, u: ListSnapsOfType)
    ensures
        spec_process_versions(spec_process_versions(s, u), u) == spec_process_versions(s, u),
{
    lemma_version_le_total_ordering();
    s.lemma_sort_by_ensures(version_le_fn());
    let t = spec_sort_versions(s);
    lemma_dedup_preserves_sorted(t, u);
    lemma_sort_of_sorted(spec_dedup_adjacent(t, u));
    lemma_dedup_idempotent(t, u);
}

/// Ordering invariant: a processed version list is ascending under the version
/// order, so its modification times never decrease.
pub proof fn lemma_process_versions_sorted(s: Seq<PathDataV>, u: ListSnapsOfType)
    ensures
        sorted_by(spec_process_versions(s, u), version_le_fn()),
        forall|i: int, j: int|
            0 <= i < j < spec_process_versions(s, u).len() ==> mtime_rank(
                #[trigger] spec_process_versions(s, u)[i].metadata,
            ) <= mtime_rank(#[trigger] spec_process_versions(s, u)[j].metadata),
{
    lemma_version_le_total_ordering();
    s.lemma_sort_by_ensures(version_le_fn());
    lemma_dedup_preserves_sorted(spec_sort_versions(s), u);
    let p = spec_process_versions(s, u);
    assert forall|i: int, j: int| 0 <= i < j < p.len() implies mtime_rank(
        #[trigger] p[i].metadata,
    ) <= mtime_rank(#[trigger] p[j].metadata) by {
        assert(version_le_fn()(p[i], p[j]));
        assert(version_le(p[i], p[j]));
    }
}

/// Ditto omission correctness: when the most recent version carries the live
/// record's metadata, exactly that version is dropped and every earlier one is
/// untouched; otherwise the list is unchanged.
pub proof fn lemma_ditto_omission(k: PathDataV, vs: Seq<PathDataV>)
    ensures
        spec_live_redundant(k, vs) ==> spec_omit_one(k, vs).len() == vs.len() - 1 && (forall|
            i: int,
        |
            0 <= i < vs.len() - 1 ==> #[trigger] spec_omit_one(k, vs)[i] == vs[i]),
        !spec_live_redundant(k, vs) ==> spec_omit_one(k, vs) == vs,
{
}

/// Last-snapshot total coverage: under the inclusive no-ditto mode, a path
/// whose newest version (if any) differs from its live record keeps exactly
/// one entry — that newest version, or the live record itself when there is
/// none. (A list whose newest entry still carries the live metadata keeps
/// nothing; ditto omission beforehand removes such an entry.)
pub proof fn lemma_no_ditto_inclusive_total(k: PathDataV, vs: Seq<PathDataV>)
    requires
        !spec_live_redundant(k, vs),
    ensures
        spec_last_snap_one(LastSnapMode::NoDittoInclusive, k, vs).len() == 1,
        vs.len() > 0 ==> spec_last_snap_one(LastSnapMode::NoDittoInclusive, k, vs) == seq![
            vs.last(),
        ],
        vs.len() == 0 ==> spec_last_snap_one(LastSnapMode::NoDittoInclusive, k, vs) == seq![k],
{
}


/// Alternates-first ordering: the datasets searched for a path are every
/// alternate dataset, in their declared order, followed by the proximate
/// dataset last, so records probed from alternates are aggregated first.
pub proof fn lemma_alternates_first(r: ResolvedV)
    ensures
        ({
            let ds = ProximateDatasetAndOptAlts::spec_datasets_of_interest(r);
            &&& ds.len() >= 1
            &&& ds.last() == r.proximate_dataset
            &&& (forall|i: int|
                0 <= i < ds.len() - 1 ==> r.opt_alts is Some && #[trigger] ds[i]
                    == r.opt_alts->0[i])
        }),
{
}


/// Ordering invariant at the map level: in a freshly built version map, every
/// path's version list is ascending under the version order, so its
/// modification times never decrease.
pub proof fn lemma_fresh_map_values_sorted(
    keys: Seq<PathDataV>,
    datasets: Seq<(String, crate::mounts::DatasetMetadata)>,
    aliases: Option<Seq<(String, crate::config::AliasEntry)>>,
    alts: Option<Seq<(String, Vec<String>)>>,
    snaps: Seq<(String, Vec<String>)>,
    table: Seq<(String, crate::data::ProbeOutcome)>,
    u: ListSnapsOfType,
)
    ensures
        ({
            let m = crate::versions::spec_raw_map(keys, datasets, aliases, alts, snaps, table, u);
            forall|i: int, j: int, k: int|
                0 <= i < m.len() && 0 <= j < k < (#[trigger] m[i]).1.len() ==> version_le(
                    #[trigger] m[i].1[j],
                    #[trigger] m[i].1[k],
                ) && mtime_rank(m[i].1[j].metadata) <= mtime_rank(m[i].1[k].metadata)
        }),
{
    let m = crate::versions::spec_raw_map(keys, datasets, aliases, alts, snaps, table, u);
    assert forall|i: int, j: int, k: int|
        0 <= i < m.len() && 0 <= j < k < (#[trigger] m[i]).1.len() implies version_le(
        #[trigger] m[i].1[j],
        #[trigger] m[i].1[k],
    ) && mtime_rank(m[i].1[j].metadata) <= mtime_rank(m[i].1[k].metadata) by {
        let value = crate::versions::spec_value_for(keys[i], datasets, aliases, alts, snaps, table, u);
        assert(m[i] == (keys[i], value));
        match crate::versions::spec_resolve(keys[i], datasets, aliases, alts) {
            Option::Some(r) => {
                let found = crate::versions::spec_all_found(
                    crate::versions::spec_search_bundles(r, snaps),
                    table,
                );
                lemma_process_versions_sorted(found, u);
                assert(value == spec_process_versions(found, u));
                assert(version_le_fn()(value[j], value[k]));
            },
            Option::None => {
                assert(value.len() == 0);
            },
        }
    }
}

} // verus!
