//! Value types carried through the engine: a filesystem path together with the
//! metadata captured for it, and the ordering and equality policies under which
//! snapshot versions are sorted and collapsed.

use vstd::prelude::*;
use vstd::relations::total_ordering;
use crate::text::{lex_le, lemma_lex_le_antisym, lemma_lex_le_refl, lemma_lex_le_total,
    lemma_lex_le_trans, str_eq, str_le};

verus! {

/// Metadata captured for one path at one moment. `modify_time` and `size` come
/// from the file's metadata; `content_id` is an identity for the file's byte
/// content assigned by whoever captured the record: two records carrying the
/// same `content_id` hold byte-identical content. Only the uniqueness policy
/// that compares contents reads it.
#[derive(Clone, Copy, Debug, PartialEq, Eq, Structural)]
pub struct PathMetadata {
    pub modify_time: u64,
    pub size: u64,
    pub content_id: u64,
}

/// A filesystem path plus the metadata captured for it; `metadata` is `None`
/// when the path did not exist at the moment of capture (a "phantom" record).
#[derive(Clone, Debug)]
pub struct PathData {
    pub path: String,
    pub metadata: Option<PathMetadata>,
}

/// Mathematical image of a `PathData`: the path as a character sequence.
#[verifier::ext_equal]
pub struct PathDataV {
    pub path: Seq<char>,
    pub metadata: Option<PathMetadata>,
}

impl View for PathData {
    type V = PathDataV;

    open spec fn view(&self) -> PathDataV {
        PathDataV { path: self.path@, metadata: self.metadata }
    }
}

impl PathData {
    /// A record for a path that exists, with its captured metadata.
    pub fn with_metadata(path: String, md: PathMetadata) -> (r: PathData)
        ensures
            r@ == (PathDataV { path: path@, metadata: Some(md) }),
    {
        PathData { path, metadata: Some(md) }
    }

    /// A phantom record: the path does not currently exist.
    pub fn phantom(path: String) -> (r: PathData)
        ensures
            r@ == (PathDataV { path: path@, metadata: None::<PathMetadata> }),
    {
        PathData { path, metadata: None }
    }

    /// An owned copy of this record.
    pub fn duplicate(&self) -> (r: PathData)
        ensures
            r@ == self@,
    {
        PathData { path: self.path.clone(), metadata: self.metadata }
    }
}

impl PartialEq for PathData {
    fn eq(&self, other: &Self) -> (r: bool) {
        let md_same = match (&self.metadata, &other.metadata) {
            (None, None) => true,
            (Some(a), Some(b)) => a.modify_time == b.modify_time && a.size == b.size
                && a.content_id == b.content_id,
            _ => false,
        };
        md_same && str_eq(self.path.as_str(), other.path.as_str())
    }
}

impl vstd::std_specs::cmp::PartialEqSpecImpl for PathData {
    open spec fn obeys_eq_spec() -> bool {
        true
    }

    open spec fn eq_spec(&self, other: &Self) -> bool {
        self@ =~= other@
    }
}

impl Eq for PathData {

}

/// Metadata equality in the sense of the version policies: same modification
/// time and same size. A ditto is a snapshot version whose metadata equals the
/// live record's under this relation.
pub open spec fn md_eq(a: Option<PathMetadata>, b: Option<PathMetadata>) -> bool {
    match (a, b) {
        (Option::None, Option::None) => true,
        (Option::Some(x), Option::Some(y)) => x.modify_time == y.modify_time && x.size == y.size,
        _ => false,
    }
}

pub fn md_eq_exec(a: &Option<PathMetadata>, b: &Option<PathMetadata>) -> (r: bool)
    ensures
        r == md_eq(*a, *b),
{
    match (a, b) {
        (None, None) => true,
        (Some(x), Some(y)) => x.modify_time == y.modify_time && x.size == y.size,
        _ => false,
    }
}

/// Content equality: both records captured with the same content identity.
pub open spec fn content_eq(a: Option<PathMetadata>, b: Option<PathMetadata>) -> bool {
    match (a, b) {
        (Option::None, Option::None) => true,
        (Option::Some(x), Option::Some(y)) => x.content_id == y.content_id,
        _ => false,
    }
}

/// How adjacent equal versions are collapsed after sorting.
#[derive(Clone, Copy, Debug, PartialEq, Eq, Structural)]
pub enum ListSnapsOfType {
    All,
    UniqueMetadata,
    UniqueContents,
}

/// Two versions are "the same" under the selected uniqueness policy. Under
/// `All` nothing is ever the same, so nothing is collapsed.
pub open spec fn policy_eq(u: ListSnapsOfType, a: PathDataV, b: PathDataV) -> bool {
    match u {
        ListSnapsOfType::All => false,
        ListSnapsOfType::UniqueMetadata => md_eq(a.metadata, b.metadata),
        ListSnapsOfType::UniqueContents => content_eq(a.metadata, b.metadata),
    }
}

pub fn policy_eq_exec(u: &ListSnapsOfType, a: &PathData, b: &PathData) -> (r: bool)
    ensures
        r == policy_eq(*u, a@, b@),
{
    match u {
        ListSnapsOfType::All => false,
        ListSnapsOfType::UniqueMetadata => md_eq_exec(&a.metadata, &b.metadata),
        ListSnapsOfType::UniqueContents => match (&a.metadata, &b.metadata) {
            (None, None) => true,
            (Some(x), Some(y)) => x.content_id == y.content_id,
            _ => false,
        },
    }
}

/// Sort rank of the modification time: phantom records first.
pub open spec fn mtime_rank(m: Option<PathMetadata>) -> int {
    match m {
        Option::None => -1,
        Option::Some(x) => x.modify_time as int,
    }
}

pub open spec fn size_rank(m: Option<PathMetadata>) -> int {
    match m {
        Option::None => -1,
        Option::Some(x) => x.size as int,
    }
}

pub open spec fn content_rank(m: Option<PathMetadata>) -> int {
    match m {
        Option::None => -1,
        Option::Some(x) => x.content_id as int,
    }
}

/// Total order on version records: ascending modification time, ties broken by
/// path, then by the remaining metadata fields so that the order is
/// antisymmetric.
pub open spec fn version_le(a: PathDataV, b: PathDataV) -> bool {
    if mtime_rank(a.metadata) != mtime_rank(b.metadata) {
        mtime_rank(a.metadata) < mtime_rank(b.metadata)
    } else if a.path != b.path {
        lex_le(a.path, b.path)
    } else if size_rank(a.metadata) != size_rank(b.metadata) {
        size_rank(a.metadata) < size_rank(b.metadata)
    } else {
        content_rank(a.metadata) <= content_rank(b.metadata)
    }
}

/// `version_le` as a first-class relation, for use with sequence sorting.
pub open spec fn version_le_fn() -> spec_fn(PathDataV, PathDataV) -> bool {
    |a: PathDataV, b: PathDataV| version_le(a, b)
}

pub proof fn lemma_version_le_refl(a: PathDataV)
    ensures
        version_le(a, a),
{
    lemma_lex_le_refl(a.path);
}

pub proof fn lemma_version_le_total(a: PathDataV, b: PathDataV)
    ensures
        version_le(a, b) || version_le(b, a),
{
    lemma_lex_le_total(a.path, b.path);
}

pub proof fn lemma_version_le_antisym(a: PathDataV, b: PathDataV)
    requires
        version_le(a, b),
        version_le(b, a),
    ensures
        a == b,
{
    if a.path != b.path {
        lemma_lex_le_antisym(a.path, b.path);
    }
    assert(mtime_rank(a.metadata) == mtime_rank(b.metadata));
    assert(size_rank(a.metadata) == size_rank(b.metadata));
    assert(content_rank(a.metadata) == content_rank(b.metadata));
    match (a.metadata, b.metadata) {
        (Option::None, Option::None) => {
            assert(a =~= b);
        },
        (Option::Some(x), Option::Some(y)) => {
            assert(x.modify_time == y.modify_time);
            assert(x.size == y.size);
            assert(x.content_id == y.content_id);
            assert(a =~= b);
        },
        _ => {
            assert(false);
        },
    }
}

pub proof fn lemma_version_le_trans(a: PathDataV, b: PathDataV, c: PathDataV)
    requires
        version_le(a, b),
        version_le(b, c),
    ensures
        version_le(a, c),
{
    if a.path == b.path {
        lemma_lex_le_refl(a.path);
    }
    if b.path == c.path {
        lemma_lex_le_refl(b.path);
    }
    if mtime_rank(a.metadata) == mtime_rank(b.metadata) && mtime_rank(b.metadata) == mtime_rank(
        c.metadata,
    ) {
        if a.path != b.path || b.path != c.path || a.path != c.path {
            if version_le(a, b) && a.path != b.path {
                assert(lex_le(a.path, b.path));
            }
            if version_le(b, c) && b.path != c.path {
                assert(lex_le(b.path, c.path));
            }
            lemma_lex_le_trans(a.path, b.path, c.path);
            if a.path == c.path {
                lemma_lex_le_trans(b.path, c.path, a.path);
                lemma_lex_le_trans(c.path, a.path, b.path);
                lemma_lex_le_antisym(a.path, b.path);
            }
        }
    }
}

/// The version order is a total ordering, so a sorted arrangement of any
/// multiset of records is unique.
pub proof fn lemma_version_le_total_ordering()
    ensures
        total_ordering(version_le_fn()),
{
    let r = version_le_fn();
    assert forall|x: PathDataV| #[trigger] r(x, x) by {
        lemma_version_le_refl(x);
    }
    assert forall|x: PathDataV, y: PathDataV| #[trigger] r(x, y) && #[trigger] r(y, x) implies x
        == y by {
        lemma_version_le_antisym(x, y);
    }
    assert forall|x: PathDataV, y: PathDataV, z: PathDataV|
        #[trigger] r(x, y) && #[trigger] r(y, z) implies r(x, z) by {
        lemma_version_le_trans(x, y, z);
    }
    assert forall|x: PathDataV, y: PathDataV| #[trigger] r(x, y) || #[trigger] r(y, x) by {
        lemma_version_le_total(x, y);
    }
}

/// Decide `version_le` on two records.
pub fn version_le_exec(a: &PathData, b: &PathData) -> (r: bool)
    ensures
        r == version_le(a@, b@),
{
    match (&a.metadata, &b.metadata) {
        (None, Some(_)) => true,
        (Some(_), None) => false,
        (None, None) => {
            if !str_eq(a.path.as_str(), b.path.as_str()) {
                str_le(a.path.as_str(), b.path.as_str())
            } else {
                true
            }
        },
        (Some(x), Some(y)) => {
            if x.modify_time != y.modify_time {
                x.modify_time < y.modify_time
            } else if !str_eq(a.path.as_str(), b.path.as_str()) {
                str_le(a.path.as_str(), b.path.as_str())
            } else if x.size != y.size {
                x.size < y.size
            } else {
                x.content_id <= y.content_id
            }
        },
    }
}

/// The views of a sequence of records.
pub open spec fn views_of(s: Seq<PathData>) -> Seq<PathDataV> {
    s.map_values(|p: PathData| p@)
}

/// What one attempt to read a candidate path's metadata (without following a
/// final symbolic link) came back with.
#[derive(Clone, Copy, Debug, PartialEq, Eq, Structural)]
pub enum ProbeOutcome {
    /// The path exists in this snapshot; its captured metadata.
    Found(PathMetadata),
    /// The path does not exist in this snapshot: the expected common case.
    Missing,
    /// The snapshot directory is access-restricted.
    Denied,
}

/// The captured metadata of every candidate path the caller probed, keyed by
/// path. A path with no entry was not found. Built once by whoever performs
/// the filesystem reads, then consulted read-only.
#[derive(Clone, Debug)]
pub struct ProbeTable {
    pub entries: Vec<(String, ProbeOutcome)>,
}

/// What the table holds for a path: its first entry, else `Missing`.
pub open spec fn spec_probe(table: Seq<(String, ProbeOutcome)>, path: Seq<char>) -> ProbeOutcome {
    match crate::assoc::find_entry(table, path) {
        Option::Some(o) => o,
        Option::None => ProbeOutcome::Missing,
    }
}

impl ProbeTable {
    pub fn new() -> (r: ProbeTable)
        ensures
            r.entries@.len() == 0,
    {
        ProbeTable { entries: Vec::new() }
    }

    /// Record the outcome captured for one candidate path.
    pub fn record(&mut self, path: String, outcome: ProbeOutcome)
        ensures
            final(self).entries@ == old(self).entries@.push((path, outcome)),
    {
        self.entries.push((path, outcome));
    }

    /// The outcome for `path`.
    pub fn lookup(&self, path: &str) -> (r: ProbeOutcome)
        ensures
            r == spec_probe(self.entries@, path@),
    {
        match crate::assoc::assoc_index(&self.entries, path) {
            Some(i) => self.entries[i].1,
            None => ProbeOutcome::Missing,
        }
    }
}


/// Total order on records by path first: the map-keying order. Ties between
/// equal paths are broken by the metadata fields so that the order is
/// antisymmetric.
pub open spec fn path_le(a: PathDataV, b: PathDataV) -> bool {
    if a.path != b.path {
        lex_le(a.path, b.path)
    } else if mtime_rank(a.metadata) != mtime_rank(b.metadata) {
        mtime_rank(a.metadata) < mtime_rank(b.metadata)
    } else if size_rank(a.metadata) != size_rank(b.metadata) {
        size_rank(a.metadata) < size_rank(b.metadata)
    } else {
        content_rank(a.metadata) <= content_rank(b.metadata)
    }
}

/// `path_le` as a first-class relation.
pub open spec fn path_le_fn() -> spec_fn(PathDataV, PathDataV) -> bool {
    |a: PathDataV, b: PathDataV| path_le(a, b)
}

pub proof fn lemma_path_le_refl(a: PathDataV)
    ensures
        path_le(a, a),
{
    lemma_lex_le_refl(a.path);
}

pub proof fn lemma_path_le_total(a: PathDataV, b: PathDataV)
    ensures
        path_le(a, b) || path_le(b, a),
{
    lemma_lex_le_total(a.path, b.path);
}

pub proof fn lemma_path_le_antisym(a: PathDataV, b: PathDataV)
    requires
        path_le(a, b),
        path_le(b, a),
    ensures
        a == b,
{
    if a.path != b.path {
        lemma_lex_le_antisym(a.path, b.path);
    }
    assert(mtime_rank(a.metadata) == mtime_rank(b.metadata));
    assert(size_rank(a.metadata) == size_rank(b.metadata));
    assert(content_rank(a.metadata) == content_rank(b.metadata));
    match (a.metadata, b.metadata) {
        (Option::None, Option::None) => {
            assert(a =~= b);
        },
        (Option::Some(x), Option::Some(y)) => {
            assert(x.modify_time == y.modify_time);
            assert(x.size == y.size);
            assert(x.content_id == y.content_id);
            assert(a =~= b);
        },
        _ => {
            assert(false);
        },
    }
}

pub proof fn lemma_path_le_trans(a: PathDataV, b: PathDataV, c: PathDataV)
    requires
        path_le(a, b),
        path_le(b, c),
    ensures
        path_le(a, c),
{
    if a.path == b.path {
        lemma_lex_le_refl(a.path);
    }
    if b.path == c.path {
        lemma_lex_le_refl(b.path);
    }
    if path_le(a, b) && a.path != b.path {
        assert(lex_le(a.path, b.path));
    }
    if path_le(b, c) && b.path != c.path {
        assert(lex_le(b.path, c.path));
    }
    lemma_lex_le_trans(a.path, b.path, c.path);
    if a.path == c.path && (a.path != b.path || b.path != c.path) {
        lemma_lex_le_trans(b.path, c.path, a.path);
        lemma_lex_le_trans(c.path, a.path, b.path);
        lemma_lex_le_antisym(a.path, b.path);
    }
}

/// The map-keying order is a total ordering.
pub proof fn lemma_path_le_total_ordering()
    ensures
        total_ordering(path_le_fn()),
{
    let r = path_le_fn();
    assert forall|x: PathDataV| #[trigger] r(x, x) by {
        lemma_path_le_refl(x);
    }
    assert forall|x: PathDataV, y: PathDataV| #[trigger] r(x, y) && #[trigger] r(y, x) implies x
        == y by {
        lemma_path_le_antisym(x, y);
    }
    assert forall|x: PathDataV, y: PathDataV, z: PathDataV|
        #[trigger] r(x, y) && #[trigger] r(y, z) implies r(x, z) by {
        lemma_path_le_trans(x, y, z);
    }
    assert forall|x: PathDataV, y: PathDataV| #[trigger] r(x, y) || #[trigger] r(y, x) by {
        lemma_path_le_total(x, y);
    }
}

/// Decide `path_le` on two records.
pub fn path_le_exec(a: &PathData, b: &PathData) -> (r: bool)
    ensures
        r == path_le(a@, b@),
{
    if !str_eq(a.path.as_str(), b.path.as_str()) {
        str_le(a.path.as_str(), b.path.as_str())
    } else {
        match (&a.metadata, &b.metadata) {
            (None, Some(_)) => true,
            (Some(_), None) => false,
            (None, None) => true,
            (Some(x), Some(y)) => {
                if x.modify_time != y.modify_time {
                    x.modify_time < y.modify_time
                } else if x.size != y.size {
                    x.size < y.size
                } else {
                    x.content_id <= y.content_id
                }
            },
        }
    }
}

} // verus!
