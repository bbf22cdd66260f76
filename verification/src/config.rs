//! Run configuration: the policy switches selected by the caller and the
//! read-only dataset maps discovered (or supplied) before any path is
//! processed.

use vstd::prelude::*;
use crate::data::ListSnapsOfType;
use crate::mounts::DatasetMetadata;

verus! {

/// How the result map is rendered by the display layer.
#[derive(Clone, Copy, Debug, PartialEq, Eq, Structural)]
pub enum PrintMode {
    FormattedDefault,
    FormattedNotPretty,
    RawNewline,
    RawZero,
}

/// How a version list is collapsed to at most one "last snapshot" entry.
#[derive(Clone, Copy, Debug, PartialEq, Eq, Structural)]
pub enum LastSnapMode {
    Any,
    DittoOnly,
    NoDittoExclusive,
    NoDittoInclusive,
    Without,
}

/// Which aspect of a resolved mount the mount display reports.
#[derive(Clone, Copy, Debug, PartialEq, Eq, Structural)]
pub enum MountDisplay {
    Target,
    Source,
    RelativePath,
}

/// A user-declared alias: a live directory prefix resolved directly to a
/// chosen proximate dataset, optionally with a precomputed relative path.
#[derive(Clone, Debug)]
pub struct AliasEntry {
    pub proximate_dataset: String,
    pub opt_relative_path: Option<String>,
}

/// The read-only maps the resolver works from. All are built once and shared;
/// `opt_map_of_alts` is `None` when alternate-dataset search is not requested,
/// and `opt_map_of_aliases` is `None` when the user declared no aliases.
#[derive(Clone, Debug)]
pub struct DatasetCollection {
    /// Mount point -> dataset metadata, for every supported mount.
    pub map_of_datasets: Vec<(String, DatasetMetadata)>,
    /// Mount point -> that dataset's snapshot roots, oldest first.
    pub map_of_snaps: Vec<(String, Vec<String>)>,
    /// Proximate mount -> additional replicated dataset mounts to search.
    pub opt_map_of_alts: Option<Vec<(String, Vec<String>)>>,
    /// Live directory prefix -> user-declared alias target.
    pub opt_map_of_aliases: Option<Vec<(String, AliasEntry)>>,
}

/// Policy switches for one invocation.
#[derive(Clone, Debug)]
pub struct Config {
    pub uniqueness: ListSnapsOfType,
    pub opt_omit_ditto: bool,
    pub opt_last_snap: Option<LastSnapMode>,
    /// The carve-out: the caller has requested a mode in which finding no
    /// snapshot data at all is an accepted outcome, so the global
    /// empty-result check is skipped.
    pub opt_bulk_exclusion: bool,
    pub print_mode: PrintMode,
    pub dataset_collection: DatasetCollection,
}

} // verus!
