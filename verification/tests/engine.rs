use httm::config::{Config, DatasetCollection, LastSnapMode, PrintMode};
use httm::data::{ListSnapsOfType, PathData, PathMetadata, ProbeOutcome, ProbeTable};
use httm::mounts::{DatasetMetadata, FilesystemType, MountType};
use httm::results::HttmErrorKind;
use httm::versions::VersionsMap;
use httm::config::AliasEntry;
use httm::config::MountDisplay;
use httm::file_mounts::MountsForFiles;
use httm::results::HttmError;
use httm::versions::{dedup_adjacent, sort_versions};

fn md(mtime: u64, size: u64, content_id: u64) -> PathMetadata {
    PathMetadata {
        modify_time: mtime,
        size,
        content_id,
    }
}

fn zfs_meta(name: &str) -> DatasetMetadata {
    DatasetMetadata {
        name: name.to_string(),
        fs_type: FilesystemType::Zfs,
        mount_type: MountType::Local,
    }
}

fn data_collection() -> DatasetCollection {
    DatasetCollection {
        map_of_datasets: vec![("/data".to_string(), zfs_meta("tank/data"))],
        map_of_snaps: vec![(
            "/data".to_string(),
            vec!["/data/.snap/s1".to_string(), "/data/.snap/s2".to_string()],
        )],
        opt_map_of_alts: None,
        opt_map_of_aliases: None,
    }
}

fn config_with(collection: DatasetCollection) -> Config {
    Config {
        uniqueness: ListSnapsOfType::All,
        opt_omit_ditto: false,
        opt_last_snap: None,
        opt_bulk_exclusion: false,
        print_mode: PrintMode::FormattedDefault,
        dataset_collection: collection,
    }
}

fn probes_two_snaps(s2_mtime: u64) -> ProbeTable {
    let mut probes = ProbeTable::new();
    probes.record(
        "/data/.snap/s1/f.txt".to_string(),
        ProbeOutcome::Found(md(100, 5, 1)),
    );
    probes.record(
        "/data/.snap/s2/f.txt".to_string(),
        ProbeOutcome::Found(md(s2_mtime, 5, 2)),
    );
    probes
}

#[test]
fn scenario_all_mode_two_versions() {
    let config = config_with(data_collection());
    let live = PathData::with_metadata("/data/f.txt".to_string(), md(200, 5, 2));
    let paths = vec![live];
    let probes = probes_two_snaps(200);
    let map = VersionsMap::new(&config, &paths, &probes).unwrap();
    assert_eq!(map.inner.len(), 1);
    assert_eq!(map.inner[0].0.path, "/data/f.txt");
    let versions = &map.inner[0].1;
    assert_eq!(versions.len(), 2);
    assert_eq!(versions[0].path, "/data/.snap/s1/f.txt");
    assert_eq!(versions[0].metadata.unwrap().modify_time, 100);
    assert_eq!(versions[1].path, "/data/.snap/s2/f.txt");
    assert_eq!(versions[1].metadata.unwrap().modify_time, 200);
}

#[test]
fn scenario_ditto_omission_drops_newest() {
    let mut config = config_with(data_collection());
    config.opt_omit_ditto = true;
    let live = PathData::with_metadata("/data/f.txt".to_string(), md(200, 5, 2));
    let paths = vec![live];
    let probes = probes_two_snaps(200);
    let map = VersionsMap::new(&config, &paths, &probes).unwrap();
    let versions = &map.inner[0].1;
    assert_eq!(versions.len(), 1);
    assert_eq!(versions[0].path, "/data/.snap/s1/f.txt");
    assert_eq!(versions[0].metadata.unwrap().modify_time, 100);
}

#[test]
fn scenario_no_ditto_exclusive_keeps_differing_last() {
    let mut config = config_with(data_collection());
    config.opt_last_snap = Some(LastSnapMode::NoDittoExclusive);
    let live = PathData::with_metadata("/data/f.txt".to_string(), md(300, 5, 9));
    let paths = vec![live];
    let probes = probes_two_snaps(200);
    let map = VersionsMap::new(&config, &paths, &probes).unwrap();
    let versions = &map.inner[0].1;
    assert_eq!(versions.len(), 1);
    assert_eq!(versions[0].path, "/data/.snap/s2/f.txt");
    assert_eq!(versions[0].metadata.unwrap().modify_time, 200);
}

#[test]
fn scenario_no_ditto_inclusive_keeps_live_when_no_snapshots() {
    let mut config = config_with(data_collection());
    config.opt_last_snap = Some(LastSnapMode::NoDittoInclusive);
    let live = PathData::with_metadata("/data/g.txt".to_string(), md(300, 7, 3));
    let paths = vec![live.clone()];
    // no probe entries at all: both candidate snapshot copies are missing
    let probes = ProbeTable::new();
    let map = VersionsMap::new(&config, &paths, &probes).unwrap();
    let versions = &map.inner[0].1;
    assert_eq!(versions.len(), 1);
    assert_eq!(versions[0].path, "/data/g.txt");
    assert_eq!(versions[0].metadata.unwrap().modify_time, 300);
}

#[test]
fn scenario_permission_denied_is_fatal() {
    let config = config_with(data_collection());
    let live = PathData::with_metadata("/data/f.txt".to_string(), md(200, 5, 2));
    let paths = vec![live];
    let mut probes = ProbeTable::new();
    probes.record(
        "/data/.snap/s1/f.txt".to_string(),
        ProbeOutcome::Found(md(100, 5, 1)),
    );
    probes.record("/data/.snap/s2/f.txt".to_string(), ProbeOutcome::Denied);
    let err = VersionsMap::new(&config, &paths, &probes).unwrap_err();
    assert_eq!(err.kind, HttmErrorKind::PermissionDenied);
    assert_eq!(err.opt_path.as_deref(), Some("/data/.snap/s2/f.txt"));
}

#[test]
fn scenario_all_phantom_nothing_found() {
    let config = config_with(data_collection());
    let paths = vec![
        PathData::phantom("/data/gone1.txt".to_string()),
        PathData::phantom("/data/gone2.txt".to_string()),
    ];
    let probes = ProbeTable::new();
    let err = VersionsMap::new(&config, &paths, &probes).unwrap_err();
    assert_eq!(err.kind, HttmErrorKind::NothingFound);
}

#[test]
fn scenario_bulk_exclusion_accepts_empty_result() {
    let mut config = config_with(data_collection());
    config.opt_bulk_exclusion = true;
    let paths = vec![PathData::phantom("/data/gone1.txt".to_string())];
    let probes = ProbeTable::new();
    let map = VersionsMap::new(&config, &paths, &probes).unwrap();
    assert_eq!(map.inner.len(), 1);
    assert!(map.inner[0].1.is_empty());
}

#[test]
fn unsupported_filesystem_degrades_to_empty_list() {
    let config = config_with(data_collection());
    let outside = PathData::with_metadata("/other/f.txt".to_string(), md(10, 1, 1));
    let inside = PathData::with_metadata("/data/f.txt".to_string(), md(200, 5, 2));
    let paths = vec![outside, inside];
    let probes = probes_two_snaps(200);
    let map = VersionsMap::new(&config, &paths, &probes).unwrap();
    assert_eq!(map.inner.len(), 2);
    // keys are ordered by path
    assert_eq!(map.inner[0].0.path, "/data/f.txt");
    assert_eq!(map.inner[1].0.path, "/other/f.txt");
    assert_eq!(map.inner[0].1.len(), 2);
    assert!(map.inner[1].1.is_empty());
}

#[test]
fn versions_are_sorted_by_modification_time() {
    // snapshots delivered newest-first still come out ascending
    let collection = DatasetCollection {
        map_of_datasets: vec![("/data".to_string(), zfs_meta("tank/data"))],
        map_of_snaps: vec![(
            "/data".to_string(),
            vec![
                "/data/.snap/s2".to_string(),
                "/data/.snap/s1".to_string(),
                "/data/.snap/s3".to_string(),
            ],
        )],
        opt_map_of_alts: None,
        opt_map_of_aliases: None,
    };
    let config = config_with(collection);
    let mut probes = ProbeTable::new();
    probes.record(
        "/data/.snap/s2/f.txt".to_string(),
        ProbeOutcome::Found(md(200, 5, 2)),
    );
    probes.record(
        "/data/.snap/s1/f.txt".to_string(),
        ProbeOutcome::Found(md(100, 5, 1)),
    );
    probes.record(
        "/data/.snap/s3/f.txt".to_string(),
        ProbeOutcome::Found(md(300, 6, 3)),
    );
    let live = PathData::with_metadata("/data/f.txt".to_string(), md(300, 6, 3));
    let paths = vec![live];
    let map = VersionsMap::new(&config, &paths, &probes).unwrap();
    let versions = &map.inner[0].1;
    let mtimes: Vec<u64> = versions
        .iter()
        .map(|p| p.metadata.unwrap().modify_time)
        .collect();
    assert_eq!(mtimes, vec![100, 200, 300]);
    for w in mtimes.windows(2) {
        assert!(w[0] <= w[1]);
    }
}

#[test]
fn unique_metadata_collapses_equal_neighbors() {
    let collection = DatasetCollection {
        map_of_datasets: vec![("/data".to_string(), zfs_meta("tank/data"))],
        map_of_snaps: vec![(
            "/data".to_string(),
            vec![
                "/data/.snap/s1".to_string(),
                "/data/.snap/s2".to_string(),
                "/data/.snap/s3".to_string(),
            ],
        )],
        opt_map_of_alts: None,
        opt_map_of_aliases: None,
    };
    let mut config = config_with(collection);
    config.uniqueness = ListSnapsOfType::UniqueMetadata;
    let mut probes = ProbeTable::new();
    // s1 and s2 carry identical metadata; s3 differs
    probes.record(
        "/data/.snap/s1/f.txt".to_string(),
        ProbeOutcome::Found(md(100, 5, 1)),
    );
    probes.record(
        "/data/.snap/s2/f.txt".to_string(),
        ProbeOutcome::Found(md(100, 5, 1)),
    );
    probes.record(
        "/data/.snap/s3/f.txt".to_string(),
        ProbeOutcome::Found(md(300, 6, 3)),
    );
    let live = PathData::with_metadata("/data/f.txt".to_string(), md(300, 6, 3));
    let paths = vec![live];
    let map = VersionsMap::new(&config, &paths, &probes).unwrap();
    let versions = &map.inner[0].1;
    assert_eq!(versions.len(), 2);
    // the earliest of the equal run is kept
    assert_eq!(versions[0].path, "/data/.snap/s1/f.txt");
    assert_eq!(versions[1].path, "/data/.snap/s3/f.txt");
}

#[test]
fn unique_contents_collapses_by_content_identity() {
    let collection = data_collection();
    let mut config = config_with(collection);
    config.uniqueness = ListSnapsOfType::UniqueContents;
    let mut probes = ProbeTable::new();
    // different metadata, identical content identity
    probes.record(
        "/data/.snap/s1/f.txt".to_string(),
        ProbeOutcome::Found(md(100, 5, 7)),
    );
    probes.record(
        "/data/.snap/s2/f.txt".to_string(),
        ProbeOutcome::Found(md(200, 5, 7)),
    );
    let live = PathData::with_metadata("/data/f.txt".to_string(), md(200, 5, 7));
    let paths = vec![live];
    let map = VersionsMap::new(&config, &paths, &probes).unwrap();
    let versions = &map.inner[0].1;
    assert_eq!(versions.len(), 1);
    assert_eq!(versions[0].metadata.unwrap().modify_time, 100);
}

#[test]
fn processing_twice_changes_nothing() {
    let records = vec![
        PathData::with_metadata("/data/.snap/s2/f.txt".to_string(), md(200, 5, 2)),
        PathData::with_metadata("/data/.snap/s1/f.txt".to_string(), md(100, 5, 1)),
        PathData::with_metadata("/data/.snap/s3/f.txt".to_string(), md(100, 5, 1)),
    ];
    let uniqueness = ListSnapsOfType::UniqueMetadata;
    let once = dedup_adjacent(sort_versions(records), &uniqueness);
    let twice = dedup_adjacent(sort_versions(once.clone()), &uniqueness);
    assert_eq!(once, twice);
}

#[test]
fn duplicate_input_paths_yield_one_key() {
    let config = config_with(data_collection());
    let live = PathData::with_metadata("/data/f.txt".to_string(), md(200, 5, 2));
    let paths = vec![live.clone(), live];
    let probes = probes_two_snaps(200);
    let map = VersionsMap::new(&config, &paths, &probes).unwrap();
    assert_eq!(map.inner.len(), 1);
}

#[test]
fn alternates_are_searched_before_proximate() {
    let collection = DatasetCollection {
        map_of_datasets: vec![
            ("/data".to_string(), zfs_meta("tank/data")),
            ("/backup".to_string(), zfs_meta("tank/backup")),
        ],
        map_of_snaps: vec![
            ("/data".to_string(), vec!["/data/.snap/s1".to_string()]),
            ("/backup".to_string(), vec!["/backup/.snap/b1".to_string()]),
        ],
        opt_map_of_alts: Some(vec![(
            "/data".to_string(),
            vec!["/backup".to_string()],
        )]),
        opt_map_of_aliases: None,
    };
    let live = PathData::with_metadata("/data/f.txt".to_string(), md(200, 5, 2));
    let prox =
        httm::versions::ProximateDatasetAndOptAlts::new(&live, &collection).unwrap();
    // the alternate dataset precedes the proximate one in search order
    let datasets = prox.datasets_of_interest();
    assert_eq!(datasets, vec!["/backup".to_string(), "/data".to_string()]);
    let bundles = prox.into_search_bundles(&collection.map_of_snaps);
    assert_eq!(bundles.len(), 2);
    assert_eq!(bundles[0].snap_mounts, vec!["/backup/.snap/b1".to_string()]);
    assert_eq!(bundles[1].snap_mounts, vec!["/data/.snap/s1".to_string()]);
    // records from the alternate surface first in the unsorted aggregation
    let mut probes = ProbeTable::new();
    probes.record(
        "/backup/.snap/b1/f.txt".to_string(),
        ProbeOutcome::Found(md(100, 5, 1)),
    );
    probes.record(
        "/data/.snap/s1/f.txt".to_string(),
        ProbeOutcome::Found(md(100, 5, 1)),
    );
    let first = bundles[0].versions_unprocessed(&probes).unwrap();
    assert_eq!(first[0].path, "/backup/.snap/b1/f.txt");
}

#[test]
fn last_version_returns_most_recent() {
    let collection = data_collection();
    let live = PathData::with_metadata("/data/f.txt".to_string(), md(300, 6, 3));
    let prox =
        httm::versions::ProximateDatasetAndOptAlts::new(&live, &collection).unwrap();
    let bundles = prox.into_search_bundles(&collection.map_of_snaps);
    let probes = probes_two_snaps(200);
    let last = bundles[0].last_version(&probes).unwrap().unwrap();
    assert_eq!(last.path, "/data/.snap/s2/f.txt");
    assert_eq!(last.metadata.unwrap().modify_time, 200);
}

#[test]
fn is_live_version_redundant_detects_ditto() {
    let live = PathData::with_metadata("/data/f.txt".to_string(), md(200, 5, 9));
    let snaps = vec![
        PathData::with_metadata("/data/.snap/s1/f.txt".to_string(), md(100, 5, 1)),
        PathData::with_metadata("/data/.snap/s2/f.txt".to_string(), md(200, 5, 2)),
    ];
    assert!(VersionsMap::is_live_version_redundant(&live, &snaps));
    let newer = PathData::with_metadata("/data/f.txt".to_string(), md(300, 5, 9));
    assert!(!VersionsMap::is_live_version_redundant(&newer, &snaps));
    assert!(!VersionsMap::is_live_version_redundant(&live, &Vec::new()));
}

#[test]
fn omit_ditto_leaves_differing_list_unchanged() {
    let key = PathData::with_metadata("/data/f.txt".to_string(), md(300, 6, 3));
    let versions = vec![
        PathData::with_metadata("/data/.snap/s1/f.txt".to_string(), md(100, 5, 1)),
        PathData::with_metadata("/data/.snap/s2/f.txt".to_string(), md(200, 5, 2)),
    ];
    let mut map = VersionsMap {
        inner: vec![(key, versions.clone())],
    };
    map.omit_ditto();
    assert_eq!(map.inner[0].1, versions);
}

#[test]
fn last_snap_mode_table() {
    let ditto_key = PathData::with_metadata("/data/f.txt".to_string(), md(200, 5, 9));
    let snaps = vec![
        PathData::with_metadata("/data/.snap/s1/f.txt".to_string(), md(100, 5, 1)),
        PathData::with_metadata("/data/.snap/s2/f.txt".to_string(), md(200, 5, 2)),
    ];
    let build = |mode: LastSnapMode, key: &PathData, vs: &Vec<PathData>| {
        let mut m = VersionsMap {
            inner: vec![(key.clone(), vs.clone())],
        };
        m.last_snap(&mode);
        m.inner[0].1.clone()
    };
    // last snapshot is a ditto of the live record
    assert_eq!(build(LastSnapMode::Any, &ditto_key, &snaps).len(), 1);
    assert_eq!(build(LastSnapMode::DittoOnly, &ditto_key, &snaps).len(), 1);
    assert!(build(LastSnapMode::NoDittoExclusive, &ditto_key, &snaps).is_empty());
    assert!(build(LastSnapMode::NoDittoInclusive, &ditto_key, &snaps).is_empty());
    assert!(build(LastSnapMode::Without, &ditto_key, &snaps).is_empty());
    // no snapshot at all
    let empty: Vec<PathData> = Vec::new();
    assert!(build(LastSnapMode::Any, &ditto_key, &empty).is_empty());
    let live_kept = build(LastSnapMode::NoDittoInclusive, &ditto_key, &empty);
    assert_eq!(live_kept.len(), 1);
    assert_eq!(live_kept[0], ditto_key);
    assert_eq!(build(LastSnapMode::Without, &ditto_key, &empty).len(), 1);
}

#[test]
fn alias_overrides_automatic_resolution() {
    let collection = DatasetCollection {
        map_of_datasets: vec![("/data".to_string(), zfs_meta("tank/data"))],
        map_of_snaps: vec![("/remote".to_string(), vec!["/remote/.snap/r1".to_string()])],
        opt_map_of_alts: None,
        opt_map_of_aliases: Some(vec![(
            "/home/user/mirror".to_string(),
            AliasEntry {
                proximate_dataset: "/remote".to_string(),
                opt_relative_path: Some("f.txt".to_string()),
            },
        )]),
    };
    let live =
        PathData::with_metadata("/home/user/mirror/f.txt".to_string(), md(200, 5, 2));
    let prox =
        httm::versions::ProximateDatasetAndOptAlts::new(&live, &collection).unwrap();
    assert_eq!(prox.proximate_dataset, "/remote");
    assert_eq!(prox.relative_path, "f.txt");
}

#[test]
fn longest_prefix_wins_resolution() {
    let collection = DatasetCollection {
        map_of_datasets: vec![
            ("/".to_string(), zfs_meta("tank/root")),
            ("/data".to_string(), zfs_meta("tank/data")),
        ],
        map_of_snaps: vec![],
        opt_map_of_alts: None,
        opt_map_of_aliases: None,
    };
    let live = PathData::with_metadata("/data/f.txt".to_string(), md(1, 1, 1));
    let prox =
        httm::versions::ProximateDatasetAndOptAlts::new(&live, &collection).unwrap();
    assert_eq!(prox.proximate_dataset, "/data");
    assert_eq!(prox.relative_path, "f.txt");
    // a path that is not under any mount fails to resolve
    let stray = PathData::phantom("data/relative.txt".to_string());
    let err = httm::versions::ProximateDatasetAndOptAlts::new(&stray, &collection)
        .unwrap_err();
    assert_eq!(err.kind, HttmErrorKind::DatasetUnresolved);
}

#[test]
fn mounts_for_files_rejects_all_phantom() {
    let collection = data_collection();
    let paths = vec![PathData::phantom("/data/gone.txt".to_string())];
    let err = MountsForFiles::new(MountDisplay::Target, &paths, &collection).unwrap_err();
    assert_eq!(err.kind, HttmErrorKind::MountsUnresolved);
    let live = vec![PathData::with_metadata(
        "/data/f.txt".to_string(),
        md(1, 1, 1),
    )];
    let ok = MountsForFiles::new(MountDisplay::Source, &live, &collection).unwrap();
    assert_eq!(ok.inner.len(), 1);
    assert_eq!(ok.inner[0].proximate_dataset, "/data");
    assert!(matches!(ok.mount_display(), MountDisplay::Source));
}

#[test]
fn error_messages_name_the_condition() {
    let e = HttmError::new(HttmErrorKind::NoDatasetsFound);
    assert!(e.message().contains("datasets"));
    let p = HttmError::with_path(
        HttmErrorKind::PermissionDenied,
        "/data/.snap/s2/f.txt".to_string(),
    );
    assert!(p.message().contains("permission"));
}
