use httm::config::{Config, DatasetCollection, LastSnapMode, PrintMode};
use httm::data::ListSnapsOfType;
use httm::display::{OtherDisplayWrapper, PrintAsMap, PrintableMap};
use httm::data::{PathData, PathMetadata};
use httm::versions::VersionsMap;
use httm::config::MountDisplay;
use httm::file_mounts::MountsForFiles;
use httm::mounts::{DatasetMetadata, FilesystemType, MountType};

fn config(print_mode: PrintMode, opt_last_snap: Option<LastSnapMode>) -> Config {
    Config {
        uniqueness: ListSnapsOfType::All,
        opt_omit_ditto: false,
        opt_last_snap,
        opt_bulk_exclusion: false,
        print_mode,
        dataset_collection: DatasetCollection {
            map_of_datasets: vec![],
            map_of_snaps: vec![],
            opt_map_of_alts: None,
            opt_map_of_aliases: None,
        },
    }
}

fn sample() -> Vec<(String, Vec<String>)> {
    vec![(
        "/a".to_string(),
        vec!["x".to_string(), "y".to_string()],
    )]
}

#[test]
fn map_padding_is_longest_key_plus_quotes() {
    let map = PrintableMap {
        inner: vec![
            ("/a".to_string(), vec![]),
            ("/abc".to_string(), vec![]),
        ],
    };
    assert_eq!(map.get_map_padding(), 6);
    let empty = PrintableMap { inner: vec![] };
    assert_eq!(empty.get_map_padding(), 2);
}

#[test]
fn format_as_map_pads_and_quotes() {
    let map = PrintableMap { inner: sample() };
    let config = config(PrintMode::FormattedDefault, None);
    let out = map.format_as_map(&config);
    // padding is len("/a") + 2 = 4, so the quoted key is exactly the column
    assert_eq!(out, "\"/a\" : \"x\"\n     : \"y\"\n");
}

#[test]
fn format_as_map_not_pretty_uses_tabs() {
    let map = PrintableMap { inner: sample() };
    let config = config(PrintMode::FormattedNotPretty, None);
    let out = map.format_as_map(&config);
    assert_eq!(out, "/a:\tx\ty\n");
}

#[test]
fn format_filters_empty_entries_under_last_snap() {
    let map = PrintAsMap {
        inner: vec![
            ("/a".to_string(), vec!["x".to_string()]),
            ("/b".to_string(), vec![]),
        ],
    };
    let with_policy = config(PrintMode::FormattedNotPretty, Some(LastSnapMode::Any));
    assert_eq!(map.format(&with_policy), "/a:\tx\n");
    let without = config(PrintMode::FormattedNotPretty, None);
    assert_eq!(map.format(&without), "/a:\tx\n/b:\n");
}

#[test]
fn raw_modes_stream_values_with_delimiter() {
    let wrapper = OtherDisplayWrapper::from(
        config(PrintMode::RawNewline, None),
        PrintableMap { inner: sample() },
    );
    assert_eq!(wrapper.to_string(), "x\ny\n");
    let zero = OtherDisplayWrapper::from(
        config(PrintMode::RawZero, None),
        PrintableMap { inner: sample() },
    );
    assert_eq!(zero.to_string(), "x\0y\0");
}

#[test]
fn formatted_wrapper_delegates_to_map_layout() {
    let wrapper = OtherDisplayWrapper::from(
        config(PrintMode::FormattedDefault, None),
        PrintableMap { inner: sample() },
    );
    assert_eq!(wrapper.to_string(), "\"/a\" : \"x\"\n     : \"y\"\n");
}

#[test]
fn print_as_map_mirrors_versions_map() {
    let md = PathMetadata {
        modify_time: 100,
        size: 5,
        content_id: 1,
    };
    let map = VersionsMap {
        inner: vec![(
            PathData::with_metadata("/data/f.txt".to_string(), md),
            vec![PathData::with_metadata(
                "/data/.snap/s1/f.txt".to_string(),
                md,
            )],
        )],
    };
    let print = PrintAsMap::from_versions_map(&map);
    assert_eq!(print.inner.len(), 1);
    assert_eq!(print.inner[0].0, "/data/f.txt");
    assert_eq!(print.inner[0].1, vec!["/data/.snap/s1/f.txt".to_string()]);
    assert_eq!(print.map_padding(), "/data/f.txt".len() + 2);
}

#[test]
fn mounts_for_files_renders_each_display_aspect() {
    let collection = DatasetCollection {
        map_of_datasets: vec![(
            "/data".to_string(),
            DatasetMetadata {
                name: "tank/data".to_string(),
                fs_type: FilesystemType::Zfs,
                mount_type: MountType::Local,
            },
        )],
        map_of_snaps: vec![],
        opt_map_of_alts: None,
        opt_map_of_aliases: None,
    };
    let md = PathMetadata {
        modify_time: 1,
        size: 1,
        content_id: 1,
    };
    let paths = vec![PathData::with_metadata("/data/a/b.txt".to_string(), md)];
    let targets =
        MountsForFiles::new(MountDisplay::Target, &paths, &collection).unwrap();
    let target_map = PrintAsMap::from_mounts_for_files(&targets, &collection.map_of_datasets);
    assert_eq!(target_map.inner[0].0, "/data/a/b.txt");
    assert_eq!(target_map.inner[0].1, vec!["/data".to_string()]);
    let sources =
        MountsForFiles::new(MountDisplay::Source, &paths, &collection).unwrap();
    let source_map = PrintAsMap::from_mounts_for_files(&sources, &collection.map_of_datasets);
    assert_eq!(source_map.inner[0].1, vec!["tank/data".to_string()]);
    let relatives =
        MountsForFiles::new(MountDisplay::RelativePath, &paths, &collection).unwrap();
    let rel_map = PrintAsMap::from_mounts_for_files(&relatives, &collection.map_of_datasets);
    assert_eq!(rel_map.inner[0].1, vec!["a/b.txt".to_string()]);
}
