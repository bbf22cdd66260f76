use httm::mounts::{BaseFilesystemInfo, FilesystemType, MountEntry, MountType};
use httm::results::HttmErrorKind;
use httm::text::{is_path_prefix, path_depth, path_join, relative_of, str_contains, str_le};

fn entry(source: &str, dest: &str, fstype: &str, options: &[&str]) -> MountEntry {
    MountEntry {
        source: source.to_string(),
        dest: dest.to_string(),
        fstype: fstype.to_string(),
        options: options.iter().map(|o| o.to_string()).collect(),
    }
}

#[test]
fn classifies_zfs_mount_as_local_dataset() {
    let entries = vec![entry("tank/data", "/data", "zfs", &["rw"])];
    let probes = Vec::new();
    let (datasets, filter) = BaseFilesystemInfo::from_proc_mounts(&entries, &probes).unwrap();
    assert_eq!(datasets.len(), 1);
    assert_eq!(datasets[0].0, "/data");
    assert_eq!(datasets[0].1.name, "tank/data");
    assert!(matches!(datasets[0].1.fs_type, FilesystemType::Zfs));
    assert!(matches!(datasets[0].1.mount_type, MountType::Local));
    assert!(filter.dirs_set.is_empty());
    assert_eq!(filter.opt_max_depth, None);
}

#[test]
fn btrfs_name_comes_from_subvol_option() {
    let entries = vec![
        entry("/dev/sda2", "/", "btrfs", &["rw", "subvol=/@"]),
        entry("/dev/sda2", "/home", "btrfs", &["rw", "noatime"]),
    ];
    let probes = Vec::new();
    let (datasets, _) = BaseFilesystemInfo::from_proc_mounts(&entries, &probes).unwrap();
    assert_eq!(datasets[0].1.name, "/@");
    assert!(matches!(datasets[0].1.fs_type, FilesystemType::Btrfs));
    // without a subvol option the source string is the name
    assert_eq!(datasets[1].1.name, "/dev/sda2");
}

#[test]
fn network_share_needs_successful_probe() {
    let entries = vec![
        entry("server:/export", "/mnt/a", "nfs", &["rw"]),
        entry("server:/other", "/mnt/b", "nfs", &["rw"]),
    ];
    // only /mnt/a probed as backed by a snapshot-capable filesystem
    let probes = vec![("/mnt/a".to_string(), FilesystemType::Zfs)];
    let (datasets, filter) = BaseFilesystemInfo::from_proc_mounts(&entries, &probes).unwrap();
    assert_eq!(datasets.len(), 1);
    assert_eq!(datasets[0].0, "/mnt/a");
    assert!(matches!(datasets[0].1.mount_type, MountType::Network));
    // the failed probe is discarded into the filter set
    assert_eq!(filter.dirs_set, vec!["/mnt/b".to_string()]);
}

#[test]
fn snapshot_mounts_are_excluded_outright() {
    let entries = vec![
        entry("tank/data", "/data", "zfs", &[]),
        entry("tank/data@s1", "/data/.zfs/snapshot/s1", "zfs", &[]),
    ];
    let probes = Vec::new();
    let (datasets, filter) = BaseFilesystemInfo::from_proc_mounts(&entries, &probes).unwrap();
    assert_eq!(datasets.len(), 1);
    assert_eq!(datasets[0].0, "/data");
    // excluded, not filtered
    assert!(filter.dirs_set.is_empty());
}

#[test]
fn unsupported_types_fill_the_filter_set() {
    let entries = vec![
        entry("tank/data", "/data", "zfs", &[]),
        entry("proc", "/proc", "proc", &[]),
        entry("tmpfs", "/run/lock/a", "tmpfs", &[]),
    ];
    let probes = Vec::new();
    let (_, filter) = BaseFilesystemInfo::from_proc_mounts(&entries, &probes).unwrap();
    assert_eq!(
        filter.dirs_set,
        vec!["/proc".to_string(), "/run/lock/a".to_string()]
    );
    // "/run/lock/a" has four components, counting the root
    assert_eq!(filter.opt_max_depth, Some(4));
}

#[test]
fn no_supported_dataset_is_fatal() {
    let entries = vec![entry("proc", "/proc", "proc", &[])];
    let probes = Vec::new();
    let err = BaseFilesystemInfo::from_proc_mounts(&entries, &probes).unwrap_err();
    assert_eq!(err.kind, HttmErrorKind::NoDatasetsFound);
}

#[test]
fn mount_cmd_type_grammar_parses() {
    let output = "tank/data on /data type zfs (rw,noatime)\nproc on /proc type proc (rw)\n";
    let probes = vec![("/data".to_string(), FilesystemType::Zfs)];
    let (datasets, filter) = BaseFilesystemInfo::from_mount_cmd(output, &probes).unwrap();
    assert_eq!(datasets.len(), 1);
    assert_eq!(datasets[0].0, "/data");
    assert_eq!(datasets[0].1.name, "tank/data");
    assert!(matches!(datasets[0].1.mount_type, MountType::Local));
    assert_eq!(filter.dirs_set, vec!["/proc".to_string()]);
}

#[test]
fn mount_cmd_paren_grammar_parses() {
    let output = "tank/data on /data (zfs, local, noatime)\n";
    let probes = vec![("/data".to_string(), FilesystemType::Zfs)];
    let (datasets, _) = BaseFilesystemInfo::from_mount_cmd(output, &probes).unwrap();
    assert_eq!(datasets.len(), 1);
    assert_eq!(datasets[0].0, "/data");
    assert_eq!(datasets[0].1.name, "tank/data");
}

#[test]
fn mount_cmd_discards_unparsable_lines_and_snapshots() {
    let output = "garbage line\ntank on /data/.zfs/snapshot/s1 type zfs (ro)\ntank on /data type zfs (rw)\n";
    let probes = vec![("/data".to_string(), FilesystemType::Zfs)];
    let (datasets, filter) = BaseFilesystemInfo::from_mount_cmd(output, &probes).unwrap();
    assert_eq!(datasets.len(), 1);
    assert_eq!(datasets[0].0, "/data");
    assert!(filter.dirs_set.is_empty());
}

#[test]
fn mount_cmd_without_datasets_is_fatal() {
    let output = "proc on /proc type proc (rw)\n";
    let probes = Vec::new();
    let err = BaseFilesystemInfo::from_mount_cmd(output, &probes).unwrap_err();
    assert_eq!(err.kind, HttmErrorKind::NoDatasetsFound);
}

#[test]
fn base_filesystem_info_carries_snapshot_index() {
    let entries = vec![entry("tank/data", "/data", "zfs", &[])];
    let probes = Vec::new();
    let snaps = vec![("/data".to_string(), vec!["/data/.zfs/snapshot/s1".to_string()])];
    let info = BaseFilesystemInfo::new(&entries, &probes, snaps.clone()).unwrap();
    assert_eq!(info.map_of_snaps, snaps);
    assert_eq!(info.map_of_datasets.len(), 1);
}

#[test]
fn subvol_option_last_occurrence_wins() {
    let options = vec![
        "rw".to_string(),
        "subvol=/@old".to_string(),
        "subvol=/@new".to_string(),
    ];
    assert_eq!(httm::mounts::subvol_of(&options), Some("/@new".to_string()));
    let none = vec!["rw".to_string(), "noatime".to_string()];
    assert_eq!(httm::mounts::subvol_of(&none), None);
}

#[test]
fn path_helpers_behave() {
    assert!(is_path_prefix("/data", "/data/f.txt"));
    assert!(is_path_prefix("/data", "/data"));
    assert!(!is_path_prefix("/data", "/database/f.txt"));
    assert!(is_path_prefix("/", "/data"));
    assert_eq!(path_join("/data/.snap/s1", "f.txt"), "/data/.snap/s1/f.txt");
    assert_eq!(path_join("/data", ""), "/data");
    assert_eq!(relative_of("/data", "/data/a/b.txt"), "a/b.txt");
    assert_eq!(relative_of("/data", "/data"), "");
    assert_eq!(path_depth("/run/lock/a"), 4);
    assert_eq!(path_depth("/"), 1);
    assert_eq!(path_depth(""), 0);
    assert_eq!(path_depth("a/b"), 2);
    assert!(str_contains("/data/.zfs/snapshot/s1", ".zfs/snapshot"));
    assert!(!str_contains("/data", ".zfs/snapshot"));
    assert!(str_le("/a", "/b"));
    assert!(str_le("/a", "/a"));
    assert!(!str_le("/b", "/a"));
    assert!(str_le("/a", "/a/b"));
}
