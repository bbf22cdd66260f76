//! The mount table classifier: turns raw mount entries (or the textual output
//! of a `mount` command) into the map of supported snapshot-capable datasets
//! and the set of everything else.

use vstd::prelude::*;
use vstd::string::*;
use crate::assoc::{assoc_index, find_entry};
use crate::results::{HttmError, HttmErrorKind, HttmResult};
use crate::text::{contains_seq, find_first, find_sub, lemma_find_first, path_depth,
    spec_path_depth, str_contains, str_eq};

verus! {

/// Whether a dataset is mounted from local storage or over the network.
#[derive(Clone, Copy, Debug, PartialEq, Eq, Structural)]
pub enum MountType {
    Local,
    Network,
}

/// The snapshot-capable filesystems the engine recognizes.
#[derive(Clone, Copy, Debug, PartialEq, Eq, Structural)]
pub enum FilesystemType {
    Zfs,
    Btrfs,
}

/// What is known of one supported mounted dataset.
#[derive(Clone, Debug)]
pub struct DatasetMetadata {
    /// Backing device, or subvolume identifier for a subvolume mount.
    pub name: String,
    pub fs_type: FilesystemType,
    pub mount_type: MountType,
}

/// Mathematical image of `DatasetMetadata`.
#[verifier::ext_equal]
pub struct DatasetMetadataV {
    pub name: Seq<char>,
    pub fs_type: FilesystemType,
    pub mount_type: MountType,
}

impl View for DatasetMetadata {
    type V = DatasetMetadataV;

    open spec fn view(&self) -> DatasetMetadataV {
        DatasetMetadataV { name: self.name@, fs_type: self.fs_type, mount_type: self.mount_type }
    }
}

/// The mounts that are not supported datasets: directories a recursive search
/// elsewhere should skip, with the greatest component depth among them.
#[derive(Clone, Debug)]
pub struct FilterDirs {
    pub dirs_set: Vec<String>,
    pub opt_max_depth: Option<usize>,
}

/// Everything discovered about the system before any path is processed: the
/// supported datasets, their snapshot roots (built by the snapshot-directory
/// collaborator and consumed here), and the unsupported mounts.
#[derive(Clone, Debug)]
pub struct BaseFilesystemInfo {
    pub map_of_datasets: Vec<(String, DatasetMetadata)>,
    pub map_of_snaps: Vec<(String, Vec<String>)>,
    pub filter_dirs: FilterDirs,
}

/// One row of the mount table, as read by the caller: where it is mounted
/// from, where it is mounted, the filesystem type string, and the mount
/// options.
#[derive(Clone, Debug)]
pub struct MountEntry {
    pub source: String,
    pub dest: String,
    pub fstype: String,
    pub options: Vec<String>,
}


/// The map from mount point to dataset metadata, in mount-table order. A
/// lookup takes the first entry of a mount point.
pub type MapOfDatasets = Vec<(String, DatasetMetadata)>;

/// The last mount option of the form `subvol=<name>`, split at its first `=`.
pub open spec fn spec_subvol(opts: Seq<String>) -> Option<Seq<char>>
    decreases opts.len(),
{
    if opts.len() == 0 {
        None
    } else {
        let o = opts.last()@;
        match find_first(o, "="@) {
            Option::Some(i) => if o.take(i) == "subvol"@ {
                Some(o.skip(i + 1))
            } else {
                spec_subvol(opts.drop_last())
            },
            Option::None => spec_subvol(opts.drop_last()),
        }
    }
}

/// The dataset name of a subvolume mount: its `subvol=` option if one is
/// present, else the mount source.
pub open spec fn spec_btrfs_name(e: MountEntry) -> Seq<char> {
    match spec_subvol(e.options@) {
        Option::Some(v) => v,
        Option::None => e.source@,
    }
}

/// Extract the last `subvol=` option.
pub fn subvol_of(options: &Vec<String>) -> (r: Option<String>)
    ensures
        match r {
            Some(v) => spec_subvol(options@) == Some(v@),
            None => spec_subvol(options@) is None,
        },
{
    let mut i: usize = options.len();
    proof {
        assert(options@.take(options@.len() as int) =~= options@);
    }
    while i > 0
        invariant
            i <= options@.len(),
            spec_subvol(options@.take(i as int)) == spec_subvol(options@),
        decreases i,
    {
        let o = &options[i - 1];
        let o_len = o.as_str().unicode_len();
        proof {
            let cur = options@.take(i as int);
            assert(cur.last() == options@[i - 1]);
            assert(cur.drop_last() =~= options@.take(i - 1));
        }
        match find_sub(o.as_str(), "=") {
            Some(k) => {
                proof {
                    reveal_strlit("=");
                    lemma_find_first(o@, "="@);
                    assert(crate::text::occurs_at(o@, "="@, k as int));
                }
                let key = o.as_str().substring_char(0, k);
                proof {
                    assert(key@ =~= o@.take(k as int));
                }
                if str_eq(key, "subvol") {
                    let value = o.as_str().substring_char(k + 1, o_len);
                    proof {
                        assert(value@ =~= o@.skip(k + 1));
                    }
                    return Some(value.to_owned());
                }
            },
            None => {},
        }
        i = i - 1;
    }
    proof {
        assert(options@.take(0) =~= Seq::<String>::empty());
    }
    None
}

/// Classification of one mount entry against the rule table: a `zfs` mount is
/// a supported local dataset named by its source; the three network share
/// types are supported exactly when probing their hidden snapshot directory
/// detected a snapshot-capable filesystem; a `btrfs` mount is a supported
/// local dataset named by its `subvol=` option, falling back to its source;
/// every other type is unsupported. `probes` holds, per mount destination,
/// what the hidden-directory probe detected (no entry: the probe failed).
pub open spec fn spec_classify(
    e: MountEntry,
    probes: Seq<(String, FilesystemType)>,
) -> Option<DatasetMetadataV> {
    if e.fstype@ == "zfs"@ {
        Some(
            DatasetMetadataV {
                name: e.source@,
                fs_type: FilesystemType::Zfs,
                mount_type: MountType::Local,
            },
        )
    } else if e.fstype@ == "smbfs"@ || e.fstype@ == "afpfs"@ || e.fstype@ == "nfs"@ {
        match find_entry(probes, e.dest@) {
            Option::Some(kind) => Some(
                DatasetMetadataV {
                    name: e.source@,
                    fs_type: kind,
                    mount_type: MountType::Network,
                },
            ),
            Option::None => None,
        }
    } else if e.fstype@ == "btrfs"@ {
        Some(
            DatasetMetadataV {
                name: spec_btrfs_name(e),
                fs_type: FilesystemType::Btrfs,
                mount_type: MountType::Local,
            },
        )
    } else {
        None
    }
}

/// A mount destination that already lies under the snapshot-hidden-directory
/// convention: a snapshot, not a live dataset.
pub open spec fn spec_is_snapshot_mount(e: MountEntry) -> bool {
    contains_seq(e.dest@, ".zfs/snapshot"@)
}

/// The views of a dataset map.
pub open spec fn dataset_views(s: Seq<(String, DatasetMetadata)>) -> Seq<
    (Seq<char>, DatasetMetadataV),
> {
    s.map_values(|e: (String, DatasetMetadata)| (e.0@, e.1@))
}

/// The supported datasets among the entries, in mount-table order: snapshot
/// mounts are excluded outright, the rest classified by the rule table.
pub open spec fn spec_datasets(
    entries: Seq<MountEntry>,
    probes: Seq<(String, FilesystemType)>,
) -> Seq<(Seq<char>, DatasetMetadataV)>
    decreases entries.len(),
{
    if entries.len() == 0 {
        Seq::<(Seq<char>, DatasetMetadataV)>::empty()
    } else {
        (if !spec_is_snapshot_mount(entries[0]) && spec_classify(entries[0], probes) is Some {
            seq![(entries[0].dest@, spec_classify(entries[0], probes)->0)]
        } else {
            Seq::<(Seq<char>, DatasetMetadataV)>::empty()
        }) + spec_datasets(entries.skip(1), probes)
    }
}

/// The unsupported mount destinations among the entries, in mount-table order.
pub open spec fn spec_filter_dests(
    entries: Seq<MountEntry>,
    probes: Seq<(String, FilesystemType)>,
) -> Seq<Seq<char>>
    decreases entries.len(),
{
    if entries.len() == 0 {
        Seq::<Seq<char>>::empty()
    } else {
        (if !spec_is_snapshot_mount(entries[0]) && spec_classify(entries[0], probes) is None {
            seq![entries[0].dest@]
        } else {
            Seq::<Seq<char>>::empty()
        }) + spec_filter_dests(entries.skip(1), probes)
    }
}

/// Classify one entry.
fn classify(e: &MountEntry, probes: &Vec<(String, FilesystemType)>) -> (r: Option<
    DatasetMetadata,
>)
    ensures
        match r {
            Some(md) => spec_classify(*e, probes@) == Some(md@),
            None => spec_classify(*e, probes@) is None,
        },
{
    if str_eq(e.fstype.as_str(), "zfs") {
        Some(
            DatasetMetadata {
                name: e.source.clone(),
                fs_type: FilesystemType::Zfs,
                mount_type: MountType::Local,
            },
        )
    } else if str_eq(e.fstype.as_str(), "smbfs") || str_eq(e.fstype.as_str(), "afpfs") || str_eq(
        e.fstype.as_str(),
        "nfs",
    ) {
        match assoc_index(probes, e.dest.as_str()) {
            Some(i) => Some(
                DatasetMetadata {
                    name: e.source.clone(),
                    fs_type: probes[i].1,
                    mount_type: MountType::Network,
                },
            ),
            None => None,
        }
    } else if str_eq(e.fstype.as_str(), "btrfs") {
        let name = match subvol_of(&e.options) {
            Some(v) => v,
            None => e.source.clone(),
        };
        Some(
            DatasetMetadata {
                name,
                fs_type: FilesystemType::Btrfs,
                mount_type: MountType::Local,
            },
        )
    } else {
        None
    }
}

/// The greatest component depth among the directories.
pub open spec fn spec_max_depth(dirs: Seq<Seq<char>>) -> Option<int>
    decreases dirs.len(),
{
    if dirs.len() == 0 {
        None
    } else {
        match spec_max_depth(dirs.drop_last()) {
            Option::None => Some(spec_path_depth(dirs.last())),
            Option::Some(m) => if spec_path_depth(dirs.last()) > m {
                Some(spec_path_depth(dirs.last()))
            } else {
                Some(m)
            },
        }
    }
}

/// Compute the greatest component depth among the directories.
pub fn max_depth_of(dirs: &Vec<String>) -> (r: Option<usize>)
    ensures
        match r {
            Some(d) => spec_max_depth(crate::assoc::string_views(dirs@)) == Some(d as int),
            None => dirs@.len() == 0,
        },
{
    let ghost dv = crate::assoc::string_views(dirs@);
    let mut acc: Option<usize> = None;
    let mut i: usize = 0;
    proof {
        assert(dv.take(0) =~= Seq::<Seq<char>>::empty());
    }
    while i < dirs.len()
        invariant
            i <= dirs@.len(),
            dv == crate::assoc::string_views(dirs@),
            match acc {
                Some(d) => spec_max_depth(dv.take(i as int)) == Some(d as int),
                None => i == 0,
            },
        decreases dirs@.len() - i,
    {
        let d = path_depth(dirs[i].as_str());
        proof {
            let cur = dv.take(i + 1);
            assert(cur.drop_last() =~= dv.take(i as int));
            assert(cur.last() == dv[i as int]);
        }
        acc = match acc {
            None => Some(d),
            Some(m) => if d > m {
                Some(d)
            } else {
                Some(m)
            },
        };
        i = i + 1;
    }
    proof {
        assert(dv.take(dv.len() as int) =~= dv);
    }
    acc
}

impl BaseFilesystemInfo {
    /// Classify a structured mount table: every supported dataset keyed by its
    /// mount point, in mount-table order, and the unsupported destinations as
    /// the filter set. Fails exactly when no supported dataset exists.
    pub fn from_proc_mounts(
        entries: &Vec<MountEntry>,
        probes: &Vec<(String, FilesystemType)>,
    ) -> (r: HttmResult<(MapOfDatasets, FilterDirs)>)
        ensures
            r is Ok <==> spec_datasets(entries@, probes@).len() > 0,
            r is Ok ==> dataset_views(r->Ok_0.0@) == spec_datasets(entries@, probes@)
                && crate::assoc::string_views(r->Ok_0.1.dirs_set@) == spec_filter_dests(
                entries@,
                probes@,
            ) && (match r->Ok_0.1.opt_max_depth {
                Option::Some(d) => spec_max_depth(spec_filter_dests(entries@, probes@)) == Some(
                    d as int,
                ),
                Option::None => spec_filter_dests(entries@, probes@).len() == 0,
            }),
            r is Err ==> r->Err_0.kind == HttmErrorKind::NoDatasetsFound,
    {
        let mut datasets: MapOfDatasets = Vec::new();
        let mut dirs: Vec<String> = Vec::new();
        let mut i: usize = 0;
        let ghost ev = entries@;
        proof {
            assert(ev.skip(0) =~= ev);
            assert(dataset_views(datasets@) + spec_datasets(ev, probes@) =~= spec_datasets(
                ev,
                probes@,
            ));
            assert(crate::assoc::string_views(dirs@) + spec_filter_dests(ev, probes@)
                =~= spec_filter_dests(ev, probes@));
        }
        while i < entries.len()
            invariant
                i <= entries@.len(),
                ev == entries@,
                dataset_views(datasets@) + spec_datasets(ev.skip(i as int), probes@)
                    == spec_datasets(ev, probes@),
                crate::assoc::string_views(dirs@) + spec_filter_dests(ev.skip(i as int), probes@)
                    == spec_filter_dests(ev, probes@),
            decreases entries@.len() - i,
        {
            let e = &entries[i];
            proof {
                assert(ev.skip(i as int)[0] == ev[i as int]);
                assert(ev.skip(i as int).skip(1) =~= ev.skip(i + 1));
            }
            let ghost old_ds = dataset_views(datasets@);
            let ghost old_dirs = crate::assoc::string_views(dirs@);
            if !str_contains(e.dest.as_str(), ".zfs/snapshot") {
                match classify(e, probes) {
                    Some(md) => {
                        let ghost mdv = md@;
                        datasets.push((e.dest.clone(), md));
                        proof {
                            assert(dataset_views(datasets@) =~~= old_ds.push(
                                (ev[i as int].dest@, mdv),
                            ));
                            assert(dataset_views(datasets@) + spec_datasets(ev.skip(i + 1), probes@)
                                =~~= spec_datasets(ev, probes@));
                        }
                    },
                    None => {
                        dirs.push(e.dest.clone());
                        proof {
                            assert(crate::assoc::string_views(dirs@) =~~= old_dirs.push(
                                ev[i as int].dest@,
                            ));
                            assert(crate::assoc::string_views(dirs@) + spec_filter_dests(
                                ev.skip(i + 1),
                                probes@,
                            ) =~~= spec_filter_dests(ev, probes@));
                        }
                    },
                }
            } else {
                proof {
                    assert(spec_is_snapshot_mount(ev[i as int]));
                    assert(dataset_views(datasets@) + spec_datasets(ev.skip(i + 1), probes@)
                        =~~= spec_datasets(ev, probes@));
                    assert(crate::assoc::string_views(dirs@) + spec_filter_dests(
                        ev.skip(i + 1),
                        probes@,
                    ) =~~= spec_filter_dests(ev, probes@));
                }
            }
            i = i + 1;
        }
        proof {
            assert(ev.skip(ev.len() as int).len() == 0);
            assert(dataset_views(datasets@) + Seq::<(Seq<char>, DatasetMetadataV)>::empty()
                =~~= dataset_views(datasets@));
            assert(crate::assoc::string_views(dirs@) + Seq::<Seq<char>>::empty()
                =~~= crate::assoc::string_views(dirs@));
        }
        if datasets.len() == 0 {
            return Err(HttmError::new(HttmErrorKind::NoDatasetsFound));
        }
        let opt_max_depth = max_depth_of(&dirs);
        let filter_dirs = FilterDirs { dirs_set: dirs, opt_max_depth };
        Ok((datasets, filter_dirs))
    }
}


/// The lines of a text: maximal runs between newline characters, with no entry
/// for an empty text and no trailing entry after a final newline.
pub open spec fn spec_lines(s: Seq<char>) -> Seq<Seq<char>>
    decreases s.len(),
{
    if s.len() == 0 {
        Seq::<Seq<char>>::empty()
    } else if s[0] == '\n' {
        seq![Seq::<char>::empty()] + spec_lines(s.skip(1))
    } else {
        let rest = spec_lines(s.skip(1));
        if rest.len() == 0 {
            seq![seq![s[0]]]
        } else {
            seq![seq![s[0]] + rest[0]] + rest.skip(1)
        }
    }
}

/// Splitting at the first newline agrees with the line-by-line definition.
#[verifier::rlimit(60)]
proof fn lemma_spec_lines_split(s: Seq<char>)
    requires
        s.len() > 0,
    ensures
        match find_first(s, seq!['\n']) {
            Some(i) => 0 <= i < s.len() && spec_lines(s) == seq![s.take(i)] + spec_lines(
                s.skip(i + 1),
            ),
            None => spec_lines(s) == seq![s],
        },
    decreases s.len(),
{
    let nl = seq!['\n'];
    lemma_find_first(s, nl);
    if s[0] == '\n' {
        assert(s.subrange(0, 1) =~~= nl);
        assert(crate::text::occurs_at(s, nl, 0));
        assert(find_first(s, nl) == Some(0int)) by {
            match find_first(s, nl) {
                Some(w) => {
                    if w != 0 {
                        assert(!crate::text::occurs_at(s, nl, 0));
                    }
                },
                None => {
                    assert(!crate::text::occurs_at(s, nl, 0));
                },
            }
        }
        assert(s.take(0) =~~= Seq::<char>::empty());
        assert(spec_lines(s) =~~= seq![s.take(0)] + spec_lines(s.skip(1)));
    } else {
        assert(!crate::text::occurs_at(s, nl, 0)) by {
            if crate::text::occurs_at(s, nl, 0) {
                assert(s.subrange(0, 1)[0] == s[0]);
            }
        }
        if s.len() == 1 {
            match find_first(s, nl) {
                Some(w) => {
                    assert(crate::text::occurs_at(s, nl, w));
                    assert(w == 0);
                    assert(false);
                },
                None => {
                    assert(s.skip(1).len() == 0);
                    assert(spec_lines(s.skip(1)) =~~= Seq::<Seq<char>>::empty());
                    assert(seq![s[0]] =~= s);
                    assert(spec_lines(s) =~~= seq![s]);
                },
            }
        } else {
            lemma_spec_lines_split(s.skip(1));
            assert(forall|j: int|
                0 <= j ==> crate::text::occurs_at(s.skip(1), nl, j) == crate::text::occurs_at(
                    s,
                    nl,
                    j + 1,
                )) by {
                assert forall|j: int| 0 <= j implies crate::text::occurs_at(s.skip(1), nl, j)
                    == crate::text::occurs_at(s, nl, j + 1) by {
                    crate::text::lemma_occurs_at_skip(s, nl, j);
                }
            }
            lemma_find_first(s.skip(1), nl);
            let rest = spec_lines(s.skip(1));
            match find_first(s.skip(1), nl) {
                Some(i) => {
                    assert(crate::text::occurs_at(s, nl, i + 1));
                    assert(find_first(s, nl) == Some(i + 1)) by {
                        match find_first(s, nl) {
                            Some(w) => {
                                if w < i + 1 {
                                    if w == 0 {
                                        assert(!crate::text::occurs_at(s, nl, 0));
                                    } else {
                                        assert(!crate::text::occurs_at(s.skip(1), nl, w - 1));
                                        assert(!crate::text::occurs_at(s, nl, w));
                                    }
                                }
                                if w > i + 1 {
                                    assert(!crate::text::occurs_at(s, nl, i + 1));
                                }
                            },
                            None => {
                                assert(!crate::text::occurs_at(s, nl, i + 1));
                            },
                        }
                    }
                    assert(rest.len() > 0) by {
                        assert(s.skip(1).len() > 0);
                    }
                    assert(rest == seq![s.skip(1).take(i)] + spec_lines(s.skip(1).skip(i + 1)));
                    assert(rest[0] == s.skip(1).take(i));
                    assert(s.take(i + 1) =~~= seq![s[0]] + s.skip(1).take(i));
                    assert(s.skip(1).skip(i + 1) =~~= s.skip(i + 2));
                    assert(spec_lines(s) =~~= seq![s.take(i + 1)] + spec_lines(s.skip(i + 2)));
                },
                None => {
                    assert(find_first(s, nl) is None) by {
                        match find_first(s, nl) {
                            Some(w) => {
                                assert(crate::text::occurs_at(s, nl, w));
                                if w == 0 {
                                } else {
                                    assert(!crate::text::occurs_at(s.skip(1), nl, w - 1));
                                }
                            },
                            None => {},
                        }
                    }
                    assert(rest == seq![s.skip(1)]);
                    assert(seq![s[0]] + s.skip(1) =~~= s);
                    assert(spec_lines(s) =~~= seq![s]);
                },
            }
        }
    }
}

/// Split a text into its lines.
pub fn split_lines(s: &str) -> (r: Vec<String>)
    ensures
        crate::assoc::string_views(r@) == spec_lines(s@),
{
    let mut out: Vec<String> = Vec::new();
    let s_len: usize = s.unicode_len();
    let mut pos: usize = 0;
    proof {
        assert(s@.skip(0) =~= s@);
        assert(crate::assoc::string_views(out@) + spec_lines(s@) =~= spec_lines(s@));
    }
    while pos < s_len
        invariant
            pos <= s_len,
            s_len == s@.len(),
            crate::assoc::string_views(out@) + spec_lines(s@.skip(pos as int)) == spec_lines(s@),
        decreases s_len - pos,
    {
        let rest = s.substring_char(pos, s_len);
        proof {
            assert(rest@ =~= s@.skip(pos as int));
            reveal_strlit("\n");
            assert("\n"@ =~= seq!['\n']);
            lemma_spec_lines_split(rest@);
        }
        let ghost old_out = crate::assoc::string_views(out@);
        let rest_len = s_len - pos;
        match find_sub(rest, "\n") {
            Some(i) => {
                proof {
                    lemma_find_first(rest@, "\n"@);
                    assert(crate::text::occurs_at(rest@, "\n"@, i as int));
                }
                let line = rest.substring_char(0, i);
                proof {
                    assert(line@ =~= rest@.take(i as int));
                }
                out.push(line.to_owned());
                proof {
                    assert(crate::assoc::string_views(out@) =~~= old_out.push(
                        rest@.take(i as int),
                    ));
                    assert(spec_lines(rest@) == seq![rest@.take(i as int)] + spec_lines(
                        rest@.skip(i + 1),
                    ));
                    assert(rest@.skip(i + 1) =~= s@.skip(pos + i + 1));
                    assert(crate::assoc::string_views(out@) + spec_lines(s@.skip(pos + i + 1))
                        =~~= spec_lines(s@));
                }
                pos = pos + i + 1;
            },
            None => {
                proof {
                    lemma_find_first(rest@, "\n"@);
                }
                out.push(rest.to_owned());
                proof {
                    assert(crate::assoc::string_views(out@) =~~= old_out.push(rest@));
                    assert(spec_lines(rest@) == seq![rest@]);
                    assert(s@.skip(s@.len() as int).len() == 0);
                    assert(crate::assoc::string_views(out@) + spec_lines(s@.skip(s@.len() as int))
                        =~~= spec_lines(s@));
                }
                pos = s_len;
            },
        }
    }
    proof {
        assert(s@.skip(pos as int).len() == 0);
        assert(crate::assoc::string_views(out@) + Seq::<Seq<char>>::empty()
            =~~= crate::assoc::string_views(out@));
    }
    out
}

/// One line of `mount` output split into its source and destination: the text
/// before the first `" type"` token when the line speaks that grammar (the
/// token `type` occurs anywhere in it), else before the first `" ("`; that
/// head is then split around the first `" on "`. Lines that fit neither
/// grammar, and lines under the snapshot-hidden-directory convention, yield
/// nothing.
pub open spec fn spec_split_source_dest(line: Seq<char>) -> Option<(Seq<char>, Seq<char>)> {
    let head = if contains_seq(line, "type"@) {
        match find_first(line, " type"@) {
            Option::Some(i) => Some(line.take(i)),
            Option::None => None,
        }
    } else {
        match find_first(line, " ("@) {
            Option::Some(i) => Some(line.take(i)),
            Option::None => None,
        }
    };
    match head {
        Option::None => None,
        Option::Some(fm) => match find_first(fm, " on "@) {
            Option::Some(j) => Some((fm.take(j), fm.skip(j + 4))),
            Option::None => None,
        },
    }
}

pub open spec fn spec_parse_line(line: Seq<char>) -> Option<(Seq<char>, Seq<char>)> {
    if contains_seq(line, ".zfs/snapshot"@) {
        None
    } else {
        spec_split_source_dest(line)
    }
}

/// Parse one line of `mount` output.
pub fn parse_mount_line(line: &str) -> (r: Option<(String, String)>)
    ensures
        match r {
            Some(p) => spec_parse_line(line@) == Some((p.0@, p.1@)),
            None => spec_parse_line(line@) is None,
        },
{
    if str_contains(line, ".zfs/snapshot") {
        return None;
    }
    let line_len = line.unicode_len();
    let head_end: Option<usize> = if str_contains(line, "type") {
        proof {
            reveal_strlit(" type");
        }
        match find_sub(line, " type") {
            Some(i) => {
                proof {
                    lemma_find_first(line@, " type"@);
                    assert(crate::text::occurs_at(line@, " type"@, i as int));
                }
                Some(i)
            },
            None => None,
        }
    } else {
        proof {
            reveal_strlit(" (");
        }
        match find_sub(line, " (") {
            Some(i) => {
                proof {
                    lemma_find_first(line@, " ("@);
                    assert(crate::text::occurs_at(line@, " ("@, i as int));
                }
                Some(i)
            },
            None => None,
        }
    };
    match head_end {
        None => None,
        Some(i) => {
            let fm = line.substring_char(0, i);
            proof {
                assert(fm@ =~= line@.take(i as int));
            }
            match find_sub(fm, " on ") {
                Some(j) => {
                    proof {
                        reveal_strlit(" on ");
                        lemma_find_first(fm@, " on "@);
                        assert(crate::text::occurs_at(fm@, " on "@, j as int));
                    }
                    let fm_len = fm.unicode_len();
                    let src = fm.substring_char(0, j);
                    let dest = fm.substring_char(j + 4, fm_len);
                    proof {
                        assert(src@ =~= fm@.take(j as int));
                        assert(dest@ =~= fm@.skip(j + 4));
                    }
                    Some((src.to_owned(), dest.to_owned()))
                },
                None => None,
            }
        },
    }
}

/// The supported datasets named by `mount` output: each parsed line whose
/// destination's hidden-directory probe detected a snapshot-capable
/// filesystem, keyed by destination, named by source, local.
pub open spec fn spec_cmd_datasets(
    lines: Seq<Seq<char>>,
    probes: Seq<(String, FilesystemType)>,
) -> Seq<(Seq<char>, DatasetMetadataV)>
    decreases lines.len(),
{
    if lines.len() == 0 {
        Seq::<(Seq<char>, DatasetMetadataV)>::empty()
    } else {
        (match spec_parse_line(lines[0]) {
            Option::Some(p) => match find_entry(probes, p.1) {
                Option::Some(kind) => seq![
                    (
                        p.1,
                        DatasetMetadataV {
                            name: p.0,
                            fs_type: kind,
                            mount_type: MountType::Local,
                        },
                    ),
                ],
                Option::None => Seq::<(Seq<char>, DatasetMetadataV)>::empty(),
            },
            Option::None => Seq::<(Seq<char>, DatasetMetadataV)>::empty(),
        }) + spec_cmd_datasets(lines.skip(1), probes)
    }
}

/// The parsed destinations whose probe failed: unsupported mounts.
pub open spec fn spec_cmd_filter_dests(
    lines: Seq<Seq<char>>,
    probes: Seq<(String, FilesystemType)>,
) -> Seq<Seq<char>>
    decreases lines.len(),
{
    if lines.len() == 0 {
        Seq::<Seq<char>>::empty()
    } else {
        (match spec_parse_line(lines[0]) {
            Option::Some(p) => match find_entry(probes, p.1) {
                Option::Some(kind) => Seq::<Seq<char>>::empty(),
                Option::None => seq![p.1],
            },
            Option::None => Seq::<Seq<char>>::empty(),
        }) + spec_cmd_filter_dests(lines.skip(1), probes)
    }
}


impl BaseFilesystemInfo {
    /// Classify the textual output of a `mount` command: each line that parses
    /// under either grammar and whose destination's hidden-directory probe
    /// detected a snapshot-capable filesystem becomes a dataset; parsed
    /// destinations whose probe failed become the filter set; other lines are
    /// discarded. Fails exactly when no supported dataset is found.
    pub fn from_mount_cmd(output: &str, probes: &Vec<(String, FilesystemType)>) -> (r: HttmResult<
        (MapOfDatasets, FilterDirs),
    >)
        ensures
            r is Ok <==> spec_cmd_datasets(spec_lines(output@), probes@).len() > 0,
            r is Ok ==> dataset_views(r->Ok_0.0@) == spec_cmd_datasets(
                spec_lines(output@),
                probes@,
            ) && crate::assoc::string_views(r->Ok_0.1.dirs_set@) == spec_cmd_filter_dests(
                spec_lines(output@),
                probes@,
            ) && (match r->Ok_0.1.opt_max_depth {
                Option::Some(d) => spec_max_depth(
                    spec_cmd_filter_dests(spec_lines(output@), probes@),
                ) == Some(d as int),
                Option::None => spec_cmd_filter_dests(spec_lines(output@), probes@).len() == 0,
            }),
            r is Err ==> r->Err_0.kind == HttmErrorKind::NoDatasetsFound,
    {
        let lines = split_lines(output);
        let ghost lv = crate::assoc::string_views(lines@);
        let mut datasets: MapOfDatasets = Vec::new();
        let mut dirs: Vec<String> = Vec::new();
        let mut i: usize = 0;
        proof {
            assert(lv.skip(0) =~= lv);
            assert(dataset_views(datasets@) + spec_cmd_datasets(lv, probes@)
                =~~= spec_cmd_datasets(lv, probes@));
            assert(crate::assoc::string_views(dirs@) + spec_cmd_filter_dests(lv, probes@)
                =~~= spec_cmd_filter_dests(lv, probes@));
        }
        while i < lines.len()
            invariant
                i <= lines@.len(),
                lv == crate::assoc::string_views(lines@),
                lv == spec_lines(output@),
                dataset_views(datasets@) + spec_cmd_datasets(lv.skip(i as int), probes@)
                    == spec_cmd_datasets(lv, probes@),
                crate::assoc::string_views(dirs@) + spec_cmd_filter_dests(
                    lv.skip(i as int),
                    probes@,
                ) == spec_cmd_filter_dests(lv, probes@),
            decreases lines@.len() - i,
        {
            proof {
                assert(lv.skip(i as int)[0] == lv[i as int]);
                assert(lv.skip(i as int).skip(1) =~= lv.skip(i + 1));
                assert(lines@[i as int]@ == lv[i as int]);
            }
            let ghost old_ds = dataset_views(datasets@);
            let ghost old_dirs = crate::assoc::string_views(dirs@);
            match parse_mount_line(lines[i].as_str()) {
                Some(p) => {
                    let (src, dest) = p;
                    match assoc_index(probes, dest.as_str()) {
                        Some(k) => {
                            let md = DatasetMetadata {
                                name: src,
                                fs_type: probes[k].1,
                                mount_type: MountType::Local,
                            };
                            let ghost mdv = md@;
                            let ghost destv = dest@;
                            datasets.push((dest, md));
                            proof {
                                assert(dataset_views(datasets@) =~~= old_ds.push((destv, mdv)));
                                assert(dataset_views(datasets@) + spec_cmd_datasets(
                                    lv.skip(i + 1),
                                    probes@,
                                ) =~~= spec_cmd_datasets(lv, probes@));
                            }
                        },
                        None => {
                            let ghost destv = dest@;
                            dirs.push(dest);
                            proof {
                                assert(crate::assoc::string_views(dirs@) =~~= old_dirs.push(destv));
                                assert(crate::assoc::string_views(dirs@) + spec_cmd_filter_dests(
                                    lv.skip(i + 1),
                                    probes@,
                                ) =~~= spec_cmd_filter_dests(lv, probes@));
                            }
                        },
                    }
                },
                None => {
                    proof {
                        assert(dataset_views(datasets@) + spec_cmd_datasets(
                            lv.skip(i + 1),
                            probes@,
                        ) =~~= spec_cmd_datasets(lv, probes@));
                        assert(crate::assoc::string_views(dirs@) + spec_cmd_filter_dests(
                            lv.skip(i + 1),
                            probes@,
                        ) =~~= spec_cmd_filter_dests(lv, probes@));
                    }
                },
            }
            i = i + 1;
        }
        proof {
            assert(lv.skip(lv.len() as int).len() == 0);
            assert(dataset_views(datasets@) + Seq::<(Seq<char>, DatasetMetadataV)>::empty()
                =~~= dataset_views(datasets@));
            assert(crate::assoc::string_views(dirs@) + Seq::<Seq<char>>::empty()
                =~~= crate::assoc::string_views(dirs@));
        }
        if datasets.len() == 0 {
            return Err(HttmError::new(HttmErrorKind::NoDatasetsFound));
        }
        let opt_max_depth = max_depth_of(&dirs);
        let filter_dirs = FilterDirs { dirs_set: dirs, opt_max_depth };
        Ok((datasets, filter_dirs))
    }

    /// Assemble the discovery state from a classified mount table and the
    /// snapshot index built for it by the snapshot-directory collaborator.
    pub fn new(
        entries: &Vec<MountEntry>,
        probes: &Vec<(String, FilesystemType)>,
        map_of_snaps: Vec<(String, Vec<String>)>,
    ) -> (r: HttmResult<BaseFilesystemInfo>)
        ensures
            r is Ok <==> spec_datasets(entries@, probes@).len() > 0,
            r is Ok ==> dataset_views(r->Ok_0.map_of_datasets@) == spec_datasets(entries@, probes@)
                && r->Ok_0.map_of_snaps == map_of_snaps
                && crate::assoc::string_views(r->Ok_0.filter_dirs.dirs_set@) == spec_filter_dests(
                entries@,
                probes@,
            ),
            r is Err ==> r->Err_0.kind == HttmErrorKind::NoDatasetsFound,
    {
        match Self::from_proc_mounts(entries, probes) {
            Ok(pair) => {
                let (map_of_datasets, filter_dirs) = pair;
                Ok(BaseFilesystemInfo { map_of_datasets, map_of_snaps, filter_dirs })
            },
            Err(e) => Err(e),
        }
    }
}

} // verus!
