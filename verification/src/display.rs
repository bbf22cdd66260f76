//! Rendering of result maps as text: a padded, quoted multi-line layout, a
//! tab-separated plain layout, and a raw values-only stream.

use vstd::prelude::*;
use vstd::string::*;
use crate::assoc::string_views;
use crate::assoc::find_entry;
use crate::config::{Config, MountDisplay, PrintMode};
use crate::file_mounts::MountsForFiles;
use crate::mounts::DatasetMetadata;
use crate::text::{path_prefix_of, spec_relative_of};
use crate::versions::{ProximateDatasetAndOptAlts, ResolvedV};

verus! {

/// Width of a pair of quotation marks.
pub const QUOTATION_MARKS_LEN: usize = 2;

/// `n` spaces.
pub open spec fn spec_spaces(n: nat) -> Seq<char> {
    Seq::new(n, |i: int| ' ')
}

/// `s` padded with spaces on the right to at least `w` characters.
pub open spec fn spec_pad_right(s: Seq<char>, w: int) -> Seq<char> {
    s + spec_spaces(if w > s.len() {
        (w - s.len()) as nat
    } else {
        0
    })
}

/// `s` wrapped in quotation marks.
pub open spec fn spec_quote(s: Seq<char>) -> Seq<char> {
    seq!['"'] + s + seq!['"']
}

/// One line of the padded layout: the display path (empty on continuation
/// lines) padded to the map's width, a separator, and the quoted value.
pub open spec fn spec_line(display: Seq<char>, value: Seq<char>, pad: int) -> Seq<char> {
    spec_pad_right(display, pad) + seq![' ', ':', ' ', '"'] + value + seq!['"', '\n']
}

/// The padded layout of one entry's values: the first line carries the display
/// path, every later line an empty padded column.
pub open spec fn spec_lines_padded(display: Seq<char>, values: Seq<Seq<char>>, pad: int) -> Seq<
    char,
>
    decreases values.len(),
{
    if values.len() == 0 {
        Seq::<char>::empty()
    } else {
        spec_lines_padded(display, values.drop_last(), pad) + spec_line(
            if values.len() == 1 {
                display
            } else {
                Seq::<char>::empty()
            },
            values.last(),
            pad,
        )
    }
}

/// The tab-separated values of one entry.
pub open spec fn spec_tab_values(values: Seq<Seq<char>>) -> Seq<char>
    decreases values.len(),
{
    if values.len() == 0 {
        Seq::<char>::empty()
    } else {
        spec_tab_values(values.drop_last()) + seq!['\t'] + values.last()
    }
}

/// The plain layout of one entry: path, one separator, the tab-separated
/// values, one line break.
pub open spec fn spec_entry_plain(key: Seq<char>, values: Seq<Seq<char>>) -> Seq<char> {
    key + seq![':'] + spec_tab_values(values) + seq!['\n']
}

/// The views of a rendered map's entries.
pub open spec fn sv_entries(s: Seq<(String, Vec<String>)>) -> Seq<(Seq<char>, Seq<Seq<char>>)> {
    s.map_values(|e: (String, Vec<String>)| (e.0@, string_views(e.1@)))
}

/// The greatest key length of the entries.
pub open spec fn spec_max_key_len(entries: Seq<(Seq<char>, Seq<Seq<char>>)>) -> int
    decreases entries.len(),
{
    if entries.len() == 0 {
        0
    } else {
        let rest = spec_max_key_len(entries.drop_last());
        if entries.last().0.len() > rest {
            entries.last().0.len() as int
        } else {
            rest
        }
    }
}

/// The column width of a rendered map: its longest key plus a pair of
/// quotation marks.
pub open spec fn spec_map_padding(entries: Seq<(Seq<char>, Seq<Seq<char>>)>) -> int {
    spec_max_key_len(entries) + QUOTATION_MARKS_LEN
}

/// The whole formatted map: entries in order; under a last-snapshot policy,
/// entries with no values are left out; the plain layout when `not_pretty`,
/// else the padded layout with quoted display paths.
pub open spec fn spec_format_map(
    entries: Seq<(Seq<char>, Seq<Seq<char>>)>,
    pad: int,
    not_pretty: bool,
    filter_empty: bool,
) -> Seq<char>
    decreases entries.len(),
{
    if entries.len() == 0 {
        Seq::<char>::empty()
    } else {
        let e = entries.last();
        spec_format_map(entries.drop_last(), pad, not_pretty, filter_empty) + (
        if filter_empty && e.1.len() == 0 {
            Seq::<char>::empty()
        } else if not_pretty {
            spec_entry_plain(e.0, e.1)
        } else {
            spec_lines_padded(spec_quote(e.0), e.1, pad)
        })
    }
}

/// The raw stream: every value of every entry, in order, each followed by the
/// delimiter.
pub open spec fn spec_raw_values(values: Seq<Seq<char>>, delim: char) -> Seq<char>
    decreases values.len(),
{
    if values.len() == 0 {
        Seq::<char>::empty()
    } else {
        spec_raw_values(values.drop_last(), delim) + values.last() + seq![delim]
    }
}

pub open spec fn spec_raw_output(
    entries: Seq<(Seq<char>, Seq<Seq<char>>)>,
    delim: char,
) -> Seq<char>
    decreases entries.len(),
{
    if entries.len() == 0 {
        Seq::<char>::empty()
    } else {
        spec_raw_output(entries.drop_last(), delim) + spec_raw_values(entries.last().1, delim)
    }
}

/// The record separator a print mode calls for: the zero byte for the
/// zero-delimited raw mode, else a line break.
pub open spec fn spec_delimiter(mode: PrintMode) -> char {
    match mode {
        PrintMode::RawZero => '\0',
        _ => '\n',
    }
}

/// Append `n` spaces.
fn push_spaces(out: &mut String, n: usize)
    ensures
        final(out)@ == old(out)@ + spec_spaces(n as nat),
{
    let mut i: usize = 0;
    proof {
        assert(out@ =~= old(out)@ + spec_spaces(0));
    }
    while i < n
        invariant
            i <= n,
            out@ == old(out)@ + spec_spaces(i as nat),
        decreases n - i,
    {
        proof {
            reveal_strlit(" ");
        }
        out.append(" ");
        proof {
            assert(" "@ =~= seq![' ']);
            assert(out@ =~= old(out)@ + spec_spaces((i + 1) as nat));
        }
        i = i + 1;
    }
}

/// Append `s` padded with spaces to at least `width` characters.
fn append_padded(out: &mut String, s: &str, width: usize)
    ensures
        final(out)@ == old(out)@ + spec_pad_right(s@, width as int),
{
    let s_len: usize = s.unicode_len();
    out.append(s);
    if s_len < width {
        push_spaces(out, width - s_len);
    } else {
        proof {
            assert(out@ =~= old(out)@ + spec_pad_right(s@, width as int));
        }
    }
    proof {
        assert(out@ =~= old(out)@ + spec_pad_right(s@, width as int));
    }
}

/// Append one line of the padded layout.
fn append_line(out: &mut String, display: &str, value: &str, width: usize)
    ensures
        final(out)@ == old(out)@ + spec_line(display@, value@, width as int),
{
    append_padded(out, display, width);
    proof {
        reveal_strlit(" : \"");
    }
    out.append(" : \"");
    out.append(value);
    proof {
        reveal_strlit("\"\n");
    }
    out.append("\"\n");
    proof {
        assert(" : \""@ =~= seq![' ', ':', ' ', '"']);
        assert("\"\n"@ =~= seq!['"', '\n']);
        assert(out@ =~= old(out)@ + spec_line(display@, value@, width as int));
    }
}

/// `s` wrapped in quotation marks.
fn quote(s: &str) -> (r: String)
    ensures
        r@ == spec_quote(s@),
{
    let mut out = String::new();
    proof {
        reveal_strlit("\"");
    }
    out.append("\"");
    out.append(s);
    out.append("\"");
    proof {
        assert("\""@ =~= seq!['"']);
        assert(out@ =~= spec_quote(s@));
    }
    out
}

/// Render the entries under the selected layout.
fn format_entries(
    inner: &Vec<(String, Vec<String>)>,
    padding: usize,
    not_pretty: bool,
    filter_empty: bool,
) -> (r: String)
    ensures
        r@ == spec_format_map(sv_entries(inner@), padding as int, not_pretty, filter_empty),
{
    let ghost ev = sv_entries(inner@);
    let mut out = String::new();
    let mut i: usize = 0;
    proof {
        assert(out@ =~= spec_format_map(ev.take(0), padding as int, not_pretty, filter_empty));
    }
    while i < inner.len()
        invariant
            i <= inner@.len(),
            ev == sv_entries(inner@),
            out@ == spec_format_map(ev.take(i as int), padding as int, not_pretty, filter_empty),
        decreases inner@.len() - i,
    {
        let key = &inner[i].0;
        let values = &inner[i].1;
        let ghost cur = ev.take(i + 1);
        proof {
            assert(cur.drop_last() =~= ev.take(i as int));
            assert(cur.last() == ev[i as int]);
            assert(ev[i as int] == (inner@[i as int].0@, string_views(inner@[i as int].1@)));
        }
        let skip_entry = filter_empty && values.len() == 0;
        if !skip_entry {
            if not_pretty {
                let ghost before = out@;
                out.append(key.as_str());
                proof {
                    reveal_strlit(":");
                }
                out.append(":");
                let mut j: usize = 0;
                proof {
                    assert(":"@ =~= seq![':']);
                    assert(string_views(values@).take(0) =~= Seq::<Seq<char>>::empty());
                    assert(out@ =~= before + key@ + seq![':'] + spec_tab_values(
                        string_views(values@).take(0),
                    ));
                }
                while j < values.len()
                    invariant
                        j <= values@.len(),
                        out@ == before + key@ + seq![':'] + spec_tab_values(
                            string_views(values@).take(j as int),
                        ),
                    decreases values@.len() - j,
                {
                    proof {
                        reveal_strlit("\t");
                    }
                    out.append("\t");
                    out.append(values[j].as_str());
                    proof {
                        let vv = string_views(values@);
                        assert(vv.take(j + 1).drop_last() =~= vv.take(j as int));
                        assert(vv.take(j + 1).last() == vv[j as int]);
                        assert("\t"@ =~= seq!['\t']);
                        assert(out@ =~= before + key@ + seq![':'] + spec_tab_values(
                            vv.take(j + 1),
                        ));
                    }
                    j = j + 1;
                }
                proof {
                    reveal_strlit("\n");
                }
                out.append("\n");
                proof {
                    let vv = string_views(values@);
                    assert(vv.take(vv.len() as int) =~= vv);
                    assert("\n"@ =~= seq!['\n']);
                    assert(out@ =~= before + spec_entry_plain(key@, vv));
                }
            } else {
                let ghost before = out@;
                let display = quote(key.as_str());
                let mut j: usize = 0;
                proof {
                    assert(string_views(values@).take(0) =~= Seq::<Seq<char>>::empty());
                    assert(out@ =~= before + spec_lines_padded(
                        spec_quote(key@),
                        string_views(values@).take(0),
                        padding as int,
                    ));
                }
                while j < values.len()
                    invariant
                        j <= values@.len(),
                        display@ == spec_quote(key@),
                        padding == padding,
                        out@ == before + spec_lines_padded(
                            spec_quote(key@),
                            string_views(values@).take(j as int),
                            padding as int,
                        ),
                    decreases values@.len() - j,
                {
                    if j == 0 {
                        append_line(&mut out, display.as_str(), values[j].as_str(), padding);
                    } else {
                        append_line(&mut out, "", values[j].as_str(), padding);
                    }
                    proof {
                        let vv = string_views(values@);
                        assert(vv.take(j + 1).drop_last() =~= vv.take(j as int));
                        assert(vv.take(j + 1).last() == vv[j as int]);
                        reveal_strlit("");
                        assert(""@ =~= Seq::<char>::empty());
                        assert(out@ =~= before + spec_lines_padded(
                            spec_quote(key@),
                            vv.take(j + 1),
                            padding as int,
                        ));
                    }
                    j = j + 1;
                }
                proof {
                    let vv = string_views(values@);
                    assert(vv.take(vv.len() as int) =~= vv);
                }
            }
        }
        proof {
            assert(out@ =~= spec_format_map(cur, padding as int, not_pretty, filter_empty));
        }
        i = i + 1;
    }
    proof {
        assert(ev.take(ev.len() as int) =~= ev);
    }
    out
}

/// The greatest key length, plus the width of a pair of quotation marks.
fn padding_of(inner: &Vec<(String, Vec<String>)>) -> (r: usize)
    requires
        forall|i: int|
            0 <= i < inner@.len() ==> (#[trigger] inner@[i].0)@.len() + QUOTATION_MARKS_LEN
                <= usize::MAX,
    ensures
        r == spec_map_padding(sv_entries(inner@)),
{
    let ghost ev = sv_entries(inner@);
    let mut max_len: usize = 0;
    let mut i: usize = 0;
    proof {
        assert(spec_max_key_len(ev.take(0)) == 0);
    }
    while i < inner.len()
        invariant
            i <= inner@.len(),
            ev == sv_entries(inner@),
            max_len == spec_max_key_len(ev.take(i as int)),
            max_len <= usize::MAX - QUOTATION_MARKS_LEN,
            forall|t: int|
                0 <= t < inner@.len() ==> (#[trigger] inner@[t].0)@.len() + QUOTATION_MARKS_LEN
                    <= usize::MAX,
        decreases inner@.len() - i,
    {
        let len = inner[i].0.as_str().unicode_len();
        proof {
            assert(ev.take(i + 1).drop_last() =~= ev.take(i as int));
            assert(ev.take(i + 1).last() == ev[i as int]);
            assert(ev[i as int] == (inner@[i as int].0@, string_views(inner@[i as int].1@)));
        }
        if len > max_len {
            max_len = len;
        }
        i = i + 1;
    }
    proof {
        assert(ev.take(ev.len() as int) =~= ev);
    }
    max_len + QUOTATION_MARKS_LEN
}

/// An ordered map from rendered key to rendered value lines, as handed to the
/// display layer by callers that assemble their own text.
pub struct PrintableMap {
    pub inner: Vec<(String, Vec<String>)>,
}

impl PrintableMap {
    /// The column width of the map: its longest key plus a pair of quotation
    /// marks.
    pub fn get_map_padding(&self) -> (r: usize)
        requires
            forall|i: int|
                0 <= i < self.inner@.len() ==> (#[trigger] self.inner@[i].0)@.len()
                    + QUOTATION_MARKS_LEN <= usize::MAX,
        ensures
            r == spec_map_padding(sv_entries(self.inner@)),
    {
        padding_of(&self.inner)
    }

    /// Render the map: the plain layout under the not-pretty mode, else the
    /// padded layout; under a last-snapshot policy entries with no values are
    /// left out.
    pub fn format_as_map(&self, config: &Config) -> (r: String)
        requires
            forall|i: int|
                0 <= i < self.inner@.len() ==> (#[trigger] self.inner@[i].0)@.len()
                    + QUOTATION_MARKS_LEN <= usize::MAX,
        ensures
            r@ == spec_format_map(
                sv_entries(self.inner@),
                spec_map_padding(sv_entries(self.inner@)),
                config.print_mode is FormattedNotPretty,
                config.opt_last_snap is Some,
            ),
    {
        let padding = self.get_map_padding();
        let not_pretty = match config.print_mode {
            PrintMode::FormattedNotPretty => true,
            _ => false,
        };
        let filter_empty = match &config.opt_last_snap {
            Some(_) => true,
            None => false,
        };
        format_entries(&self.inner, padding, not_pretty, filter_empty)
    }
}


/// The rendered image of a versions map: each path and version as its path
/// text.
pub open spec fn spec_print_of_versions(
    m: Seq<(crate::data::PathDataV, Seq<crate::data::PathDataV>)>,
) -> Seq<(Seq<char>, Seq<Seq<char>>)> {
    m.map_values(
        |e: (crate::data::PathDataV, Seq<crate::data::PathDataV>)|
            (e.0.path, e.1.map_values(|p: crate::data::PathDataV| p.path)),
    )
}

/// An ordered map from rendered key to rendered value lines, assembled from
/// the engine's result maps.
#[derive(Debug)]
pub struct PrintAsMap {
    pub inner: Vec<(String, Vec<String>)>,
}

impl PrintAsMap {
    /// The rendered image of a versions map: every key's path bound to its
    /// versions' paths, in map order.
    pub fn from_versions_map(map: &crate::versions::VersionsMap) -> (r: PrintAsMap)
        ensures
            sv_entries(r.inner@) == spec_print_of_versions(
                crate::versions::vm_views(map.inner@),
            ),
    {
        let ghost mv = crate::versions::vm_views(map.inner@);
        let mut inner: Vec<(String, Vec<String>)> = Vec::new();
        let mut i: usize = 0;
        proof {
            assert(sv_entries(inner@) =~~= spec_print_of_versions(mv).take(0));
        }
        while i < map.inner.len()
            invariant
                i <= map.inner@.len(),
                mv == crate::versions::vm_views(map.inner@),
                sv_entries(inner@) == spec_print_of_versions(mv).take(i as int),
            decreases map.inner@.len() - i,
        {
            let key = map.inner[i].0.path.clone();
            let values = &map.inner[i].1;
            let mut value_paths: Vec<String> = Vec::new();
            let mut j: usize = 0;
            let ghost vv = crate::data::views_of(values@).map_values(
                |p: crate::data::PathDataV| p.path,
            );
            proof {
                assert(string_views(value_paths@) =~~= vv.take(0));
            }
            while j < values.len()
                invariant
                    j <= values@.len(),
                    vv == crate::data::views_of(values@).map_values(
                        |p: crate::data::PathDataV| p.path,
                    ),
                    string_views(value_paths@) == vv.take(j as int),
                decreases values@.len() - j,
            {
                let ghost old_vp = string_views(value_paths@);
                value_paths.push(values[j].path.clone());
                proof {
                    assert(crate::data::views_of(values@)[j as int] == values@[j as int]@);
                    assert(vv[j as int] == values@[j as int].path@);
                    assert(string_views(value_paths@) =~~= old_vp.push(values@[j as int].path@));
                    assert(string_views(value_paths@) =~~= vv.take(j + 1));
                }
                j = j + 1;
            }
            proof {
                assert(vv.take(vv.len() as int) =~= vv);
            }
            let ghost old_e = sv_entries(inner@);
            let ghost keyv = key@;
            let ghost valsv = string_views(value_paths@);
            inner.push((key, value_paths));
            proof {
                assert(sv_entries(inner@) =~~= old_e.push((keyv, valsv)));
                assert(mv[i as int] == (map.inner@[i as int].0@, crate::data::views_of(
                    map.inner@[i as int].1@,
                )));
                assert(spec_print_of_versions(mv)[i as int] == (mv[i as int].0.path,
                mv[i as int].1.map_values(|p: crate::data::PathDataV| p.path)));
                assert(sv_entries(inner@) =~~= spec_print_of_versions(mv).take(i + 1));
            }
            i = i + 1;
        }
        proof {
            assert(spec_print_of_versions(mv).take(mv.len() as int) =~~= spec_print_of_versions(
                mv,
            ));
        }
        PrintAsMap { inner }
    }

    /// The column width of the map.
    pub fn map_padding(&self) -> (r: usize)
        requires
            forall|i: int|
                0 <= i < self.inner@.len() ==> (#[trigger] self.inner@[i].0)@.len()
                    + QUOTATION_MARKS_LEN <= usize::MAX,
        ensures
            r == spec_map_padding(sv_entries(self.inner@)),
    {
        padding_of(&self.inner)
    }

    /// The map as text: under the raw modes every value followed by the
    /// delimiter, else the formatted layout. (JSON rendering is the business
    /// of the caller that owns a serializer.)
    pub fn to_string(&self, config: &Config) -> (r: String)
        requires
            forall|i: int|
                0 <= i < self.inner@.len() ==> (#[trigger] self.inner@[i].0)@.len()
                    + QUOTATION_MARKS_LEN <= usize::MAX,
        ensures
            ({
                let entries = sv_entries(self.inner@);
                match config.print_mode {
                    PrintMode::RawNewline | PrintMode::RawZero => r@ == spec_raw_output(
                        entries,
                        spec_delimiter(config.print_mode),
                    ),
                    _ => r@ == spec_format_map(
                        entries,
                        spec_map_padding(entries),
                        config.print_mode is FormattedNotPretty,
                        config.opt_last_snap is Some,
                    ),
                }
            }),
    {
        let raw = match config.print_mode {
            PrintMode::RawNewline | PrintMode::RawZero => true,
            _ => false,
        };
        if raw {
            raw_output(&self.inner, config)
        } else {
            self.format(config)
        }
    }

    /// Render the map under the configured layout.
    pub fn format(&self, config: &Config) -> (r: String)
        requires
            forall|i: int|
                0 <= i < self.inner@.len() ==> (#[trigger] self.inner@[i].0)@.len()
                    + QUOTATION_MARKS_LEN <= usize::MAX,
        ensures
            r@ == spec_format_map(
                sv_entries(self.inner@),
                spec_map_padding(sv_entries(self.inner@)),
                config.print_mode is FormattedNotPretty,
                config.opt_last_snap is Some,
            ),
    {
        let padding = self.map_padding();
        let not_pretty = match config.print_mode {
            PrintMode::FormattedNotPretty => true,
            _ => false,
        };
        let filter_empty = match &config.opt_last_snap {
            Some(_) => true,
            None => false,
        };
        format_entries(&self.inner, padding, not_pretty, filter_empty)
    }
}

/// The record separator the print mode calls for.
pub fn get_delimiter(config: &Config) -> (r: &'static str)
    ensures
        r@ == seq![spec_delimiter(config.print_mode)],
{
    match config.print_mode {
        PrintMode::RawZero => {
            proof {
                reveal_strlit("\0");
            }
            let d = "\0";
            proof {
                assert(d@ =~= seq!['\0']);
            }
            d
        },
        _ => {
            proof {
                reveal_strlit("\n");
            }
            let d = "\n";
            proof {
                assert(d@ =~= seq!['\n']);
            }
            d
        },
    }
}

/// A rendered map together with the configuration that governs how it is
/// turned into text.
pub struct OtherDisplayWrapper {
    pub config: Config,
    pub map: PrintableMap,
}

impl OtherDisplayWrapper {
    pub fn from(config: Config, map: PrintableMap) -> (r: OtherDisplayWrapper)
        ensures
            r.config == config,
            r.map.inner@ == map.inner@,
    {
        OtherDisplayWrapper { config, map }
    }

    /// The map as text: under the raw modes every value followed by the
    /// delimiter, else the formatted layout.
    pub fn to_string(&self) -> (r: String)
        requires
            forall|i: int|
                0 <= i < self.map.inner@.len() ==> (#[trigger] self.map.inner@[i].0)@.len()
                    + QUOTATION_MARKS_LEN <= usize::MAX,
        ensures
            ({
                let entries = sv_entries(self.map.inner@);
                match self.config.print_mode {
                    PrintMode::RawNewline | PrintMode::RawZero => r@ == spec_raw_output(
                        entries,
                        spec_delimiter(self.config.print_mode),
                    ),
                    _ => r@ == spec_format_map(
                        entries,
                        spec_map_padding(entries),
                        self.config.print_mode is FormattedNotPretty,
                        self.config.opt_last_snap is Some,
                    ),
                }
            }),
    {
        let raw = match self.config.print_mode {
            PrintMode::RawNewline | PrintMode::RawZero => true,
            _ => false,
        };
        if raw {
            raw_output(&self.map.inner, &self.config)
        } else {
            self.map.format_as_map(&self.config)
        }
    }
}

/// Render the entries as the raw stream: every value followed by the
/// configured delimiter.
fn raw_output(inner: &Vec<(String, Vec<String>)>, config: &Config) -> (r: String)
    ensures
        r@ == spec_raw_output(sv_entries(inner@), spec_delimiter(config.print_mode)),
{
    let delimiter = get_delimiter(config);
    let ghost d = spec_delimiter(config.print_mode);
    let ghost ev = sv_entries(inner@);
    let mut out = String::new();
    let mut i: usize = 0;
    proof {
        assert(out@ =~= spec_raw_output(ev.take(0), d));
    }
    while i < inner.len()
        invariant
            i <= inner@.len(),
            ev == sv_entries(inner@),
            d == spec_delimiter(config.print_mode),
            delimiter@ == seq![d],
            out@ == spec_raw_output(ev.take(i as int), d),
        decreases inner@.len() - i,
    {
        let values = &inner[i].1;
        let ghost before = out@;
        let ghost vv = string_views(values@);
        let mut j: usize = 0;
        proof {
            assert(out@ =~= before + spec_raw_values(vv.take(0), d));
        }
        while j < values.len()
            invariant
                j <= values@.len(),
                vv == string_views(values@),
                delimiter@ == seq![d],
                out@ == before + spec_raw_values(vv.take(j as int), d),
            decreases values@.len() - j,
        {
            out.append(values[j].as_str());
            out.append(delimiter);
            proof {
                assert(vv.take(j + 1).drop_last() =~= vv.take(j as int));
                assert(vv.take(j + 1).last() == vv[j as int]);
                assert(out@ =~= before + spec_raw_values(vv.take(j + 1), d));
            }
            j = j + 1;
        }
        proof {
            assert(vv.take(vv.len() as int) =~= vv);
            assert(ev.take(i + 1).drop_last() =~= ev.take(i as int));
            assert(ev.take(i + 1).last() == ev[i as int]);
            assert(ev[i as int] == (inner@[i as int].0@, string_views(inner@[i as int].1@)));
            assert(out@ =~= spec_raw_output(ev.take(i + 1), d));
        }
        i = i + 1;
    }
    proof {
        assert(ev.take(ev.len() as int) =~= ev);
    }
    out
}


/// The values the mount display reports for one resolved path, over its
/// datasets of interest in search order: the mount itself under `Target`; the
/// dataset's recorded name under `Source`, skipping mounts absent from the
/// dataset map; the path's suffix below the mount under `RelativePath`,
/// skipping mounts that are not a prefix of the path.
pub open spec fn spec_mount_values(
    ds_list: Seq<Seq<char>>,
    display: MountDisplay,
    datasets: Seq<(String, DatasetMetadata)>,
    path: Seq<char>,
) -> Seq<Seq<char>>
    decreases ds_list.len(),
{
    if ds_list.len() == 0 {
        Seq::<Seq<char>>::empty()
    } else {
        (match display {
            MountDisplay::Target => seq![ds_list[0]],
            MountDisplay::Source => match find_entry(datasets, ds_list[0]) {
                Option::Some(md) => seq![md.name@],
                Option::None => Seq::<Seq<char>>::empty(),
            },
            MountDisplay::RelativePath => if path_prefix_of(ds_list[0], path) {
                seq![spec_relative_of(ds_list[0], path)]
            } else {
                Seq::<Seq<char>>::empty()
            },
        }) + spec_mount_values(ds_list.skip(1), display, datasets, path)
    }
}

/// The rendered image of resolved mounts: each path bound to what the mount
/// display reports for it.
pub open spec fn spec_print_of_mounts(
    resolved: Seq<ResolvedV>,
    display: MountDisplay,
    datasets: Seq<(String, DatasetMetadata)>,
) -> Seq<(Seq<char>, Seq<Seq<char>>)> {
    resolved.map_values(
        |r: ResolvedV|
            (
                r.pathdata.path,
                spec_mount_values(
                    ProximateDatasetAndOptAlts::spec_datasets_of_interest(r),
                    display,
                    datasets,
                    r.pathdata.path,
                ),
            ),
    )
}

impl PrintAsMap {
    /// The rendered image of resolved mounts, under the requested mount
    /// display.
    pub fn from_mounts_for_files(
        mounts: &MountsForFiles,
        map_of_datasets: &Vec<(String, DatasetMetadata)>,
    ) -> (r: PrintAsMap)
        ensures
            sv_entries(r.inner@) == spec_print_of_mounts(
                crate::file_mounts::rv_views(mounts.inner@),
                mounts.mount_display,
                map_of_datasets@,
            ),
    {
        let ghost rv = crate::file_mounts::rv_views(mounts.inner@);
        let ghost goal = spec_print_of_mounts(rv, mounts.mount_display, map_of_datasets@);
        let mut inner: Vec<(String, Vec<String>)> = Vec::new();
        let mut i: usize = 0;
        proof {
            assert(sv_entries(inner@) =~~= goal.take(0));
        }
        while i < mounts.inner.len()
            invariant
                i <= mounts.inner@.len(),
                rv == crate::file_mounts::rv_views(mounts.inner@),
                goal == spec_print_of_mounts(rv, mounts.mount_display, map_of_datasets@),
                sv_entries(inner@) == goal.take(i as int),
            decreases mounts.inner@.len() - i,
        {
            let prox = &mounts.inner[i];
            proof {
                assert(rv[i as int] == mounts.inner@[i as int]@);
            }
            let ds_list = prox.datasets_of_interest();
            let ghost dv = string_views(ds_list@);
            let path = &prox.pathdata.path;
            let mut values: Vec<String> = Vec::new();
            let mut j: usize = 0;
            proof {
                assert(dv.skip(0) =~= dv);
                assert(string_views(values@) + spec_mount_values(
                    dv,
                    mounts.mount_display,
                    map_of_datasets@,
                    path@,
                ) =~~= spec_mount_values(dv, mounts.mount_display, map_of_datasets@, path@));
            }
            while j < ds_list.len()
                invariant
                    j <= ds_list@.len(),
                    dv == string_views(ds_list@),
                    path@ == mounts.inner@[i as int]@.pathdata.path,
                    string_views(values@) + spec_mount_values(
                        dv.skip(j as int),
                        mounts.mount_display,
                        map_of_datasets@,
                        path@,
                    ) == spec_mount_values(dv, mounts.mount_display, map_of_datasets@, path@),
                decreases ds_list@.len() - j,
            {
                proof {
                    assert(dv.skip(j as int)[0] == dv[j as int]);
                    assert(dv.skip(j as int).skip(1) =~= dv.skip(j + 1));
                    assert(ds_list@[j as int]@ == dv[j as int]);
                }
                let ghost old_values = string_views(values@);
                let mount = &ds_list[j];
                match mounts.mount_display {
                    MountDisplay::Target => {
                        values.push(mount.clone());
                        proof {
                            assert(string_views(values@) =~~= old_values.push(dv[j as int]));
                        }
                    },
                    MountDisplay::Source => {
                        match crate::assoc::assoc_index(map_of_datasets, mount.as_str()) {
                            Some(k) => {
                                values.push(map_of_datasets[k].1.name.clone());
                                proof {
                                    assert(string_views(values@) =~~= old_values.push(
                                        map_of_datasets@[k as int].1.name@,
                                    ));
                                }
                            },
                            None => {},
                        }
                    },
                    MountDisplay::RelativePath => {
                        if crate::text::is_path_prefix(mount.as_str(), path.as_str()) {
                            let rel = crate::text::relative_of(mount.as_str(), path.as_str());
                            let ghost relv = rel@;
                            values.push(rel);
                            proof {
                                assert(string_views(values@) =~~= old_values.push(relv));
                            }
                        }
                    },
                }
                proof {
                    assert(string_views(values@) + spec_mount_values(
                        dv.skip(j + 1),
                        mounts.mount_display,
                        map_of_datasets@,
                        path@,
                    ) =~~= spec_mount_values(dv, mounts.mount_display, map_of_datasets@, path@));
                }
                j = j + 1;
            }
            proof {
                assert(dv.skip(dv.len() as int).len() == 0);
                assert(string_views(values@) + Seq::<Seq<char>>::empty()
                    =~~= string_views(values@));
            }
            let key = path.clone();
            let ghost keyv = key@;
            let ghost valsv = string_views(values@);
            let ghost old_e = sv_entries(inner@);
            inner.push((key, values));
            proof {
                assert(sv_entries(inner@) =~~= old_e.push((keyv, valsv)));
                assert(goal[i as int] == (rv[i as int].pathdata.path, spec_mount_values(
                    ProximateDatasetAndOptAlts::spec_datasets_of_interest(rv[i as int]),
                    mounts.mount_display,
                    map_of_datasets@,
                    rv[i as int].pathdata.path,
                )));
                assert(sv_entries(inner@) =~~= goal.take(i + 1));
            }
            i = i + 1;
        }
        proof {
            assert(goal.take(goal.len() as int) =~~= goal);
        }
        PrintAsMap { inner }
    }
}

} // verus!
