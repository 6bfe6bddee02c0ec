//! Where each used media file goes in the output tree, and which ranges of it
//! each output holds.

use vstd::prelude::*;
use crate::analyzer::{MediaUsageInfo};
use crate::codec::{gunzip, gunzip_text, gzip, gzip_bytes};
use crate::ffmpeg::TranscodePreset;
use crate::loader::LoadError;
use crate::model::{MediaFile, PremiereProject};
use crate::paths::{common_ancestor, extension, extension_of, file_name, file_name_of, find_common_ancestor, join, join_spec, parent_of,
    parent, stem, stem_of};
use crate::text::{contains_seq, occurs_at, replace_all, replace_all_spec, starts_with, append_chars, append_str, chars_of, decimal, fmt_padded, fmt_u64, has_prefix, padded, str_eq,
    string_of};
use crate::time_range::{lemma_optimized_nonneg, optimize_time_ranges, optimized, TimeRange, TICKS_PER_SECOND};

verus! {

broadcast use vstd::string::group_string_axioms;

#[derive(Debug, Clone)]
pub enum ProcessingModeConfig {
    Trim,
    Transcode { preset: TranscodePreset },
    Copy,
    NoProcess,
}

#[derive(Debug, Clone, Copy, PartialEq, Eq, Structural)]
pub enum OptimizationMode {
    /// Split files that are used in separate places.
    MinimizeDiskSpace,
    /// One output per input.
    KeepSameNumberOfFiles,
    /// One output per used range.
    EachClipUnique,
}

#[derive(Debug, Clone, Copy, PartialEq, Eq, Structural)]
pub enum FolderStructure {
    Flat,
    BinStructure,
    OriginalDiskStructure,
}

#[derive(Debug, Clone, Copy, PartialEq, Eq, Structural)]
pub enum ProxyMode {
    CopyBoth,
    ProxyOnly,
    MainOnly,
    PreserveReferences,
}

/// What a consolidation does.
#[derive(Debug, Clone)]
pub struct ConsolidationConfig {
    pub project_path: String,
    pub output_path: String,
    pub sequences: Vec<String>,
    pub processing_mode: ProcessingModeConfig,
    pub optimization_mode: OptimizationMode,
    pub folder_structure: FolderStructure,
    pub proxy_mode: ProxyMode,
    pub handle_frames: i64,
    pub include_unused_multicam_angles: bool,
    pub generate_unique_filenames: bool,
    pub use_project_item_names: bool,
    pub add_frame_range_to_filename: bool,
    pub copy_sidecar_files: bool,
    pub skip_offline_media: bool,
}

impl ProxyMode {
    /// Whether proxies are copied into the output tree.
    pub fn copies_proxies(&self) -> (r: bool)
        ensures
            r == (*self == ProxyMode::CopyBoth || *self == ProxyMode::ProxyOnly),
    {
        match self {
            ProxyMode::CopyBoth | ProxyMode::ProxyOnly => true,
            _ => false,
        }
    }
}

// ---------------------------------------------------------------------------
// Directories and names
// ---------------------------------------------------------------------------
/// The media folder of the output tree.
pub fn media_folder(output_path: &str) -> (r: String)
    ensures
        r@ == join_spec(output_path@, "Media"@),
{
    join(output_path, "Media")
}

/// Whether item `i` of the project shows media `id`.
pub open spec fn item_shows(p: PremiereProject, i: int, id: Seq<char>) -> bool {
    p.project_items@[i].media_ref matches Some(m) && m@ == id
}

/// The index of the first project item, from `i` on, that shows media `id`.
pub open spec fn first_item_from(p: PremiereProject, id: Seq<char>, i: int) -> Option<int>
    decreases p.project_items@.len() - i,
{
    if i < 0 || i >= p.project_items@.len() {
        None
    } else if item_shows(p, i, id) {
        Some(i)
    } else {
        first_item_from(p, id, i + 1)
    }
}

/// The index of the first bin, from `k` on, with identifier `b`.
pub open spec fn first_bin_from(p: PremiereProject, b: Seq<char>, k: int) -> Option<int>
    decreases p.bins@.len() - k,
{
    if k < 0 || k >= p.bins@.len() {
        None
    } else if p.bins@[k].object_id@ == b {
        Some(k)
    } else {
        first_bin_from(p, b, k + 1)
    }
}

/// The name of the first project item that shows media `id`.
pub open spec fn item_name_of(p: PremiereProject, id: Seq<char>) -> Option<Seq<char>> {
    match first_item_from(p, id, 0) {
        Some(i) => Some(p.project_items@[i].name@),
        None => None,
    }
}

/// The path of the bin that holds the first project item showing media `id`.
pub open spec fn bin_path_spec(p: PremiereProject, id: Seq<char>) -> Option<Seq<char>> {
    match first_item_from(p, id, 0) {
        Some(i) => match p.project_items@[i].bin_id {
            Some(b) => match first_bin_from(p, b@, 0) {
                Some(k) => Some(p.bins@[k].path@),
                None => None,
            },
            None => None,
        },
        None => None,
    }
}

/// The index of the first project item that shows media `id`.
fn find_item(project: &PremiereProject, id: &str) -> (r: Option<usize>)
    ensures
        match r {
            Some(i) => first_item_from(*project, id@, 0) == Some(i as int) && i < project.project_items@.len(),
            None => first_item_from(*project, id@, 0) is None,
        },
{
    let mut i: usize = 0;
    while i < project.project_items.len()
        invariant
            i <= project.project_items@.len(),
            first_item_from(*project, id@, 0) == first_item_from(*project, id@, i as int),
        decreases project.project_items@.len() - i,
    {
        let shows = match &project.project_items[i].media_ref {
            Some(m) => str_eq(m.as_str(), id),
            None => false,
        };
        if shows {
            return Some(i);
        }
        i = i + 1;
    }
    None
}

/// The name of the first project item that shows media `id`.
pub fn project_item_name(project: &PremiereProject, id: &str) -> (r: Option<String>)
    ensures
        match r {
            Some(n) => item_name_of(*project, id@) == Some(n@),
            None => item_name_of(*project, id@) is None,
        },
{
    match find_item(project, id) {
        Some(i) => Some(project.project_items[i].name.clone()),
        None => None,
    }
}

/// The path of the bin holding the first project item that shows media `id`.
pub fn bin_path_of(project: &PremiereProject, id: &str) -> (r: Option<String>)
    ensures
        match r {
            Some(path) => bin_path_spec(*project, id@) == Some(path@),
            None => bin_path_spec(*project, id@) is None,
        },
{
    match find_item(project, id) {
        Some(i) => match &project.project_items[i].bin_id {
            Some(b) => {
                let mut k: usize = 0;
                while k < project.bins.len()
                    invariant
                        k <= project.bins@.len(),
                        first_bin_from(*project, b@, 0) == first_bin_from(*project, b@, k as int),
                        first_item_from(*project, id@, 0) == Some(i as int),
                        i < project.project_items@.len(),
                        project.project_items@[i as int].bin_id == Some(*b),
                    decreases project.bins@.len() - k,
                {
                    if str_eq(project.bins[k].object_id.as_str(), b.as_str()) {
                        return Some(project.bins[k].path.clone());
                    }
                    k = k + 1;
                }
                None
            },
            None => None,
        },
        None => None,
    }
}

/// `s` without its leading slashes.
pub open spec fn strip_slashes(s: Seq<char>) -> Seq<char>
    decreases s.len(),
{
    if s.len() > 0 && s[0] == '/' {
        strip_slashes(s.drop_first())
    } else {
        s
    }
}

fn drop_leading_slashes(s: &Vec<char>, from: usize) -> (r: Vec<char>)
    requires
        from <= s@.len(),
    ensures
        r@ == strip_slashes(s@.subrange(from as int, s@.len() as int)),
{
    let mut i: usize = from;
    while i < s.len() && s[i] == '/'
        invariant
            from <= i <= s@.len(),
            strip_slashes(s@.subrange(from as int, s@.len() as int)) == strip_slashes(s@.subrange(i as int, s@.len() as int)),
        decreases s@.len() - i,
    {
        assert(s@.subrange(i as int, s@.len() as int).drop_first() =~= s@.subrange(i + 1, s@.len() as int));
        i = i + 1;
    }
    let mut out: Vec<char> = Vec::new();
    let mut j: usize = i;
    while j < s.len()
        invariant
            i <= j <= s@.len(),
            out@ == s@.subrange(i as int, j as int),
        decreases s@.len() - j,
    {
        out.push(s[j]);
        assert(s@.subrange(i as int, j + 1) =~= s@.subrange(i as int, j as int).push(s@[j as int]));
        j = j + 1;
    }
    out
}

/// The paths of all media files of a project.
pub open spec fn media_paths(p: PremiereProject) -> Seq<Seq<char>> {
    p.media_files@.map_values(|m: MediaFile| m.file_path@)
}

/// The folder for a file at `path` that recreates its place below the
/// common ancestor of `all` inside `folder`; `folder` itself when there is no
/// common ancestor or the file lies directly in it.
pub open spec fn disk_dir(folder: Seq<char>, path: Seq<char>, all: Seq<Seq<char>>) -> Seq<char> {
    match common_ancestor(all) {
        Some(c) => if starts_with(path, c) && parent_of(strip_slashes(path.subrange(c.len() as int, path.len() as int))).len()
            > 0 {
            join_spec(folder, parent_of(strip_slashes(path.subrange(c.len() as int, path.len() as int))))
        } else {
            folder
        },
        None => folder,
    }
}

/// The folder for a file whose project item sits in the bin at `bin_path`:
/// that bin's path inside `folder`, or `folder` itself without one.
pub open spec fn bin_dir(folder: Seq<char>, bin_path: Option<Seq<char>>) -> Seq<char> {
    match bin_path {
        Some(b) => if b.len() == 0 {
            folder
        } else {
            join_spec(folder, b)
        },
        None => folder,
    }
}

impl ConsolidationConfig {
    /// The directory that receives media `media`.
    pub open spec fn dir_spec(&self, p: PremiereProject, media: MediaFile) -> Seq<char> {
        let folder = join_spec(self.output_path@, "Media"@);
        match self.folder_structure {
            FolderStructure::Flat => folder,
            FolderStructure::BinStructure => bin_dir(folder, bin_path_spec(p, media.object_id@)),
            FolderStructure::OriginalDiskStructure => disk_dir(folder, media.file_path@, media_paths(p)),
        }
    }

    /// The file name of the output of media `media`: the name of the first
    /// project item that shows it when asked for and found, else the source
    /// file name.
    pub open spec fn name_spec(&self, p: PremiereProject, media: MediaFile) -> Seq<char> {
        if self.use_project_item_names && item_name_of(p, media.object_id@) is Some {
            item_name_of(p, media.object_id@).unwrap()
        } else {
            file_name_of(media.file_path@)
        }
    }

    /// The directory that receives media `media` under the folder structure.
    pub fn output_dir(&self, project: &PremiereProject, media: &MediaFile) -> (r: String)
        ensures
            self.folder_structure == FolderStructure::Flat ==> r@ == join_spec(self.output_path@, "Media"@),
            self.folder_structure == FolderStructure::OriginalDiskStructure ==> r@ == disk_dir(
                join_spec(self.output_path@, "Media"@),
                media.file_path@,
                media_paths(*project),
            ),
            self.folder_structure == FolderStructure::BinStructure ==> r@ == bin_dir(
                join_spec(self.output_path@, "Media"@),
                bin_path_spec(*project, media.object_id@),
            ),
    {
        let folder = media_folder(self.output_path.as_str());
        match self.folder_structure {
            FolderStructure::Flat => folder,
            FolderStructure::BinStructure => match bin_path_of(project, media.object_id.as_str()) {
                Some(p) => if p.as_str().is_empty() {
                    folder
                } else {
                    join(folder.as_str(), p.as_str())
                },
                None => folder,
            },
            FolderStructure::OriginalDiskStructure => {
                let mut all: Vec<String> = Vec::new();
                let mut i: usize = 0;
                while i < project.media_files.len()
                    invariant
                        i <= project.media_files@.len(),
                        all@.map_values(|p: String| p@) == media_paths(*project).subrange(0, i as int),
                    decreases project.media_files@.len() - i,
                {
                    let ghost before = all@;
                    all.push(project.media_files[i].file_path.clone());
                    assert(all@.map_values(|p: String| p@) =~= before.map_values(|p: String| p@).push(
                        project.media_files@[i as int].file_path@,
                    ));
                    assert(media_paths(*project).subrange(0, i + 1) =~= media_paths(*project).subrange(0, i as int).push(
                        project.media_files@[i as int].file_path@,
                    ));
                    i = i + 1;
                }
                assert(media_paths(*project).subrange(0, project.media_files@.len() as int) =~= media_paths(*project));
                match find_common_ancestor(&all) {
                    Some(common) => {
                        let p = chars_of(media.file_path.as_str());
                        let c = chars_of(common.as_str());
                        if has_prefix(&p, &c) {
                            let rest = drop_leading_slashes(&p, c.len());
                            let rest_text = string_of(&rest);
                            let dir = parent(rest_text.as_str());
                            if dir.as_str().is_empty() {
                                folder
                            } else {
                                join(folder.as_str(), dir.as_str())
                            }
                        } else {
                            folder
                        }
                    },
                    None => folder,
                }
            },
        }
    }

    /// The file name of the output: the project item's name when asked for
    /// and found, else the source file name.
    pub fn output_name(&self, project: &PremiereProject, media: &MediaFile) -> (r: String)
        ensures
            r@ == self.name_spec(*project, *media),
    {
        let own = file_name(media.file_path.as_str());
        if self.use_project_item_names {
            match project_item_name(project, media.object_id.as_str()) {
                Some(n) => n,
                None => own,
            }
        } else {
            own
        }
    }

    /// The output path of media `media`, before any renaming for collisions.
    pub fn calculate_output_path(&self, project: &PremiereProject, media: &MediaFile) -> (r: String)
        ensures
            r@ == join_spec(self.dir_spec(*project, *media), self.name_spec(*project, *media)),
    {
        let dir = self.output_dir(project, media);
        let name = self.output_name(project, media);
        join(dir.as_str(), name.as_str())
    }
}

/// `name` with `suffix` put before its extension.
pub open spec fn with_suffix(name: Seq<char>, suffix: Seq<char>) -> Seq<char> {
    match extension_of(name) {
        Some(e) => stem_of(name) + suffix + seq!['.'] + e,
        None => stem_of(name) + suffix,
    }
}

/// `name` with `suffix` put before its extension.
pub fn name_with_suffix(name: &str, suffix: &Vec<char>) -> (r: String)
    ensures
        r@ == with_suffix(name@, suffix@),
{
    let mut v = chars_of(stem(name).as_str());
    append_chars(&mut v, suffix);
    match extension(name) {
        Some(e) => {
            v.push('.');
            append_str(&mut v, e.as_str());
        },
        None => {},
    }
    string_of(&v)
}

/// The `counter`-th alternative name for a file whose name is taken:
/// `_pp` and the counter in at least three digits, before the extension.
pub open spec fn numbered(name: Seq<char>, counter: nat) -> Seq<char> {
    with_suffix(name, "_pp"@ + padded(counter, 3))
}

/// The `counter`-th alternative name for a file whose name is taken.
pub fn numbered_name(name: &str, counter: u64) -> (r: String)
    ensures
        r@ == numbered(name@, counter as nat),
{
    let mut suffix = chars_of("_pp");
    let digits = fmt_padded(counter, 3);
    append_chars(&mut suffix, &digits);
    name_with_suffix(name, &suffix)
}

/// Whole seconds in `ticks`.
pub open spec fn whole_seconds(ticks: int) -> nat {
    (ticks / (TICKS_PER_SECOND as int)) as nat
}

/// The suffix that marks the output of one range: the range in whole
/// seconds when asked for, else the range's position from 1 in three digits.
pub open spec fn range_suffix(index: nat, range: TimeRange, add_frame_range: bool) -> Seq<char> {
    if add_frame_range {
        seq!['_'] + decimal(whole_seconds(range.start_ticks as int)) + "_to_"@ + decimal(whole_seconds(range.end_ticks as int))
    } else {
        seq!['_'] + padded(index + 1, 3)
    }
}

/// The path of the output that holds range `index` of a split file.
pub open spec fn range_output_path(path: Seq<char>, index: nat, range: TimeRange, add_frame_range: bool) -> Seq<char> {
    join_spec(parent_of(path), with_suffix(file_name_of(path), range_suffix(index, range, add_frame_range)))
}

/// The path of the output that holds range `index` of a split file.
pub fn add_range_suffix(path: &str, index: usize, range: TimeRange, add_frame_range: bool) -> (r: String)
    requires
        0 <= range.start_ticks <= range.end_ticks,
        index < u64::MAX,
    ensures
        r@ == range_output_path(path@, index as nat, range, add_frame_range),
{
    let mut suffix: Vec<char> = Vec::new();
    suffix.push('_');
    if add_frame_range {
        let s = fmt_u64((range.start_ticks / TICKS_PER_SECOND) as u64);
        append_chars(&mut suffix, &s);
        append_str(&mut suffix, "_to_");
        let e = fmt_u64((range.end_ticks / TICKS_PER_SECOND) as u64);
        append_chars(&mut suffix, &e);
    } else {
        let d = fmt_padded(index as u64 + 1, 3);
        append_chars(&mut suffix, &d);
    }
    assert(suffix@ =~= range_suffix(index as nat, range, add_frame_range));
    let name = name_with_suffix(file_name(path).as_str(), &suffix);
    join(parent(path).as_str(), name.as_str())
}

// ---------------------------------------------------------------------------
// Outputs of one media file
// ---------------------------------------------------------------------------
/// One output file and the source range it holds; `None` for the whole file.
#[derive(Debug, Clone)]
pub struct PlannedOutput {
    pub output_path: String,
    pub range: Option<TimeRange>,
}

/// How a media file is processed.
#[derive(Debug, Clone, Copy, PartialEq, Eq, Structural)]
pub enum ProcessingKind {
    Trim,
    Transcode,
    Copy,
    NoProcess,
}

impl ProcessingModeConfig {
    pub open spec fn spec_kind(&self) -> ProcessingKind {
        match self {
            ProcessingModeConfig::Trim => ProcessingKind::Trim,
            ProcessingModeConfig::Transcode { .. } => ProcessingKind::Transcode,
            ProcessingModeConfig::Copy => ProcessingKind::Copy,
            ProcessingModeConfig::NoProcess => ProcessingKind::NoProcess,
        }
    }

    pub fn kind(&self) -> (r: ProcessingKind)
        ensures
            r == self.spec_kind(),
    {
        match self {
            ProcessingModeConfig::Trim => ProcessingKind::Trim,
            ProcessingModeConfig::Transcode { .. } => ProcessingKind::Transcode,
            ProcessingModeConfig::Copy => ProcessingKind::Copy,
            ProcessingModeConfig::NoProcess => ProcessingKind::NoProcess,
        }
    }
}

/// The outputs planned for a media file written to `path`, given its merged
/// ranges (`optimized`, sorted and disjoint) as `(path, range)` pairs.
pub open spec fn planned_outputs(
    kind: ProcessingKind,
    mode: OptimizationMode,
    add_frame_range: bool,
    path: Seq<char>,
    ranges: Seq<TimeRange>,
) -> Seq<(Seq<char>, Option<TimeRange>)> {
    match kind {
        ProcessingKind::NoProcess => Seq::empty(),
        ProcessingKind::Copy => seq![(path, None)],
        ProcessingKind::Transcode => if ranges.len() == 0 {
            seq![(path, None)]
        } else {
            seq![(path, Some(TimeRange { start_ticks: ranges[0].start_ticks, end_ticks: ranges.last().end_ticks }))]
        },
        ProcessingKind::Trim => if ranges.len() == 0 {
            seq![(path, None)]
        } else if ranges.len() == 1 {
            seq![(path, Some(ranges[0]))]
        } else if mode == OptimizationMode::KeepSameNumberOfFiles {
            seq![(path, Some(TimeRange { start_ticks: ranges[0].start_ticks, end_ticks: ranges.last().end_ticks }))]
        } else {
            Seq::new(
                ranges.len(),
                |i: int| (range_output_path(path, i as nat, ranges[i], add_frame_range), Some(ranges[i])),
            )
        },
    }
}

pub open spec fn output_pairs(v: Seq<PlannedOutput>) -> Seq<(Seq<char>, Option<TimeRange>)> {
    v.map_values(|o: PlannedOutput| (o.output_path@, o.range))
}

/// The outputs of a media file written to `path` whose merged, sorted and
/// disjoint used ranges are `ranges`.
pub fn plan_outputs(
    kind: ProcessingKind,
    mode: OptimizationMode,
    add_frame_range: bool,
    path: &String,
    ranges: &Vec<TimeRange>,
) -> (r: Vec<PlannedOutput>)
    requires
        forall|i: int| 0 <= i < ranges@.len() ==> 0 <= (#[trigger] ranges@[i]).start_ticks <= ranges@[i].end_ticks,
    ensures
        output_pairs(r@) == planned_outputs(kind, mode, add_frame_range, path@, ranges@),
{
    let mut out: Vec<PlannedOutput> = Vec::new();
    let n = ranges.len();
    match kind {
        ProcessingKind::NoProcess => {},
        ProcessingKind::Copy => {
            out.push(PlannedOutput { output_path: path.clone(), range: None });
        },
        ProcessingKind::Transcode => {
            if n == 0 {
                out.push(PlannedOutput { output_path: path.clone(), range: None });
            } else {
                let hull = TimeRange { start_ticks: ranges[0].start_ticks, end_ticks: ranges[n - 1].end_ticks };
                out.push(PlannedOutput { output_path: path.clone(), range: Some(hull) });
            }
        },
        ProcessingKind::Trim => {
            if n == 0 {
                out.push(PlannedOutput { output_path: path.clone(), range: None });
            } else if n == 1 {
                out.push(PlannedOutput { output_path: path.clone(), range: Some(ranges[0]) });
            } else if mode == OptimizationMode::KeepSameNumberOfFiles {
                let hull = TimeRange { start_ticks: ranges[0].start_ticks, end_ticks: ranges[n - 1].end_ticks };
                out.push(PlannedOutput { output_path: path.clone(), range: Some(hull) });
            } else {
                let mut i: usize = 0;
                while i < n
                    invariant
                        n == ranges@.len(),
                        i <= n,
                        forall|k: int| 0 <= k < ranges@.len() ==> 0 <= (#[trigger] ranges@[k]).start_ticks <= ranges@[k].end_ticks,
                        output_pairs(out@) == Seq::new(
                            i as nat,
                            |k: int| (range_output_path(path@, k as nat, ranges@[k], add_frame_range), Some(ranges@[k])),
                        ),
                    decreases n - i,
                {
                    let p = add_range_suffix(path.as_str(), i, ranges[i], add_frame_range);
                    let ghost before = out@;
                    let ghost pv = p@;
                    out.push(PlannedOutput { output_path: p, range: Some(ranges[i]) });
                    assert(output_pairs(out@) =~= output_pairs(before).push((pv, Some(ranges@[i as int]))));
                    assert(output_pairs(out@) =~= Seq::new(
                        (i + 1) as nat,
                        |k: int| (range_output_path(path@, k as nat, ranges@[k], add_frame_range), Some(ranges@[k])),
                    ));
                    i = i + 1;
                }
            }
        },
    }
    assert(output_pairs(out@) =~= planned_outputs(kind, mode, add_frame_range, path@, ranges@));
    out
}

/// The plan for one used media file.
#[derive(Debug, Clone)]
pub struct PathPlanEntry {
    pub media_guid: String,
    pub source_path: String,
    /// Where the project's references to the source will point.
    pub output_path: String,
    pub outputs: Vec<PlannedOutput>,
    pub copy_proxy: bool,
    pub copy_sidecars: bool,
}

impl ConsolidationConfig {
    /// The plan for media `media`, used as `info` says, written to
    /// `output_path`.
    pub fn plan_media(&self, media: &MediaFile, info: &MediaUsageInfo, output_path: &String) -> (r: PathPlanEntry)
        requires
            info.wf(),
        ensures
            r.media_guid == media.object_id,
            r.source_path == media.file_path,
            r.output_path == *output_path,
            output_pairs(r.outputs@) == planned_outputs(
                self.processing_mode.spec_kind(),
                self.optimization_mode,
                self.add_frame_range_to_filename,
                output_path@,
                optimized(info.time_ranges@, 0),
            ),
            r.copy_sidecars == self.copy_sidecar_files,
            r.copy_proxy == (self.proxy_mode == ProxyMode::CopyBoth || self.proxy_mode == ProxyMode::ProxyOnly),
    {
        let ranges = optimize_time_ranges(info.time_ranges.as_slice(), 0);
        proof {
            lemma_optimized_nonneg(info.time_ranges@);
            assert forall|i: int| 0 <= i < ranges@.len() implies 0 <= (#[trigger] ranges@[i]).start_ticks <= ranges@[i].end_ticks by {
                assert(ranges@[i].wf());
            }
        }
        let outputs = plan_outputs(
            self.processing_mode.kind(),
            self.optimization_mode,
            self.add_frame_range_to_filename,
            output_path,
            &ranges,
        );
        PathPlanEntry {
            media_guid: media.object_id.clone(),
            source_path: media.file_path.clone(),
            output_path: output_path.clone(),
            outputs,
            copy_proxy: self.proxy_mode.copies_proxies(),
            copy_sidecars: self.copy_sidecar_files,
        }
    }
}

// ---------------------------------------------------------------------------
// Rewriting the project's paths
// ---------------------------------------------------------------------------
/// A source path and the path that replaces it.
#[derive(Debug, Clone)]
pub struct PathMapping {
    pub original: String,
    pub new_path: String,
}

/// `s` with every `a` replaced by `b`.
pub open spec fn swap_char(s: Seq<char>, a: char, b: char) -> Seq<char> {
    s.map_values(|c: char| if c == a { b } else { c })
}

fn swapped(s: &Vec<char>, a: char, b: char) -> (r: Vec<char>)
    ensures
        r@ == swap_char(s@, a, b),
{
    let mut out: Vec<char> = Vec::new();
    let mut i: usize = 0;
    while i < s.len()
        invariant
            i <= s@.len(),
            out@ == swap_char(s@.subrange(0, i as int), a, b),
        decreases s@.len() - i,
    {
        out.push(if s[i] == a { b } else { s[i] });
        assert(swap_char(s@.subrange(0, i + 1), a, b) =~= swap_char(s@.subrange(0, i as int), a, b).push(
            if s@[i as int] == a { b } else { s@[i as int] },
        ));
        i = i + 1;
    }
    assert(s@.subrange(0, s@.len() as int) =~= s@);
    out
}

/// The text with one mapping applied in its three slash forms: as written,
/// with `/` turned into `\`, and with `\` turned into `/`.
pub open spec fn rewrite_one(t: Seq<char>, from: Seq<char>, to: Seq<char>) -> Seq<char> {
    let t1 = replace_all_spec(t, from, to);
    let t2 = replace_all_spec(t1, swap_char(from, '/', '\\'), swap_char(to, '/', '\\'));
    replace_all_spec(t2, swap_char(from, '\\', '/'), swap_char(to, '\\', '/'))
}

/// The text with every mapping applied in turn.
pub open spec fn rewrite_all(t: Seq<char>, maps: Seq<PathMapping>) -> Seq<char>
    decreases maps.len(),
{
    if maps.len() == 0 {
        t
    } else {
        rewrite_one(rewrite_all(t, maps.drop_last()), maps.last().original@, maps.last().new_path@)
    }
}

/// Where a mapping whose source path has `key` characters goes in a list
/// ordered by decreasing source length: after every mapping at least as long.
pub open spec fn length_insert_pos(s: Seq<PathMapping>, key: nat) -> nat
    decreases s.len(),
{
    if s.len() == 0 {
        0
    } else if s.last().original@.len() < key {
        length_insert_pos(s.drop_last(), key)
    } else {
        s.len()
    }
}

/// The mappings ordered by decreasing length of their source path; mappings
/// of equal length keep their order.
pub open spec fn longest_first(s: Seq<PathMapping>) -> Seq<PathMapping>
    decreases s.len(),
{
    if s.len() == 0 {
        s
    } else {
        let t = longest_first(s.drop_last());
        t.insert(length_insert_pos(t, s.last().original@.len()) as int, s.last())
    }
}

proof fn lemma_length_pos_bound(t: Seq<PathMapping>, key: nat)
    ensures
        length_insert_pos(t, key) <= t.len(),
    decreases t.len(),
{
    if t.len() > 0 && t.last().original@.len() < key {
        lemma_length_pos_bound(t.drop_last(), key);
    }
}

fn find_length_pos(t: &Vec<PathMapping>, key: usize) -> (p: usize)
    ensures
        p == length_insert_pos(t@, key as nat),
{
    let mut p: usize = t.len();
    assert(t@.subrange(0, p as int) =~= t@);
    while p > 0 && chars_of(t[p - 1].original.as_str()).len() < key
        invariant
            p <= t@.len(),
            length_insert_pos(t@, key as nat) == length_insert_pos(t@.subrange(0, p as int), key as nat),
        decreases p,
    {
        assert(t@.subrange(0, p as int).drop_last() =~= t@.subrange(0, p - 1));
        p = p - 1;
    }
    p
}

/// The mappings, longest source path first.
pub fn sort_longest_first(mappings: &Vec<PathMapping>) -> (r: Vec<PathMapping>)
    ensures
        r@ == longest_first(mappings@),
{
    let mut out: Vec<PathMapping> = Vec::new();
    let mut i: usize = 0;
    while i < mappings.len()
        invariant
            i <= mappings@.len(),
            out@ == longest_first(mappings@.subrange(0, i as int)),
        decreases mappings@.len() - i,
    {
        let m = PathMapping { original: mappings[i].original.clone(), new_path: mappings[i].new_path.clone() };
        let key = chars_of(m.original.as_str()).len();
        let p = find_length_pos(&out, key);
        proof {
            lemma_length_pos_bound(out@, key as nat);
            let pre = mappings@.subrange(0, i + 1);
            assert(pre.drop_last() =~= mappings@.subrange(0, i as int));
            assert(pre.last() == m);
        }
        out.insert(p, m);
        i = i + 1;
    }
    assert(mappings@.subrange(0, mappings@.len() as int) =~= mappings@);
    out
}

/// Replaces every source path of `mappings` in the project text by its new
/// path, in each slash form, longest source path first so that a path that
/// contains another is replaced whole.
pub fn rewrite_project_text(xml: &str, mappings: &Vec<PathMapping>) -> (r: String)
    ensures
        r@ == rewrite_all(xml@, longest_first(mappings@)),
{
    let ordered = sort_longest_first(mappings);
    let mut t = chars_of(xml);
    let mut i: usize = 0;
    while i < ordered.len()
        invariant
            i <= ordered@.len(),
            t@ == rewrite_all(xml@, ordered@.subrange(0, i as int)),
        decreases ordered@.len() - i,
    {
        let from = chars_of(ordered[i].original.as_str());
        let to = chars_of(ordered[i].new_path.as_str());
        proof {
            let pre = ordered@.subrange(0, i + 1);
            assert(pre.drop_last() =~= ordered@.subrange(0, i as int));
            assert(pre.last() == ordered@[i as int]);
        }
        if from.len() > 0 {
            let t1 = replace_all(&t, &from, &to);
            let from2 = swapped(&from, '/', '\\');
            let to2 = swapped(&to, '/', '\\');
            assert(from2@.len() == from@.len());
            let t2 = replace_all(&t1, &from2, &to2);
            let from3 = swapped(&from, '\\', '/');
            let to3 = swapped(&to, '\\', '/');
            assert(from3@.len() == from@.len());
            t = replace_all(&t2, &from3, &to3);
        } else {
            proof {
                let e = Seq::<char>::empty();
                assert(from@ =~= e);
                assert(swap_char(from@, '/', '\\') =~= e);
                assert(swap_char(from@, '\\', '/') =~= e);
            }
        }
        i = i + 1;
    }
    assert(ordered@.subrange(0, ordered@.len() as int) =~= ordered@);
    string_of(&t)
}

/// The compressed project with every mapping applied to its text;
/// `CorruptArchive` when it is no GZIP stream of text.
pub fn rewrite_project(compressed: &[u8], mappings: &Vec<PathMapping>) -> (r: Result<Vec<u8>, LoadError>)
    ensures
        match gunzip_text(compressed@) {
            Some(t) => r matches Ok(b) && b@ == gzip_bytes(rewrite_all(t, longest_first(mappings@))),
            None => r == Err::<Vec<u8>, LoadError>(LoadError::CorruptArchive),
        },
{
    match gunzip(compressed) {
        Some(xml) => {
            let text = rewrite_project_text(xml.as_str(), mappings);
            Ok(gzip(text.as_str()))
        },
        None => Err(LoadError::CorruptArchive),
    }
}

/// Estimated bytes of the output of a file of `file_size` bytes lasting
/// `duration_ticks`, of which `used_ticks` are used: the used share of the
/// file when trimming a file of known length, else the whole file.
pub open spec fn estimated_size(kind: ProcessingKind, file_size: nat, duration_ticks: int, used_ticks: int) -> nat {
    if kind == ProcessingKind::Trim && duration_ticks > 0 && used_ticks >= 0 {
        (file_size * used_ticks as nat / duration_ticks as nat) as nat
    } else {
        file_size
    }
}

/// Estimated bytes of the output of one file.
pub fn estimate_media_size(kind: ProcessingKind, file_size: u64, duration_ticks: i64, used_ticks: i64) -> (r: u128)
    ensures
        r == estimated_size(kind, file_size as nat, duration_ticks as int, used_ticks as int),
{
    if kind == ProcessingKind::Trim && duration_ticks > 0 && used_ticks >= 0 {
        let a = file_size as u128;
        let b = used_ticks as u128;
        assert(a * b <= 18446744073709551615u128 * 9223372036854775807u128) by (nonlinear_arith)
            requires
                a <= 18446744073709551615u128,
                b <= 9223372036854775807u128,
        ;
        let p = a * b;
        p / duration_ticks as u128
    } else {
        file_size as u128
    }
}

/// `a` and `b` agree on their common length.
pub open spec fn compatible(a: Seq<char>, b: Seq<char>) -> bool {
    forall|i: int| 0 <= i < a.len() && i < b.len() ==> a[i] == b[i]
}

/// No occurrence of `from` can straddle an inserted `to`: no proper suffix of
/// `from` agrees with the start of `to`, and no tail of `to` shorter than
/// `from` starts `from`.
pub open spec fn no_straddle(from: Seq<char>, to: Seq<char>) -> bool {
    &&& forall|k: int| 0 < k < from.len() ==> !compatible(#[trigger] from.subrange(k, from.len() as int), to)
    &&& forall|j: int|
        0 <= j < to.len() && to.len() - j < from.len() ==> !compatible(#[trigger] to.subrange(j, to.len() as int), from)
}

/// Where the first occurrence of `from` is, the text is rebuilt from the
/// part before it, `to`, and the replacement of the rest.
proof fn lemma_first_match(t: Seq<char>, from: Seq<char>, to: Seq<char>)
    requires
        from.len() > 0,
    ensures
        !contains_seq(t, from) ==> replace_all_spec(t, from, to) == t,
        contains_seq(t, from) ==> exists|q: int|
            occurs_at(t, from, q) && (forall|i: int| 0 <= i < q ==> !occurs_at(t, from, i)) && replace_all_spec(t, from, to)
                == t.subrange(0, q) + to + replace_all_spec(#[trigger] t.subrange(q + from.len(), t.len() as int), from, to),
    decreases t.len(),
{
    if t.len() == 0 {
        assert forall|i: int| !occurs_at(t, from, i) by {}
    } else if starts_with(t, from) {
        assert(occurs_at(t, from, 0));
        assert(t.subrange(0, 0) + to + replace_all_spec(t.subrange(from.len() as int, t.len() as int), from, to)
            =~= replace_all_spec(t, from, to));
    } else {
        let d = t.drop_first();
        lemma_first_match(d, from, to);
        assert(!occurs_at(t, from, 0)) by {
            if occurs_at(t, from, 0) {
                assert(t.subrange(0, from.len() as int) == from);
            }
        }
        assert forall|i: int| 1 <= i implies occurs_at(t, from, i) == occurs_at(d, from, i - 1) by {
            if 0 <= i - 1 && i + from.len() <= t.len() {
                assert(t.subrange(i, i + from.len()) =~= d.subrange(i - 1, i - 1 + from.len()));
            }
        }
        if contains_seq(t, from) {
            let i0 = choose|i: int| occurs_at(t, from, i);
            assert(occurs_at(d, from, i0 - 1));
            let q = choose|q: int|
                occurs_at(d, from, q) && (forall|i: int| 0 <= i < q ==> !occurs_at(d, from, i)) && replace_all_spec(d, from, to)
                    == d.subrange(0, q) + to + replace_all_spec(#[trigger] d.subrange(q + from.len(), d.len() as int), from, to);
            assert(occurs_at(t, from, q + 1));
            assert forall|i: int| 0 <= i < q + 1 implies !occurs_at(t, from, i) by {
                if i >= 1 {
                    assert(!occurs_at(d, from, i - 1));
                }
            }
            assert(d.subrange(q + from.len(), d.len() as int) =~= t.subrange(q + 1 + from.len(), t.len() as int));
            assert(seq![t[0]] + (d.subrange(0, q) + to + replace_all_spec(d.subrange(q + from.len(), d.len() as int), from, to))
                =~= t.subrange(0, q + 1) + to + replace_all_spec(t.subrange(q + 1 + from.len(), t.len() as int), from, to));
        } else {
            assert(!contains_seq(d, from)) by {
                if contains_seq(d, from) {
                    let i = choose|i: int| occurs_at(d, from, i);
                    assert(occurs_at(t, from, i + 1));
                }
            }
            assert(seq![t[0]] + d =~= t);
        }
    }
}

/// Once every `from` is replaced by a `to` that neither holds `from` nor
/// can combine with the text around it into `from`, no `from` is left.
pub proof fn law_replacement_complete(t: Seq<char>, from: Seq<char>, to: Seq<char>)
    requires
        from.len() > 0,
        !contains_seq(to, from),
        no_straddle(from, to),
    ensures
        !contains_seq(replace_all_spec(t, from, to), from),
    decreases t.len(),
{
    let r = replace_all_spec(t, from, to);
    if t.len() == 0 {
        assert forall|p: int| !occurs_at(r, from, p) by {}
    } else if starts_with(t, from) {
        let rest = t.subrange(from.len() as int, t.len() as int);
        law_replacement_complete(rest, from, to);
        let rr = replace_all_spec(rest, from, to);
        assert(r == to + rr);
        assert forall|p: int| !occurs_at(r, from, p) by {
            if occurs_at(r, from, p) {
                if p + from.len() <= to.len() {
                    assert(to.subrange(p, p + from.len()) =~= r.subrange(p, p + from.len()));
                    assert(occurs_at(to, from, p));
                } else if p < to.len() {
                    let tail = to.subrange(p, to.len() as int);
                    assert forall|i: int| 0 <= i < tail.len() && i < from.len() implies tail[i] == from[i] by {
                        assert(r[p + i] == to[p + i]);
                        assert(r.subrange(p, p + from.len())[i] == r[p + i]);
                    }
                    assert(compatible(tail, from));
                } else {
                    assert(rr.subrange(p - to.len(), p - to.len() + from.len()) =~= r.subrange(p, p + from.len()));
                    assert(occurs_at(rr, from, p - to.len()));
                }
            }
        }
    } else {
        let d = t.drop_first();
        law_replacement_complete(d, from, to);
        let rd = replace_all_spec(d, from, to);
        assert(r == seq![t[0]] + rd);
        assert forall|p: int| !occurs_at(r, from, p) by {
            if occurs_at(r, from, p) {
                if p >= 1 {
                    assert(rd.subrange(p - 1, p - 1 + from.len()) =~= r.subrange(p, p + from.len()));
                    assert(occurs_at(rd, from, p - 1));
                } else {
                    // An occurrence at the very start.
                    lemma_first_match(d, from, to);
                    if !contains_seq(d, from) {
                        assert(t.subrange(0, from.len() as int) =~= r.subrange(0, from.len() as int)) by {
                            assert(rd == d);
                            assert(seq![t[0]] + d =~= t);
                        }
                        assert(starts_with(t, from));
                    } else {
                        let q = choose|q: int|
                            occurs_at(d, from, q) && (forall|i: int| 0 <= i < q ==> !occurs_at(d, from, i)) && rd
                                == d.subrange(0, q) + to + replace_all_spec(#[trigger] d.subrange(q + from.len(), d.len() as int), from, to);
                        if q + 1 >= from.len() {
                            assert forall|i: int| 0 <= i < from.len() implies t[i] == from[i] by {
                                assert(r.subrange(0, from.len() as int)[i] == r[i]);
                                if i >= 1 {
                                    assert(r[i] == rd[i - 1]);
                                    assert(rd[i - 1] == d[i - 1]);
                                }
                            }
                            assert(t.subrange(0, from.len() as int) =~= from);
                        } else {
                            let k = q + 1;
                            let sfx = from.subrange(k, from.len() as int);
                            assert forall|i: int| 0 <= i < sfx.len() && i < to.len() implies sfx[i] == to[i] by {
                                assert(r.subrange(0, from.len() as int)[k + i] == r[k + i]);
                                assert(r[k + i] == rd[q + i]);
                                assert(rd[q + i] == to[i]);
                            }
                            assert(compatible(sfx, to));
                        }
                    }
                }
            }
        }
    }
}

/// After one mapping is applied in its three slash forms, the source path in
/// its forward-slash form no longer occurs, as long as the new path in that
/// form neither holds it nor overlaps it at either end; a source path without
/// backslashes is its own forward-slash form.
pub proof fn law_rewrite_removes_source(t: Seq<char>, m: PathMapping)
    requires
        m.original@.len() > 0,
        !contains_seq(swap_char(m.new_path@, '\\', '/'), swap_char(m.original@, '\\', '/')),
        no_straddle(swap_char(m.original@, '\\', '/'), swap_char(m.new_path@, '\\', '/')),
    ensures
        !contains_seq(rewrite_one(t, m.original@, m.new_path@), swap_char(m.original@, '\\', '/')),
        (forall|i: int| 0 <= i < m.original@.len() ==> m.original@[i] != '\\') ==> swap_char(m.original@, '\\', '/')
            == m.original@,
{
    let f = m.original@;
    let t1 = replace_all_spec(t, f, m.new_path@);
    let t2 = replace_all_spec(t1, swap_char(f, '/', '\\'), swap_char(m.new_path@, '/', '\\'));
    law_replacement_complete(t2, swap_char(f, '\\', '/'), swap_char(m.new_path@, '\\', '/'));
    if forall|i: int| 0 <= i < f.len() ==> f[i] != '\\' {
        assert(swap_char(f, '\\', '/') =~= f);
    }
}

/// If `from` occurs in the text, `to` occurs once it is replaced.
pub proof fn law_replacement_present(t: Seq<char>, from: Seq<char>, to: Seq<char>)
    requires
        from.len() > 0,
        contains_seq(t, from),
    ensures
        contains_seq(replace_all_spec(t, from, to), to),
    decreases t.len(),
{
    let r = replace_all_spec(t, from, to);
    if starts_with(t, from) {
        assert(r.subrange(0, to.len() as int) =~= to);
        assert(occurs_at(r, to, 0));
    } else {
        let i = choose|i: int| occurs_at(t, from, i);
        if i == 0 {
            assert(t.subrange(0, from.len() as int) == from);
        }
        let d = t.drop_first();
        assert(d.subrange(i - 1, i - 1 + from.len()) =~= t.subrange(i, i + from.len()));
        assert(occurs_at(d, from, i - 1));
        law_replacement_present(d, from, to);
        let r2 = replace_all_spec(d, from, to);
        let j = choose|j: int| occurs_at(r2, to, j);
        assert(r == seq![t[0]] + r2);
        assert(r.subrange(j + 1, j + 1 + to.len()) =~= r2.subrange(j, j + to.len()));
        assert(occurs_at(r, to, j + 1));
    }
}

} // verus!
