//! Which media the chosen sequences use, over which source ranges, walking
//! nested sequences once each.

use vstd::prelude::*;
use crate::model::{ClipType, MediaFile, PremiereProject, Sequence, Track, TrackClip};
use crate::text::str_eq;
use crate::time_range::{all_wf, clamp_int, hull_of, max_int, min_int, TimeRange};

verus! {

/// Ticks in one frame of the fixed 24 fps rate used for handles.
pub const HANDLE_TICKS_PER_FRAME: i64 = 10584000000;

/// The largest handle length, in frames, whose tick count fits an `i64`.
pub const MAX_HANDLE_FRAMES: i64 = 871444825;

/// Result of an analysis.
#[derive(Debug, Clone)]
pub struct MediaUsageAnalysis {
    /// One entry per used media file, keyed by `object_id`.
    pub used_media: Vec<MediaUsageInfo>,
    pub unused_media: Vec<String>,
    pub sequences_analyzed: Vec<String>,
}

/// How one media file is used.
#[derive(Debug, Clone)]
pub struct MediaUsageInfo {
    pub object_id: String,
    pub usage_count: usize,
    pub time_ranges: Vec<TimeRange>,
    /// The range covering all of `time_ranges`.
    pub merged_range: TimeRange,
    pub used_in_sequences: Vec<String>,
    pub is_multicam_angle: bool,
    pub is_merged_component: bool,
}

// ---------------------------------------------------------------------------
// What a sequence contributes
// ---------------------------------------------------------------------------
/// Whether `clip` contributes usage of media `m`.
pub open spec fn clip_contributes(clip: TrackClip, m: Seq<char>, include_all_angles: bool) -> bool {
    match clip.clip_type {
        ClipType::Standard => (clip.media_ref matches Some(r) && r@ == m),
        ClipType::Subclip { parent_id } => parent_id@ == m,
        ClipType::MergedClip { components } => (exists|i: int|
            0 <= i < components@.len() && (#[trigger] components@[i])@ == m) || (components@.len()
            > 0 && (clip.media_ref matches Some(r) && r@ == m)),
        ClipType::Multicam { angles } => exists|i: int|
            0 <= i < angles@.len() && (#[trigger] angles@[i]).media_ref@ == m && (angles@[i].is_active
                || include_all_angles),
        ClipType::Nested { .. } => false,
        ClipType::Adjustment => false,
    }
}

/// Whether `clip` nests the sequence `x`.
pub open spec fn clip_nests(clip: TrackClip, x: Seq<char>) -> bool {
    (clip.clip_type matches ClipType::Nested { sequence_id } && sequence_id@ == x)
}

pub open spec fn track_has_clip(tracks: Seq<Track>, clip: TrackClip) -> bool {
    exists|t: int, k: int|
        0 <= t < tracks.len() && 0 <= k < tracks[t].clips@.len() && #[trigger] tracks[t].clips@[k]
            == clip
}

/// Whether `clip` lies on a video or audio track of `s`.
pub open spec fn seq_has_clip(s: Sequence, clip: TrackClip) -> bool {
    track_has_clip(s.video_tracks@, clip) || track_has_clip(s.audio_tracks@, clip)
}

/// Whether `s` uses media `m` through one of its clips.
pub open spec fn seq_uses(s: Sequence, m: Seq<char>, include_all_angles: bool) -> bool {
    exists|c: TrackClip| #[trigger] seq_has_clip(s, c) && clip_contributes(c, m, include_all_angles)
}

/// Whether `s` nests the sequence `x`, by its list or through a clip.
pub open spec fn seq_nests(s: Sequence, x: Seq<char>) -> bool {
    (exists|i: int| 0 <= i < s.nested_sequences@.len() && (#[trigger] s.nested_sequences@[i])@ == x)
        || (exists|c: TrackClip| #[trigger] seq_has_clip(s, c) && clip_nests(c, x))
}

/// The strings of a list, as a set.
pub open spec fn id_set(v: Seq<String>) -> Set<Seq<char>> {
    Set::new(|x: Seq<char>| exists|i: int| 0 <= i < v.len() && (#[trigger] v[i])@ == x)
}

/// Identifiers of the media of a usage list.
pub open spec fn used_ids(u: Seq<MediaUsageInfo>) -> Set<Seq<char>> {
    Set::new(|x: Seq<char>| exists|i: int| 0 <= i < u.len() && (#[trigger] u[i]).object_id@ == x)
}

/// The media that the analyzed sequences use: media files of the project
/// contributed by a clip of a project sequence whose identifier is in
/// `analyzed`. A reference to no media file of the project is skipped.
pub open spec fn used_set(p: PremiereProject, analyzed: Set<Seq<char>>, include_all_angles: bool) -> Set<
    Seq<char>,
> {
    Set::new(
        |m: Seq<char>|
            p.media_ids().contains(m) && exists|i: int|
                0 <= i < p.sequences@.len() && analyzed.contains(p.sequences@[i].object_id@)
                    && seq_uses(#[trigger] p.sequences@[i], m, include_all_angles),
    )
}

/// `analyzed` holds the start identifiers, every sequence nested in an
/// analyzed sequence, and nothing else.
pub open spec fn nesting_closure(p: PremiereProject, starts: Set<Seq<char>>, analyzed: Set<Seq<char>>) -> bool {
    &&& starts.subset_of(analyzed)
    &&& forall|i: int, x: Seq<char>|
        0 <= i < p.sequences@.len() && analyzed.contains(p.sequences@[i].object_id@)
            && #[trigger] seq_nests(p.sequences@[i], x) ==> analyzed.contains(x)
    &&& forall|x: Seq<char>|
        #[trigger] analyzed.contains(x) ==> starts.contains(x) || exists|i: int|
            0 <= i < p.sequences@.len() && analyzed.contains(p.sequences@[i].object_id@)
                && seq_nests(#[trigger] p.sequences@[i], x)
}

pub open spec fn no_dups(v: Seq<String>) -> bool {
    forall|i: int, j: int| 0 <= i < j < v.len() ==> v[i]@ != v[j]@
}

impl MediaUsageInfo {
    /// The ranges are well formed and non-empty, one per use, and
    /// `merged_range` covers them.
    pub open spec fn wf(&self) -> bool {
        &&& self.time_ranges@.len() > 0
        &&& self.usage_count == self.time_ranges@.len()
        &&& all_wf(self.time_ranges@)
        &&& forall|i: int| 0 <= i < self.time_ranges@.len() ==> (#[trigger] self.time_ranges@[i]).start_ticks >= 0
        &&& self.merged_range == hull_of(self.time_ranges@)
        &&& no_dups(self.used_in_sequences@)
    }
}

/// Every sequence an entry names is in `analyzed`.
pub open spec fn sequences_within(u: Seq<MediaUsageInfo>, analyzed: Set<Seq<char>>) -> bool {
    forall|k: int, j: int|
        0 <= k < u.len() && 0 <= j < u[k].used_in_sequences@.len() ==> analyzed.contains(
            (#[trigger] u[k].used_in_sequences@[j])@,
        )
}

/// Each entry of `u1` keeps its place in `u2`, with its ranges as a prefix
/// and its multicam flag kept.
pub open spec fn entries_grow(u1: Seq<MediaUsageInfo>, u2: Seq<MediaUsageInfo>) -> bool {
    &&& u1.len() <= u2.len()
    &&& forall|k: int| #![trigger u2[k]] 0 <= k < u1.len() ==> u2[k].object_id == u1[k].object_id && u1[k].time_ranges@.len()
        <= u2[k].time_ranges@.len() && (forall|j: int| 0 <= j < u1[k].time_ranges@.len() ==> #[trigger] u2[k].time_ranges@[j]
        == u1[k].time_ranges@[j]) && (u1[k].is_multicam_angle ==> u2[k].is_multicam_angle)
}

/// The use of media `m` by `clip` is recorded: the entry for `m` holds the
/// clip's handled range, and is flagged when the clip is a multicam clip.
pub open spec fn recorded(p: PremiereProject, handle: int, u: Seq<MediaUsageInfo>, m: Seq<char>, clip: TrackClip) -> bool {
    exists|k: int|
        0 <= k < u.len() && (#[trigger] u[k]).object_id@ == m && (exists|j: int|
            0 <= j < u[k].time_ranges@.len() && handled_range(#[trigger] u[k].time_ranges@[j], clip, known_duration(p.media_files@, m), handle))
            && (clip.clip_type is Multicam ==> u[k].is_multicam_angle)
}

proof fn lemma_entries_grow_trans(u1: Seq<MediaUsageInfo>, u2: Seq<MediaUsageInfo>, u3: Seq<MediaUsageInfo>)
    requires
        entries_grow(u1, u2),
        entries_grow(u2, u3),
    ensures
        entries_grow(u1, u3),
{
    assert forall|k: int| #![trigger u3[k]] 0 <= k < u1.len() implies u3[k].object_id == u1[k].object_id && u1[k].time_ranges@.len()
        <= u3[k].time_ranges@.len() && (forall|j: int| 0 <= j < u1[k].time_ranges@.len() ==> #[trigger] u3[k].time_ranges@[j]
        == u1[k].time_ranges@[j]) && (u1[k].is_multicam_angle ==> u3[k].is_multicam_angle) by {
        assert(u2[k].object_id == u1[k].object_id);
        assert forall|j: int| 0 <= j < u1[k].time_ranges@.len() implies #[trigger] u3[k].time_ranges@[j] == u1[k].time_ranges@[j] by {
            assert(u2[k].time_ranges@[j] == u1[k].time_ranges@[j]);
        }
    }
}

proof fn lemma_entries_grow_refl(u: Seq<MediaUsageInfo>)
    ensures
        entries_grow(u, u),
{
}

proof fn lemma_recorded_grows(p: PremiereProject, h: int, u1: Seq<MediaUsageInfo>, u2: Seq<MediaUsageInfo>, m: Seq<char>, c: TrackClip)
    requires
        recorded(p, h, u1, m, c),
        entries_grow(u1, u2),
    ensures
        recorded(p, h, u2, m, c),
{
    let k = choose|k: int|
        0 <= k < u1.len() && (#[trigger] u1[k]).object_id@ == m && (exists|j: int|
            0 <= j < u1[k].time_ranges@.len() && handled_range(#[trigger] u1[k].time_ranges@[j], c, known_duration(p.media_files@, m), h))
            && (c.clip_type is Multicam ==> u1[k].is_multicam_angle);
    let j = choose|j: int|
        0 <= j < u1[k].time_ranges@.len() && handled_range(#[trigger] u1[k].time_ranges@[j], c, known_duration(p.media_files@, m), h);
    assert(u2[k].object_id == u1[k].object_id);
    assert(u2[k].time_ranges@[j] == u1[k].time_ranges@[j]);
}

/// Each analyzed identifier is a start identifier, or is nested in a project
/// sequence whose identifier comes earlier in the list: a witness that every
/// analyzed identifier is reachable from the start identifiers.
pub open spec fn ordered_reach(p: PremiereProject, a: Seq<String>, starts: Set<Seq<char>>) -> bool {
    forall|j: int| 0 <= j < a.len() ==> starts.contains(#[trigger] a[j]@) || exists|i: int, j2: int| #![trigger p.sequences@[i], a[j2]]
        0 <= i < p.sequences@.len() && 0 <= j2 < j && p.sequences@[i].object_id@ == a[j2]@ && seq_nests(
            p.sequences@[i],
            a[j]@,
        )
}

/// Every use of a project media file by a clip of an analyzed sequence is
/// recorded: its handled range is among the media's ranges, and a multicam
/// clip's media is flagged as a multicam angle.
pub open spec fn uses_recorded(p: PremiereProject, analyzed: Set<Seq<char>>, include_all_angles: bool, handle: int, u: Seq<MediaUsageInfo>) -> bool {
    forall|i: int, c: TrackClip, m: Seq<char>|
        0 <= i < p.sequences@.len() && analyzed.contains(p.sequences@[i].object_id@) && #[trigger] seq_has_clip(p.sequences@[i], c)
            && #[trigger] clip_contributes(c, m, include_all_angles) && p.media_ids().contains(m) ==> recorded(p, handle, u, m, c)
}

/// Entries are well formed and keyed by distinct identifiers.
pub open spec fn usage_wf(u: Seq<MediaUsageInfo>) -> bool {
    &&& forall|i: int| 0 <= i < u.len() ==> (#[trigger] u[i]).wf()
    &&& forall|i: int, j: int| 0 <= i < j < u.len() ==> u[i].object_id@ != u[j].object_id@
}

/// Length in ticks of media `m`: that of the first media file with this
/// identifier when known and positive, else `i64::MAX`.
pub open spec fn known_duration(files: Seq<MediaFile>, m: Seq<char>) -> int
    decreases files.len(),
{
    if files.len() == 0 {
        i64::MAX as int
    } else if files[0].object_id@ == m {
        if files[0].duration_ticks > 0 {
            files[0].duration_ticks as int
        } else {
            i64::MAX as int
        }
    } else {
        known_duration(files.drop_first(), m)
    }
}

/// `r` is the source span of `clip`, widened by `handle` ticks on both sides
/// and clamped to `[0, duration]`.
pub open spec fn handled_range(r: TimeRange, clip: TrackClip, duration: int, handle: int) -> bool {
    let lo = min_int(clip.in_point_ticks as int, clip.out_point_ticks as int);
    let hi = max_int(clip.in_point_ticks as int, clip.out_point_ticks as int);
    r.start_ticks == clamp_int(lo - handle, 0, duration) && r.end_ticks == clamp_int(hi + handle, 0, duration)
}

/// Every range of `e` comes from a clip of an analyzed sequence that
/// contributes `e`'s media.
pub open spec fn ranges_sound(p: PremiereProject, analyzed: Set<Seq<char>>, include_all_angles: bool, handle: int, e: MediaUsageInfo) -> bool {
    forall|j: int| #![trigger e.time_ranges@[j]] 0 <= j < e.time_ranges@.len() ==> exists|i: int, c: TrackClip|
        0 <= i < p.sequences@.len() && analyzed.contains(p.sequences@[i].object_id@) && #[trigger] seq_has_clip(
            p.sequences@[i],
            c,
        ) && clip_contributes(c, e.object_id@, include_all_angles) && handled_range(
            e.time_ranges@[j],
            c,
            known_duration(p.media_files@, e.object_id@),
            handle,
        )
}

// ---------------------------------------------------------------------------
// The analyzer
// ---------------------------------------------------------------------------
/// Counts the sequences whose identifier is not yet analyzed.
pub open spec fn pending(seqs: Seq<Sequence>, analyzed: Set<Seq<char>>) -> nat
    decreases seqs.len(),
{
    if seqs.len() == 0 {
        0
    } else {
        pending(seqs.drop_last(), analyzed) + if analyzed.contains(seqs.last().object_id@) {
            0nat
        } else {
            1nat
        }
    }
}

proof fn lemma_pending_monotone(seqs: Seq<Sequence>, a: Set<Seq<char>>, b: Set<Seq<char>>)
    requires
        a.subset_of(b),
    ensures
        pending(seqs, b) <= pending(seqs, a),
    decreases seqs.len(),
{
    if seqs.len() > 0 {
        lemma_pending_monotone(seqs.drop_last(), a, b);
    }
}

proof fn lemma_pending_drop(seqs: Seq<Sequence>, a: Set<Seq<char>>, b: Set<Seq<char>>, k: int)
    requires
        a.subset_of(b),
        0 <= k < seqs.len(),
        !a.contains(seqs[k].object_id@),
        b.contains(seqs[k].object_id@),
    ensures
        pending(seqs, b) < pending(seqs, a),
    decreases seqs.len(),
{
    if k == seqs.len() - 1 {
        lemma_pending_monotone(seqs.drop_last(), a, b);
    } else {
        lemma_pending_drop(seqs.drop_last(), a, b, k);
    }
}

/// Walks sequences and records media usage.
pub struct SequenceAnalyzer<'a> {
    project: &'a PremiereProject,
    handle_frames: i64,
    include_unused_multicam_angles: bool,
}

impl<'a> SequenceAnalyzer<'a> {
    pub closed spec fn spec_project(&self) -> PremiereProject {
        *self.project
    }

    pub closed spec fn spec_handle_frames(&self) -> i64 {
        self.handle_frames
    }

    pub closed spec fn spec_include_all(&self) -> bool {
        self.include_unused_multicam_angles
    }

    /// The handle length fits, in ticks, an `i64`.
    pub closed spec fn wf(&self) -> bool {
        0 <= self.handle_frames <= MAX_HANDLE_FRAMES
    }

    /// An analyzer with no handles that counts every multicam angle.
    pub fn new(project: &'a PremiereProject) -> (r: Self)
        ensures
            r.spec_project() == *project,
            r.spec_handle_frames() == 0,
            r.spec_include_all(),
            r.wf(),
    {
        SequenceAnalyzer { project, handle_frames: 0, include_unused_multicam_angles: true }
    }

    /// Sets the number of frames kept before and after each used span.
    pub fn with_handles(self, frames: i64) -> (r: Self)
        requires
            0 <= frames <= MAX_HANDLE_FRAMES,
        ensures
            r.spec_project() == self.spec_project(),
            r.spec_handle_frames() == frames,
            r.spec_include_all() == self.spec_include_all(),
            r.wf(),
    {
        SequenceAnalyzer { handle_frames: frames, ..self }
    }

    /// Sets whether inactive multicam angles count as used.
    pub fn include_all_multicam_angles(self, all_angles: bool) -> (r: Self)
        ensures
            r.spec_project() == self.spec_project(),
            r.spec_handle_frames() == self.spec_handle_frames(),
            r.spec_include_all() == all_angles,
            r.wf() == self.wf(),
    {
        SequenceAnalyzer { include_unused_multicam_angles: all_angles, ..self }
    }

    /// Analyzes the given sequences and every sequence nested in them.
    pub fn analyze_sequences(&self, sequence_ids: &Vec<String>) -> (r: MediaUsageAnalysis)
        requires
            self.wf(),
            self.spec_project().wf(),
        ensures
            nesting_closure(self.spec_project(), id_set(sequence_ids@), id_set(r.sequences_analyzed@)),
            no_dups(r.sequences_analyzed@),
            used_ids(r.used_media@) == used_set(
                self.spec_project(),
                id_set(r.sequences_analyzed@),
                self.spec_include_all(),
            ),
            usage_wf(r.used_media@),
            id_set(r.unused_media@) == self.spec_project().media_ids().difference(used_ids(r.used_media@)),
            forall|k: int| 0 <= k < r.used_media@.len() ==> ranges_sound(
                self.spec_project(),
                id_set(r.sequences_analyzed@),
                self.spec_include_all(),
                self.spec_handle_ticks(),
                #[trigger] r.used_media@[k],
            ),
            sequences_within(r.used_media@, id_set(r.sequences_analyzed@)),
            no_dups(r.unused_media@),
            uses_recorded(self.spec_project(), id_set(r.sequences_analyzed@), self.spec_include_all(), self.spec_handle_ticks(), r.used_media@),
            ordered_reach(self.spec_project(), r.sequences_analyzed@, id_set(sequence_ids@)),
    {
        let mut used: Vec<MediaUsageInfo> = Vec::new();
        let mut analyzed: Vec<String> = Vec::new();
        let mut i: usize = 0;
        while i < sequence_ids.len()
            invariant
                self.wf(),
                self.spec_project().wf(),
                i <= sequence_ids@.len(),
                forall|j: int| 0 <= j < i ==> id_set(analyzed@).contains(#[trigger] sequence_ids@[j]@),
                self.walk_inv(used@, analyzed@, id_set(sequence_ids@)),
                forall|x: Seq<char>| #[trigger] id_set(analyzed@).contains(x) ==> self.done(x, used@, analyzed@),
            decreases sequence_ids@.len() - i,
        {
            let ghost ub = used@;
            let ghost ab = analyzed@;
            assert(id_set(sequence_ids@).contains(sequence_ids@[i as int]@));
            let ghost next_budget = (pending(self.project.sequences@, id_set(analyzed@)) * 3) as int;
            self.analyze_sequence_recursive(
                &sequence_ids[i],
                &mut used,
                &mut analyzed,
                Ghost(id_set(sequence_ids@)),
                Ghost(next_budget),
            );
            proof {
                assert forall|x: Seq<char>| #[trigger] id_set(analyzed@).contains(x) implies self.done(x, used@, analyzed@) by {
                    if id_set(ab).contains(x) {
                        self.lemma_done_grows(x, ub, ab, used@, analyzed@);
                    }
                }
                assert forall|j: int| 0 <= j < i + 1 implies id_set(analyzed@).contains(#[trigger] sequence_ids@[j]@) by {
                    if j < i {
                        assert(id_set(ab).contains(sequence_ids@[j]@));
                    }
                }
            }
            i = i + 1;
        }
        proof {
            self.lemma_closure(used@, analyzed@, id_set(sequence_ids@));
        }
        let unused = self.unused_of(&used);
        MediaUsageAnalysis { used_media: used, unused_media: unused, sequences_analyzed: analyzed }
    }

    /// Analyzes every sequence of the project.
    pub fn analyze_all(&self) -> (r: MediaUsageAnalysis)
        requires
            self.wf(),
            self.spec_project().wf(),
        ensures
            self.spec_project().sequence_ids().subset_of(id_set(r.sequences_analyzed@)),
            nesting_closure(self.spec_project(), self.spec_project().sequence_ids(), id_set(r.sequences_analyzed@)),
            no_dups(r.sequences_analyzed@),
            used_ids(r.used_media@) == used_set(
                self.spec_project(),
                id_set(r.sequences_analyzed@),
                self.spec_include_all(),
            ),
            usage_wf(r.used_media@),
            id_set(r.unused_media@) == self.spec_project().media_ids().difference(used_ids(r.used_media@)),
            forall|k: int| 0 <= k < r.used_media@.len() ==> ranges_sound(
                self.spec_project(),
                id_set(r.sequences_analyzed@),
                self.spec_include_all(),
                self.spec_handle_ticks(),
                #[trigger] r.used_media@[k],
            ),
            sequences_within(r.used_media@, id_set(r.sequences_analyzed@)),
            no_dups(r.unused_media@),
            uses_recorded(self.spec_project(), id_set(r.sequences_analyzed@), self.spec_include_all(), self.spec_handle_ticks(), r.used_media@),
            ordered_reach(self.spec_project(), r.sequences_analyzed@, self.spec_project().sequence_ids()),
    {
        let mut ids: Vec<String> = Vec::new();
        let mut i: usize = 0;
        while i < self.project.sequences.len()
            invariant
                i <= self.project.sequences@.len(),
                ids@.len() == i,
                forall|j: int| 0 <= j < i ==> (#[trigger] ids@[j])@ == self.project.sequences@[j].object_id@,
            decreases self.project.sequences@.len() - i,
        {
            ids.push(self.project.sequences[i].object_id.clone());
            i = i + 1;
        }
        assert(id_set(ids@) =~= self.spec_project().sequence_ids()) by {
            assert forall|x: Seq<char>| id_set(ids@).contains(x) implies self.spec_project().sequence_ids().contains(x) by {
                let j = choose|j: int| 0 <= j < ids@.len() && (#[trigger] ids@[j])@ == x;
                assert(self.spec_project().sequences@[j].object_id@ == x);
            }
            assert forall|x: Seq<char>| self.spec_project().sequence_ids().contains(x) implies id_set(ids@).contains(x) by {
                let j = choose|j: int| 0 <= j < self.spec_project().sequences@.len() && #[trigger] self.spec_project().sequences@[j].object_id@ == x;
                assert(ids@[j]@ == x);
            }
        }
        self.analyze_sequences(&ids)
    }

    // -- invariants of the walk -------------------------------------------

    /// The facts that hold between calls of the walk.
    spec fn walk_inv(&self, used: Seq<MediaUsageInfo>, analyzed: Seq<String>, starts: Set<Seq<char>>) -> bool {
        &&& usage_wf(used)
        &&& no_dups(analyzed)
        &&& used_ids(used).subset_of(used_set(*self.project, id_set(analyzed), self.include_unused_multicam_angles))
        &&& forall|k: int| 0 <= k < used.len() ==> ranges_sound(*self.project, id_set(analyzed), self.include_unused_multicam_angles,
            self.spec_handle_ticks(), #[trigger] used[k])
        &&& sequences_within(used, id_set(analyzed))
        &&& ordered_reach(*self.project, analyzed, starts)
        &&& forall|x: Seq<char>| #[trigger] id_set(analyzed).contains(x) ==> starts.contains(x) || exists|i: int|
            0 <= i < self.project.sequences@.len() && id_set(analyzed).contains(self.project.sequences@[i].object_id@)
                && seq_nests(#[trigger] self.project.sequences@[i], x)
    }

    /// The sequence `x`, if the project has it, has had all its clips and
    /// nested sequences walked.
    spec fn done(&self, x: Seq<char>, used: Seq<MediaUsageInfo>, analyzed: Seq<String>) -> bool {
        forall|i: int| 0 <= i < self.project.sequences@.len() && #[trigger] self.project.sequences@[i].object_id@ == x
            ==> self.seq_done(self.project.sequences@[i], used, analyzed)
    }

    spec fn seq_done(&self, s: Sequence, used: Seq<MediaUsageInfo>, analyzed: Seq<String>) -> bool {
        &&& forall|m: Seq<char>| #[trigger] seq_uses(s, m, self.include_unused_multicam_angles) && self.project.media_ids().contains(m)
            ==> used_ids(used).contains(m)
        &&& forall|y: Seq<char>| #[trigger] seq_nests(s, y) ==> id_set(analyzed).contains(y)
        &&& forall|c: TrackClip| #[trigger] seq_has_clip(s, c) ==> self.clip_done(c, used, analyzed)
    }

    spec fn clip_done(&self, c: TrackClip, used: Seq<MediaUsageInfo>, analyzed: Seq<String>) -> bool {
        &&& forall|m: Seq<char>| #[trigger] clip_contributes(c, m, self.include_unused_multicam_angles) && self.project.media_ids().contains(m)
            ==> used_ids(used).contains(m) && recorded(*self.project, self.spec_handle_ticks(), used, m, c)
        &&& forall|y: Seq<char>| #[trigger] clip_nests(c, y) ==> id_set(analyzed).contains(y)
    }

    /// State `(u2, a2)` extends state `(u1, a1)`.
    spec fn grows(&self, u1: Seq<MediaUsageInfo>, a1: Seq<String>, u2: Seq<MediaUsageInfo>, a2: Seq<String>) -> bool {
        &&& used_ids(u1).subset_of(used_ids(u2))
        &&& id_set(a1).subset_of(id_set(a2))
        &&& entries_grow(u1, u2)
    }

    proof fn lemma_grows_trans(&self, u1: Seq<MediaUsageInfo>, a1: Seq<String>, u2: Seq<MediaUsageInfo>, a2: Seq<String>,
        u3: Seq<MediaUsageInfo>, a3: Seq<String>)
        requires
            self.grows(u1, a1, u2, a2),
            self.grows(u2, a2, u3, a3),
        ensures
            self.grows(u1, a1, u3, a3),
    {
        lemma_entries_grow_trans(u1, u2, u3);
    }

    /// Every identifier analyzed since state `a1` is done in state `(u2, a2)`.
    spec fn new_done(&self, a1: Seq<String>, u2: Seq<MediaUsageInfo>, a2: Seq<String>) -> bool {
        forall|x: Seq<char>| #[trigger] id_set(a2).contains(x) && !id_set(a1).contains(x) ==> self.done(x, u2, a2)
    }

    proof fn lemma_done_grows(&self, x: Seq<char>, u1: Seq<MediaUsageInfo>, a1: Seq<String>, u2: Seq<MediaUsageInfo>, a2: Seq<String>)
        requires
            self.done(x, u1, a1),
            self.grows(u1, a1, u2, a2),
        ensures
            self.done(x, u2, a2),
    {
        assert forall|i: int| 0 <= i < self.project.sequences@.len() && #[trigger] self.project.sequences@[i].object_id@ == x
            implies self.seq_done(self.project.sequences@[i], u2, a2) by {
            let s = self.project.sequences@[i];
            assert(self.seq_done(s, u1, a1));
            assert forall|c: TrackClip| #[trigger] seq_has_clip(s, c) implies self.clip_done(c, u2, a2) by {
                self.lemma_clip_done_grows(c, u1, a1, u2, a2);
            }
        }
    }

    proof fn lemma_inv_grows(&self, u1: Seq<MediaUsageInfo>, a1: Seq<String>, a2: Seq<String>, starts: Set<Seq<char>>)
        requires
            self.walk_inv(u1, a1, starts),
            id_set(a1).subset_of(id_set(a2)),
            ordered_reach(*self.project, a2, starts),
            no_dups(a2),
            forall|x: Seq<char>| #[trigger] id_set(a2).contains(x) && !id_set(a1).contains(x) ==> starts.contains(x) || exists|i: int|
                0 <= i < self.project.sequences@.len() && id_set(a2).contains(self.project.sequences@[i].object_id@)
                    && seq_nests(#[trigger] self.project.sequences@[i], x),
        ensures
            self.walk_inv(u1, a2, starts),
    {
        let p = *self.project;
        assert forall|k: int| 0 <= k < u1.len() implies ranges_sound(p, id_set(a2), self.include_unused_multicam_angles,
            self.spec_handle_ticks(), #[trigger] u1[k]) by {
            let e = u1[k];
            assert(ranges_sound(p, id_set(a1), self.include_unused_multicam_angles, self.spec_handle_ticks(), e));
            assert forall|j: int| #![trigger e.time_ranges@[j]] 0 <= j < e.time_ranges@.len() implies exists|i: int, c: TrackClip|
                0 <= i < p.sequences@.len() && id_set(a2).contains(p.sequences@[i].object_id@) && #[trigger] seq_has_clip(
                    p.sequences@[i],
                    c,
                ) && clip_contributes(c, e.object_id@, self.include_unused_multicam_angles) && handled_range(
                    e.time_ranges@[j],
                    c,
                    known_duration(p.media_files@, e.object_id@),
                    self.spec_handle_ticks(),
                ) by {
                let (i, c) = choose|i: int, c: TrackClip|
                    0 <= i < p.sequences@.len() && id_set(a1).contains(p.sequences@[i].object_id@) && #[trigger] seq_has_clip(
                        p.sequences@[i],
                        c,
                    ) && clip_contributes(c, e.object_id@, self.include_unused_multicam_angles) && handled_range(
                        e.time_ranges@[j],
                        c,
                        known_duration(p.media_files@, e.object_id@),
                        self.spec_handle_ticks(),
                    );
                assert(id_set(a2).contains(p.sequences@[i].object_id@));
            }
        }
        assert forall|m: Seq<char>| used_ids(u1).contains(m) implies used_set(p, id_set(a2), self.include_unused_multicam_angles).contains(m) by {
            assert(used_set(p, id_set(a1), self.include_unused_multicam_angles).contains(m));
            let i = choose|i: int|
                0 <= i < p.sequences@.len() && id_set(a1).contains(p.sequences@[i].object_id@)
                    && seq_uses(#[trigger] p.sequences@[i], m, self.include_unused_multicam_angles);
            assert(id_set(a2).contains(p.sequences@[i].object_id@));
        }
        assert forall|x: Seq<char>| #[trigger] id_set(a2).contains(x) implies starts.contains(x) || exists|i: int|
            0 <= i < p.sequences@.len() && id_set(a2).contains(p.sequences@[i].object_id@)
                && seq_nests(#[trigger] p.sequences@[i], x) by {
            if id_set(a1).contains(x) {
                if !starts.contains(x) {
                    let i = choose|i: int|
                        0 <= i < p.sequences@.len() && id_set(a1).contains(p.sequences@[i].object_id@)
                            && seq_nests(#[trigger] p.sequences@[i], x);
                    assert(id_set(a2).contains(p.sequences@[i].object_id@));
                }
            }
        }
    }

    proof fn lemma_closure(&self, used: Seq<MediaUsageInfo>, analyzed: Seq<String>, starts: Set<Seq<char>>)
        requires
            self.walk_inv(used, analyzed, starts),
            starts.subset_of(id_set(analyzed)),
            forall|x: Seq<char>| #[trigger] id_set(analyzed).contains(x) ==> self.done(x, used, analyzed),
        ensures
            nesting_closure(*self.project, starts, id_set(analyzed)),
            used_ids(used) == used_set(*self.project, id_set(analyzed), self.include_unused_multicam_angles),
            uses_recorded(*self.project, id_set(analyzed), self.include_unused_multicam_angles, self.spec_handle_ticks(), used),
    {
        assert forall|i: int, c: TrackClip, m: Seq<char>|
            0 <= i < self.project.sequences@.len() && id_set(analyzed).contains(self.project.sequences@[i].object_id@)
                && #[trigger] seq_has_clip(self.project.sequences@[i], c) && #[trigger] clip_contributes(c, m, self.include_unused_multicam_angles)
                && self.project.media_ids().contains(m) implies recorded(*self.project, self.spec_handle_ticks(), used, m, c) by {
            assert(self.done(self.project.sequences@[i].object_id@, used, analyzed));
            assert(self.clip_done(c, used, analyzed));
        }
        let p = *self.project;
        let a = id_set(analyzed);
        assert forall|i: int, x: Seq<char>|
            0 <= i < p.sequences@.len() && a.contains(p.sequences@[i].object_id@)
                && #[trigger] seq_nests(p.sequences@[i], x) implies a.contains(x) by {
            assert(self.done(p.sequences@[i].object_id@, used, analyzed));
        }
        assert forall|m: Seq<char>| used_set(p, a, self.include_unused_multicam_angles).contains(m) implies used_ids(used).contains(m) by {
            let i = choose|i: int|
                0 <= i < p.sequences@.len() && a.contains(p.sequences@[i].object_id@)
                    && seq_uses(#[trigger] p.sequences@[i], m, self.include_unused_multicam_angles);
            assert(self.done(p.sequences@[i].object_id@, used, analyzed));
        }
        assert(used_ids(used) =~= used_set(p, a, self.include_unused_multicam_angles));
    }

    // -- the walk --------------------------------------------------------------

    fn analyze_sequence_recursive(
        &self,
        sequence_id: &String,
        used_media: &mut Vec<MediaUsageInfo>,
        analyzed: &mut Vec<String>,
        Ghost(starts): Ghost<Set<Seq<char>>>,
        Ghost(budget): Ghost<int>,
    )
        requires
            self.wf(),
            self.spec_project().wf(),
            budget == pending(self.project.sequences@, id_set(old(analyzed)@)) * 3,
            self.walk_inv(old(used_media)@, old(analyzed)@, starts),
            starts.contains(sequence_id@) || exists|i: int|
                0 <= i < self.project.sequences@.len() && id_set(old(analyzed)@).contains(self.project.sequences@[i].object_id@)
                    && seq_nests(#[trigger] self.project.sequences@[i], sequence_id@),
        ensures
            self.walk_inv(final(used_media)@, final(analyzed)@, starts),
            self.grows(old(used_media)@, old(analyzed)@, final(used_media)@, final(analyzed)@),
            id_set(final(analyzed)@).contains(sequence_id@),
            self.new_done(old(analyzed)@, final(used_media)@, final(analyzed)@),
        decreases budget,
    {
        if contains_string(analyzed, sequence_id) {
            return;
        }
        let ghost a0 = analyzed@;
        let ghost u0 = used_media@;
        analyzed.push(sequence_id.clone());
        proof {
            lemma_push_id_set(a0, *sequence_id);
            let a = analyzed@;
            let p = *self.project;
            assert forall|j: int| 0 <= j < a.len() implies starts.contains(#[trigger] a[j]@) || exists|i: int, j2: int| #![trigger p.sequences@[i], a[j2]]
                0 <= i < p.sequences@.len() && 0 <= j2 < j && p.sequences@[i].object_id@ == a[j2]@ && seq_nests(
                    p.sequences@[i],
                    a[j]@,
                ) by {
                if j < a0.len() {
                    assert(a[j] == a0[j]);
                    if !starts.contains(a0[j]@) {
                        let (i, j2) = choose|i: int, j2: int| #![trigger p.sequences@[i], a0[j2]]
                            0 <= i < p.sequences@.len() && 0 <= j2 < j && p.sequences@[i].object_id@ == a0[j2]@ && seq_nests(
                                p.sequences@[i],
                                a0[j]@,
                            );
                        assert(a[j2] == a0[j2]);
                    }
                } else {
                    assert(a[j] == *sequence_id);
                    if !starts.contains(sequence_id@) {
                        let i = choose|i: int|
                            0 <= i < p.sequences@.len() && id_set(a0).contains(p.sequences@[i].object_id@)
                                && seq_nests(#[trigger] p.sequences@[i], sequence_id@);
                        let j2 = choose|j2: int| 0 <= j2 < a0.len() && (#[trigger] a0[j2])@ == p.sequences@[i].object_id@;
                        assert(a[j2] == a0[j2]);
                    }
                }
            }
            self.lemma_inv_grows(u0, a0, analyzed@, starts);
        }
        let ghost a1 = analyzed@;
        let project = self.project;
        let found = find_sequence(&project.sequences, sequence_id);
        if found.is_none() {
            // Not a sequence of the project: nothing to walk.
            return;
        }
        let k = found.unwrap();
        let ghost si = k as int;
        assert(project.sequences@[si].object_id@ == sequence_id@);
        proof {
            lemma_pending_drop(project.sequences@, id_set(a0), id_set(a1), si);
        }
        let sequence = &project.sequences[k];
        let ghost ua = used_media@;
        let ghost aa = analyzed@;
        let ghost next_budget = (pending(self.project.sequences@, id_set(analyzed@)) * 3 + 2) as int;
        self.analyze_tracks(&sequence.video_tracks, sequence_id, used_media, analyzed, Ghost(starts), Ghost(si), Ghost(a0),
            Ghost(next_budget));
        let ghost ub = used_media@;
        let ghost ab = analyzed@;
        proof {
            lemma_pending_monotone(self.project.sequences@, id_set(aa), id_set(ab));
        }
        let ghost next_budget = (pending(self.project.sequences@, id_set(analyzed@)) * 3 + 2) as int;
        self.analyze_tracks(&sequence.audio_tracks, sequence_id, used_media, analyzed, Ghost(starts), Ghost(si), Ghost(a0),
            Ghost(next_budget));
        proof {
            self.lemma_grows_trans(ua, aa, ub, ab, used_media@, analyzed@);
            assert forall|c: TrackClip| #[trigger] seq_has_clip(*sequence, c) implies self.clip_done(c, used_media@, analyzed@) by {
                if track_has_clip(sequence.video_tracks@, c) {
                    self.lemma_clip_done_grows(c, ub, ab, used_media@, analyzed@);
                }
            }
            assert forall|m: Seq<char>| #[trigger] seq_uses(*sequence, m, self.include_unused_multicam_angles)
                && self.project.media_ids().contains(m) implies used_ids(used_media@).contains(m) by {
                let c = choose|c: TrackClip| #[trigger] seq_has_clip(*sequence, c) && clip_contributes(c, m, self.include_unused_multicam_angles);
                assert(self.clip_done(c, used_media@, analyzed@));
            }
        }
        let mut n: usize = 0;
        while n < sequence.nested_sequences.len()
            invariant
                self.wf(),
                self.spec_project().wf(),
                *sequence == self.project.sequences@[si],
                0 <= si < self.project.sequences@.len(),
                sequence.object_id@ == sequence_id@,
                id_set(analyzed@).contains(sequence_id@),
                budget == pending(self.project.sequences@, id_set(a0)) * 3,
                n <= sequence.nested_sequences@.len(),
                self.walk_inv(used_media@, analyzed@, starts),
                self.grows(u0, a1, used_media@, analyzed@),
                pending(self.project.sequences@, id_set(analyzed@)) < pending(self.project.sequences@, id_set(a0)),
                self.new_done_except(a0, sequence_id@, used_media@, analyzed@),
                forall|m: Seq<char>| #[trigger] seq_uses(*sequence, m, self.include_unused_multicam_angles) && self.project.media_ids().contains(m)
                    ==> used_ids(used_media@).contains(m),
                forall|c: TrackClip| #[trigger] seq_has_clip(*sequence, c) ==> self.clip_done(c, used_media@, analyzed@),
                forall|j: int| 0 <= j < n ==> id_set(analyzed@).contains((#[trigger] sequence.nested_sequences@[j])@),
            decreases sequence.nested_sequences@.len() - n,
        {
            let ghost ub = used_media@;
            let ghost ab = analyzed@;
            assert(seq_nests(self.project.sequences@[si], sequence.nested_sequences@[n as int]@));
            proof {
                lemma_pending_monotone(self.project.sequences@, id_set(a1), id_set(ab));
            }
            let ghost next_budget = (pending(self.project.sequences@, id_set(analyzed@)) * 3) as int;
            self.analyze_sequence_recursive(&sequence.nested_sequences[n], used_media, analyzed, Ghost(starts),
                Ghost(next_budget));
            proof {
                self.lemma_step_done(a0, sequence_id@, ub, ab, used_media@, analyzed@);
                lemma_pending_monotone(self.project.sequences@, id_set(ab), id_set(analyzed@));
                self.lemma_grows_trans(u0, a1, ub, ab, used_media@, analyzed@);
                assert forall|c: TrackClip| #[trigger] seq_has_clip(*sequence, c) implies self.clip_done(c, used_media@, analyzed@) by {
                    self.lemma_clip_done_grows(c, ub, ab, used_media@, analyzed@);
                }
            }
            n = n + 1;
        }
        proof {
            assert(self.seq_done(*sequence, used_media@, analyzed@)) by {
                assert forall|y: Seq<char>| #[trigger] seq_nests(*sequence, y) implies id_set(analyzed@).contains(y) by {
                    if exists|c: TrackClip| #[trigger] seq_has_clip(*sequence, c) && clip_nests(c, y) {
                        let c = choose|c: TrackClip| #[trigger] seq_has_clip(*sequence, c) && clip_nests(c, y);
                        assert(self.clip_done(c, used_media@, analyzed@));
                    }
                }
            }
            assert(self.new_done(a0, used_media@, analyzed@)) by {
                assert forall|x: Seq<char>| #[trigger] id_set(analyzed@).contains(x) && !id_set(a0).contains(x) implies self.done(x, used_media@, analyzed@) by {
                    if x == sequence_id@ {
                        assert forall|i: int| 0 <= i < self.project.sequences@.len() && #[trigger] self.project.sequences@[i].object_id@ == x
                            implies self.seq_done(self.project.sequences@[i], used_media@, analyzed@) by {
                            if i != si {
                                assert(self.project.sequences@[i].object_id@ != self.project.sequences@[si].object_id@);
                            }
                        }
                    }
                }
            }
        }
    }

    /// Every identifier analyzed since `a0`, other than `x`, is done.
    spec fn new_done_except(&self, a0: Seq<String>, x: Seq<char>, u: Seq<MediaUsageInfo>, a: Seq<String>) -> bool {
        forall|y: Seq<char>| #[trigger] id_set(a).contains(y) && !id_set(a0).contains(y) && y != x ==> self.done(y, u, a)
    }

    proof fn lemma_step_done(&self, a0: Seq<String>, x: Seq<char>, ub: Seq<MediaUsageInfo>, ab: Seq<String>, u: Seq<MediaUsageInfo>, a: Seq<String>)
        requires
            self.new_done_except(a0, x, ub, ab),
            self.new_done(ab, u, a),
            self.grows(ub, ab, u, a),
        ensures
            self.new_done_except(a0, x, u, a),
    {
        assert forall|y: Seq<char>| #[trigger] id_set(a).contains(y) && !id_set(a0).contains(y) && y != x implies self.done(y, u, a) by {
            if id_set(ab).contains(y) {
                self.lemma_done_grows(y, ub, ab, u, a);
            }
        }
    }

    proof fn lemma_clip_done_grows(&self, c: TrackClip, u1: Seq<MediaUsageInfo>, a1: Seq<String>, u2: Seq<MediaUsageInfo>, a2: Seq<String>)
        requires
            self.clip_done(c, u1, a1),
            self.grows(u1, a1, u2, a2),
        ensures
            self.clip_done(c, u2, a2),
    {
        assert forall|m: Seq<char>| #[trigger] clip_contributes(c, m, self.include_unused_multicam_angles) && self.project.media_ids().contains(m)
            implies used_ids(u2).contains(m) && recorded(*self.project, self.spec_handle_ticks(), u2, m, c) by {
            lemma_recorded_grows(*self.project, self.spec_handle_ticks(), u1, u2, m, c);
        }
    }

    fn analyze_tracks(
        &self,
        tracks: &Vec<Track>,
        sequence_id: &String,
        used_media: &mut Vec<MediaUsageInfo>,
        analyzed: &mut Vec<String>,
        Ghost(starts): Ghost<Set<Seq<char>>>,
        Ghost(si): Ghost<int>,
        Ghost(a0): Ghost<Seq<String>>,
        Ghost(budget): Ghost<int>,
    )
        requires
            budget == pending(self.project.sequences@, id_set(old(analyzed)@)) * 3 + 2,
            self.wf(),
            self.spec_project().wf(),
            0 <= si < self.project.sequences@.len(),
            self.project.sequences@[si].object_id@ == sequence_id@,
            tracks@ == self.project.sequences@[si].video_tracks@ || tracks@ == self.project.sequences@[si].audio_tracks@,
            id_set(old(analyzed)@).contains(sequence_id@),
            self.walk_inv(old(used_media)@, old(analyzed)@, starts),
            pending(self.project.sequences@, id_set(old(analyzed)@)) < pending(self.project.sequences@, id_set(a0)),
            self.new_done_except(a0, sequence_id@, old(used_media)@, old(analyzed)@),
        ensures
            self.walk_inv(final(used_media)@, final(analyzed)@, starts),
            self.grows(old(used_media)@, old(analyzed)@, final(used_media)@, final(analyzed)@),
            pending(self.project.sequences@, id_set(final(analyzed)@)) < pending(self.project.sequences@, id_set(a0)),
            self.new_done_except(a0, sequence_id@, final(used_media)@, final(analyzed)@),
            forall|c: TrackClip| #[trigger] track_has_clip(tracks@, c) ==> self.clip_done(c, final(used_media)@, final(analyzed)@),
        decreases budget,
    {
        let ghost u_in = used_media@;
        let ghost a_in = analyzed@;
        let mut t: usize = 0;
        while t < tracks.len()
            invariant
                self.wf(),
                self.spec_project().wf(),
                0 <= si < self.project.sequences@.len(),
                self.project.sequences@[si].object_id@ == sequence_id@,
                tracks@ == self.project.sequences@[si].video_tracks@ || tracks@ == self.project.sequences@[si].audio_tracks@,
                t <= tracks@.len(),
                budget == pending(self.project.sequences@, id_set(a_in)) * 3 + 2,
                id_set(analyzed@).contains(sequence_id@),
                self.walk_inv(used_media@, analyzed@, starts),
                self.grows(u_in, a_in, used_media@, analyzed@),
                pending(self.project.sequences@, id_set(analyzed@)) < pending(self.project.sequences@, id_set(a0)),
                self.new_done_except(a0, sequence_id@, used_media@, analyzed@),
                forall|t2: int, k2: int| 0 <= t2 < t && 0 <= k2 < tracks@[t2].clips@.len()
                    ==> self.clip_done(#[trigger] tracks@[t2].clips@[k2], used_media@, analyzed@),
            decreases tracks@.len() - t,
        {
            let track = &tracks[t];
            let mut k: usize = 0;
            while k < track.clips.len()
                invariant
                    self.wf(),
                    self.spec_project().wf(),
                    0 <= si < self.project.sequences@.len(),
                    self.project.sequences@[si].object_id@ == sequence_id@,
                    tracks@ == self.project.sequences@[si].video_tracks@ || tracks@ == self.project.sequences@[si].audio_tracks@,
                    t < tracks@.len(),
                    *track == tracks@[t as int],
                    k <= track.clips@.len(),
                    budget == pending(self.project.sequences@, id_set(a_in)) * 3 + 2,
                    id_set(analyzed@).contains(sequence_id@),
                    self.walk_inv(used_media@, analyzed@, starts),
                    self.grows(u_in, a_in, used_media@, analyzed@),
                    pending(self.project.sequences@, id_set(analyzed@)) < pending(self.project.sequences@, id_set(a0)),
                    self.new_done_except(a0, sequence_id@, used_media@, analyzed@),
                    forall|t2: int, k2: int| 0 <= t2 < t && 0 <= k2 < tracks@[t2].clips@.len()
                        ==> self.clip_done(#[trigger] tracks@[t2].clips@[k2], used_media@, analyzed@),
                    forall|k2: int| 0 <= k2 < k ==> self.clip_done(#[trigger] track.clips@[k2], used_media@, analyzed@),
                decreases track.clips@.len() - k,
            {
                let ghost ub = used_media@;
                let ghost ab = analyzed@;
                proof {
                    lemma_pending_monotone(self.project.sequences@, id_set(a_in), id_set(ab));
                    let c = track.clips@[k as int];
                    assert(tracks@[t as int].clips@[k as int] == c);
                    assert(track_has_clip(tracks@, c));
                    assert(seq_has_clip(self.project.sequences@[si], c));
                }
                let ghost next_budget = (pending(self.project.sequences@, id_set(analyzed@)) * 3 + 1) as int;
                self.analyze_clip(&track.clips[k], sequence_id, used_media, analyzed, Ghost(starts), Ghost(si),
                    Ghost(next_budget));
                proof {
                    self.lemma_step_done(a0, sequence_id@, ub, ab, used_media@, analyzed@);
                    lemma_pending_monotone(self.project.sequences@, id_set(ab), id_set(analyzed@));
                    self.lemma_grows_trans(u_in, a_in, ub, ab, used_media@, analyzed@);
                    assert forall|t2: int, k2: int| 0 <= t2 < t && 0 <= k2 < tracks@[t2].clips@.len()
                        implies self.clip_done(#[trigger] tracks@[t2].clips@[k2], used_media@, analyzed@) by {
                        self.lemma_clip_done_grows(tracks@[t2].clips@[k2], ub, ab, used_media@, analyzed@);
                    }
                    assert forall|k2: int| 0 <= k2 < k + 1 implies self.clip_done(#[trigger] track.clips@[k2], used_media@, analyzed@) by {
                        if k2 < k {
                            self.lemma_clip_done_grows(track.clips@[k2], ub, ab, used_media@, analyzed@);
                        }
                    }
                }
                k = k + 1;
            }
            assert forall|t2: int, k2: int| 0 <= t2 < t + 1 && 0 <= k2 < tracks@[t2].clips@.len()
                implies self.clip_done(#[trigger] tracks@[t2].clips@[k2], used_media@, analyzed@) by {
                if t2 == t {
                    assert(tracks@[t2].clips@[k2] == track.clips@[k2]);
                }
            }
            t = t + 1;
        }
        assert forall|c: TrackClip| #[trigger] track_has_clip(tracks@, c) implies self.clip_done(c, used_media@, analyzed@) by {
            let (t2, k2) = choose|t2: int, k2: int|
                0 <= t2 < tracks@.len() && 0 <= k2 < tracks@[t2].clips@.len() && #[trigger] tracks@[t2].clips@[k2] == c;
            assert(self.clip_done(tracks@[t2].clips@[k2], used_media@, analyzed@));
        }
    }

    /// After media `m` of `clip` in sequence `si` is recorded, the used media
    /// are still all justified.
    proof fn lemma_add_sound(&self, u1: Seq<MediaUsageInfo>, u2: Seq<MediaUsageInfo>, a: Seq<String>, starts: Set<Seq<char>>,
        si: int, clip: TrackClip, m: Seq<char>, seq_id: Seq<char>)
        requires
            self.walk_inv(u1, a, starts),
            usage_wf(u2),
            used_ids(u2) == used_ids(u1).insert(m),
            0 <= si < self.project.sequences@.len(),
            id_set(a).contains(self.project.sequences@[si].object_id@),
            seq_has_clip(self.project.sequences@[si], clip),
            clip_contributes(clip, m, self.include_unused_multicam_angles),
            self.project.media_ids().contains(m),
            u2.len() >= u1.len(),
            forall|k: int| 0 <= k < u1.len() ==> u2[k].object_id == u1[k].object_id,
            forall|k: int| 0 <= k < u1.len() && u1[k].object_id@ != m ==> u2[k] == u1[k],
            forall|k: int| 0 <= k < u2.len() && u2[k].object_id@ == m ==> ({
                let e = u2[k];
                &&& e.time_ranges@.len() > 0
                &&& e.time_ranges@.drop_last() == if k < u1.len() {
                    u1[k].time_ranges@
                } else {
                    Seq::<TimeRange>::empty()
                }
                &&& handled_range(e.time_ranges@.last(), clip, known_duration(self.project.media_files@, m), self.spec_handle_ticks())
            }),
            forall|k: int| u1.len() <= k < u2.len() ==> u2[k].object_id@ == m,
            id_set(a).contains(seq_id),
            forall|k: int| 0 <= k < u2.len() && u2[k].object_id@ == m ==> id_set(u2[k].used_in_sequences@).subset_of(
                if k < u1.len() {
                    id_set(u1[k].used_in_sequences@)
                } else {
                    Set::empty()
                }.insert(seq_id),
            ),
        ensures
            self.walk_inv(u2, a, starts),
            used_ids(u1).subset_of(used_ids(u2)),
            used_ids(u2).contains(m),
    {
        let p = *self.project;
        let inc = self.include_unused_multicam_angles;
        let h = self.spec_handle_ticks();
        assert forall|k: int, j: int|
            0 <= k < u2.len() && 0 <= j < u2[k].used_in_sequences@.len() implies id_set(a).contains(
                (#[trigger] u2[k].used_in_sequences@[j])@,
            ) by {
            let x = u2[k].used_in_sequences@[j]@;
            assert(id_set(u2[k].used_in_sequences@).contains(x));
            if u2[k].object_id@ != m {
                assert(k < u1.len());
                assert(u2[k] == u1[k]);
            } else if x != seq_id && k < u1.len() {
                let jj = choose|jj: int| 0 <= jj < u1[k].used_in_sequences@.len() && (#[trigger] u1[k].used_in_sequences@[jj])@ == x;
                assert(id_set(a).contains(u1[k].used_in_sequences@[jj]@));
            }
        }
        assert(seq_uses(p.sequences@[si], m, inc));
        assert(used_set(p, id_set(a), inc).contains(m));
        assert forall|k: int| 0 <= k < u2.len() implies ranges_sound(p, id_set(a), inc, h, #[trigger] u2[k]) by {
            let e = u2[k];
            if e.object_id@ != m {
                assert(k < u1.len());
                assert(u2[k] == u1[k]);
            } else {
                let n = e.time_ranges@.len();
                assert forall|j: int| #![trigger e.time_ranges@[j]] 0 <= j < n implies exists|i: int, c: TrackClip|
                    0 <= i < p.sequences@.len() && id_set(a).contains(p.sequences@[i].object_id@) && #[trigger] seq_has_clip(
                        p.sequences@[i],
                        c,
                    ) && clip_contributes(c, e.object_id@, inc) && handled_range(
                        e.time_ranges@[j],
                        c,
                        known_duration(p.media_files@, e.object_id@),
                        h,
                    ) by {
                    if j == n - 1 {
                        assert(e.time_ranges@[j] == e.time_ranges@.last());
                        assert(seq_has_clip(p.sequences@[si], clip));
                    } else {
                        assert(e.time_ranges@.drop_last().len() == n - 1);
                        assert(k < u1.len());
                        let old_e = u1[k];
                        assert(e.time_ranges@[j] == e.time_ranges@.drop_last()[j]);
                        assert(old_e.time_ranges@[j] == e.time_ranges@[j]);
                        assert(old_e.object_id == e.object_id);
                        assert(ranges_sound(p, id_set(a), inc, h, old_e));
                    }
                }
            }
        }
    }

    /// Records one use of media `media_id` by `clip` when the project has a
    /// media file with that identifier; a reference to no media file is
    /// skipped.
    fn record_usage(
        &self,
        media_id: &String,
        clip: &TrackClip,
        sequence_id: &String,
        used_media: &mut Vec<MediaUsageInfo>,
        is_multicam: bool,
        is_merged: bool,
        Ghost(analyzed): Ghost<Seq<String>>,
        Ghost(starts): Ghost<Set<Seq<char>>>,
        Ghost(si): Ghost<int>,
    )
        requires
            self.wf(),
            self.walk_inv(old(used_media)@, analyzed, starts),
            0 <= si < self.project.sequences@.len(),
            id_set(analyzed).contains(self.project.sequences@[si].object_id@),
            seq_has_clip(self.project.sequences@[si], *clip),
            clip_contributes(*clip, media_id@, self.include_unused_multicam_angles),
            sequence_id@ == self.project.sequences@[si].object_id@,
            is_multicam == (clip.clip_type is Multicam),
        ensures
            self.walk_inv(final(used_media)@, analyzed, starts),
            used_ids(old(used_media)@).subset_of(used_ids(final(used_media)@)),
            entries_grow(old(used_media)@, final(used_media)@),
            self.project.media_ids().contains(media_id@) ==> used_ids(final(used_media)@).contains(media_id@)
                && recorded(*self.project, self.spec_handle_ticks(), final(used_media)@, media_id@, *clip),
    {
        if media_known(self.project, media_id) {
            let ghost ub = used_media@;
            self.add_media_usage(media_id, clip, sequence_id, used_media, is_multicam, is_merged);
            proof {
                self.lemma_add_sound(ub, used_media@, analyzed, starts, si, *clip, media_id@, sequence_id@);
                let u = used_media@;
                assert forall|k: int| #![trigger u[k]] 0 <= k < ub.len() implies u[k].object_id == ub[k].object_id && ub[k].time_ranges@.len()
                    <= u[k].time_ranges@.len() && (forall|j: int| 0 <= j < ub[k].time_ranges@.len() ==> #[trigger] u[k].time_ranges@[j]
                    == ub[k].time_ranges@[j]) && (ub[k].is_multicam_angle ==> u[k].is_multicam_angle) by {
                    if ub[k].object_id@ == media_id@ {
                        assert(u[k].object_id@ == media_id@);
                        assert forall|j: int| 0 <= j < ub[k].time_ranges@.len() implies #[trigger] u[k].time_ranges@[j] == ub[k].time_ranges@[j] by {
                            assert(u[k].time_ranges@.drop_last()[j] == u[k].time_ranges@[j]);
                        }
                    }
                }
                let k = choose|k: int| 0 <= k < u.len() && (#[trigger] u[k]).object_id@ == media_id@;
                let j = u[k].time_ranges@.len() - 1;
                assert(u[k].time_ranges@[j] == u[k].time_ranges@.last());
                assert(recorded(*self.project, self.spec_handle_ticks(), u, media_id@, *clip));
            }
        }
    }

    fn analyze_clip(
        &self,
        clip: &TrackClip,
        sequence_id: &String,
        used_media: &mut Vec<MediaUsageInfo>,
        analyzed: &mut Vec<String>,
        Ghost(starts): Ghost<Set<Seq<char>>>,
        Ghost(si): Ghost<int>,
        Ghost(budget): Ghost<int>,
    )
        requires
            budget == pending(self.project.sequences@, id_set(old(analyzed)@)) * 3 + 1,
            self.wf(),
            self.spec_project().wf(),
            0 <= si < self.project.sequences@.len(),
            self.project.sequences@[si].object_id@ == sequence_id@,
            seq_has_clip(self.project.sequences@[si], *clip),
            id_set(old(analyzed)@).contains(sequence_id@),
            self.walk_inv(old(used_media)@, old(analyzed)@, starts),
        ensures
            self.walk_inv(final(used_media)@, final(analyzed)@, starts),
            self.grows(old(used_media)@, old(analyzed)@, final(used_media)@, final(analyzed)@),
            self.clip_done(*clip, final(used_media)@, final(analyzed)@),
            self.new_done(old(analyzed)@, final(used_media)@, final(analyzed)@),
        decreases budget,
    {
        let ghost u0 = used_media@;
        proof {
            lemma_entries_grow_refl(u0);
        }
        match &clip.clip_type {
            ClipType::Standard => {
                if let Some(media_ref) = &clip.media_ref {
                    self.record_usage(media_ref, clip, sequence_id, used_media, false, false, Ghost(analyzed@), Ghost(starts), Ghost(si));
                }
            },
            ClipType::Subclip { parent_id } => {
                self.record_usage(parent_id, clip, sequence_id, used_media, false, false, Ghost(analyzed@), Ghost(starts), Ghost(si));
            },
            ClipType::MergedClip { components } => {
                let mut i: usize = 0;
                while i < components.len()
                    invariant
                        self.wf(),
                        clip.clip_type == (ClipType::MergedClip { components: *components }),
                        0 <= si < self.project.sequences@.len(),
                        seq_has_clip(self.project.sequences@[si], *clip),
                        id_set(analyzed@).contains(self.project.sequences@[si].object_id@),
                        sequence_id@ == self.project.sequences@[si].object_id@,
                        i <= components@.len(),
                        self.walk_inv(used_media@, analyzed@, starts),
                        used_ids(u0).subset_of(used_ids(used_media@)),
                        entries_grow(u0, used_media@),
                        forall|j: int| 0 <= j < i && self.project.media_ids().contains((#[trigger] components@[j])@)
                            ==> used_ids(used_media@).contains(components@[j]@) && recorded(*self.project, self.spec_handle_ticks(), used_media@, components@[j]@, *clip),
                        i > 0 && clip.media_ref.is_some() && self.project.media_ids().contains(clip.media_ref.unwrap()@)
                            ==> used_ids(used_media@).contains(clip.media_ref.unwrap()@) && recorded(*self.project, self.spec_handle_ticks(), used_media@, clip.media_ref.unwrap()@, *clip),
                    decreases components@.len() - i,
                {
                    let ghost ub = used_media@;
                    if let Some(media_ref) = &clip.media_ref {
                        self.record_usage(media_ref, clip, sequence_id, used_media, false, true, Ghost(analyzed@), Ghost(starts), Ghost(si));
                    }
                    proof {
                        lemma_component_contributes(*clip, i as int, self.include_unused_multicam_angles);
                    }
                    let ghost um = used_media@;
                    self.record_usage(&components[i], clip, sequence_id, used_media, false, true, Ghost(analyzed@), Ghost(starts), Ghost(si));
                    proof {
                        lemma_entries_grow_refl(ub);
                        if clip.media_ref.is_none() {
                            assert(um == ub);
                        }
                        lemma_entries_grow_trans(ub, um, used_media@);
                        lemma_entries_grow_trans(u0, ub, used_media@);
                        let h = self.spec_handle_ticks();
                        assert forall|j: int| 0 <= j < i + 1 && self.project.media_ids().contains((#[trigger] components@[j])@)
                            implies used_ids(used_media@).contains(components@[j]@) && recorded(*self.project, h, used_media@, components@[j]@, *clip) by {
                            if j < i {
                                lemma_recorded_grows(*self.project, h, ub, used_media@, components@[j]@, *clip);
                            }
                        }
                        if clip.media_ref.is_some() && self.project.media_ids().contains(clip.media_ref.unwrap()@) {
                            lemma_recorded_grows(*self.project, h, um, used_media@, clip.media_ref.unwrap()@, *clip);
                        }
                    }
                    i = i + 1;
                }
            },
            ClipType::Multicam { angles } => {
                let mut i: usize = 0;
                while i < angles.len()
                    invariant
                        self.wf(),
                        clip.clip_type == (ClipType::Multicam { angles: *angles }),
                        0 <= si < self.project.sequences@.len(),
                        seq_has_clip(self.project.sequences@[si], *clip),
                        id_set(analyzed@).contains(self.project.sequences@[si].object_id@),
                        sequence_id@ == self.project.sequences@[si].object_id@,
                        i <= angles@.len(),
                        self.walk_inv(used_media@, analyzed@, starts),
                        used_ids(u0).subset_of(used_ids(used_media@)),
                        entries_grow(u0, used_media@),
                        forall|j: int| 0 <= j < i && ((#[trigger] angles@[j]).is_active || self.include_unused_multicam_angles)
                            && self.project.media_ids().contains(angles@[j].media_ref@)
                            ==> used_ids(used_media@).contains(angles@[j].media_ref@) && recorded(*self.project, self.spec_handle_ticks(), used_media@, angles@[j].media_ref@, *clip),
                    decreases angles@.len() - i,
                {
                    let angle = &angles[i];
                    if angle.is_active || self.include_unused_multicam_angles {
                        proof {
                            assert(*angle == angles@[i as int]);
                            lemma_angle_contributes(*clip, i as int, self.include_unused_multicam_angles);
                        }
                        let ghost ub = used_media@;
                        self.record_usage(&angle.media_ref, clip, sequence_id, used_media, true, false, Ghost(analyzed@), Ghost(starts), Ghost(si));
                        proof {
                            lemma_entries_grow_trans(u0, ub, used_media@);
                            let h = self.spec_handle_ticks();
                            assert forall|j: int| 0 <= j < i && ((#[trigger] angles@[j]).is_active || self.include_unused_multicam_angles)
                                && self.project.media_ids().contains(angles@[j].media_ref@)
                                implies used_ids(used_media@).contains(angles@[j].media_ref@) && recorded(*self.project, h, used_media@, angles@[j].media_ref@, *clip) by {
                                lemma_recorded_grows(*self.project, h, ub, used_media@, angles@[j].media_ref@, *clip);
                            }
                        }
                    }
                    i = i + 1;
                }
            },
            ClipType::Nested { sequence_id: nested_id } => {
                proof {
                    assert(clip_nests(*clip, nested_id@));
                    assert(seq_nests(self.project.sequences@[si], nested_id@));
                }
                let ghost next_budget = (pending(self.project.sequences@, id_set(analyzed@)) * 3) as int;
                self.analyze_sequence_recursive(nested_id, used_media, analyzed, Ghost(starts),
                    Ghost(next_budget));
            },
            ClipType::Adjustment => {},
        }
    }

    /// Length of media `media_id` in ticks, or `i64::MAX` when unknown.
    fn media_duration(&self, media_id: &String) -> (d: i64)
        ensures
            d > 0,
            d == known_duration(self.project.media_files@, media_id@),
    {
        let files = &self.project.media_files;
        let mut i: usize = 0;
        assert(files@.subrange(0, files@.len() as int) =~= files@);
        while i < files.len()
            invariant
                i <= files@.len(),
                *files == self.project.media_files,
                known_duration(files@, media_id@) == known_duration(files@.subrange(i as int, files@.len() as int), media_id@),
            decreases files@.len() - i,
        {
            let ghost rest = files@.subrange(i as int, files@.len() as int);
            assert(rest[0] == files@[i as int]);
            assert(rest.drop_first() =~= files@.subrange(i + 1, files@.len() as int));
            if str_eq(files[i].object_id.as_str(), media_id.as_str()) {
                if files[i].duration_ticks > 0 {
                    return files[i].duration_ticks;
                } else {
                    return i64::MAX;
                }
            }
            i = i + 1;
        }
        assert(files@.subrange(files@.len() as int, files@.len() as int).len() == 0);
        i64::MAX
    }

    /// Ticks of handle on each side of a used span.
    pub open spec fn spec_handle_ticks(&self) -> int {
        self.spec_handle_frames() * HANDLE_TICKS_PER_FRAME
    }

    /// Records one use of media `media_id` by `clip` of sequence `sequence_id`.
    fn add_media_usage(
        &self,
        media_id: &String,
        clip: &TrackClip,
        sequence_id: &String,
        used_media: &mut Vec<MediaUsageInfo>,
        is_multicam: bool,
        is_merged: bool,
    )
        requires
            self.wf(),
            usage_wf(old(used_media)@),
        ensures
            usage_wf(final(used_media)@),
            used_ids(final(used_media)@) == used_ids(old(used_media)@).insert(media_id@),
            final(used_media)@.len() >= old(used_media)@.len(),
            forall|k: int| 0 <= k < old(used_media)@.len() ==> final(used_media)@[k].object_id == old(used_media)@[k].object_id,
            forall|k: int| 0 <= k < old(used_media)@.len() && old(used_media)@[k].object_id@ != media_id@
                ==> final(used_media)@[k] == old(used_media)@[k],
            forall|k: int| 0 <= k < final(used_media)@.len() && final(used_media)@[k].object_id@ == media_id@ ==> ({
                let e = final(used_media)@[k];
                &&& e.time_ranges@.len() > 0
                &&& e.time_ranges@.drop_last() == if k < old(used_media)@.len() {
                    old(used_media)@[k].time_ranges@
                } else {
                    Seq::<TimeRange>::empty()
                }
                &&& handled_range(e.time_ranges@.last(), *clip, known_duration(self.project.media_files@, media_id@), self.spec_handle_ticks())
            }),
            forall|k: int| old(used_media)@.len() <= k < final(used_media)@.len() ==> final(used_media)@[k].object_id@ == media_id@,
            forall|k: int| 0 <= k < final(used_media)@.len() && final(used_media)@[k].object_id@ == media_id@ ==> (is_multicam
                ==> final(used_media)@[k].is_multicam_angle) && (k < old(used_media)@.len() && old(used_media)@[k].is_multicam_angle
                ==> final(used_media)@[k].is_multicam_angle),
            forall|k: int| 0 <= k < final(used_media)@.len() && final(used_media)@[k].object_id@ == media_id@ ==> id_set(
                final(used_media)@[k].used_in_sequences@,
            ).subset_of(
                if k < old(used_media)@.len() {
                    id_set(old(used_media)@[k].used_in_sequences@)
                } else {
                    Set::empty()
                }.insert(sequence_id@),
            ),
    {
        let range = TimeRange::new(clip.in_point_ticks, clip.out_point_ticks);
        let max_duration = self.media_duration(media_id);
        assert(0 <= self.handle_frames * HANDLE_TICKS_PER_FRAME <= i64::MAX) by (nonlinear_arith)
            requires
                0 <= self.handle_frames <= MAX_HANDLE_FRAMES,
        ;
        let handle_ticks = self.handle_frames * HANDLE_TICKS_PER_FRAME;
        let r = range.with_handles(handle_ticks, max_duration);
        let ghost u0 = used_media@;
        let found = find_used(used_media, media_id);
        if found.is_some() {
            let j = found.unwrap();
            let mut info = used_media.remove(j);
            let ghost old_info = info;
            let ghost old_ranges = info.time_ranges@;
            info.time_ranges.push(r);
            info.usage_count = info.time_ranges.len();
            let m = info.merged_range;
            info.merged_range = TimeRange {
                start_ticks: if m.start_ticks <= r.start_ticks { m.start_ticks } else { r.start_ticks },
                end_ticks: if m.end_ticks >= r.end_ticks { m.end_ticks } else { r.end_ticks },
            };
            let ghost old_seqs = info.used_in_sequences@;
            if !contains_string(&info.used_in_sequences, sequence_id) {
                info.used_in_sequences.push(sequence_id.clone());
                proof {
                    lemma_push_id_set(old_seqs, *sequence_id);
                    assert forall|a: int, b: int| 0 <= a < b < info.used_in_sequences@.len() implies info.used_in_sequences@[a]@
                        != info.used_in_sequences@[b]@ by {
                        if b == old_seqs.len() {
                            assert(info.used_in_sequences@[a] == old_seqs[a]);
                            assert(id_set(old_seqs).contains(old_seqs[a]@));
                        } else {
                            assert(info.used_in_sequences@[a] == old_seqs[a]);
                            assert(info.used_in_sequences@[b] == old_seqs[b]);
                        }
                    }
                }
            }
            assert(id_set(info.used_in_sequences@).subset_of(id_set(old_seqs).insert(sequence_id@)));
            info.is_multicam_angle = info.is_multicam_angle || is_multicam;
            info.is_merged_component = info.is_merged_component || is_merged;
            proof {
                assert(info.time_ranges@.drop_last() =~= old_ranges);
                assert forall|i: int| 0 <= i < info.time_ranges@.len() implies (#[trigger] info.time_ranges@[i]).start_ticks >= 0 by {
                    if i < old_ranges.len() {
                        assert(info.time_ranges@[i] == old_ranges[i]);
                    }
                }
                assert(all_wf(info.time_ranges@)) by {
                    assert forall|i: int| 0 <= i < info.time_ranges@.len() implies #[trigger] info.time_ranges@[i].wf() by {
                        if i < old_ranges.len() {
                            assert(info.time_ranges@[i] == old_ranges[i]);
                        }
                    }
                }
            }
            used_media.insert(j, info);
            proof {
                let u1 = used_media@;
                assert(u1 =~= u0.update(j as int, info));
                assert forall|x| used_ids(u1).contains(x) <==> used_ids(u0).insert(media_id@).contains(x) by {
                    if used_ids(u1).contains(x) {
                        let i = choose|i: int| 0 <= i < u1.len() && (#[trigger] u1[i]).object_id@ == x;
                        if i != j {
                            assert(u0[i] == u1[i]);
                        }
                    }
                    if used_ids(u0).contains(x) {
                        let i = choose|i: int| 0 <= i < u0.len() && (#[trigger] u0[i]).object_id@ == x;
                        if i != j {
                            assert(u0[i] == u1[i]);
                        } else {
                            assert(u1[i].object_id@ == x);
                        }
                    }
                    if x == media_id@ {
                        assert(u1[j as int].object_id@ == x);
                    }
                }
                assert(used_ids(u1) =~= used_ids(u0).insert(media_id@));
            }
        } else {
            let info = MediaUsageInfo {
                object_id: media_id.clone(),
                usage_count: 1,
                time_ranges: vec![r],
                merged_range: r,
                used_in_sequences: vec![sequence_id.clone()],
                is_multicam_angle: is_multicam,
                is_merged_component: is_merged,
            };
            proof {
                assert(info.used_in_sequences@.len() == 1);
                assert(id_set(info.used_in_sequences@) =~= Set::<Seq<char>>::empty().insert(sequence_id@)) by {
                    assert(info.used_in_sequences@[0] == *sequence_id);
                }
                assert(info.time_ranges@.len() == 1);
                assert(hull_of(info.time_ranges@) == info.time_ranges@[0]);
            }
            used_media.push(info);
            proof {
                let u1 = used_media@;
                assert forall|x| used_ids(u1).contains(x) <==> used_ids(u0).insert(media_id@).contains(x) by {
                    if used_ids(u1).contains(x) {
                        let i = choose|i: int| 0 <= i < u1.len() && (#[trigger] u1[i]).object_id@ == x;
                        if i < u0.len() {
                            assert(u0[i] == u1[i]);
                        }
                    }
                    if used_ids(u0).contains(x) {
                        let i = choose|i: int| 0 <= i < u0.len() && (#[trigger] u0[i]).object_id@ == x;
                        assert(u0[i] == u1[i]);
                    }
                    if x == media_id@ {
                        assert(u1[u0.len() as int].object_id@ == x);
                    }
                }
                assert(used_ids(u1) =~= used_ids(u0).insert(media_id@));
            }
        }
    }

    /// Identifiers of the project's media files that `used` does not hold.
    fn unused_of(&self, used: &Vec<MediaUsageInfo>) -> (r: Vec<String>)
        requires
            self.spec_project().wf(),
        ensures
            id_set(r@) == self.spec_project().media_ids().difference(used_ids(used@)),
            no_dups(r@),
    {
        let files = &self.project.media_files;
        let mut out: Vec<String> = Vec::new();
        let mut i: usize = 0;
        while i < files.len()
            invariant
                i <= files@.len(),
                *files == self.project.media_files,
                forall|x: Seq<char>| #[trigger] id_set(out@).contains(x) <==> (!used_ids(used@).contains(x) && exists|j: int|
                    0 <= j < i && (#[trigger] files@[j]).object_id@ == x),
                self.spec_project().wf(),
                no_dups(out@),
            decreases files@.len() - i,
        {
            let ghost o0 = out@;
            if !contains_used(used, &files[i].object_id) {
                out.push(files[i].object_id.clone());
                proof {
                    lemma_push_id_set(o0, files@[i as int].object_id);
                    assert(!id_set(o0).contains(files@[i as int].object_id@)) by {
                        if id_set(o0).contains(files@[i as int].object_id@) {
                            let j = choose|j: int| 0 <= j < i && (#[trigger] files@[j]).object_id@ == files@[i as int].object_id@;
                        }
                    }
                    assert forall|a: int, b: int| 0 <= a < b < out@.len() implies out@[a]@ != out@[b]@ by {
                        assert(out@[a] == o0[a]);
                        if b < o0.len() {
                            assert(out@[b] == o0[b]);
                        } else {
                            assert(id_set(o0).contains(o0[a]@));
                        }
                    }
                }
            }
            proof {
                assert forall|x: Seq<char>| #[trigger] id_set(out@).contains(x) <==> (!used_ids(used@).contains(x) && exists|j: int|
                    0 <= j < i + 1 && (#[trigger] files@[j]).object_id@ == x) by {
                    if x == files@[i as int].object_id@ {
                    } else {
                        if exists|j: int| 0 <= j < i + 1 && (#[trigger] files@[j]).object_id@ == x {
                            let j = choose|j: int| 0 <= j < i + 1 && (#[trigger] files@[j]).object_id@ == x;
                            assert(j < i);
                        }
                    }
                }
            }
            i = i + 1;
        }
        assert(id_set(out@) =~= self.spec_project().media_ids().difference(used_ids(used@)));
        out
    }
}

// ---------------------------------------------------------------------------
// Laws
// ---------------------------------------------------------------------------
/// Two analyses that both cover every sequence of the project find the same
/// used media; so analyzing all sequences and analyzing the list of all their
/// identifiers agree.
pub proof fn law_full_analyses_agree(
    p: PremiereProject,
    a1: Set<Seq<char>>,
    a2: Set<Seq<char>>,
    include_all_angles: bool,
)
    requires
        p.sequence_ids().subset_of(a1),
        p.sequence_ids().subset_of(a2),
    ensures
        used_set(p, a1, include_all_angles) == used_set(p, a2, include_all_angles),
{
    assert forall|m: Seq<char>| used_set(p, a1, include_all_angles).contains(m) <==> used_set(p, a2, include_all_angles).contains(m) by {
        if used_set(p, a1, include_all_angles).contains(m) {
            let i = choose|i: int|
                0 <= i < p.sequences@.len() && a1.contains(p.sequences@[i].object_id@)
                    && seq_uses(#[trigger] p.sequences@[i], m, include_all_angles);
            assert(p.sequence_ids().contains(p.sequences@[i].object_id@));
        }
        if used_set(p, a2, include_all_angles).contains(m) {
            let i = choose|i: int|
                0 <= i < p.sequences@.len() && a2.contains(p.sequences@[i].object_id@)
                    && seq_uses(#[trigger] p.sequences@[i], m, include_all_angles);
            assert(p.sequence_ids().contains(p.sequences@[i].object_id@));
        }
    }
    assert(used_set(p, a1, include_all_angles) =~= used_set(p, a2, include_all_angles));
}

/// Used and unused media do not overlap, and together they are all of the
/// project's media files.
pub proof fn law_used_unused_partition(p: PremiereProject, analyzed: Set<Seq<char>>, include_all_angles: bool)
    ensures
        used_set(p, analyzed, include_all_angles).disjoint(
            p.media_ids().difference(used_set(p, analyzed, include_all_angles)),
        ),
        used_set(p, analyzed, include_all_angles).union(
            p.media_ids().difference(used_set(p, analyzed, include_all_angles)),
        ) == p.media_ids(),
{
    let u = used_set(p, analyzed, include_all_angles);
    assert(u.union(p.media_ids().difference(u)) =~= p.media_ids());
}

/// Adjustment clips contribute no media, so every used media file comes from
/// a clip that is not an adjustment clip.
pub proof fn law_adjustment_clips_unused(p: PremiereProject, analyzed: Set<Seq<char>>, include_all_angles: bool, m: Seq<char>)
    requires
        used_set(p, analyzed, include_all_angles).contains(m),
    ensures
        exists|i: int, c: TrackClip|
            0 <= i < p.sequences@.len() && analyzed.contains(p.sequences@[i].object_id@)
                && #[trigger] seq_has_clip(p.sequences@[i], c) && !(c.clip_type is Adjustment)
                && clip_contributes(c, m, include_all_angles),
{
    let i = choose|i: int|
        0 <= i < p.sequences@.len() && analyzed.contains(p.sequences@[i].object_id@)
            && seq_uses(#[trigger] p.sequences@[i], m, include_all_angles);
    let c = choose|c: TrackClip| #[trigger] seq_has_clip(p.sequences@[i], c) && clip_contributes(c, m, include_all_angles);
    assert(!(c.clip_type is Adjustment));
}

/// A multicam clip contributes the media of an angle exactly when some angle
/// with that media is active or all angles are counted.
pub proof fn law_multicam_angles(clip: TrackClip, m: Seq<char>, include_all_angles: bool)
    requires
        clip.clip_type is Multicam,
    ensures
        clip_contributes(clip, m, include_all_angles) <==> exists|i: int|
            0 <= i < clip.clip_type->Multicam_angles@.len()
                && (#[trigger] clip.clip_type->Multicam_angles@[i]).media_ref@ == m
                && (clip.clip_type->Multicam_angles@[i].is_active || include_all_angles),
{
}

/// An angle of a multicam clip in an analyzed sequence makes its media used
/// when the angle is active or all angles count; when nothing else in the
/// analyzed sequences uses that media, it is used only then.
pub proof fn law_multicam_angle_usage(
    p: PremiereProject,
    analyzed: Set<Seq<char>>,
    include_all_angles: bool,
    i: int,
    c: TrackClip,
    j: int,
)
    requires
        0 <= i < p.sequences@.len(),
        analyzed.contains(p.sequences@[i].object_id@),
        seq_has_clip(p.sequences@[i], c),
        c.clip_type is Multicam,
        0 <= j < c.clip_type->Multicam_angles@.len(),
        p.media_ids().contains(c.clip_type->Multicam_angles@[j].media_ref@),
    ensures
        c.clip_type->Multicam_angles@[j].is_active || include_all_angles ==> used_set(p, analyzed, include_all_angles).contains(
            c.clip_type->Multicam_angles@[j].media_ref@,
        ),
        (forall|i2: int, c2: TrackClip|
            0 <= i2 < p.sequences@.len() && analyzed.contains(p.sequences@[i2].object_id@) && #[trigger] seq_has_clip(
                p.sequences@[i2],
                c2,
            ) && clip_contributes(c2, c.clip_type->Multicam_angles@[j].media_ref@, include_all_angles) ==> c2 == c) && !(
        c.clip_type->Multicam_angles@[j].is_active || include_all_angles) && (forall|k: int|
            0 <= k < c.clip_type->Multicam_angles@.len() && (#[trigger] c.clip_type->Multicam_angles@[k]).media_ref@
                == c.clip_type->Multicam_angles@[j].media_ref@ ==> !(c.clip_type->Multicam_angles@[k].is_active
                || include_all_angles)) ==> !used_set(p, analyzed, include_all_angles).contains(
            c.clip_type->Multicam_angles@[j].media_ref@,
        ),
{
    let m = c.clip_type->Multicam_angles@[j].media_ref@;
    if c.clip_type->Multicam_angles@[j].is_active || include_all_angles {
        lemma_angle_contributes(c, j, include_all_angles);
        assert(seq_uses(p.sequences@[i], m, include_all_angles));
    }
}

proof fn lemma_component_contributes(clip: TrackClip, i: int, all_angles: bool)
    requires
        clip.clip_type is MergedClip,
        0 <= i < clip.clip_type->MergedClip_components@.len(),
    ensures
        clip_contributes(clip, clip.clip_type->MergedClip_components@[i]@, all_angles),
{
}

proof fn lemma_angle_contributes(clip: TrackClip, i: int, all_angles: bool)
    requires
        clip.clip_type is Multicam,
        0 <= i < clip.clip_type->Multicam_angles@.len(),
        clip.clip_type->Multicam_angles@[i].is_active || all_angles,
    ensures
        clip_contributes(clip, clip.clip_type->Multicam_angles@[i].media_ref@, all_angles),
{
}

proof fn lemma_push_id_set(a: Seq<String>, s: String)
    ensures
        id_set(a.push(s)) == id_set(a).insert(s@),
{
    let b = a.push(s);
    assert(b[a.len() as int] == s);
    assert forall|x| id_set(a).contains(x) implies id_set(b).contains(x) by {
        let j = choose|j: int| 0 <= j < a.len() && (#[trigger] a[j])@ == x;
        assert(b[j] == a[j]);
    }
    assert forall|x| id_set(b).contains(x) implies id_set(a).insert(s@).contains(x) by {
        let j = choose|j: int| 0 <= j < b.len() && (#[trigger] b[j])@ == x;
        if j < a.len() {
            assert(b[j] == a[j]);
        }
    }
    assert(id_set(b) =~= id_set(a).insert(s@));
}

/// Whether the project has a media file with identifier `id`.
fn media_known(p: &PremiereProject, id: &String) -> (r: bool)
    ensures
        r == p.media_ids().contains(id@),
{
    let mut i: usize = 0;
    while i < p.media_files.len()
        invariant
            i <= p.media_files@.len(),
            forall|j: int| 0 <= j < i ==> (#[trigger] p.media_files@[j]).object_id@ != id@,
        decreases p.media_files@.len() - i,
    {
        if str_eq(p.media_files[i].object_id.as_str(), id.as_str()) {
            assert(p.media_ids().contains(id@));
            return true;
        }
        i = i + 1;
    }
    false
}

/// Index of the sequence with identifier `id`.
fn find_sequence(seqs: &Vec<Sequence>, id: &String) -> (r: Option<usize>)
    ensures
        r matches Some(k) ==> k < seqs@.len() && seqs@[k as int].object_id@ == id@,
        r is None ==> forall|j: int| 0 <= j < seqs@.len() ==> (#[trigger] seqs@[j]).object_id@ != id@,
{
    let mut k: usize = 0;
    while k < seqs.len()
        invariant
            k <= seqs@.len(),
            forall|j: int| 0 <= j < k ==> (#[trigger] seqs@[j]).object_id@ != id@,
        decreases seqs@.len() - k,
    {
        if str_eq(seqs[k].object_id.as_str(), id.as_str()) {
            return Some(k);
        }
        k = k + 1;
    }
    None
}

/// Index of the entry with identifier `id`.
fn find_used(used: &Vec<MediaUsageInfo>, id: &String) -> (r: Option<usize>)
    ensures
        r matches Some(k) ==> k < used@.len() && used@[k as int].object_id@ == id@,
        r is None ==> !used_ids(used@).contains(id@),
{
    let mut k: usize = 0;
    while k < used.len()
        invariant
            k <= used@.len(),
            forall|j: int| 0 <= j < k ==> (#[trigger] used@[j]).object_id@ != id@,
        decreases used@.len() - k,
    {
        if str_eq(used[k].object_id.as_str(), id.as_str()) {
            return Some(k);
        }
        k = k + 1;
    }
    None
}

/// Whether some entry of `used` has identifier `id`.
fn contains_used(used: &Vec<MediaUsageInfo>, id: &String) -> (r: bool)
    ensures
        r == used_ids(used@).contains(id@),
{
    let mut i: usize = 0;
    while i < used.len()
        invariant
            i <= used@.len(),
            forall|j: int| 0 <= j < i ==> (#[trigger] used@[j]).object_id@ != id@,
        decreases used@.len() - i,
    {
        if str_eq(used[i].object_id.as_str(), id.as_str()) {
            return true;
        }
        i = i + 1;
    }
    false
}

/// Whether the list holds a string equal to `s`.
fn contains_string(v: &Vec<String>, s: &String) -> (r: bool)
    ensures
        r == id_set(v@).contains(s@),
{
    let mut i: usize = 0;
    while i < v.len()
        invariant
            i <= v@.len(),
            forall|j: int| 0 <= j < i ==> (#[trigger] v@[j])@ != s@,
        decreases v@.len() - i,
    {
        if str_eq(v[i].as_str(), s.as_str()) {
            return true;
        }
        i = i + 1;
    }
    false
}

} // verus!
