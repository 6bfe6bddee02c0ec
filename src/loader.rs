//! Building the project from the object graph: sequences with their clips,
//! media files, and bins.

use vstd::prelude::*;
use crate::graph::{Context, media_owner, media_path_text, path_tag, resolve_spec, child_key_spec, is_media_target, Element, attr_of, attr_value, child_key, key_set, ParserState, XmlEvent, Attribute, indices_below};
use crate::model::{Bin, ClipType, FrameRate, MediaFile, MediaType, PremiereProject, ProjectItem, ProjectItemType,
    Sequence, Track, TrackClip, TrackType};
use crate::codec::{gunzip, gunzip_text, next_xml_event, xml_reader};
use crate::paths::{extension, file_name, stem};
use crate::text::{lower_of, contains_seq, decimal, parse_int, append_str, chars_of, contains_chars, fmt_u64, lowercase, parse_i64, str_eq, string_of};

verus! {

broadcast use vstd::string::group_string_axioms;

/// Class GUID that admits a `Sequence` element as a timeline.
pub const SEQUENCE_CLASS_ID: &'static str = "6a15d903-8739-11d5-af2d-9b7855ad8974";

/// Ticks in 24 hours; a larger in-point does not belong to source media.
pub const MAX_REASONABLE_TICKS: i64 = 21946982400000000;

/// A clip track item resolved to its media.
pub struct ClipMedia {
    pub clip_id: String,
    pub media_id: String,
}

fn is_clip_item_tag(tag: &str) -> (r: bool)
    ensures
        r == clip_item_tag(tag@),
{
    str_eq(tag, "VideoClipTrackItem") || str_eq(tag, "AudioClipTrackItem")
}

fn text_with_suffix(prefix: &str, id: &String) -> (r: String)
    ensures
        r@ == prefix@ + id@,
{
    let mut v = chars_of(prefix);
    append_str(&mut v, id.as_str());
    string_of(&v)
}

impl ParserState {
    /// The name of a sequence: its `Name` or `ObjectName` attribute, its
    /// `Name` or `n` child, else `Sequence` and its identifier.
    pub open spec fn sequence_name(&self, pos: int, id: Seq<char>) -> Seq<char> {
        match attr_of(self.objects@[pos].attributes@, "Name"@) {
            Some(n) => n@,
            None => match attr_of(self.objects@[pos].attributes@, "ObjectName"@) {
                Some(n) => n@,
                None => match self.spec_first_child(pos as nat, "Name"@) {
                    Some(n) => n@,
                    None => match self.spec_first_child(pos as nat, "n"@) {
                        Some(n) => n@,
                        None => "Sequence "@ + id,
                    },
                },
            },
        }
    }

    /// The duration of a sequence: its `MZ.OutPoint` child, else 0.
    pub open spec fn sequence_duration(&self, pos: int) -> int {
        match self.spec_first_child(pos as nat, "MZ.OutPoint"@) {
            Some(t) => match parse_int(t@, i64::MIN as int, i64::MAX as int) {
                Some(v) => v,
                None => 0,
            },
            None => 0,
        }
    }

    /// Whether the element with GUID `uid` is a timeline: a `Sequence`
    /// element whose class is the sequence class.
    pub open spec fn admitted(&self, uid: Seq<char>) -> bool {
        &&& self.objects_by_uid@.contains_key(uid)
        &&& self.objects@[self.objects_by_uid@[uid] as int].tag@ == "Sequence"@
        &&& attr_of(self.objects@[self.objects_by_uid@[uid] as int].attributes@, "ClassID"@) matches Some(c)
        &&& c@ == SEQUENCE_CLASS_ID@
    }

    /// The GUIDs among `keys` that name timelines, in order.
    pub open spec fn admitted_ids(&self, keys: Seq<String>) -> Seq<Seq<char>>
        decreases keys.len(),
    {
        if keys.len() == 0 {
            Seq::empty()
        } else if self.admitted(keys.last()@) {
            self.admitted_ids(keys.drop_last()).push(keys.last()@)
        } else {
            self.admitted_ids(keys.drop_last())
        }
    }

    /// The sequence built for the timeline with GUID `uid`, given the resolved
    /// clips `cm`.
    pub open spec fn sequence_built(&self, cm: Seq<ClipMedia>, s: Sequence) -> bool {
        let uid = s.object_id@;
        let pos = self.objects_by_uid@[uid] as int;
        &&& s.name@ == self.sequence_name(pos, uid)
        &&& s.duration_ticks == self.sequence_duration(pos)
        &&& s.nested_sequences@.len() == 0
        &&& s.video_tracks@.len() == if sequence_clips(*self, cm, uid, true).len() > 0 { 1int } else { 0int }
        &&& s.audio_tracks@.len() == if sequence_clips(*self, cm, uid, false).len() > 0 { 1int } else { 0int }
        &&& s.video_tracks@.len() == 1 ==> clip_views(s.video_tracks@[0].clips@) == sequence_clips(*self, cm, uid, true)
        &&& s.audio_tracks@.len() == 1 ==> clip_views(s.audio_tracks@[0].clips@) == sequence_clips(*self, cm, uid, false)
    }

    /// The first text of child `tag` of the object at `pos`.
    pub open spec fn spec_first_child(&self, pos: nat, tag: Seq<char>) -> Option<String> {
        let k = child_key_spec(pos, tag);
        if self.child_texts@.contains_key(k) && self.child_texts@[k]@.len() > 0 {
            Some(self.child_texts@[k]@[0])
        } else {
            None
        }
    }

    /// The first text of child `tag` of the object at `pos`.
    pub fn first_child(&self, pos: usize, tag: &str) -> (r: Option<String>)
        ensures
            r == self.spec_first_child(pos as nat, tag@),
    {
        let key = child_key(pos, tag);
        match self.child_texts.get(key.as_str()) {
            Some(list) => if list.len() > 0 {
                Some(list[0].clone())
            } else {
                None
            },
            None => None,
        }
    }

    /// The first text of child `tag`, read as an integer.
    pub fn child_i64(&self, pos: usize, tag: &str) -> (r: Option<i64>)
        ensures
            match self.spec_first_child(pos as nat, tag@) {
                Some(t) => match r {
                    Some(v) => parse_int(t@, i64::MIN as int, i64::MAX as int) == Some(v as int),
                    None => parse_int(t@, i64::MIN as int, i64::MAX as int) is None,
                },
                None => r is None,
            },
    {
        match self.first_child(pos, tag) {
            Some(t) => {
                let c = chars_of(t.as_str());
                parse_i64(&c)
            },
            None => None,
        }
    }

    /// Whether the object at `pos` has a child text under `tag`.
    pub fn has_child(&self, pos: usize, tag: &str) -> (r: bool)
        ensures
            r == self.child_texts@.contains_key(child_key_spec(pos as nat, tag@)),
    {
        let key = child_key(pos, tag);
        self.child_texts.contains_key(key.as_str())
    }

    /// Whether one of the objects at `positions` is a clip track item.
    fn any_clip_item(&self, positions: &Vec<usize>) -> (r: bool)
        requires
            indices_below(positions@, self.objects@.len() as int),
        ensures
            r == has_clip_item(*self, positions@),
    {
        let mut j: usize = 0;
        while j < positions.len()
            invariant
                indices_below(positions@, self.objects@.len() as int),
                j <= positions@.len(),
                forall|k: int| 0 <= k < j ==> !clip_item_tag(self.objects@[#[trigger] positions@[k] as int].tag@),
            decreases positions@.len() - j,
        {
            if is_clip_item_tag(self.objects[positions[j]].tag.as_str()) {
                return true;
            }
            j = j + 1;
        }
        false
    }

    /// Resolves every clip track item to its media, by numeric id in order
    /// of first appearance; items that lead to no media are left out.
    pub fn resolve_clips(&self) -> (r: Vec<ClipMedia>)
        requires
            self.wf(),
        ensures
            clip_pairs(r@) == resolved_clips(*self, self.id_keys@),
            forall|i: int| 0 <= i < r@.len() ==> is_media_target(*self, (#[trigger] r@[i]).media_id@)
                && self.objects_by_id@.contains_key(r@[i].clip_id@),
    {
        let mut out: Vec<ClipMedia> = Vec::new();
        let mut i: usize = 0;
        while i < self.id_keys.len()
            invariant
                self.wf(),
                i <= self.id_keys@.len(),
                clip_pairs(out@) == resolved_clips(*self, self.id_keys@.subrange(0, i as int)),
                forall|k: int| 0 <= k < out@.len() ==> is_media_target(*self, (#[trigger] out@[k]).media_id@)
                    && self.objects_by_id@.contains_key(out@[k].clip_id@),
            decreases self.id_keys@.len() - i,
        {
            let key = &self.id_keys[i];
            proof {
                assert(key_set(self.id_keys@).contains(key@));
                let pre = self.id_keys@.subrange(0, i + 1);
                assert(pre.drop_last() =~= self.id_keys@.subrange(0, i as int));
                assert(pre.last() == *key);
            }
            let positions = self.objects_by_id.get(key.as_str()).unwrap();
            let ghost before = out@;
            if self.any_clip_item(positions) {
                match self.find_media_for_clip(key, 0) {
                    Some(m) => {
                        let ghost mv = m@;
                        out.push(ClipMedia { clip_id: key.clone(), media_id: m });
                        assert(clip_pairs(out@) =~= clip_pairs(before).push((key@, mv)));
                    },
                    None => {},
                }
            }
            i = i + 1;
        }
        assert(self.id_keys@.subrange(0, self.id_keys@.len() as int) =~= self.id_keys@);
        out
    }

    /// The in and out points read from the clip object at `pos`: the whole
    /// timeline span for synthetic media or an implausible in-point (when the
    /// span is positive), the read span when it is not empty, else none.
    fn clip_object_points(&self, pos: usize, timeline_duration: i64) -> (r: Option<(i64, i64)>)
        ensures
            r == clip_obj_hit(*self, pos as nat, timeline_duration),
    {
        if self.is_synthetic(pos) {
            if timeline_duration > 0 { Some((0, timeline_duration)) } else { None }
        } else {
            let in_point = match self.child_i64(pos, "InPoint") {
                Some(v) => v,
                None => 0,
            };
            let out_point = match self.child_i64(pos, "OutPoint") {
                Some(v) => v,
                None => 0,
            };
            if in_point > MAX_REASONABLE_TICKS {
                if timeline_duration > 0 { Some((0, timeline_duration)) } else { None }
            } else if out_point > in_point {
                Some((in_point, out_point))
            } else {
                None
            }
        }
    }

    fn objects_points(&self, positions: &Vec<usize>, timeline_duration: i64) -> (r: Option<(i64, i64)>)
        ensures
            r == objs_hit(*self, positions@, timeline_duration),
    {
        let mut i: usize = 0;
        assert(positions@.subrange(0, positions@.len() as int) =~= positions@);
        while i < positions.len()
            invariant
                i <= positions@.len(),
                objs_hit(*self, positions@, timeline_duration) == objs_hit(*self, positions@.subrange(i as int, positions@.len() as int), timeline_duration),
            decreases positions@.len() - i,
        {
            let ghost rest = positions@.subrange(i as int, positions@.len() as int);
            assert(rest[0] == positions@[i as int]);
            assert(rest.drop_first() =~= positions@.subrange(i + 1, positions@.len() as int));
            let hit = self.clip_object_points(positions[i], timeline_duration);
            if hit.is_some() {
                return hit;
            }
            i = i + 1;
        }
        None
    }

    fn subclip_points(&self, idxs: &Vec<usize>, timeline_duration: i64) -> (r: Option<(i64, i64)>)
        requires
            self.wf(),
            indices_below(idxs@, self.refs@.len() as int),
        ensures
            r == sub_hit(*self, idxs@, timeline_duration),
    {
        let mut i: usize = 0;
        assert(idxs@.subrange(0, idxs@.len() as int) =~= idxs@);
        while i < idxs.len()
            invariant
                self.wf(),
                indices_below(idxs@, self.refs@.len() as int),
                i <= idxs@.len(),
                sub_hit(*self, idxs@, timeline_duration) == sub_hit(*self, idxs@.subrange(i as int, idxs@.len() as int), timeline_duration),
            decreases idxs@.len() - i,
        {
            let ghost rest = idxs@.subrange(i as int, idxs@.len() as int);
            assert(rest[0] == idxs@[i as int]);
            assert(rest.drop_first() =~= idxs@.subrange(i + 1, idxs@.len() as int));
            let r = &self.refs[idxs[i]];
            if str_eq(r.child_tag.as_str(), "Clip") {
                match self.objects_by_id.get(r.target.as_str()) {
                    Some(objs) => {
                        let hit = self.objects_points(objs, timeline_duration);
                        if hit.is_some() {
                            return hit;
                        }
                    },
                    None => {},
                }
            }
            i = i + 1;
        }
        None
    }

    fn item_points(&self, idxs: &Vec<usize>, timeline_duration: i64) -> (r: Option<(i64, i64)>)
        requires
            self.wf(),
            indices_below(idxs@, self.refs@.len() as int),
        ensures
            r == item_hit(*self, idxs@, timeline_duration),
    {
        let mut i: usize = 0;
        assert(idxs@.subrange(0, idxs@.len() as int) =~= idxs@);
        while i < idxs.len()
            invariant
                self.wf(),
                indices_below(idxs@, self.refs@.len() as int),
                i <= idxs@.len(),
                item_hit(*self, idxs@, timeline_duration) == item_hit(*self, idxs@.subrange(i as int, idxs@.len() as int), timeline_duration),
            decreases idxs@.len() - i,
        {
            let ghost rest = idxs@.subrange(i as int, idxs@.len() as int);
            assert(rest[0] == idxs@[i as int]);
            assert(rest.drop_first() =~= idxs@.subrange(i + 1, idxs@.len() as int));
            let r = &self.refs[idxs[i]];
            if str_eq(r.child_tag.as_str(), "SubClip") {
                match self.refs_from_id.get(r.target.as_str()) {
                    Some(sub) => {
                        proof {
                            assert(self.refs_from_id@.contains_key(r.target@));
                        }
                        let hit = self.subclip_points(sub, timeline_duration);
                        if hit.is_some() {
                            return hit;
                        }
                    },
                    None => {},
                }
            }
            i = i + 1;
        }
        None
    }

    /// Source in and out points of a clip track item, read from the clip that
    /// its sub-clip references; `(0, timeline_duration)` for adjustment or
    /// synthetic clips, implausible in-points, or a broken chain.
    pub fn get_clip_in_out_points(&self, track_item_id: &String, timeline_duration: i64) -> (r: (i64, i64))
        requires
            self.wf(),
        ensures
            r == in_out_spec(*self, track_item_id@, timeline_duration),
    {
        let hit = match self.refs_from_id.get(track_item_id.as_str()) {
            Some(v) => {
                proof {
                    assert(self.refs_from_id@.contains_key(track_item_id@));
                }
                self.item_points(v, timeline_duration)
            },
            None => None,
        };
        match hit {
            Some(p) => p,
            None => if timeline_duration > 0 { (0, timeline_duration) } else { (0, 0) },
        }
    }

    /// Whether the object at `pos` is an adjustment layer or synthetic media:
    /// it has an `AdjustmentLayer` or `SyntheticMedia` child, or a child whose
    /// tag holds `SyntheticMedia`.
    pub fn is_synthetic(&self, pos: usize) -> (r: bool)
        ensures
            r == synthetic_spec(*self, pos as nat),
    {
        if self.has_child(pos, "AdjustmentLayer") || self.has_child(pos, "SyntheticMedia") {
            return true;
        }
        let key = fmt_u64(pos as u64);
        let k = string_of(&key);
        assert(k@ == decimal(pos as nat));
        match self.child_tags.get(k.as_str()) {
            Some(tags) => {
                let needle = chars_of("SyntheticMedia");
                let mut i: usize = 0;
                while i < tags.len()
                    invariant
                        i <= tags@.len(),
                        needle@ == "SyntheticMedia"@,
                        self.child_tags@.contains_key(decimal(pos as nat)),
                        *tags == self.child_tags@[decimal(pos as nat)],
                        forall|j: int| 0 <= j < i ==> !contains_seq((#[trigger] tags@[j])@, "SyntheticMedia"@),
                    decreases tags@.len() - i,
                {
                    let t = chars_of(tags[i].as_str());
                    if contains_chars(&t, &needle) {
                        assert(contains_seq(tags@[i as int]@, "SyntheticMedia"@));
                        return true;
                    }
                    i = i + 1;
                }
                false
            },
            None => false,
        }
    }
}

/// Whether the object at `pos` is an adjustment layer or synthetic media.
pub open spec fn synthetic_spec(st: ParserState, pos: nat) -> bool {
    st.child_texts@.contains_key(child_key_spec(pos, "AdjustmentLayer"@)) || st.child_texts@.contains_key(
        child_key_spec(pos, "SyntheticMedia"@),
    ) || (st.child_tags@.contains_key(decimal(pos)) && exists|j: int|
        0 <= j < st.child_tags@[decimal(pos)]@.len() && contains_seq((#[trigger] st.child_tags@[decimal(pos)]@[j])@, "SyntheticMedia"@))
}

/// The integer that the first child `tag` of the object at `pos` spells, or 0.
pub open spec fn child_int(st: ParserState, pos: nat, tag: Seq<char>) -> int {
    match st.spec_first_child(pos, tag) {
        Some(t) => match parse_int(t@, i64::MIN as int, i64::MAX as int) {
            Some(v) => v,
            None => 0,
        },
        None => 0,
    }
}

/// The span read from one clip object, if it gives one.
pub open spec fn clip_obj_hit(st: ParserState, pos: nat, tl: i64) -> Option<(i64, i64)> {
    let whole: Option<(i64, i64)> = if tl > 0 { Some((0i64, tl)) } else { None };
    if synthetic_spec(st, pos) {
        whole
    } else {
        let i = child_int(st, pos, "InPoint"@);
        let o = child_int(st, pos, "OutPoint"@);
        if i > MAX_REASONABLE_TICKS {
            whole
        } else if o > i {
            Some((i as i64, o as i64))
        } else {
            None
        }
    }
}

/// The first span given by the clip objects at `ps`.
pub open spec fn objs_hit(st: ParserState, ps: Seq<usize>, tl: i64) -> Option<(i64, i64)>
    decreases ps.len(),
{
    if ps.len() == 0 {
        None
    } else {
        match clip_obj_hit(st, ps[0] as nat, tl) {
            Some(x) => Some(x),
            None => objs_hit(st, ps.drop_first(), tl),
        }
    }
}

/// The first span given through the `Clip` references `idxs` of a sub-clip.
pub open spec fn sub_hit(st: ParserState, idxs: Seq<usize>, tl: i64) -> Option<(i64, i64)>
    decreases idxs.len(),
{
    if idxs.len() == 0 {
        None
    } else {
        let r = st.refs@[idxs[0] as int];
        let here = if r.child_tag@ == "Clip"@ && st.objects_by_id@.contains_key(r.target@) {
            objs_hit(st, st.objects_by_id@[r.target@]@, tl)
        } else {
            None
        };
        match here {
            Some(x) => Some(x),
            None => sub_hit(st, idxs.drop_first(), tl),
        }
    }
}

/// The first span given through the `SubClip` references `idxs` of a track item.
pub open spec fn item_hit(st: ParserState, idxs: Seq<usize>, tl: i64) -> Option<(i64, i64)>
    decreases idxs.len(),
{
    if idxs.len() == 0 {
        None
    } else {
        let r = st.refs@[idxs[0] as int];
        let here = if r.child_tag@ == "SubClip"@ && st.refs_from_id@.contains_key(r.target@) {
            sub_hit(st, st.refs_from_id@[r.target@]@, tl)
        } else {
            None
        };
        match here {
            Some(x) => Some(x),
            None => item_hit(st, idxs.drop_first(), tl),
        }
    }
}

/// The source span of track item `id`: the first span its chain gives, else
/// the timeline span when positive, else empty.
pub open spec fn in_out_spec(st: ParserState, id: Seq<char>, tl: i64) -> (i64, i64) {
    let hit = if st.refs_from_id@.contains_key(id) { item_hit(st, st.refs_from_id@[id]@, tl) } else { None };
    match hit {
        Some(p) => p,
        None => if tl > 0 { (0i64, tl) } else { (0i64, 0i64) },
    }
}

/// Whether `tag` names a clip track item.
pub open spec fn clip_item_tag(tag: Seq<char>) -> bool {
    tag == "VideoClipTrackItem"@ || tag == "AudioClipTrackItem"@
}

/// Whether one of the objects at `positions` is a clip track item.
pub open spec fn has_clip_item(st: ParserState, positions: Seq<usize>) -> bool {
    exists|k: int| 0 <= k < positions.len() && clip_item_tag(st.objects@[#[trigger] positions[k] as int].tag@)
}

/// The clip track items among the numeric ids `keys`, each with the media
/// it resolves to; items that resolve to none are left out.
pub open spec fn resolved_clips(st: ParserState, keys: Seq<String>) -> Seq<(Seq<char>, Seq<char>)>
    decreases keys.len(),
{
    if keys.len() == 0 {
        Seq::empty()
    } else {
        let k = keys.last()@;
        let rest = resolved_clips(st, keys.drop_last());
        if st.objects_by_id@.contains_key(k) && has_clip_item(st, st.objects_by_id@[k]@) && resolve_spec(st, k, 0) is Some {
            rest.push((k, resolve_spec(st, k, 0).unwrap()))
        } else {
            rest
        }
    }
}

/// The identifiers of resolved clips.
pub open spec fn clip_pairs(v: Seq<ClipMedia>) -> Seq<(Seq<char>, Seq<char>)> {
    v.map_values(|c: ClipMedia| (c.clip_id@, c.media_id@))
}

/// Whether `m` is the media of some resolved clip.
pub open spec fn resolved(cm: Seq<ClipMedia>, m: Seq<char>) -> bool {
    exists|i: int| 0 <= i < cm.len() && (#[trigger] cm[i]).media_id@ == m
}

/// Every clip is a standard clip showing the media of a resolved clip.
pub open spec fn clips_resolved(cm: Seq<ClipMedia>, clips: Seq<TrackClip>) -> bool {
    forall|j: int| 0 <= j < clips.len() ==> (#[trigger] clips[j]).clip_type is Standard && (clips[j].media_ref matches Some(
        m,
    ) && resolved(cm, m@))
}

/// Every clip of the tracks shows a media descriptor of the graph.
pub open spec fn tracks_show_media(st: ParserState, tracks: Seq<Track>) -> bool {
    forall|t: int, k: int|
        0 <= t < tracks.len() && 0 <= k < tracks[t].clips@.len() ==> ((#[trigger] tracks[t].clips@[k]).media_ref matches Some(
            m,
        ) && is_media_target(st, m@))
}

/// Every clip of the sequence shows a media descriptor of the graph.
pub open spec fn sequence_shows_media(st: ParserState, s: Sequence) -> bool {
    tracks_show_media(st, s.video_tracks@) && tracks_show_media(st, s.audio_tracks@)
}

proof fn lemma_tracks_show_media(st: ParserState, cm: Seq<ClipMedia>, tracks: Seq<Track>)
    requires
        forall|i: int| 0 <= i < cm.len() ==> is_media_target(st, (#[trigger] cm[i]).media_id@),
        forall|t: int| 0 <= t < tracks.len() ==> clips_resolved(cm, (#[trigger] tracks[t]).clips@),
    ensures
        tracks_show_media(st, tracks),
{
    assert forall|t: int, k: int|
        0 <= t < tracks.len() && 0 <= k < tracks[t].clips@.len() implies ((#[trigger] tracks[t].clips@[k]).media_ref matches Some(
            m,
        ) && is_media_target(st, m@)) by {
        assert(clips_resolved(cm, tracks[t].clips@));
        let c = tracks[t].clips@[k];
        let m = c.media_ref.unwrap();
        let i = choose|i: int| 0 <= i < cm.len() && (#[trigger] cm[i]).media_id@ == m@;
        assert(is_media_target(st, cm[i].media_id@));
    }
}

/// A clip whose media is known but whose timing is not read from the graph.
fn plain_clip(id: &String, media_id: &String) -> (r: TrackClip)
    ensures
        r.object_id == *id,
        r.media_ref == Some(*media_id),
        r.clip_type is Standard,
        clip_view(r) == plain_view(id@, media_id@),
{
    TrackClip {
        object_id: id.clone(),
        name: String::new(),
        start_ticks: 0,
        end_ticks: 0,
        in_point_ticks: 0,
        out_point_ticks: 0,
        media_ref: Some(media_id.clone()),
        clip_type: ClipType::Standard,
        speed_percent: 100,
    }
}

/// What a track clip is: its identifier, timeline and source spans, and
/// media.
pub open spec fn clip_view(c: TrackClip) -> (Seq<char>, i64, i64, i64, i64, Option<Seq<char>>) {
    (c.object_id@, c.start_ticks, c.end_ticks, c.in_point_ticks, c.out_point_ticks, match c.media_ref {
        Some(m) => Some(m@),
        None => None,
    })
}

pub open spec fn clip_views(v: Seq<TrackClip>) -> Seq<(Seq<char>, i64, i64, i64, i64, Option<Seq<char>>)> {
    v.map_values(|c: TrackClip| clip_view(c))
}

/// The clips of the track containers that the references `idxs` name with
/// tag `kind`, in order.
pub open spec fn kind_clips(st: ParserState, cm: Seq<ClipMedia>, idxs: Seq<usize>, kind: Seq<char>) -> Seq<
    (Seq<char>, i64, i64, i64, i64, Option<Seq<char>>),
>
    decreases idxs.len(),
{
    if idxs.len() == 0 {
        Seq::empty()
    } else {
        let r = st.refs@[idxs.last() as int];
        kind_clips(st, cm, idxs.drop_last(), kind) + if r.child_tag@ == kind {
            track_clips(st, cm, r.target@, r.is_guid, 0)
        } else {
            Seq::empty()
        }
    }
}

/// The clips a sequence reaches through its track references of tag `kind`:
/// those filed under its GUID, then those under the same text as a numeric id.
pub open spec fn direct_clips(st: ParserState, cm: Seq<ClipMedia>, uid: Seq<char>, kind: Seq<char>) -> Seq<
    (Seq<char>, i64, i64, i64, i64, Option<Seq<char>>),
> {
    kind_clips(st, cm, refs_under(st, uid, true), kind) + kind_clips(st, cm, refs_under(st, uid, false), kind)
}

/// `x` limited to the range of an `i64`.
pub open spec fn clamp_i64(x: int) -> i64 {
    if x > i64::MAX { i64::MAX } else if x < i64::MIN { i64::MIN } else { x as i64 }
}

/// A resolved clip as the fallback builds it, with its timing read from the
/// first object of its numeric id.
pub open spec fn fallback_view(st: ParserState, c: ClipMedia) -> (Seq<char>, i64, i64, i64, i64, Option<Seq<char>>) {
    let pos = st.objects_by_id@[c.clip_id@]@[0] as nat;
    let start = child_int(st, pos, "Start"@);
    let end = child_int(st, pos, "End"@);
    let io = in_out_spec(st, c.clip_id@, clamp_i64(end - start));
    (c.clip_id@, start as i64, end as i64, io.0, io.1, Some(c.media_id@))
}

/// The fallback clips of the video (`video`) or audio track: every resolved
/// clip whose first object is a video (or audio) clip track item.
pub open spec fn fallback_views(st: ParserState, cm: Seq<ClipMedia>, video: bool) -> Seq<
    (Seq<char>, i64, i64, i64, i64, Option<Seq<char>>),
>
    decreases cm.len(),
{
    if cm.len() == 0 {
        Seq::empty()
    } else {
        let c = cm.last();
        let rest = fallback_views(st, cm.drop_last(), video);
        let tag = if st.objects_by_id@.contains_key(c.clip_id@) && st.objects_by_id@[c.clip_id@]@.len() > 0 {
            Some(st.objects@[st.objects_by_id@[c.clip_id@]@[0] as int].tag@)
        } else {
            None
        };
        if tag == Some(if video { "VideoClipTrackItem"@ } else { "AudioClipTrackItem"@ }) {
            rest.push(fallback_view(st, c))
        } else {
            rest
        }
    }
}

/// The clips of a sequence's video (`video`) or audio track: those reached
/// through its track references, or the fallback clips when it reaches none
/// of either kind.
pub open spec fn sequence_clips(st: ParserState, cm: Seq<ClipMedia>, uid: Seq<char>, video: bool) -> Seq<
    (Seq<char>, i64, i64, i64, i64, Option<Seq<char>>),
> {
    let v = direct_clips(st, cm, uid, "VideoTracks"@);
    let a = direct_clips(st, cm, uid, "AudioTracks"@);
    if v.len() == 0 && a.len() == 0 {
        fallback_views(st, cm, video)
    } else if video {
        v
    } else {
        a
    }
}

/// A clip of media `m` whose timing is not read.
pub open spec fn plain_view(id: Seq<char>, m: Seq<char>) -> (Seq<char>, i64, i64, i64, i64, Option<Seq<char>>) {
    (id, 0i64, 0i64, 0i64, 0i64, Some(m))
}

/// The media resolved for clip `id`: that of the first entry naming it.
pub open spec fn media_of_spec(cm: Seq<ClipMedia>, id: Seq<char>) -> Option<Seq<char>>
    decreases cm.len(),
{
    if cm.len() == 0 {
        None
    } else if cm[0].clip_id@ == id {
        Some(cm[0].media_id@)
    } else {
        media_of_spec(cm.drop_first(), id)
    }
}

/// The references stored under `target` in the namespace `is_guid` names.
pub open spec fn refs_under(st: ParserState, target: Seq<char>, is_guid: bool) -> Seq<usize> {
    if is_guid {
        if st.refs_from_uid@.contains_key(target) { st.refs_from_uid@[target]@ } else { Seq::empty() }
    } else {
        if st.refs_from_id@.contains_key(target) { st.refs_from_id@[target]@ } else { Seq::empty() }
    }
}

/// The clips reachable from the track container `target`: through each of
/// its references in order, the clips of nested track containers, then the
/// clip item it names; then the container itself when it is a clip item.
pub open spec fn track_clips(st: ParserState, cm: Seq<ClipMedia>, target: Seq<char>, is_guid: bool, depth: int) -> Seq<
    (Seq<char>, i64, i64, i64, i64, Option<Seq<char>>),
>
    decreases MAX_TRACK_DEPTH + 1 - depth, 1nat, 0nat,
{
    if depth > MAX_TRACK_DEPTH || depth < 0 {
        Seq::empty()
    } else {
        refs_clips(st, cm, refs_under(st, target, is_guid), depth) + self_clip(st, cm, target)
    }
}

/// The clips found through the references `idxs`, in order.
pub open spec fn refs_clips(st: ParserState, cm: Seq<ClipMedia>, idxs: Seq<usize>, depth: int) -> Seq<
    (Seq<char>, i64, i64, i64, i64, Option<Seq<char>>),
>
    decreases MAX_TRACK_DEPTH + 1 - depth, 0nat, idxs.len(),
{
    if depth > MAX_TRACK_DEPTH || depth < 0 || idxs.len() == 0 {
        Seq::empty()
    } else {
        let r = st.refs@[idxs.last() as int];
        let nested = if contains_seq(r.child_tag@, "Track"@) || r.child_tag@ == "ClipItems"@ {
            track_clips(st, cm, r.target@, r.is_guid, depth + 1)
        } else {
            Seq::empty()
        };
        let item = if clip_item_tag(r.child_tag@) && media_of_spec(cm, r.target@) is Some {
            seq![plain_view(r.target@, media_of_spec(cm, r.target@).unwrap())]
        } else {
            Seq::empty()
        };
        refs_clips(st, cm, idxs.drop_last(), depth) + nested + item
    }
}

/// The container `target` itself, when it is a resolved clip item.
pub open spec fn self_clip(st: ParserState, cm: Seq<ClipMedia>, target: Seq<char>) -> Seq<
    (Seq<char>, i64, i64, i64, i64, Option<Seq<char>>),
> {
    if media_of_spec(cm, target) is Some && st.objects_by_id@.contains_key(target) && has_clip_item(st, st.objects_by_id@[target]@) {
        seq![plain_view(target, media_of_spec(cm, target).unwrap())]
    } else {
        Seq::empty()
    }
}

proof fn lemma_media_of_resolved(cm: Seq<ClipMedia>, id: Seq<char>)
    ensures
        media_of_spec(cm, id) matches Some(m) ==> resolved(cm, m),
    decreases cm.len(),
{
    if cm.len() > 0 {
        if cm[0].clip_id@ != id {
            lemma_media_of_resolved(cm.drop_first(), id);
            if media_of_spec(cm.drop_first(), id) is Some {
                let m = media_of_spec(cm.drop_first(), id).unwrap();
                let i = choose|i: int| 0 <= i < cm.drop_first().len() && (#[trigger] cm.drop_first()[i]).media_id@ == m;
                assert(cm[i + 1] == cm.drop_first()[i]);
            }
        } else {
            assert(cm[0].media_id@ == cm[0].media_id@);
        }
    }
}

/// The media of clip `id`, if it was resolved.
fn media_of(clips: &Vec<ClipMedia>, id: &str) -> (r: Option<String>)
    ensures
        match r {
            Some(m) => media_of_spec(clips@, id@) == Some(m@),
            None => media_of_spec(clips@, id@) is None,
        },
        r matches Some(m) ==> resolved(clips@, m@),
{
    proof {
        lemma_media_of_resolved(clips@, id@);
    }
    let mut i: usize = 0;
    assert(clips@.subrange(0, clips@.len() as int) =~= clips@);
    while i < clips.len()
        invariant
            i <= clips@.len(),
            media_of_spec(clips@, id@) == media_of_spec(clips@.subrange(i as int, clips@.len() as int), id@),
            media_of_spec(clips@, id@) matches Some(m) ==> resolved(clips@, m),
        decreases clips@.len() - i,
    {
        let ghost rest = clips@.subrange(i as int, clips@.len() as int);
        assert(rest[0] == clips@[i as int]);
        assert(rest.drop_first() =~= clips@.subrange(i + 1, clips@.len() as int));
        if str_eq(clips[i].clip_id.as_str(), id) {
            return Some(clips[i].media_id.clone());
        }
        i = i + 1;
    }
    None
}

/// The deepest nesting of track containers followed.
pub const MAX_TRACK_DEPTH: usize = 20;

impl ParserState {
    /// Collects the resolved clips reachable from a track container.
    pub fn find_clips_in_tracks(
        &self,
        target_id: &String,
        is_guid: bool,
        clip_to_media: &Vec<ClipMedia>,
        clips: &mut Vec<TrackClip>,
        depth: usize,
    )
        requires
            self.wf(),
            clips_resolved(clip_to_media@, old(clips)@),
        ensures
            clip_views(final(clips)@) == clip_views(old(clips)@) + track_clips(*self, clip_to_media@, target_id@, is_guid, depth as int),
            clips_resolved(clip_to_media@, final(clips)@),
        decreases MAX_TRACK_DEPTH + 1 - depth,
    {
        let ghost c0 = clips@;
        if depth > MAX_TRACK_DEPTH {
            assert(clip_views(clips@) =~= clip_views(c0) + track_clips(*self, clip_to_media@, target_id@, is_guid, depth as int));
            return;
        }
        let empty: Vec<usize> = Vec::new();
        let list: &Vec<usize> = match if is_guid {
            self.refs_from_uid.get(target_id.as_str())
        } else {
            self.refs_from_id.get(target_id.as_str())
        } {
            Some(v) => v,
            None => &empty,
        };
        assert(list@ == refs_under(*self, target_id@, is_guid));
        proof {
            if list@.len() > 0 {
                if is_guid {
                    assert(indices_below(self.refs_from_uid@[target_id@]@, self.refs@.len() as int));
                } else {
                    assert(indices_below(self.refs_from_id@[target_id@]@, self.refs@.len() as int));
                }
            }
        }
        let track_word = chars_of("Track");
        let mut i: usize = 0;
        while i < list.len()
            invariant
                self.wf(),
                depth <= MAX_TRACK_DEPTH,
                indices_below(list@, self.refs@.len() as int),
                i <= list@.len(),
                track_word@ == "Track"@,
                clip_views(clips@) == clip_views(c0) + refs_clips(*self, clip_to_media@, list@.subrange(0, i as int), depth as int),
                clips_resolved(clip_to_media@, clips@),
            decreases list@.len() - i,
        {
            let ghost pre = list@.subrange(0, i + 1);
            assert(pre.drop_last() =~= list@.subrange(0, i as int));
            assert(pre.last() == list@[i as int]);
            let ghost before = clips@;
            let r = &self.refs[list[i]];
            let tag = chars_of(r.child_tag.as_str());
            if contains_chars(&tag, &track_word) || str_eq(r.child_tag.as_str(), "ClipItems") {
                self.find_clips_in_tracks(&r.target, r.is_guid, clip_to_media, clips, depth + 1);
            }
            let ghost mid = clips@;
            if is_clip_item_tag(r.child_tag.as_str()) {
                match media_of(clip_to_media, r.target.as_str()) {
                    Some(m) => {
                        let c = plain_clip(&r.target, &m);
                        clips.push(c);
                        proof {
                            lemma_push_resolved(clip_to_media@, mid, c);
                            assert(clip_views(clips@) =~= clip_views(mid).push(clip_view(c)));
                        }
                    },
                    None => {},
                }
            }
            assert(clip_views(clips@) =~= clip_views(c0) + refs_clips(*self, clip_to_media@, pre, depth as int));
            i = i + 1;
        }
        assert(list@.subrange(0, list@.len() as int) =~= list@);
        let ghost after_refs = clips@;
        match media_of(clip_to_media, target_id.as_str()) {
            Some(m) => {
                match self.objects_by_id.get(target_id.as_str()) {
                    Some(positions) => {
                        proof {
                            assert(indices_below(self.objects_by_id@[target_id@]@, self.objects@.len() as int));
                        }
                        if self.any_clip_item(positions) {
                            let c = plain_clip(target_id, &m);
                            clips.push(c);
                            proof {
                                lemma_push_resolved(clip_to_media@, after_refs, c);
                                assert(clip_views(clips@) =~= clip_views(after_refs).push(clip_view(c)));
                            }
                        }
                    },
                    None => {},
                }
            },
            None => {},
        }
        assert(clip_views(clips@) =~= clip_views(c0) + track_clips(*self, clip_to_media@, target_id@, is_guid, depth as int));
    }

    /// A sequence named from its `Name` or `ObjectName` attribute or its
    /// `Name` or `n` child, lasting `MZ.OutPoint` ticks.
    pub fn parse_sequence_from_obj(&self, id: &String, pos: usize) -> (r: Sequence)
        requires
            pos < self.objects@.len(),
        ensures
            r.object_id == *id,
            r.video_tracks@.len() == 0,
            r.audio_tracks@.len() == 0,
            r.nested_sequences@.len() == 0,
            r.name@ == self.sequence_name(pos as int, id@),
            r.duration_ticks == self.sequence_duration(pos as int),
            r.frame_rate == (FrameRate { numerator: 24000, denominator: 1001 }),
    {
        let obj = &self.objects[pos];
        let name = match attr_value(&obj.attributes, "Name") {
            Some(n) => n,
            None => match attr_value(&obj.attributes, "ObjectName") {
                Some(n) => n,
                None => match self.first_child(pos, "Name") {
                    Some(n) => n,
                    None => match self.first_child(pos, "n") {
                        Some(n) => n,
                        None => text_with_suffix("Sequence ", id),
                    },
                },
            },
        };
        let duration_ticks = match self.child_i64(pos, "MZ.OutPoint") {
            Some(d) => d,
            None => 0,
        };
        Sequence {
            object_id: id.clone(),
            name,
            duration_ticks,
            frame_rate: FrameRate { numerator: 24000, denominator: 1001 },
            video_tracks: Vec::new(),
            audio_tracks: Vec::new(),
            nested_sequences: Vec::new(),
        }
    }

    /// Collects into `video` and `audio` the clips of the track containers
    /// that the references `list` name as `VideoTracks` or `AudioTracks`.
    fn collect_track_refs(&self, list: &Vec<usize>, clip_to_media: &Vec<ClipMedia>, video: &mut Vec<TrackClip>, audio: &mut Vec<TrackClip>)
        requires
            self.wf(),
            indices_below(list@, self.refs@.len() as int),
            clips_resolved(clip_to_media@, old(video)@),
            clips_resolved(clip_to_media@, old(audio)@),
        ensures
            clip_views(final(video)@) == clip_views(old(video)@) + kind_clips(*self, clip_to_media@, list@, "VideoTracks"@),
            clip_views(final(audio)@) == clip_views(old(audio)@) + kind_clips(*self, clip_to_media@, list@, "AudioTracks"@),
            clips_resolved(clip_to_media@, final(video)@),
            clips_resolved(clip_to_media@, final(audio)@),
    {
        let ghost v0 = video@;
        let ghost a0 = audio@;
        let mut i: usize = 0;
        while i < list.len()
            invariant
                self.wf(),
                indices_below(list@, self.refs@.len() as int),
                i <= list@.len(),
                clip_views(video@) == clip_views(v0) + kind_clips(*self, clip_to_media@, list@.subrange(0, i as int), "VideoTracks"@),
                clip_views(audio@) == clip_views(a0) + kind_clips(*self, clip_to_media@, list@.subrange(0, i as int), "AudioTracks"@),
                clips_resolved(clip_to_media@, video@),
                clips_resolved(clip_to_media@, audio@),
            decreases list@.len() - i,
        {
            let ghost pre = list@.subrange(0, i + 1);
            assert(pre.drop_last() =~= list@.subrange(0, i as int));
            assert(pre.last() == list@[i as int]);
            let ghost vb = video@;
            let ghost ab = audio@;
            let r = &self.refs[list[i]];
            proof {
                reveal_strlit("VideoTracks");
                reveal_strlit("AudioTracks");
                assert("VideoTracks"@ != "AudioTracks"@) by {
                    assert("VideoTracks"@[0] != "AudioTracks"@[0]);
                }
            }
            if str_eq(r.child_tag.as_str(), "VideoTracks") {
                self.find_clips_in_tracks(&r.target, r.is_guid, clip_to_media, video, 0);
                assert(clip_views(video@) =~= clip_views(v0) + kind_clips(*self, clip_to_media@, pre, "VideoTracks"@));
                assert(clip_views(audio@) =~= clip_views(a0) + kind_clips(*self, clip_to_media@, pre, "AudioTracks"@));
            } else if str_eq(r.child_tag.as_str(), "AudioTracks") {
                self.find_clips_in_tracks(&r.target, r.is_guid, clip_to_media, audio, 0);
                assert(clip_views(video@) =~= clip_views(v0) + kind_clips(*self, clip_to_media@, pre, "VideoTracks"@));
                assert(clip_views(audio@) =~= clip_views(a0) + kind_clips(*self, clip_to_media@, pre, "AudioTracks"@));
            } else {
                assert(clip_views(video@) =~= clip_views(v0) + kind_clips(*self, clip_to_media@, pre, "VideoTracks"@));
                assert(clip_views(audio@) =~= clip_views(a0) + kind_clips(*self, clip_to_media@, pre, "AudioTracks"@));
            }
            i = i + 1;
        }
        assert(list@.subrange(0, list@.len() as int) =~= list@);
    }

    /// Collects the clips of the sequence with GUID `uid` through its
    /// `VideoTracks` and `AudioTracks` references; when none are found, every
    /// resolved clip is taken, with its timing read from the graph.
    pub fn populate_sequence_tracks(&self, sequence: &mut Sequence, uid: &String, clip_to_media: &Vec<ClipMedia>)
        requires
            self.wf(),
            old(sequence).video_tracks@.len() == 0,
            old(sequence).audio_tracks@.len() == 0,
        ensures
            final(sequence).object_id == old(sequence).object_id,
            final(sequence).name == old(sequence).name,
            final(sequence).duration_ticks == old(sequence).duration_ticks,
            final(sequence).nested_sequences == old(sequence).nested_sequences,
            final(sequence).video_tracks@.len() == if sequence_clips(*self, clip_to_media@, uid@, true).len() > 0 { 1int } else { 0int },
            final(sequence).audio_tracks@.len() == if sequence_clips(*self, clip_to_media@, uid@, false).len() > 0 { 1int } else { 0int },
            final(sequence).video_tracks@.len() == 1 ==> clip_views(final(sequence).video_tracks@[0].clips@) == sequence_clips(
                *self,
                clip_to_media@,
                uid@,
                true,
            ) && final(sequence).video_tracks@[0].object_id@ == uid@ + "_video"@ && final(sequence).video_tracks@[0].track_type
                == TrackType::Video,
            final(sequence).audio_tracks@.len() == 1 ==> clip_views(final(sequence).audio_tracks@[0].clips@) == sequence_clips(
                *self,
                clip_to_media@,
                uid@,
                false,
            ) && final(sequence).audio_tracks@[0].object_id@ == uid@ + "_audio"@ && final(sequence).audio_tracks@[0].track_type
                == TrackType::Audio,
            forall|t: int| 0 <= t < final(sequence).video_tracks@.len() ==> clips_resolved(
                clip_to_media@,
                (#[trigger] final(sequence).video_tracks@[t]).clips@,
            ),
            forall|t: int| 0 <= t < final(sequence).audio_tracks@.len() ==> clips_resolved(
                clip_to_media@,
                (#[trigger] final(sequence).audio_tracks@[t]).clips@,
            ),
    {
        let mut video: Vec<TrackClip> = Vec::new();
        let mut audio: Vec<TrackClip> = Vec::new();
        let empty: Vec<usize> = Vec::new();
        let by_uid: &Vec<usize> = match self.refs_from_uid.get(uid.as_str()) {
            Some(v) => v,
            None => &empty,
        };
        let by_id: &Vec<usize> = match self.refs_from_id.get(uid.as_str()) {
            Some(v) => v,
            None => &empty,
        };
        assert(by_uid@ == refs_under(*self, uid@, true));
        assert(by_id@ == refs_under(*self, uid@, false));
        proof {
            if by_uid@.len() > 0 {
                assert(indices_below(self.refs_from_uid@[uid@]@, self.refs@.len() as int));
            }
            if by_id@.len() > 0 {
                assert(indices_below(self.refs_from_id@[uid@]@, self.refs@.len() as int));
            }
        }
        self.collect_track_refs(by_uid, clip_to_media, &mut video, &mut audio);
        self.collect_track_refs(by_id, clip_to_media, &mut video, &mut audio);
        assert(clip_views(video@) =~= direct_clips(*self, clip_to_media@, uid@, "VideoTracks"@));
        assert(clip_views(audio@) =~= direct_clips(*self, clip_to_media@, uid@, "AudioTracks"@));
        if video.len() == 0 && audio.len() == 0 {
            self.fallback_clips(clip_to_media, &mut video, &mut audio);
            assert(clip_views(video@) =~= fallback_views(*self, clip_to_media@, true));
            assert(clip_views(audio@) =~= fallback_views(*self, clip_to_media@, false));
        }
        assert(clip_views(video@) == sequence_clips(*self, clip_to_media@, uid@, true));
        assert(clip_views(audio@) == sequence_clips(*self, clip_to_media@, uid@, false));
        if video.len() > 0 {
            sequence.video_tracks.push(Track {
                object_id: text_with_suffix_after(uid, "_video"),
                name: "Video".to_owned(),
                track_type: TrackType::Video,
                clips: video,
            });
        }
        if audio.len() > 0 {
            sequence.audio_tracks.push(Track {
                object_id: text_with_suffix_after(uid, "_audio"),
                name: "Audio".to_owned(),
                track_type: TrackType::Audio,
                clips: audio,
            });
        }
    }

    /// Every resolved clip, on the video or audio list by the tag of its
    /// track item, with timeline and source spans read from the graph.
    fn fallback_clips(&self, clip_to_media: &Vec<ClipMedia>, video: &mut Vec<TrackClip>, audio: &mut Vec<TrackClip>)
        requires
            self.wf(),
            clips_resolved(clip_to_media@, old(video)@),
            clips_resolved(clip_to_media@, old(audio)@),
        ensures
            clip_views(final(video)@) == clip_views(old(video)@) + fallback_views(*self, clip_to_media@, true),
            clip_views(final(audio)@) == clip_views(old(audio)@) + fallback_views(*self, clip_to_media@, false),
            clips_resolved(clip_to_media@, final(video)@),
            clips_resolved(clip_to_media@, final(audio)@),
    {
        let ghost v0 = video@;
        let ghost a0 = audio@;
        let mut i: usize = 0;
        while i < clip_to_media.len()
            invariant
                self.wf(),
                i <= clip_to_media@.len(),
                clip_views(video@) == clip_views(v0) + fallback_views(*self, clip_to_media@.subrange(0, i as int), true),
                clip_views(audio@) == clip_views(a0) + fallback_views(*self, clip_to_media@.subrange(0, i as int), false),
                clips_resolved(clip_to_media@, video@),
                clips_resolved(clip_to_media@, audio@),
            decreases clip_to_media@.len() - i,
        {
            let ghost pre = clip_to_media@.subrange(0, i + 1);
            assert(pre.drop_last() =~= clip_to_media@.subrange(0, i as int));
            assert(pre.last() == clip_to_media@[i as int]);
            let ghost vb = video@;
            let ghost ab = audio@;
            let cm = &clip_to_media[i];
            proof {
                reveal_strlit("VideoClipTrackItem");
                reveal_strlit("AudioClipTrackItem");
                assert("VideoClipTrackItem"@ != "AudioClipTrackItem"@) by {
                    assert("VideoClipTrackItem"@[0] != "AudioClipTrackItem"@[0]);
                }
            }
            match self.objects_by_id.get(cm.clip_id.as_str()) {
                Some(positions) => {
                    if positions.len() > 0 {
                        let pos = positions[0];
                        proof {
                            assert(self.objects_by_id@.contains_key(cm.clip_id@));
                            assert(indices_below(self.objects_by_id@[cm.clip_id@]@, self.objects@.len() as int));
                        }
                        let start_ticks = match self.child_i64(pos, "Start") {
                            Some(v) => v,
                            None => 0,
                        };
                        let end_ticks = match self.child_i64(pos, "End") {
                            Some(v) => v,
                            None => 0,
                        };
                        let span = end_ticks as i128 - start_ticks as i128;
                        let timeline = if span > i64::MAX as i128 {
                            i64::MAX
                        } else if span < i64::MIN as i128 {
                            i64::MIN
                        } else {
                            span as i64
                        };
                        let (in_point_ticks, out_point_ticks) = self.get_clip_in_out_points(&cm.clip_id, timeline);
                        let clip = TrackClip {
                            object_id: cm.clip_id.clone(),
                            name: String::new(),
                            start_ticks,
                            end_ticks,
                            in_point_ticks,
                            out_point_ticks,
                            media_ref: Some(cm.media_id.clone()),
                            clip_type: ClipType::Standard,
                            speed_percent: 100,
                        };
                        proof {
                            assert(resolved(clip_to_media@, cm.media_id@)) by {
                                assert(clip_to_media@[i as int].media_id@ == cm.media_id@);
                            }
                            assert(clip_view(clip) == fallback_view(*self, *cm));
                        }
                        if str_eq(self.objects[pos].tag.as_str(), "VideoClipTrackItem") {
                            video.push(clip);
                            proof {
                                lemma_push_resolved(clip_to_media@, vb, clip);
                                assert(clip_views(video@) =~= clip_views(vb).push(clip_view(clip)));
                            }
                        } else if str_eq(self.objects[pos].tag.as_str(), "AudioClipTrackItem") {
                            audio.push(clip);
                            proof {
                                lemma_push_resolved(clip_to_media@, ab, clip);
                                assert(clip_views(audio@) =~= clip_views(ab).push(clip_view(clip)));
                            }
                        }
                    }
                },
                None => {},
            }
            assert(clip_views(video@) =~= clip_views(v0) + fallback_views(*self, pre, true));
            assert(clip_views(audio@) =~= clip_views(a0) + fallback_views(*self, pre, false));
            i = i + 1;
        }
        assert(clip_to_media@.subrange(0, clip_to_media@.len() as int) =~= clip_to_media@);
    }
}

proof fn lemma_push_resolved(cm: Seq<ClipMedia>, clips: Seq<TrackClip>, c: TrackClip)
    requires
        clips_resolved(cm, clips),
        c.clip_type is Standard,
        c.media_ref matches Some(m) && resolved(cm, m@),
    ensures
        clips_resolved(cm, clips.push(c)),
{
    assert forall|j: int| 0 <= j < clips.push(c).len() implies (#[trigger] clips.push(c)[j]).clip_type is Standard && (clips.push(
        c,
    )[j].media_ref matches Some(m) && resolved(cm, m@)) by {
        if j < clips.len() {
            assert(clips.push(c)[j] == clips[j]);
        }
    }
}

fn text_with_suffix_after(id: &String, suffix: &str) -> (r: String)
    ensures
        r@ == id@ + suffix@,
{
    let mut v = chars_of(id.as_str());
    append_str(&mut v, suffix);
    string_of(&v)
}

/// The project-item type of an element tag.
pub open spec fn item_type_of(tag: Seq<char>) -> ProjectItemType {
    if tag == "SequenceProjectItem"@ {
        ProjectItemType::Sequence
    } else if tag == "BinProjectItem"@ {
        ProjectItemType::Bin
    } else if tag == "SubclipProjectItem"@ {
        ProjectItemType::Subclip
    } else if tag == "MergedClipProjectItem"@ {
        ProjectItemType::MergedClip
    } else if tag == "MultiCameraClipProjectItem"@ {
        ProjectItemType::Multicam
    } else {
        ProjectItemType::Clip
    }
}

/// The tags of project-panel items.
pub open spec fn item_tag(tag: Seq<char>) -> bool {
    tag == "ClipProjectItem"@ || tag == "SequenceProjectItem"@ || tag == "BinProjectItem"@ || tag == "SubclipProjectItem"@
        || tag == "MergedClipProjectItem"@ || tag == "MultiCameraClipProjectItem"@
}

fn is_item_tag(tag: &str) -> (r: bool)
    ensures
        r == item_tag(tag@),
{
    str_eq(tag, "ClipProjectItem") || str_eq(tag, "SequenceProjectItem") || str_eq(tag, "BinProjectItem") || str_eq(
        tag,
        "SubclipProjectItem",
    ) || str_eq(tag, "MergedClipProjectItem") || str_eq(tag, "MultiCameraClipProjectItem")
}

/// The tags of bins.
pub open spec fn bin_tag(tag: Seq<char>) -> bool {
    tag == "Bin"@ || tag == "BinProjectItem"@ || tag == "RootProjectItem"@
}

fn is_bin_tag(tag: &str) -> (r: bool)
    ensures
        r == bin_tag(tag@),
{
    str_eq(tag, "Bin") || str_eq(tag, "BinProjectItem") || str_eq(tag, "RootProjectItem")
}

/// A media file at `path`, of the type its extension names.
pub fn media_file_for(id: &String, path: &String) -> (r: MediaFile)
    ensures
        r.object_id == *id,
        r.file_path == *path,
        r.has_video == r.media_type.spec_has_video(),
        r.has_audio == r.media_type.spec_has_audio(),
        !r.is_offline,
{
    let name = file_name(path.as_str());
    let media_type = match extension(name.as_str()) {
        Some(e) => {
            let lower = lowercase(e.as_str());
            MediaType::from_extension(lower.as_str())
        },
        None => MediaType::from_lower_extension(""),
    };
    MediaFile {
        object_id: id.clone(),
        file_path: path.clone(),
        has_video: media_type.has_video(),
        has_audio: media_type.has_audio(),
        duration_ticks: 0,
        frame_rate: None,
        proxy_path: None,
        is_offline: false,
        media_type,
    }
}

impl ParserState {
    /// A bin named by its `Name` attribute or child, under `ParentID`.
    pub fn parse_bin_from_obj(&self, id: &String, pos: usize) -> (r: Bin)
        requires
            pos < self.objects@.len(),
        ensures
            r.object_id == *id,
            r.parent_id == attr_of(self.objects@[pos as int].attributes@, "ParentID"@),
            r.name@ == match attr_of(self.objects@[pos as int].attributes@, "Name"@) {
                Some(n) => n@,
                None => match self.spec_first_child(pos as nat, "Name"@) {
                    Some(n) => n@,
                    None => "Bin "@ + id@,
                },
            },
    {
        let obj = &self.objects[pos];
        let name = match attr_value(&obj.attributes, "Name") {
            Some(n) => n,
            None => match self.first_child(pos, "Name") {
                Some(n) => n,
                None => text_with_suffix("Bin ", id),
            },
        };
        Bin {
            object_id: id.clone(),
            name,
            parent_id: attr_value(&obj.attributes, "ParentID"),
            children: Vec::new(),
            path: String::new(),
        }
    }

    /// A project item, typed by the element's tag.
    pub fn parse_project_item(&self, id: &String, pos: usize) -> (r: ProjectItem)
        requires
            pos < self.objects@.len(),
        ensures
            r.object_id == *id,
            r.item_type == item_type_of(self.objects@[pos as int].tag@),
            r.bin_id == attr_of(self.objects@[pos as int].attributes@, "ParentBinID"@),
            r.name@ == match attr_of(self.objects@[pos as int].attributes@, "Name"@) {
                Some(n) => n@,
                None => match self.spec_first_child(pos as nat, "Name"@) {
                    Some(n) => n@,
                    None => "Item "@ + id@,
                },
            },
            r.media_ref == match attr_of(self.objects@[pos as int].attributes@, "MediaRef"@) {
                Some(m) => Some(m),
                None => self.spec_first_child(pos as nat, "MediaRef"@),
            },
    {
        let obj = &self.objects[pos];
        proof {
            reveal_strlit("SequenceProjectItem");
            reveal_strlit("BinProjectItem");
            reveal_strlit("SubclipProjectItem");
            reveal_strlit("MergedClipProjectItem");
            reveal_strlit("MultiCameraClipProjectItem");
        }
        let name = match attr_value(&obj.attributes, "Name") {
            Some(n) => n,
            None => match self.first_child(pos, "Name") {
                Some(n) => n,
                None => text_with_suffix("Item ", id),
            },
        };
        let tag = obj.tag.as_str();
        let item_type = if str_eq(tag, "SequenceProjectItem") {
            ProjectItemType::Sequence
        } else if str_eq(tag, "BinProjectItem") {
            ProjectItemType::Bin
        } else if str_eq(tag, "SubclipProjectItem") {
            ProjectItemType::Subclip
        } else if str_eq(tag, "MergedClipProjectItem") {
            ProjectItemType::MergedClip
        } else if str_eq(tag, "MultiCameraClipProjectItem") {
            ProjectItemType::Multicam
        } else {
            ProjectItemType::Clip
        };
        let media_ref = match attr_value(&obj.attributes, "MediaRef") {
            Some(m) => Some(m),
            None => self.first_child(pos, "MediaRef"),
        };
        ProjectItem { object_id: id.clone(), name, item_type, media_ref, bin_id: attr_value(&obj.attributes, "ParentBinID") }
    }

    /// Every item is read by `parse_project_item` from an object with a
    /// project-item tag.
    pub open spec fn items_from_objects(&self, items: Seq<ProjectItem>) -> bool {
        forall|k: int| 0 <= k < items.len() ==> exists|pos: int|
            0 <= pos < self.objects@.len() && item_tag(self.objects@[pos].tag@) && (#[trigger] items[k]).item_type
                == item_type_of(self.objects@[pos].tag@) && items[k].bin_id == attr_of(self.objects@[pos].attributes@, "ParentBinID"@)
    }

    /// Every bin is read by `parse_bin_from_obj` from an object with a bin tag.
    pub open spec fn bins_from_objects(&self, bins: Seq<Bin>) -> bool {
        forall|k: int| 0 <= k < bins.len() ==> exists|pos: int|
            0 <= pos < self.objects@.len() && bin_tag(self.objects@[pos].tag@) && (#[trigger] bins[k]).parent_id
                == attr_of(self.objects@[pos].attributes@, "ParentID"@)
    }

    proof fn lemma_push_bin(&self, bins: Seq<Bin>, bin: Bin, pos: int)
        requires
            self.bins_from_objects(bins),
            0 <= pos < self.objects@.len(),
            bin_tag(self.objects@[pos].tag@),
            bin.parent_id == attr_of(self.objects@[pos].attributes@, "ParentID"@),
        ensures
            self.bins_from_objects(bins.push(bin)),
    {
        assert forall|k: int| 0 <= k < bins.push(bin).len() implies exists|p: int|
            0 <= p < self.objects@.len() && bin_tag(self.objects@[p].tag@) && (#[trigger] bins.push(bin)[k]).parent_id
                == attr_of(self.objects@[p].attributes@, "ParentID"@) by {
            if k < bins.len() {
                assert(bins.push(bin)[k] == bins[k]);
            } else {
                assert(bins.push(bin)[k] == bin);
            }
        }
    }

    proof fn lemma_push_item(&self, items: Seq<ProjectItem>, item: ProjectItem, pos: int)
        requires
            self.items_from_objects(items),
            0 <= pos < self.objects@.len(),
            item_tag(self.objects@[pos].tag@),
            item.item_type == item_type_of(self.objects@[pos].tag@),
            item.bin_id == attr_of(self.objects@[pos].attributes@, "ParentBinID"@),
        ensures
            self.items_from_objects(items.push(item)),
    {
        assert forall|k: int| 0 <= k < items.push(item).len() implies exists|p: int|
            0 <= p < self.objects@.len() && item_tag(self.objects@[p].tag@) && (#[trigger] items.push(item)[k]).item_type
                == item_type_of(self.objects@[p].tag@) && items.push(item)[k].bin_id == attr_of(self.objects@[p].attributes@, "ParentBinID"@) by {
            if k < items.len() {
                assert(items.push(item)[k] == items[k]);
            } else {
                assert(items.push(item)[k] == item);
            }
        }
    }

    /// Media files, sequences and bins of the graph.
    pub fn build_project(&self, file_path: &String) -> (r: PremiereProject)
        requires
            self.wf(),
        ensures
            r.wf(),
            r.file_path == *file_path,
            r.version == self.version,
            r.media_files@.len() == self.media_keys@.len(),
            forall|a: int| 0 <= a < r.sequences@.len() ==> sequence_shows_media(*self, #[trigger] r.sequences@[a]),
            forall|i: int| 0 <= i < r.media_files@.len() ==> (#[trigger] r.media_files@[i]).object_id == self.media_keys@[i]
                && r.media_files@[i].file_path == self.media_paths@[self.media_keys@[i]@],
            self.items_from_objects(r.project_items@),
            r.sequences@.map_values(|q: Sequence| q.object_id@) == self.admitted_ids(self.uid_keys@),
            forall|i: int| 0 <= i < r.bins@.len() ==> (#[trigger] r.bins@[i]).path@ == bin_path_from(r.bins@, i, r.bins@.len()),
            self.bins_from_objects(r.bins@),
            exists|cm: Seq<ClipMedia>| clip_pairs(cm) == resolved_clips(*self, self.id_keys@) && forall|a: int|
                0 <= a < r.sequences@.len() ==> self.sequence_built(cm, #[trigger] r.sequences@[a]),
    {
        // Media files, one per media path found.
        let mut media_files: Vec<MediaFile> = Vec::new();
        let mut i: usize = 0;
        while i < self.media_keys.len()
            invariant
                self.wf(),
                i <= self.media_keys@.len(),
                media_files@.len() == i,
                forall|a: int| 0 <= a < i ==> (#[trigger] media_files@[a]).object_id == self.media_keys@[a]
                    && media_files@[a].file_path == self.media_paths@[self.media_keys@[a]@],
            decreases self.media_keys@.len() - i,
        {
            let key = &self.media_keys[i];
            proof {
                assert(key_set(self.media_keys@).contains(key@));
            }
            let path = self.media_paths.get(key.as_str()).unwrap();
            media_files.push(media_file_for(key, path));
            i = i + 1;
        }
        // Sequences: `Sequence` elements of the sequence class.
        let clip_to_media = self.resolve_clips();
        let mut sequences: Vec<Sequence> = Vec::new();
        let mut j: usize = 0;
        while j < self.uid_keys.len()
            invariant
                self.wf(),
                j <= self.uid_keys@.len(),
                forall|a: int| 0 <= a < sequences@.len() ==> exists|b: int| 0 <= b < j && (#[trigger] sequences@[a]).object_id@ == self.uid_keys@[b]@,
                forall|a: int, b: int| 0 <= a < b < sequences@.len() ==> sequences@[a].object_id@ != sequences@[b].object_id@,
                forall|a: int| 0 <= a < sequences@.len() ==> sequence_shows_media(*self, #[trigger] sequences@[a]),
                forall|i: int| 0 <= i < clip_to_media@.len() ==> is_media_target(*self, (#[trigger] clip_to_media@[i]).media_id@),
                sequences@.map_values(|q: Sequence| q.object_id@) == self.admitted_ids(self.uid_keys@.subrange(0, j as int)),
                forall|a: int| 0 <= a < sequences@.len() ==> self.sequence_built(clip_to_media@, #[trigger] sequences@[a]),
                clip_pairs(clip_to_media@) == resolved_clips(*self, self.id_keys@),
            decreases self.uid_keys@.len() - j,
        {
            let uid = &self.uid_keys[j];
            proof {
                assert(key_set(self.uid_keys@).contains(uid@));
                reveal_strlit("Sequence");
                reveal_strlit("ClassID");
                let pre = self.uid_keys@.subrange(0, j + 1);
                assert(pre.drop_last() =~= self.uid_keys@.subrange(0, j as int));
                assert(pre.last() == *uid);
            }
            let ghost seqs_before = sequences@;
            let pos = *self.objects_by_uid.get(uid.as_str()).unwrap();
            let obj = &self.objects[pos];
            if str_eq(obj.tag.as_str(), "Sequence") {
                let class_id = attr_value(&obj.attributes, "ClassID");
                let admitted = match &class_id {
                    Some(c) => str_eq(c.as_str(), SEQUENCE_CLASS_ID),
                    None => false,
                };
                if admitted {
                    let mut sequence = self.parse_sequence_from_obj(uid, pos);
                    self.populate_sequence_tracks(&mut sequence, uid, &clip_to_media);
                    proof {
                        lemma_tracks_show_media(*self, clip_to_media@, sequence.video_tracks@);
                        lemma_tracks_show_media(*self, clip_to_media@, sequence.audio_tracks@);
                    }
                    let ghost before = sequences@;
                    sequences.push(sequence);
                    proof {
                        assert(self.admitted(uid@));
                        assert(sequences@.map_values(|q: Sequence| q.object_id@) =~= before.map_values(|q: Sequence| q.object_id@).push(uid@));
                        assert forall|a: int| 0 <= a < sequences@.len() implies self.sequence_built(clip_to_media@, #[trigger] sequences@[a]) by {
                            if a < before.len() {
                                assert(sequences@[a] == before[a]);
                            }
                        }
                        assert forall|a: int| 0 <= a < sequences@.len() implies sequence_shows_media(*self, #[trigger] sequences@[a]) by {
                            if a < before.len() {
                                assert(sequences@[a] == before[a]);
                            }
                        }
                        assert forall|a: int| 0 <= a < sequences@.len() implies exists|b: int| 0 <= b < j + 1 && (#[trigger] sequences@[a]).object_id@ == self.uid_keys@[b]@ by {
                            if a < before.len() {
                                assert(sequences@[a] == before[a]);
                            } else {
                                assert(sequences@[a].object_id@ == self.uid_keys@[j as int]@);
                            }
                        }
                        assert forall|a: int, b: int| 0 <= a < b < sequences@.len() implies sequences@[a].object_id@ != sequences@[b].object_id@ by {
                            if b == before.len() {
                                assert(sequences@[a] == before[a]);
                                let c = choose|c: int| 0 <= c < j && before[a].object_id@ == self.uid_keys@[c]@;
                                assert(self.uid_keys@[c]@ != self.uid_keys@[j as int]@);
                            } else {
                                assert(sequences@[a] == before[a]);
                                assert(sequences@[b] == before[b]);
                            }
                        }
                    }
                }
            }
            proof {
                let pre = self.uid_keys@.subrange(0, j + 1);
                assert(sequences@.map_values(|q: Sequence| q.object_id@) =~= self.admitted_ids(pre));
            }
            j = j + 1;
        }
        // Bins, by numeric id and then by GUID.
        let mut bins: Vec<Bin> = Vec::new();
        let mut items: Vec<ProjectItem> = Vec::new();
        assert(self.items_from_objects(items@));
        assert(self.bins_from_objects(bins@));
        let mut k: usize = 0;
        while k < self.id_keys.len()
            invariant
                self.wf(),
                k <= self.id_keys@.len(),
                self.items_from_objects(items@),
                self.bins_from_objects(bins@),
            decreases self.id_keys@.len() - k,
        {
            let key = &self.id_keys[k];
            proof {
                assert(key_set(self.id_keys@).contains(key@));
            }
            let positions = self.objects_by_id.get(key.as_str()).unwrap();
            let mut m: usize = 0;
            while m < positions.len()
                invariant
                    self.wf(),
                    indices_below(positions@, self.objects@.len() as int),
                    m <= positions@.len(),
                    self.items_from_objects(items@),
                    self.bins_from_objects(bins@),
                decreases positions@.len() - m,
            {
                if is_bin_tag(self.objects[positions[m]].tag.as_str()) {
                    let bin = self.parse_bin_from_obj(key, positions[m]);
                    let ghost before = bins@;
                    bins.push(bin);
                    proof {
                        self.lemma_push_bin(before, bin, positions@[m as int] as int);
                    }
                }
                if is_item_tag(self.objects[positions[m]].tag.as_str()) {
                    let item = self.parse_project_item(key, positions[m]);
                    let ghost before = items@;
                    items.push(item);
                    proof {
                        self.lemma_push_item(before, item, positions@[m as int] as int);
                    }
                }
                m = m + 1;
            }
            k = k + 1;
        }
        let mut u: usize = 0;
        while u < self.uid_keys.len()
            invariant
                self.wf(),
                u <= self.uid_keys@.len(),
                self.items_from_objects(items@),
                self.bins_from_objects(bins@),
            decreases self.uid_keys@.len() - u,
        {
            let uid = &self.uid_keys[u];
            proof {
                assert(key_set(self.uid_keys@).contains(uid@));
            }
            let pos = *self.objects_by_uid.get(uid.as_str()).unwrap();
            if is_bin_tag(self.objects[pos].tag.as_str()) {
                let bin = self.parse_bin_from_obj(uid, pos);
                let ghost before = bins@;
                bins.push(bin);
                proof {
                    self.lemma_push_bin(before, bin, pos as int);
                }
            }
            if is_item_tag(self.objects[pos].tag.as_str()) {
                let item = self.parse_project_item(uid, pos);
                let ghost before = items@;
                items.push(item);
                proof {
                    self.lemma_push_item(before, item, pos as int);
                }
            }
            u = u + 1;
        }
        assert(self.uid_keys@.subrange(0, self.uid_keys@.len() as int) =~= self.uid_keys@);
        let ghost unpathed = bins@;
        build_bin_paths(&mut bins);
        proof {
            assert forall|k: int| 0 <= k < bins@.len() implies exists|pos: int|
                0 <= pos < self.objects@.len() && bin_tag(self.objects@[pos].tag@) && (#[trigger] bins@[k]).parent_id
                    == attr_of(self.objects@[pos].attributes@, "ParentID"@) by {
                assert(bins@[k].parent_id == unpathed[k].parent_id);
                let pos = choose|pos: int|
                    0 <= pos < self.objects@.len() && bin_tag(self.objects@[pos].tag@) && (#[trigger] unpathed[k]).parent_id
                        == attr_of(self.objects@[pos].attributes@, "ParentID"@);
            }
        }
        let name = stem(file_name(file_path.as_str()).as_str());
        let r = PremiereProject {
            file_path: file_path.clone(),
            name,
            version: self.version,
            bins,
            sequences,
            media_files,
            project_items: items,
        };
        proof {
            assert forall|a: int, b: int| 0 <= a < b < r.media_files@.len() implies r.media_files@[a].object_id@ != r.media_files@[b].object_id@ by {
                assert(r.media_files@[a].object_id == self.media_keys@[a]);
                assert(r.media_files@[b].object_id == self.media_keys@[b]);
            }
        }
        r
    }
}

/// The index of the first bin, from `k` on, with identifier `id`.
pub open spec fn bin_index_from(bins: Seq<Bin>, id: Seq<char>, k: int) -> Option<int>
    decreases bins.len() - k,
{
    if k < 0 || k >= bins.len() {
        None
    } else if bins[k].object_id@ == id {
        Some(k)
    } else {
        bin_index_from(bins, id, k + 1)
    }
}

/// The bin that bin `i` names as its parent, if the list has one.
pub open spec fn parent_index(bins: Seq<Bin>, i: int) -> Option<int> {
    match bins[i].parent_id {
        Some(p) => bin_index_from(bins, p@, 0),
        None => None,
    }
}

/// The slash-joined names from the root of bin `i` down to it, following at
/// most `fuel` parents.
pub open spec fn bin_path_from(bins: Seq<Bin>, i: int, fuel: nat) -> Seq<char>
    decreases fuel,
{
    match parent_index(bins, i) {
        Some(k) => if fuel > 0 {
            bin_path_from(bins, k, (fuel - 1) as nat) + seq!['/'] + bins[i].name@
        } else {
            bins[i].name@
        },
        None => bins[i].name@,
    }
}

/// The chain of parents from bin `i` ends within `fuel` steps.
pub open spec fn chain_ends(bins: Seq<Bin>, i: int, fuel: nat) -> bool
    decreases fuel,
{
    match parent_index(bins, i) {
        Some(k) => fuel > 0 && chain_ends(bins, k, (fuel - 1) as nat),
        None => true,
    }
}

proof fn lemma_index_bounds(bins: Seq<Bin>, id: Seq<char>, k: int)
    ensures
        bin_index_from(bins, id, k) matches Some(j) ==> 0 <= j < bins.len() && bins[j].object_id@ == id,
    decreases bins.len() - k,
{
    if 0 <= k < bins.len() && bins[k].object_id@ != id {
        lemma_index_bounds(bins, id, k + 1);
    }
}

/// More fuel changes nothing once the chain ends.
proof fn lemma_path_stable(bins: Seq<Bin>, i: int, f: nat, g: nat)
    requires
        chain_ends(bins, i, f),
        f <= g,
    ensures
        bin_path_from(bins, i, g) == bin_path_from(bins, i, f),
    decreases f,
{
    match parent_index(bins, i) {
        Some(k) => {
            lemma_path_stable(bins, k, (f - 1) as nat, (g - 1) as nat);
        },
        None => {},
    }
}

/// Two bin lists that agree on identifiers, names and parents.
pub open spec fn same_bins(a: Seq<Bin>, b: Seq<Bin>) -> bool {
    a.len() == b.len() && forall|i: int| 0 <= i < a.len() ==> (#[trigger] a[i]).object_id == b[i].object_id && a[i].name == b[i].name
        && a[i].parent_id == b[i].parent_id
}

proof fn lemma_index_same(a: Seq<Bin>, b: Seq<Bin>, id: Seq<char>, k: int)
    requires
        same_bins(a, b),
    ensures
        bin_index_from(a, id, k) == bin_index_from(b, id, k),
    decreases a.len() - k,
{
    if 0 <= k < a.len() {
        assert(a[k].object_id == b[k].object_id);
        lemma_index_same(a, b, id, k + 1);
    }
}

proof fn lemma_path_same(a: Seq<Bin>, b: Seq<Bin>, i: int, fuel: nat)
    requires
        same_bins(a, b),
        0 <= i < a.len(),
    ensures
        bin_path_from(a, i, fuel) == bin_path_from(b, i, fuel),
    decreases fuel,
{
    assert(a[i].parent_id == b[i].parent_id && a[i].name == b[i].name);
    match a[i].parent_id {
        Some(p) => {
            lemma_index_same(a, b, p@, 0);
            lemma_index_bounds(a, p@, 0);
            match bin_index_from(a, p@, 0) {
                Some(k) => if fuel > 0 {
                    lemma_path_same(a, b, k, (fuel - 1) as nat);
                },
                None => {},
            }
        },
        None => {},
    }
}

/// The index of the first bin with identifier `id`.
fn find_bin(bins: &Vec<Bin>, id: &String) -> (r: Option<usize>)
    ensures
        match r {
            Some(k) => bin_index_from(bins@, id@, 0) == Some(k as int) && k < bins@.len(),
            None => bin_index_from(bins@, id@, 0) is None,
        },
{
    let mut i: usize = 0;
    while i < bins.len()
        invariant
            i <= bins@.len(),
            bin_index_from(bins@, id@, 0) == bin_index_from(bins@, id@, i as int),
        decreases bins@.len() - i,
    {
        if str_eq(bins[i].object_id.as_str(), id.as_str()) {
            return Some(i);
        }
        i = i + 1;
    }
    None
}

/// The path of bin `i`, following at most `fuel` parents.
fn bin_path(bins: &Vec<Bin>, i: usize, fuel: usize) -> (r: Vec<char>)
    requires
        i < bins@.len(),
    ensures
        r@ == bin_path_from(bins@, i as int, fuel as nat),
    decreases fuel,
{
    let parent = match &bins[i].parent_id {
        Some(p) => find_bin(bins, p),
        None => None,
    };
    proof {
        match bins@[i as int].parent_id {
            Some(p) => lemma_index_bounds(bins@, p@, 0),
            None => {},
        }
    }
    let own = chars_of(bins[i].name.as_str());
    match parent {
        Some(k) => if fuel > 0 {
            let mut v = bin_path(bins, k, fuel - 1);
            v.push('/');
            append_str(&mut v, bins[i].name.as_str());
            v
        } else {
            own
        },
        None => own,
    }
}

/// Sets each bin's path to the slash-joined names from its root down to it,
/// following parents for at most as many steps as there are bins.
pub fn build_bin_paths(bins: &mut Vec<Bin>)
    ensures
        final(bins)@.len() == old(bins)@.len(),
        forall|i: int| 0 <= i < final(bins)@.len() ==> (#[trigger] final(bins)@[i]).object_id == old(bins)@[i].object_id
            && final(bins)@[i].name == old(bins)@[i].name && final(bins)@[i].parent_id == old(bins)@[i].parent_id,
        forall|i: int| 0 <= i < final(bins)@.len() ==> (#[trigger] final(bins)@[i]).path@ == bin_path_from(
            old(bins)@,
            i,
            old(bins)@.len(),
        ),
        forall|i: int| 0 <= i < final(bins)@.len() ==> (#[trigger] final(bins)@[i]).path@ == bin_path_from(
            final(bins)@,
            i,
            final(bins)@.len(),
        ),
{
    let n = bins.len();
    let mut paths: Vec<String> = Vec::new();
    let mut i: usize = 0;
    while i < n
        invariant
            n == bins@.len(),
            i <= n,
            paths@.len() == i,
            forall|a: int| 0 <= a < i ==> (#[trigger] paths@[a])@ == bin_path_from(bins@, a, n as nat),
        decreases n - i,
    {
        let v = bin_path(bins, i, n);
        paths.push(string_of(&v));
        i = i + 1;
    }
    let ghost b0 = bins@;
    let mut b: usize = 0;
    while b < n
        invariant
            n == bins@.len(),
            n == b0.len(),
            b <= n,
            paths@.len() == n,
            forall|a: int| 0 <= a < n ==> (#[trigger] bins@[a]).object_id == b0[a].object_id
                && bins@[a].name == b0[a].name && bins@[a].parent_id == b0[a].parent_id,
            forall|a: int| 0 <= a < b ==> (#[trigger] bins@[a]).path == paths@[a],
            forall|a: int| 0 <= a < n ==> (#[trigger] paths@[a])@ == bin_path_from(b0, a, n as nat),
        decreases n - b,
    {
        let mut bin = bins.remove(b);
        bin.path = paths[b].clone();
        bins.insert(b, bin);
        b = b + 1;
    }
    proof {
        assert(same_bins(b0, bins@));
        assert forall|i: int| 0 <= i < bins@.len() implies (#[trigger] bins@[i]).path@ == bin_path_from(bins@, i, bins@.len()) by {
            lemma_path_same(b0, bins@, i, n as nat);
        }
    }
}

/// A bin whose parent is found has the parent's path, a slash and its own
/// name, as long as the parent's chain of parents ends; a bin without a
/// parent has its name as its path.
pub proof fn law_bin_path_extends_parent(bins: Seq<Bin>, i: int, k: int)
    requires
        0 <= i < bins.len(),
        parent_index(bins, i) == Some(k),
        chain_ends(bins, k, (bins.len() - 1) as nat),
    ensures
        bin_path_from(bins, i, bins.len()) == bin_path_from(bins, k, bins.len()) + seq!['/'] + bins[i].name@,
        parent_index(bins, i) is None ==> bin_path_from(bins, i, bins.len()) == bins[i].name@,
{
    match bins[i].parent_id {
        Some(p) => lemma_index_bounds(bins, p@, 0),
        None => {},
    }
    lemma_path_stable(bins, k, (bins.len() - 1) as nat, bins.len());
}

/// What the media-path scan keeps: the open element tags, the identities of
/// the open elements, and the media paths found so far.
pub type PathScan = (Seq<String>, Seq<Context>, Map<Seq<char>, String>);

/// One event of the media-path scan, as the loader applies it.
pub open spec fn scan_step(s: PathScan, e: XmlEvent) -> PathScan {
    match e {
        XmlEvent::Start(el) => (
            s.0.push(el.tag),
            s.1.push(Context { id: attr_of(el.attrs@, "ObjectID"@), uid: attr_of(el.attrs@, "ObjectUID"@) }),
            s.2,
        ),
        XmlEvent::End => (
            if s.0.len() > 0 { s.0.drop_last() } else { s.0 },
            if s.1.len() > 0 { s.1.drop_last() } else { s.1 },
            s.2,
        ),
        XmlEvent::Text(t) => (
            s.0,
            s.1,
            if s.0.len() > 0 && path_tag(s.0.last()@) && media_path_text(t@, lower_of(t@)) {
                s.2.insert(media_owner(s.1), t)
            } else {
                s.2
            },
        ),
        _ => s,
    }
}

/// The scan after the first `n` events.
pub open spec fn scan_upto(events: Seq<XmlEvent>, n: int) -> PathScan
    decreases n,
{
    if n <= 0 {
        (Seq::empty(), Seq::empty(), Map::empty())
    } else {
        scan_step(scan_upto(events, n - 1), events[n - 1])
    }
}

/// The index of the first end of document from `i` on, else the length.
pub open spec fn end_from(events: Seq<XmlEvent>, i: int) -> int
    decreases events.len() - i,
{
    if i < 0 || i >= events.len() {
        events.len() as int
    } else if events[i] is Eof {
        i
    } else {
        end_from(events, i + 1)
    }
}

/// The media paths that the events up to the end of the document record,
/// keyed by the nearest enclosing GUID (else numeric id).
pub open spec fn media_paths_of(events: Seq<XmlEvent>) -> Map<Seq<char>, String> {
    scan_upto(events, end_from(events, 0)).2
}

/// Whether a syntax error comes before the first end of the document.
pub open spec fn malformed_before_end(events: Seq<XmlEvent>) -> bool {
    exists|k: int| 0 <= k < events.len() && (#[trigger] events[k] is Malformed) && forall|j: int| 0 <= j < k ==> !(events[j] is Eof)
}

/// Why a project could not be opened.
#[derive(Debug, Clone, Copy, PartialEq, Eq, Structural)]
pub enum LoadError {
    /// The file is not a GZIP stream of UTF-8 text.
    CorruptArchive,
    /// The document holds an XML syntax error.
    MalformedXml,
}

/// Parses the project file at `file_path`.
pub struct ProjectParser {
    pub file_path: String,
}

impl ProjectParser {
    pub fn new(file_path: &str) -> (r: ProjectParser)
        ensures
            r.file_path@ == file_path@,
    {
        ProjectParser { file_path: file_path.to_owned() }
    }

    /// The project that a stream of events describes; `MalformedXml` when a
    /// syntax error comes before the end of the document.
    pub fn parse_events(&self, events: &Vec<XmlEvent>) -> (r: Result<PremiereProject, LoadError>)
        ensures
            r is Err <==> malformed_before_end(events@),
            r is Err ==> r == Err::<PremiereProject, LoadError>(LoadError::MalformedXml),
            r matches Ok(p) ==> p.wf() && p.file_path == self.file_path,
            r matches Ok(p) ==> p.media_ids() == media_paths_of(events@).dom() && forall|k: int|
                0 <= k < p.media_files@.len() ==> (#[trigger] p.media_files@[k]).file_path == media_paths_of(events@)[p.media_files@[k].object_id@],
    {
        let mut state = ParserState::new();
        let mut i: usize = 0;
        assert(state.media_paths@ =~= Map::<Seq<char>, String>::empty());
        assert(state.current_element@ =~= Seq::<String>::empty());
        assert(state.context_stack@ =~= Seq::<Context>::empty());
        while i < events.len()
            invariant
                state.wf(),
                i <= events@.len(),
                forall|j: int| 0 <= j < i ==> !(#[trigger] events@[j] is Eof) && !(events@[j] is Malformed),
                end_from(events@, 0) == end_from(events@, i as int),
                state.current_element@ == scan_upto(events@, i as int).0,
                state.context_stack@ == scan_upto(events@, i as int).1,
                state.media_paths@ == scan_upto(events@, i as int).2,
            decreases events@.len() - i,
        {
            match &events[i] {
                XmlEvent::Eof => {
                    proof {
                        self.lemma_project_paths(state, events@, i as int);
                    }
                    assert(!malformed_before_end(events@)) by {
                        if malformed_before_end(events@) {
                            let k = choose|k: int| 0 <= k < events@.len() && (#[trigger] events@[k] is Malformed) && forall|j: int| 0 <= j < k ==> !(events@[j] is Eof);
                            if k > i {
                                assert(events@[i as int] is Eof);
                            }
                        }
                    }
                    let r = state.build_project(&self.file_path);
                    proof {
                        self.lemma_media_ids(state, r, events@);
                    }
                    return Ok(r);
                },
                XmlEvent::Malformed => {
                    assert(malformed_before_end(events@)) by {
                        assert(events@[i as int] is Malformed);
                    }
                    return Err(LoadError::MalformedXml);
                },
                ev => {
                    let e2 = copy_event(ev);
                    let ghost prev = scan_upto(events@, i as int);
                    assert(scan_step(prev, e2) == scan_step(prev, *ev));
                    state.handle_event(e2);
                },
            }
            assert(scan_upto(events@, i + 1) == scan_step(scan_upto(events@, i as int), events@[i as int]));
            i = i + 1;
        }
        proof {
            self.lemma_project_paths(state, events@, i as int);
        }
        let r = state.build_project(&self.file_path);
        proof {
            self.lemma_media_ids(state, r, events@);
        }
        Ok(r)
    }

    proof fn lemma_media_ids(&self, st: ParserState, r: PremiereProject, events: Seq<XmlEvent>)
        requires
            st.wf(),
            st.media_paths@ == media_paths_of(events),
            r.media_files@.len() == st.media_keys@.len(),
            forall|i: int| 0 <= i < r.media_files@.len() ==> (#[trigger] r.media_files@[i]).object_id == st.media_keys@[i]
                && r.media_files@[i].file_path == st.media_paths@[st.media_keys@[i]@],
        ensures
            r.media_ids() == media_paths_of(events).dom(),
            forall|k: int| 0 <= k < r.media_files@.len() ==> (#[trigger] r.media_files@[k]).file_path == media_paths_of(events)[r.media_files@[k].object_id@],
    {
        assert forall|m: Seq<char>| r.media_ids().contains(m) <==> media_paths_of(events).dom().contains(m) by {
            if r.media_ids().contains(m) {
                let i = choose|i: int| 0 <= i < r.media_files@.len() && #[trigger] r.media_files@[i].object_id@ == m;
                assert(key_set(st.media_keys@).contains(st.media_keys@[i]@));
            }
            if media_paths_of(events).dom().contains(m) {
                assert(key_set(st.media_keys@).contains(m));
                let i = choose|i: int| 0 <= i < st.media_keys@.len() && (#[trigger] st.media_keys@[i])@ == m;
                assert(r.media_files@[i].object_id@ == m);
            }
        }
        assert(r.media_ids() =~= media_paths_of(events).dom());
    }

    proof fn lemma_project_paths(&self, st: ParserState, events: Seq<XmlEvent>, i: int)
        requires
            st.wf(),
            0 <= i <= events.len(),
            end_from(events, 0) == end_from(events, i),
            i == events.len() || events[i] is Eof,
            st.media_paths@ == scan_upto(events, i).2,
        ensures
            st.media_paths@ == media_paths_of(events),
    {
    }

    /// The project that an XML document describes; `MalformedXml` on a
    /// syntax error. Every event but the end of the document consumes at least
    /// one byte, so more events than bytes also mean a document that cannot be
    /// read.
    pub fn parse_xml(&self, xml_content: &str) -> (r: Result<PremiereProject, LoadError>)
        ensures
            r is Err ==> r == Err::<PremiereProject, LoadError>(LoadError::MalformedXml),
            r matches Ok(p) ==> p.wf() && p.file_path == self.file_path,
    {
        let mut reader = xml_reader(xml_content);
        let mut state = ParserState::new();
        let mut budget: usize = xml_content.len();
        loop
            invariant
                state.wf(),
            decreases budget,
        {
            let event = next_xml_event(&mut reader);
            let (at_end, malformed) = match event {
                XmlEvent::Eof => (true, false),
                XmlEvent::Malformed => (false, true),
                _ => (false, false),
            };
            if malformed {
                return Err(LoadError::MalformedXml);
            }
            if at_end {
                break;
            }
            if budget == 0 {
                // More events than bytes: the reader is not advancing.
                return Err(LoadError::MalformedXml);
            }
            state.handle_event(event);
            budget = budget - 1;
        }
        Ok(state.build_project(&self.file_path))
    }

    /// The project in a GZIP-compressed document.
    pub fn parse_bytes(&self, compressed: &[u8]) -> (r: Result<PremiereProject, LoadError>)
        ensures
            gunzip_text(compressed@) is None <==> r == Err::<PremiereProject, LoadError>(LoadError::CorruptArchive),
            r matches Ok(p) ==> p.wf() && p.file_path == self.file_path,
    {
        match gunzip(compressed) {
            Some(xml) => self.parse_xml(xml.as_str()),
            None => Err(LoadError::CorruptArchive),
        }
    }
}

fn copy_event(e: &XmlEvent) -> (r: XmlEvent)
    ensures
        match (r, *e) {
            (XmlEvent::Start(a), XmlEvent::Start(b)) => a.tag == b.tag && a.attrs@ == b.attrs@,
            (XmlEvent::Empty(a), XmlEvent::Empty(b)) => a.tag == b.tag && a.attrs@ == b.attrs@,
            (XmlEvent::Text(a), XmlEvent::Text(b)) => a == b,
            (XmlEvent::End, XmlEvent::End) => true,
            (XmlEvent::Eof, XmlEvent::Eof) => true,
            (XmlEvent::Other, XmlEvent::Other) => true,
            (XmlEvent::Malformed, XmlEvent::Malformed) => true,
            _ => false,
        },
{
    match e {
        XmlEvent::Start(e) => XmlEvent::Start(Element { tag: e.tag.clone(), attrs: copy_attribute_list(&e.attrs) }),
        XmlEvent::Empty(e) => XmlEvent::Empty(Element { tag: e.tag.clone(), attrs: copy_attribute_list(&e.attrs) }),
        XmlEvent::End => XmlEvent::End,
        XmlEvent::Text(t) => XmlEvent::Text(t.clone()),
        XmlEvent::Eof => XmlEvent::Eof,
        XmlEvent::Other => XmlEvent::Other,
        XmlEvent::Malformed => XmlEvent::Malformed,
    }
}

fn copy_attribute_list(v: &Vec<Attribute>) -> (r: Vec<Attribute>)
    ensures
        r@ == v@,
{
    let mut out: Vec<Attribute> = Vec::new();
    let mut i: usize = 0;
    while i < v.len()
        invariant
            i <= v@.len(),
            out@ == v@.subrange(0, i as int),
        decreases v@.len() - i,
    {
        out.push(Attribute { key: v[i].key.clone(), value: v[i].value.clone() });
        assert(v@.subrange(0, i + 1) =~= v@.subrange(0, i as int).push(v@[i as int]));
        i = i + 1;
    }
    assert(v@.subrange(0, v@.len() as int) =~= v@);
    out
}

} // verus!
