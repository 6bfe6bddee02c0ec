//! The project as the loader builds it: bins, sequences with their tracks and
//! clips, media files and project items.

use vstd::prelude::*;
use crate::text::{is_text, lowercase, chars_of, lower_of};

verus! {

/// A parsed project.
///
/// `media_files` and `project_items` are keyed by their `object_id`; no two
/// entries of either share one.
#[derive(Debug, Clone)]
pub struct PremiereProject {
    pub file_path: String,
    pub name: String,
    pub version: u32,
    pub bins: Vec<Bin>,
    pub sequences: Vec<Sequence>,
    pub media_files: Vec<MediaFile>,
    pub project_items: Vec<ProjectItem>,
}

/// A folder of the project panel.
#[derive(Debug, Clone)]
pub struct Bin {
    pub object_id: String,
    pub name: String,
    pub parent_id: Option<String>,
    pub children: Vec<String>,
    /// Slash-joined names from the root bin down to this one.
    pub path: String,
}

/// A timeline.
#[derive(Debug, Clone)]
pub struct Sequence {
    pub object_id: String,
    pub name: String,
    pub duration_ticks: i64,
    pub frame_rate: FrameRate,
    pub video_tracks: Vec<Track>,
    pub audio_tracks: Vec<Track>,
    /// Identifiers of sequences nested in this one.
    pub nested_sequences: Vec<String>,
}

/// A rational frame rate.
#[derive(Debug, Clone, Copy, PartialEq, Eq, Structural)]
pub struct FrameRate {
    pub numerator: u32,
    pub denominator: u32,
}

#[derive(Debug, Clone)]
pub struct Track {
    pub object_id: String,
    pub name: String,
    pub track_type: TrackType,
    pub clips: Vec<TrackClip>,
}

#[derive(Debug, Clone, Copy, PartialEq, Eq, Structural)]
pub enum TrackType {
    Video,
    Audio,
}

/// A clip on a track: the timeline span `[start_ticks, end_ticks)` shows the
/// source span `[in_point_ticks, out_point_ticks)`.
#[derive(Debug, Clone)]
pub struct TrackClip {
    pub object_id: String,
    pub name: String,
    pub start_ticks: i64,
    pub end_ticks: i64,
    pub in_point_ticks: i64,
    pub out_point_ticks: i64,
    /// Identifier of the media file shown.
    pub media_ref: Option<String>,
    pub clip_type: ClipType,
    /// Playback speed in percent; 100 is normal speed.
    pub speed_percent: u32,
}

#[derive(Debug, Clone)]
pub enum ClipType {
    Standard,
    Subclip { parent_id: String },
    MergedClip { components: Vec<String> },
    Multicam { angles: Vec<MulticamAngle> },
    Nested { sequence_id: String },
    Adjustment,
}

#[derive(Debug, Clone)]
pub struct MulticamAngle {
    pub name: String,
    pub media_ref: String,
    pub is_active: bool,
}

/// A clip of the project panel.
#[derive(Debug, Clone)]
pub struct ProjectItem {
    pub object_id: String,
    pub name: String,
    pub item_type: ProjectItemType,
    pub media_ref: Option<String>,
    pub bin_id: Option<String>,
}

#[derive(Debug, Clone, Copy, PartialEq, Eq, Structural)]
pub enum ProjectItemType {
    Clip,
    Sequence,
    Bin,
    Subclip,
    MergedClip,
    Multicam,
}

/// A source media file.
#[derive(Debug, Clone)]
pub struct MediaFile {
    pub object_id: String,
    pub file_path: String,
    pub has_video: bool,
    pub has_audio: bool,
    /// Length in ticks; zero when unknown.
    pub duration_ticks: i64,
    pub frame_rate: Option<FrameRate>,
    pub proxy_path: Option<String>,
    pub is_offline: bool,
    pub media_type: MediaType,
}

#[derive(Debug, Clone, Copy, PartialEq, Eq, Structural)]
pub enum MediaType {
    Video,
    Audio,
    Image,
    ImageSequence,
    RED,
    BRAW,
    Graphics,
    Unknown,
}

/// The media type of a lower-case file extension.
pub open spec fn media_type_of(ext: Seq<char>) -> MediaType {
    if ext == "mp4"@ || ext == "mov"@ || ext == "avi"@ || ext == "mxf"@ || ext == "mkv"@ || ext
        == "wmv"@ || ext == "m4v"@ || ext == "webm"@ || ext == "prores"@ {
        MediaType::Video
    } else if ext == "wav"@ || ext == "mp3"@ || ext == "aac"@ || ext == "aiff"@ || ext == "flac"@
        || ext == "ogg"@ || ext == "m4a"@ {
        MediaType::Audio
    } else if ext == "jpg"@ || ext == "jpeg"@ || ext == "png"@ || ext == "tiff"@ || ext == "tif"@
        || ext == "bmp"@ || ext == "gif"@ || ext == "psd"@ || ext == "exr"@ || ext == "dpx"@ {
        MediaType::Image
    } else if ext == "r3d"@ {
        MediaType::RED
    } else if ext == "braw"@ {
        MediaType::BRAW
    } else if ext == "mogrt"@ || ext == "aep"@ || ext == "aegraphic"@ {
        MediaType::Graphics
    } else {
        MediaType::Unknown
    }
}

fn is_any(e: &Vec<char>, names: &[&str]) -> (r: bool)
    ensures
        r == exists|i: int| 0 <= i < names@.len() && e@ == (#[trigger] names@[i])@,
{
    let mut i: usize = 0;
    while i < names.len()
        invariant
            i <= names@.len(),
            forall|j: int| 0 <= j < i ==> e@ != (#[trigger] names@[j])@,
        decreases names@.len() - i,
    {
        if is_text(e, names[i]) {
            return true;
        }
        i = i + 1;
    }
    false
}

impl MediaType {
    /// The media type of an extension already in lower case.
    pub fn from_lower_extension(ext: &str) -> (r: MediaType)
        ensures
            r == media_type_of(ext@),
    {
        let e = chars_of(ext);
        proof {
            reveal_strlit("mp4");
            reveal_strlit("mov");
            reveal_strlit("avi");
            reveal_strlit("mxf");
            reveal_strlit("mkv");
            reveal_strlit("wmv");
            reveal_strlit("m4v");
            reveal_strlit("webm");
            reveal_strlit("prores");
            reveal_strlit("wav");
            reveal_strlit("mp3");
            reveal_strlit("aac");
            reveal_strlit("aiff");
            reveal_strlit("flac");
            reveal_strlit("ogg");
            reveal_strlit("m4a");
            reveal_strlit("jpg");
            reveal_strlit("jpeg");
            reveal_strlit("png");
            reveal_strlit("tiff");
            reveal_strlit("tif");
            reveal_strlit("bmp");
            reveal_strlit("gif");
            reveal_strlit("psd");
            reveal_strlit("exr");
            reveal_strlit("dpx");
            reveal_strlit("r3d");
            reveal_strlit("braw");
            reveal_strlit("mogrt");
            reveal_strlit("aep");
            reveal_strlit("aegraphic");
        }
        let video = ["mp4", "mov", "avi", "mxf", "mkv", "wmv", "m4v", "webm", "prores"];
        let audio = ["wav", "mp3", "aac", "aiff", "flac", "ogg", "m4a"];
        let image = ["jpg", "jpeg", "png", "tiff", "tif", "bmp", "gif", "psd", "exr", "dpx"];
        let graphics = ["mogrt", "aep", "aegraphic"];
        if is_any(&e, &video) {
            assert(exists|i: int| 0 <= i < video@.len() && e@ == (#[trigger] video@[i])@);
            MediaType::Video
        } else if is_any(&e, &audio) {
            MediaType::Audio
        } else if is_any(&e, &image) {
            MediaType::Image
        } else if is_text(&e, "r3d") {
            MediaType::RED
        } else if is_text(&e, "braw") {
            MediaType::BRAW
        } else if is_any(&e, &graphics) {
            MediaType::Graphics
        } else {
            MediaType::Unknown
        }
    }

    /// The media type of a file extension, in any case.
    pub fn from_extension(ext: &str) -> (r: MediaType)
        ensures
            r == media_type_of(lower_of(ext@)),
    {
        let lower = lowercase(ext);
        MediaType::from_lower_extension(lower.as_str())
    }

    /// Whether files of this type carry pictures.
    pub open spec fn spec_has_video(self) -> bool {
        match self {
            MediaType::Video | MediaType::Image | MediaType::ImageSequence | MediaType::RED
            | MediaType::BRAW => true,
            _ => false,
        }
    }

    /// Whether files of this type carry sound.
    pub open spec fn spec_has_audio(self) -> bool {
        match self {
            MediaType::Audio | MediaType::Video => true,
            _ => false,
        }
    }

    pub fn has_video(&self) -> (r: bool)
        ensures
            r == self.spec_has_video(),
    {
        match self {
            MediaType::Video | MediaType::Image | MediaType::ImageSequence | MediaType::RED
            | MediaType::BRAW => true,
            _ => false,
        }
    }

    pub fn has_audio(&self) -> (r: bool)
        ensures
            r == self.spec_has_audio(),
    {
        match self {
            MediaType::Audio | MediaType::Video => true,
            _ => false,
        }
    }
}

impl PremiereProject {
    /// Identifiers of the media files are distinct, and so are those of the
    /// sequences.
    pub open spec fn wf(&self) -> bool {
        &&& forall|i: int, j: int|
            0 <= i < j < self.media_files@.len() ==> self.media_files@[i].object_id@
                != self.media_files@[j].object_id@
        &&& forall|i: int, j: int|
            0 <= i < j < self.sequences@.len() ==> self.sequences@[i].object_id@
                != self.sequences@[j].object_id@
    }

    /// Identifiers of all media files.
    pub open spec fn media_ids(&self) -> Set<Seq<char>> {
        Set::new(|m: Seq<char>| exists|i: int| 0 <= i < self.media_files@.len() && #[trigger] self.media_files@[i].object_id@ == m)
    }

    /// Identifiers of all sequences.
    pub open spec fn sequence_ids(&self) -> Set<Seq<char>> {
        Set::new(|m: Seq<char>| exists|i: int| 0 <= i < self.sequences@.len() && #[trigger] self.sequences@[i].object_id@ == m)
    }
}

} // verus!
