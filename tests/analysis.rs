use prproj_consolidate::analyzer::SequenceAnalyzer;
use prproj_consolidate::loader::build_bin_paths;
use prproj_consolidate::model::{
    Bin, ClipType, FrameRate, MediaFile, MediaType, MulticamAngle, PremiereProject, Sequence, Track, TrackClip,
    TrackType,
};
use prproj_consolidate::paths::find_common_ancestor;
use prproj_consolidate::time_range::TICKS_PER_SECOND;

fn media(id: &str, path: &str) -> MediaFile {
    MediaFile {
        object_id: id.to_string(),
        file_path: path.to_string(),
        has_video: true,
        has_audio: true,
        duration_ticks: 0,
        frame_rate: None,
        proxy_path: None,
        is_offline: false,
        media_type: MediaType::Video,
    }
}

fn clip(id: &str, media_ref: Option<&str>, kind: ClipType, in_s: i64, out_s: i64) -> TrackClip {
    TrackClip {
        object_id: id.to_string(),
        name: String::new(),
        start_ticks: 0,
        end_ticks: 0,
        in_point_ticks: in_s * TICKS_PER_SECOND,
        out_point_ticks: out_s * TICKS_PER_SECOND,
        media_ref: media_ref.map(|m| m.to_string()),
        clip_type: kind,
        speed_percent: 100,
    }
}

fn sequence(id: &str, clips: Vec<TrackClip>, nested: Vec<&str>) -> Sequence {
    Sequence {
        object_id: id.to_string(),
        name: id.to_string(),
        duration_ticks: 0,
        frame_rate: FrameRate { numerator: 24000, denominator: 1001 },
        video_tracks: vec![Track {
            object_id: format!("{}_video", id),
            name: "Video".to_string(),
            track_type: TrackType::Video,
            clips,
        }],
        audio_tracks: vec![],
        nested_sequences: nested.into_iter().map(|s| s.to_string()).collect(),
    }
}

fn project(sequences: Vec<Sequence>, media_files: Vec<MediaFile>) -> PremiereProject {
    PremiereProject {
        file_path: "/p/film.prproj".to_string(),
        name: "film".to_string(),
        version: 1,
        bins: vec![],
        sequences,
        media_files,
        project_items: vec![],
    }
}

fn used_ids(p: &PremiereProject, all_angles: bool) -> Vec<String> {
    let a = SequenceAnalyzer::new(p).include_all_multicam_angles(all_angles).analyze_all();
    let mut ids: Vec<String> = a.used_media.iter().map(|u| u.object_id.clone()).collect();
    ids.sort();
    ids
}

#[test]
fn test_common_ancestor() {
    let paths = vec![
        "/Users/editor/Projects/MyFilm/Footage/A001.mov".to_string(),
        "/Users/editor/Projects/MyFilm/Footage/A002.mov".to_string(),
        "/Users/editor/Projects/MyFilm/Audio/Boom.wav".to_string(),
    ];

    let common = find_common_ancestor(&paths);
    assert!(common.is_some());
    let common = common.unwrap();
    assert!(common.ends_with("MyFilm") || common.contains("MyFilm"));
}

#[test]
fn common_ancestor_exact_values() {
    let paths = vec!["/a/b/c.mov".to_string(), "/a/b/d/e.mov".to_string()];
    assert_eq!(find_common_ancestor(&paths), Some("/a/b".to_string()));
    assert_eq!(find_common_ancestor(&vec!["/a//b/c.mov".to_string()]), Some("/a/b/c.mov".to_string()));
    assert_eq!(find_common_ancestor(&vec!["x/y".to_string(), "z/y".to_string()]), None);
    assert_eq!(find_common_ancestor(&vec![]), None);
    assert_eq!(
        find_common_ancestor(&vec!["/a/x".to_string(), "/b/y".to_string()]),
        Some("/".to_string())
    );
}

#[test]
fn multicam_counts_active_angle_only_by_default() {
    let angles = vec![
        MulticamAngle { name: "A".to_string(), media_ref: "M1".to_string(), is_active: true },
        MulticamAngle { name: "B".to_string(), media_ref: "M2".to_string(), is_active: false },
    ];
    let s = sequence("S", vec![clip("c", None, ClipType::Multicam { angles }, 0, 1)], vec![]);
    let p = project(vec![s], vec![media("M1", "/m/1.mov"), media("M2", "/m/2.mov")]);
    assert_eq!(used_ids(&p, false), vec!["M1".to_string()]);
    assert_eq!(used_ids(&p, true), vec!["M1".to_string(), "M2".to_string()]);
}

#[test]
fn nested_cycle_terminates_and_lists_each_once() {
    let a = sequence("A", vec![clip("n", None, ClipType::Nested { sequence_id: "B".to_string() }, 0, 0)], vec![]);
    let b = sequence("B", vec![clip("c", Some("M"), ClipType::Standard, 1, 2)], vec!["A"]);
    let p = project(vec![a, b], vec![media("M", "/m/x.mov")]);
    let r = SequenceAnalyzer::new(&p).analyze_sequences(&vec!["A".to_string()]);
    let mut seqs = r.sequences_analyzed.clone();
    seqs.sort();
    assert_eq!(seqs, vec!["A".to_string(), "B".to_string()]);
    assert_eq!(r.used_media.len(), 1);
    assert!(r.unused_media.is_empty());
}

#[test]
fn adjustment_clips_use_nothing() {
    let s = sequence("S", vec![clip("adj", Some("M"), ClipType::Adjustment, 0, 5)], vec![]);
    let p = project(vec![s], vec![media("M", "/m/x.mov")]);
    let r = SequenceAnalyzer::new(&p).analyze_all();
    assert!(r.used_media.is_empty());
    assert_eq!(r.unused_media, vec!["M".to_string()]);
}

#[test]
fn used_and_unused_partition_media() {
    let s = sequence("S", vec![clip("c", Some("M1"), ClipType::Standard, 0, 5)], vec![]);
    let p = project(vec![s], vec![media("M1", "/m/1.mov"), media("M2", "/m/2.mov"), media("M3", "/m/3.mov")]);
    let r = SequenceAnalyzer::new(&p).analyze_all();
    let mut all: Vec<String> = r.used_media.iter().map(|u| u.object_id.clone()).collect();
    all.extend(r.unused_media.iter().cloned());
    all.sort();
    assert_eq!(all, vec!["M1".to_string(), "M2".to_string(), "M3".to_string()]);
}

#[test]
fn analyze_all_matches_listing_every_sequence() {
    let s1 = sequence("S1", vec![clip("c", Some("M1"), ClipType::Standard, 0, 5)], vec![]);
    let s2 = sequence("S2", vec![clip("d", Some("M2"), ClipType::Subclip { parent_id: "M2".to_string() }, 0, 5)], vec![]);
    let p = project(vec![s1, s2], vec![media("M1", "/m/1.mov"), media("M2", "/m/2.mov")]);
    let an = SequenceAnalyzer::new(&p);
    let all = an.analyze_all();
    let listed = an.analyze_sequences(&vec!["S1".to_string(), "S2".to_string()]);
    let mut a: Vec<String> = all.used_media.iter().map(|u| u.object_id.clone()).collect();
    let mut b: Vec<String> = listed.used_media.iter().map(|u| u.object_id.clone()).collect();
    a.sort();
    b.sort();
    assert_eq!(a, b);
    assert_eq!(a.len(), 2);
}

#[test]
fn usage_records_ranges_handles_and_hull() {
    let s = sequence(
        "S",
        vec![
            clip("c1", Some("M"), ClipType::Standard, 10, 20),
            clip("c2", Some("M"), ClipType::Standard, 60, 65),
        ],
        vec![],
    );
    let p = project(vec![s], vec![media("M", "/m/x.mov")]);
    let r = SequenceAnalyzer::new(&p).with_handles(24).analyze_all();
    let info = &r.used_media[0];
    assert_eq!(info.usage_count, 2);
    assert_eq!(info.time_ranges[0].start_ticks, 9 * TICKS_PER_SECOND);
    assert_eq!(info.time_ranges[0].end_ticks, 21 * TICKS_PER_SECOND);
    assert_eq!(info.merged_range.start_ticks, 9 * TICKS_PER_SECOND);
    assert_eq!(info.merged_range.end_ticks, 66 * TICKS_PER_SECOND);
    assert_eq!(info.used_in_sequences, vec!["S".to_string()]);
}

#[test]
fn merged_clip_marks_components() {
    let kind = ClipType::MergedClip { components: vec!["V".to_string(), "A".to_string()] };
    let s = sequence("S", vec![clip("c", Some("V"), kind, 0, 3)], vec![]);
    let p = project(vec![s], vec![media("V", "/m/v.mov"), media("A", "/m/a.wav")]);
    let r = SequenceAnalyzer::new(&p).analyze_all();
    assert_eq!(r.used_media.len(), 2);
    assert!(r.used_media.iter().all(|u| u.is_merged_component));
}

#[test]
fn references_to_unknown_media_are_skipped() {
    let s = sequence(
        "S",
        vec![clip("c", Some("M"), ClipType::Standard, 0, 5), clip("d", Some("missing"), ClipType::Standard, 0, 5)],
        vec![],
    );
    let p = project(vec![s], vec![media("M", "/m/x.mov"), media("N", "/m/y.mov")]);
    let r = SequenceAnalyzer::new(&p).analyze_all();
    let used: Vec<String> = r.used_media.iter().map(|u| u.object_id.clone()).collect();
    assert_eq!(used, vec!["M".to_string()]);
    assert_eq!(r.unused_media, vec!["N".to_string()]);
}

#[test]
fn multicam_entries_are_flagged() {
    let angles = vec![MulticamAngle { name: "A".to_string(), media_ref: "M1".to_string(), is_active: true }];
    let s = sequence("S", vec![clip("c", None, ClipType::Multicam { angles }, 0, 1)], vec![]);
    let p = project(vec![s], vec![media("M1", "/m/1.mov")]);
    let r = SequenceAnalyzer::new(&p).analyze_all();
    assert!(r.used_media[0].is_multicam_angle);
    assert!(!r.used_media[0].is_merged_component);
}

#[test]
fn bin_paths_follow_parents() {
    let bin = |id: &str, name: &str, parent: Option<&str>| Bin {
        object_id: id.to_string(),
        name: name.to_string(),
        parent_id: parent.map(|p| p.to_string()),
        children: vec![],
        path: String::new(),
    };
    let mut bins = vec![bin("c", "Camera A", Some("b")), bin("b", "Raw", Some("a")), bin("a", "Footage", None), bin("x", "Loop", Some("x"))];
    build_bin_paths(&mut bins);
    assert_eq!(bins[0].path, "Footage/Raw/Camera A");
    assert_eq!(bins[1].path, "Footage/Raw");
    assert_eq!(bins[2].path, "Footage");
    assert_eq!(bins[3].path, "Loop/Loop/Loop/Loop/Loop");
}
