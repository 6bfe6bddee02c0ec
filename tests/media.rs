use prproj_consolidate::ffmpeg::{FFmpeg, TranscodePreset};
use prproj_consolidate::model::MediaType;
use prproj_consolidate::scanner::{
    compute_full_hash, compute_partial_hash, find_duplicates, is_image_sequence, normalize_path, HashedItem,
    MediaInventory, MediaInventoryItem, PathMapping,
};

#[test]
fn test_media_type_from_extension() {
    assert!(matches!(MediaType::from_extension("mp4"), MediaType::Video));
    assert!(matches!(MediaType::from_extension("wav"), MediaType::Audio));
    assert!(matches!(MediaType::from_extension("r3d"), MediaType::RED));
    assert!(matches!(MediaType::from_extension("braw"), MediaType::BRAW));
}

#[test]
fn media_type_ignores_case() {
    assert_eq!(MediaType::from_extension("MOV"), MediaType::Video);
    assert_eq!(MediaType::from_extension("Tiff"), MediaType::Image);
    assert_eq!(MediaType::from_extension("AEGRAPHIC"), MediaType::Graphics);
    assert_eq!(MediaType::from_extension("xyz"), MediaType::Unknown);
    assert_eq!(MediaType::from_lower_extension("MOV"), MediaType::Unknown);
}

#[test]
fn test_is_lossless_trimmable() {
    assert!(FFmpeg::is_lossless_trimmable("prores"));
    assert!(FFmpeg::is_lossless_trimmable("h264"));
    assert!(FFmpeg::is_lossless_trimmable("dnxhd"));
    assert!(!FFmpeg::is_lossless_trimmable("unknown_codec"));
}

#[test]
fn lossless_codec_names_ignore_case() {
    assert!(FFmpeg::is_lossless_trimmable("HEVC"));
    assert!(!FFmpeg::is_lossless_codec("HEVC"));
}

#[test]
fn test_transcode_preset_args() {
    let preset = TranscodePreset::ProRes422;
    let args = preset.to_ffmpeg_args();
    assert!(args.contains(&"-c:v".to_string()));
    assert!(args.contains(&"prores_ks".to_string()));
}

#[test]
fn preset_args_are_exact() {
    assert_eq!(
        TranscodePreset::DNxHR.to_ffmpeg_args(),
        vec!["-c:v", "dnxhd", "-profile:v", "dnxhr_hq", "-c:a", "pcm_s24le"]
    );
    assert_eq!(
        TranscodePreset::H265Medium.to_ffmpeg_args(),
        vec!["-c:v", "libx265", "-preset", "medium", "-crf", "23", "-c:a", "aac", "-b:a", "192k"]
    );
    let custom = TranscodePreset::Custom {
        video_codec: "libvpx".to_string(),
        video_bitrate: Some("2M".to_string()),
        audio_codec: "opus".to_string(),
        audio_bitrate: None,
        extra_args: vec!["-row-mt".to_string(), "1".to_string()],
    };
    assert_eq!(custom.to_ffmpeg_args(), vec!["-c:v", "libvpx", "-b:v", "2M", "-c:a", "opus", "-row-mt", "1"]);
}

#[test]
fn test_is_image_sequence() {
    assert!(is_image_sequence("footage/shot_0001.dpx"));
    assert!(is_image_sequence("footage/shot.0001.exr"));
    assert!(is_image_sequence("footage/shot0001.png"));
    assert!(!is_image_sequence("footage/shot.mov"));
}

#[test]
fn test_path_mapping() {
    let mappings = vec![PathMapping {
        windows_path: "P:\\Projects".to_string(),
        mac_path: "/Volumes/Projects".to_string(),
    }];

    let normalized = normalize_path("P:\\Projects\\MyProject\\footage.mov", &mappings);
    assert!(normalized.contains("/Volumes/Projects"));
}

#[test]
fn path_mapping_both_ways_and_fallback() {
    let mappings = vec![PathMapping { windows_path: "P:\\Work".to_string(), mac_path: "/Volumes/Work".to_string() }];
    assert_eq!(normalize_path("/Volumes/Work/a.mov", &mappings), "P:\\Work/a.mov");
    assert_eq!(normalize_path("C:\\x\\y.mov", &mappings), "C:/x/y.mov");
}

#[test]
fn hashes_depend_on_content() {
    let a = compute_full_hash(b"first file");
    let b = compute_full_hash(b"second file");
    assert_eq!(a.len(), 16);
    assert!(a.chars().all(|c| c.is_ascii_hexdigit() && !c.is_ascii_uppercase()));
    assert_ne!(a, b);
    assert_ne!(a, "first file");
    let p1 = compute_partial_hash(&b"head".to_vec(), &vec![], 4);
    let p2 = compute_partial_hash(&b"head".to_vec(), &vec![], 5);
    assert_ne!(p1, p2);
}

#[test]
fn duplicates_need_equal_size_and_hash() {
    let item = |id: &str, size: u64, online: bool, hash: Option<&str>| HashedItem {
        object_id: id.to_string(),
        file_size: size,
        is_online: online,
        hash: hash.map(|h| h.to_string()),
    };
    let items = vec![
        item("a", 10, true, Some("h1")),
        item("b", 10, true, Some("h1")),
        item("c", 10, true, Some("h2")),
        item("d", 11, true, Some("h1")),
        item("e", 10, false, Some("h1")),
        item("f", 0, true, Some("h0")),
        item("g", 0, true, Some("h0")),
    ];
    let groups = find_duplicates(&items);
    assert_eq!(groups.len(), 1);
    assert_eq!(groups[0].items, vec!["a".to_string(), "b".to_string()]);
    assert_eq!(groups[0].file_size, 10);
    assert_eq!(groups[0].hash, "h1");
    assert_eq!(groups[0].positions, vec![0, 1]);
    let more = vec![item("p", 5, true, Some("x")), item("q", 7, true, Some("y")), item("r", 5, true, Some("x")), item("s", 7, true, Some("y")), item("t", 5, true, Some("x"))];
    let g2 = find_duplicates(&more);
    assert_eq!(g2.len(), 2);
    assert_eq!(g2[0].positions, vec![0, 2, 4]);
    assert_eq!(g2[1].positions, vec![1, 3]);
}

#[test]
fn inventory_totals_count_online_files() {
    let item = |id: &str, size: u64, online: bool, proxy: Option<u64>| MediaInventoryItem {
        object_id: id.to_string(),
        file_path: format!("/m/{}.mov", id),
        file_name: format!("{}.mov", id),
        file_size: size,
        is_online: online,
        media_type: MediaType::Video,
        has_proxy: proxy.is_some(),
        proxy_path: None,
        proxy_size: proxy,
        sidecar_files: vec![],
        sidecar_total_size: 3,
        hash: None,
        bin_path: None,
    };
    let inv = MediaInventory::summarize(vec![item("a", 100, true, Some(10)), item("b", 50, false, None)], vec![]);
    assert_eq!((inv.total_count, inv.online_count, inv.offline_count), (2, 1, 1));
    assert_eq!(inv.total_size, 113);
    let big = MediaInventory::summarize(vec![item("x", u64::MAX, true, None)], vec![]);
    assert_eq!(big.total_size, u64::MAX);
}
