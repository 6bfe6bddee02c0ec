use prproj_consolidate::analyzer::SequenceAnalyzer;
use prproj_consolidate::commands::{build_consolidation_config, format_file_size, ConsolidationOptions, ProjectInfo};
use prproj_consolidate::ffmpeg::{seconds_string, FFmpeg, TranscodePreset};
use prproj_consolidate::graph::{is_media_path, Attribute, Element, XmlEvent};
use prproj_consolidate::job::{ConsolidationProgress, ConsolidationStatus, ProcessingError};
use prproj_consolidate::loader::{LoadError, ProjectParser};
use prproj_consolidate::planner::{
    add_range_suffix, numbered_name, rewrite_project, rewrite_project_text, ConsolidationConfig, FolderStructure,
    OptimizationMode, PathMapping, ProcessingModeConfig, ProxyMode,
};
use prproj_consolidate::time_range::{TimeRange, TICKS_PER_SECOND};

const SEQUENCE_CLASS: &str = "6a15d903-8739-11d5-af2d-9b7855ad8974";

/// One sequence whose clip shows `/m/A.mov` from 10 s to 20 s through the
/// chain track item, sub-clip, clip, media source, media.
fn one_clip_project() -> String {
    format!(
        r#"<?xml version="1.0"?>
<PremiereData Version="3">
  <Sequence ObjectUID="seq-1" ClassID="{}"><Name>Main</Name></Sequence>
  <Sequence ObjectUID="seq-x" ClassID="other"><Name>Not a timeline</Name></Sequence>
  <VideoClipTrackItem ObjectID="10">
    <Start>0</Start><End>2540160000000</End>
    <SubClip ObjectRef="20"/>
  </VideoClipTrackItem>
  <SubClip ObjectID="20"><Clip ObjectRef="30"/></SubClip>
  <VideoClip ObjectID="30">
    <InPoint>2540160000000</InPoint><OutPoint>5080320000000</OutPoint>
    <Source ObjectRef="40"/>
  </VideoClip>
  <VideoMediaSource ObjectID="40"><Media ObjectURef="m-1"/></VideoMediaSource>
  <Media ObjectUID="m-1"><ActualMediaFilePath>/m/A.mov</ActualMediaFilePath></Media>
  <Media ObjectUID="m-2"><FilePath>/m/Peak Files/A.pek</FilePath></Media>
</PremiereData>"#,
        SEQUENCE_CLASS
    )
}

fn config(output: &str, mode: ProcessingModeConfig, opt: OptimizationMode, frame_range: bool) -> ConsolidationConfig {
    ConsolidationConfig {
        project_path: "/p/film.prproj".to_string(),
        output_path: output.to_string(),
        sequences: vec![],
        processing_mode: mode,
        optimization_mode: opt,
        folder_structure: FolderStructure::Flat,
        proxy_mode: ProxyMode::MainOnly,
        handle_frames: 0,
        include_unused_multicam_angles: false,
        generate_unique_filenames: false,
        use_project_item_names: false,
        add_frame_range_to_filename: frame_range,
        copy_sidecar_files: false,
        skip_offline_media: true,
    }
}

#[test]
fn loader_reads_sequence_clip_and_media() {
    let project = ProjectParser::new("/p/film.prproj").parse_xml(&one_clip_project()).unwrap();
    assert_eq!(project.version, 3);
    assert_eq!(project.name, "film");
    assert_eq!(project.sequences.len(), 1);
    assert_eq!(project.sequences[0].name, "Main");
    assert_eq!(project.media_files.len(), 1);
    assert_eq!(project.media_files[0].object_id, "m-1");
    assert_eq!(project.media_files[0].file_path, "/m/A.mov");
    assert_eq!(project.media_files[0].media_type, prproj_consolidate::model::MediaType::Video);
    let clips = &project.sequences[0].video_tracks[0].clips;
    assert_eq!(clips.len(), 1);
    assert_eq!(clips[0].media_ref, Some("m-1".to_string()));
    assert_eq!(clips[0].in_point_ticks, 10 * TICKS_PER_SECOND);
    assert_eq!(clips[0].out_point_ticks, 20 * TICKS_PER_SECOND);
    let info = ProjectInfo::of(&project);
    assert_eq!((info.sequence_count, info.media_count), (1, 1));
}

#[test]
fn lossless_trim_single_range() {
    let project = ProjectParser::new("/p/film.prproj").parse_xml(&one_clip_project()).unwrap();
    let usage = SequenceAnalyzer::new(&project).with_handles(0).analyze_all();
    assert_eq!(usage.used_media.len(), 1);
    let cfg = config("/out", ProcessingModeConfig::Trim, OptimizationMode::KeepSameNumberOfFiles, false);
    let media = &project.media_files[0];
    let path = cfg.calculate_output_path(&project, media);
    assert_eq!(path, "/out/Media/A.mov");
    let plan = cfg.plan_media(media, &usage.used_media[0], &path);
    assert_eq!(plan.outputs.len(), 1);
    let r = plan.outputs[0].range.unwrap();
    let args = FFmpeg::trim_args(&plan.source_path, &plan.outputs[0].output_path, r.start_ticks, r.end_ticks);
    let joined = args.join(" ");
    assert!(joined.contains("-ss 10.000000 -t 10.000000 -c copy"));
    assert_eq!(args[0], "-y");
    assert_eq!(args.last().unwrap(), "/out/Media/A.mov");
    let mappings = vec![PathMapping { original: plan.source_path.clone(), new_path: path.clone() }];
    let rewritten = rewrite_project_text(&one_clip_project(), &mappings);
    assert!(!rewritten.contains(">/m/A.mov<"));
    assert!(rewritten.contains("/out/Media/A.mov"));
}

#[test]
fn split_on_disjoint_uses() {
    let cfg = config("/out", ProcessingModeConfig::Trim, OptimizationMode::MinimizeDiskSpace, true);
    let media = prproj_consolidate::model::MediaFile {
        object_id: "A".to_string(),
        file_path: "/m/A.mov".to_string(),
        has_video: true,
        has_audio: true,
        duration_ticks: 0,
        frame_rate: None,
        proxy_path: None,
        is_offline: false,
        media_type: prproj_consolidate::model::MediaType::Video,
    };
    let info = prproj_consolidate::analyzer::MediaUsageInfo {
        object_id: "A".to_string(),
        usage_count: 2,
        time_ranges: vec![TimeRange::new(60 * TICKS_PER_SECOND, 65 * TICKS_PER_SECOND), TimeRange::new(0, 5 * TICKS_PER_SECOND)],
        merged_range: TimeRange::new(0, 65 * TICKS_PER_SECOND),
        used_in_sequences: vec!["S".to_string()],
        is_multicam_angle: false,
        is_merged_component: false,
    };
    let plan = cfg.plan_media(&media, &info, &"/out/Media/A.mov".to_string());
    let names: Vec<&str> = plan.outputs.iter().map(|o| o.output_path.as_str()).collect();
    assert_eq!(names, vec!["/out/Media/A_0_to_5.mov", "/out/Media/A_60_to_65.mov"]);
    let keep = config("/out", ProcessingModeConfig::Trim, OptimizationMode::KeepSameNumberOfFiles, true);
    let one = keep.plan_media(&media, &info, &"/out/Media/A.mov".to_string());
    assert_eq!(one.outputs.len(), 1);
    assert_eq!(one.outputs[0].range, Some(TimeRange::new(0, 65 * TICKS_PER_SECOND)));
    let none = config("/out", ProcessingModeConfig::NoProcess, OptimizationMode::MinimizeDiskSpace, true);
    assert!(none.plan_media(&media, &info, &"/out/Media/A.mov".to_string()).outputs.is_empty());
}

#[test]
fn range_suffix_by_index() {
    let r = TimeRange::new(0, TICKS_PER_SECOND);
    assert_eq!(add_range_suffix("/o/Media/clip.mov", 1, r, false), "/o/Media/clip_002.mov");
    assert_eq!(add_range_suffix("/o/Media/clip", 0, r, true), "/o/Media/clip_0_to_1");
    assert_eq!(numbered_name("A.mov", 1), "A_pp001.mov");
    assert_eq!(numbered_name("README", 1234), "README_pp1234");
}

#[test]
fn transcode_args_cover_range() {
    let args = FFmpeg::transcode_args("/in.mov", "/out.mov", Some((TICKS_PER_SECOND, 3 * TICKS_PER_SECOND)), &TranscodePreset::ProRes422);
    assert_eq!(
        args,
        vec!["-y", "-ss", "1.000000", "-i", "/in.mov", "-t", "2.000000", "-c:v", "prores_ks", "-profile:v", "2", "-c:a", "pcm_s24le", "/out.mov"]
    );
    assert_eq!(seconds_string(TICKS_PER_SECOND / 3), "0.333333");
}

#[test]
fn offline_media_is_skipped_with_one_warning() {
    let mut p = ConsolidationProgress::new("job".to_string());
    p.update_status(ConsolidationStatus::Analyzing, "Analyzing");
    p.update_status(ConsolidationStatus::Processing, "Processing");
    p.record_offline("/m/missing.mov", true);
    assert_eq!(p.warnings.len(), 1);
    assert!(p.errors.is_empty());
    p.update_status(ConsolidationStatus::WritingProject, "Writing");
    p.finish();
    assert_eq!(p.status, ConsolidationStatus::Completed);
    let mut q = ConsolidationProgress::new("job".to_string());
    q.record_offline("/m/missing.mov", false);
    assert_eq!(q.errors.len(), 1);
    assert!(!q.errors[0].is_fatal);
}

#[test]
fn cancellation_records_non_fatal_error() {
    let mut p = ConsolidationProgress::new("job".to_string());
    p.update_status(ConsolidationStatus::Analyzing, "Analyzing");
    p.update_status(ConsolidationStatus::Processing, "Processing");
    assert!(!p.check_cancelled(false));
    assert_eq!(p.status, ConsolidationStatus::Processing);
    assert!(p.check_cancelled(true));
    assert_eq!(p.status, ConsolidationStatus::Cancelled);
    assert_eq!(p.errors.len(), 1);
    assert!(!p.errors[0].is_fatal);
    assert!(p.status.is_terminal());
}

#[test]
fn fatal_error_fails_job() {
    let mut p = ConsolidationProgress::new("job".to_string());
    p.set_totals(2, 15);
    p.increment_processed(10);
    p.increment_processed(5);
    p.increment_processed(1);
    assert_eq!((p.files_processed, p.bytes_processed), (2, 16));
    p.add_error(ProcessingError { file_path: "x".to_string(), error_message: "disk full".to_string(), is_fatal: true });
    p.finish();
    assert_eq!(p.status, ConsolidationStatus::Failed);
}

#[test]
fn corrupt_archive_is_rejected() {
    let parser = ProjectParser::new("/p/film.prproj");
    assert_eq!(parser.parse_bytes(b"not gzip").err(), Some(LoadError::CorruptArchive));
    assert_eq!(rewrite_project(b"not gzip", &vec![]).err(), Some(LoadError::CorruptArchive));
}

#[test]
fn rewrite_round_trips_through_gzip() {
    let mut enc = flate2::write::GzEncoder::new(Vec::new(), flate2::Compression::default());
    std::io::Write::write_all(&mut enc, one_clip_project().as_bytes()).unwrap();
    let packed = enc.finish().unwrap();
    let project = ProjectParser::new("/p/film.prproj").parse_bytes(&packed).unwrap();
    assert_eq!(project.media_files.len(), 1);
    let mappings = vec![PathMapping { original: "/m/A.mov".to_string(), new_path: "/o/Media/A.mov".to_string() }];
    let out = rewrite_project(&packed, &mappings).unwrap();
    let mut text = String::new();
    std::io::Read::read_to_string(&mut flate2::read::GzDecoder::new(&out[..]), &mut text).unwrap();
    assert!(text.contains("/o/Media/A.mov"));
    assert!(!text.contains(">/m/A.mov<"));
}

#[test]
fn rewrite_replaces_every_slash_form() {
    let mappings = vec![PathMapping { original: "/m/A.mov".to_string(), new_path: "/o/A.mov".to_string() }];
    let out = rewrite_project_text("<a>/m/A.mov</a><b>\\m\\A.mov</b>", &mappings);
    assert_eq!(out, "<a>/o/A.mov</a><b>\\o\\A.mov</b>");
}

#[test]
fn events_build_the_same_graph() {
    let attrs = |pairs: &[(&str, &str)]| -> Vec<Attribute> {
        pairs.iter().map(|(k, v)| Attribute { key: k.to_string(), value: v.to_string() }).collect()
    };
    let events = vec![
        XmlEvent::Start(Element { tag: "PremiereData".to_string(), attrs: attrs(&[("Version", "7")]) }),
        XmlEvent::Start(Element { tag: "Media".to_string(), attrs: attrs(&[("ObjectUID", "m")]) }),
        XmlEvent::Start(Element { tag: "FilePath".to_string(), attrs: vec![] }),
        XmlEvent::Text("C:\\clips\\B.MXF".to_string()),
        XmlEvent::End,
        XmlEvent::End,
        XmlEvent::End,
        XmlEvent::Eof,
    ];
    let project = ProjectParser::new("/p/x.prproj").parse_events(&events).unwrap();
    assert_eq!(project.version, 7);
    assert_eq!(project.media_files.len(), 1);
    assert_eq!(project.media_files[0].file_path, "C:\\clips\\B.MXF");
    assert!(project.sequences.is_empty());
}

#[test]
fn options_select_modes() {
    let options = ConsolidationOptions {
        output_path: "/out".to_string(),
        sequences: vec!["s".to_string()],
        processing_mode: "transcode".to_string(),
        transcode_preset: Some("h264high".to_string()),
        optimization_mode: "minimize".to_string(),
        folder_structure: "original".to_string(),
        proxy_mode: "nonsense".to_string(),
        handle_frames: 12,
        include_all_multicam_angles: true,
        generate_unique_filenames: true,
        use_project_item_names: false,
        add_frame_range_to_filename: true,
        copy_sidecar_files: false,
        skip_offline_media: true,
    };
    let cfg = build_consolidation_config("/p/film.prproj".to_string(), options);
    assert!(matches!(cfg.processing_mode, ProcessingModeConfig::Transcode { preset: TranscodePreset::H264High }));
    assert_eq!(cfg.optimization_mode, OptimizationMode::MinimizeDiskSpace);
    assert_eq!(cfg.folder_structure, FolderStructure::OriginalDiskStructure);
    assert_eq!(cfg.proxy_mode, ProxyMode::CopyBoth);
    assert_eq!(cfg.handle_frames, 12);
}

#[test]
fn sizes_in_binary_units() {
    assert_eq!(format_file_size(0), "0 B");
    assert_eq!(format_file_size(1023), "1023 B");
    assert_eq!(format_file_size(1024), "1.00 KB");
    assert_eq!(format_file_size(1536), "1.50 KB");
    assert_eq!(format_file_size(5 * 1024 * 1024 * 1024), "5.00 GB");
    assert_eq!(format_file_size(u64::MAX), "16777216.00 TB");
}

#[test]
fn original_disk_structure_keeps_relative_folders() {
    let file = |id: &str, path: &str| prproj_consolidate::model::MediaFile {
        object_id: id.to_string(),
        file_path: path.to_string(),
        has_video: true,
        has_audio: true,
        duration_ticks: 0,
        frame_rate: None,
        proxy_path: None,
        is_offline: false,
        media_type: prproj_consolidate::model::MediaType::Video,
    };
    let project = prproj_consolidate::model::PremiereProject {
        file_path: "/p/film.prproj".to_string(),
        name: "film".to_string(),
        version: 1,
        bins: vec![],
        sequences: vec![],
        media_files: vec![file("a", "/v/p/a/x.mov"), file("b", "/v/p/b/y.mov"), file("c", "/v/p/z.mov")],
        project_items: vec![],
    };
    let mut cfg = config("/out", ProcessingModeConfig::Copy, OptimizationMode::KeepSameNumberOfFiles, false);
    cfg.folder_structure = FolderStructure::OriginalDiskStructure;
    assert_eq!(cfg.calculate_output_path(&project, &project.media_files[0]), "/out/Media/a/x.mov");
    assert_eq!(cfg.calculate_output_path(&project, &project.media_files[2]), "/out/Media/z.mov");
    let copy = cfg.plan_media(&project.media_files[0], &prproj_consolidate::analyzer::MediaUsageInfo {
        object_id: "a".to_string(),
        usage_count: 1,
        time_ranges: vec![TimeRange::new(0, 10)],
        merged_range: TimeRange::new(0, 10),
        used_in_sequences: vec![],
        is_multicam_angle: false,
        is_merged_component: false,
    }, &"/out/Media/a/x.mov".to_string());
    assert_eq!(copy.outputs.len(), 1);
    assert_eq!(copy.outputs[0].range, None);
}

#[test]
fn status_moves_only_forward() {
    let mut p = ConsolidationProgress::new("job".to_string());
    p.update_status(ConsolidationStatus::WritingProject, "skip ahead");
    assert_eq!(p.status, ConsolidationStatus::Pending);
    p.update_status(ConsolidationStatus::Analyzing, "Analyzing");
    p.record_job_failure("/p", "bad setting".to_string());
    assert_eq!(p.status, ConsolidationStatus::Failed);
    p.update_status(ConsolidationStatus::Processing, "again");
    assert_eq!(p.status, ConsolidationStatus::Failed);
    let mut q = ConsolidationProgress::new("job".to_string());
    q.record_item_failure("/m/a.mov", "transcoder failed".to_string());
    assert!(!q.errors[0].is_fatal);
}

#[test]
fn malformed_document_is_rejected() {
    let parser = ProjectParser::new("/p/x.prproj");
    let events = vec![XmlEvent::Start(Element { tag: "A".to_string(), attrs: vec![] }), XmlEvent::Malformed, XmlEvent::Eof];
    assert_eq!(parser.parse_events(&events).err(), Some(LoadError::MalformedXml));
    let fine = vec![XmlEvent::Eof, XmlEvent::Malformed];
    assert!(parser.parse_events(&fine).is_ok());
    assert_eq!(parser.parse_xml("<a><b></a>").err(), Some(LoadError::MalformedXml));
}

#[test]
fn every_listed_extension_marks_a_media_path() {
    for ext in ["wmv", "m4v", "prores", "aac", "flac", "ogg", "MOV", "mp4", "png", "prproj"] {
        assert!(is_media_path(&format!("/m/a.{}", ext)), "{}", ext);
    }
    assert!(is_media_path("C:a.wav"));
    assert!(!is_media_path("/m/Peak Files/a.wav"));
    assert!(!is_media_path("m/a.wav"));
    assert!(!is_media_path("/m/a.txt"));
}

#[test]
fn longer_paths_are_replaced_first() {
    let mappings = vec![
        PathMapping { original: "/m/A".to_string(), new_path: "/o/X".to_string() },
        PathMapping { original: "/m/AB.mov".to_string(), new_path: "/o/B.mov".to_string() },
    ];
    assert_eq!(rewrite_project_text("<p>/m/AB.mov</p><p>/m/A</p>", &mappings), "<p>/o/B.mov</p><p>/o/X</p>");
}

#[test]
fn project_items_are_read() {
    let xml = r#"<PremiereData Version="1">
  <BinProjectItem ObjectID="1" Name="Footage"/>
  <ClipProjectItem ObjectID="2" Name="Take 1" MediaRef="m-1" ParentBinID="1"/>
  <Media ObjectUID="m-1"><FilePath>/m/A.wmv</FilePath></Media>
</PremiereData>"#;
    let project = ProjectParser::new("/p/film.prproj").parse_xml(xml).unwrap();
    assert_eq!(project.media_files.len(), 1);
    assert_eq!(project.media_files[0].file_path, "/m/A.wmv");
    assert_eq!(project.project_items.len(), 2);
    let clip = project.project_items.iter().find(|i| i.object_id == "2").unwrap();
    assert_eq!(clip.name, "Take 1");
    assert_eq!(clip.media_ref, Some("m-1".to_string()));
    assert_eq!(clip.bin_id, Some("1".to_string()));
    assert_eq!(project.bins.len(), 1);
    assert_eq!(project.bins[0].path, "Footage");
    let mut cfg = config("/out", ProcessingModeConfig::Copy, OptimizationMode::KeepSameNumberOfFiles, false);
    cfg.folder_structure = FolderStructure::BinStructure;
    cfg.use_project_item_names = true;
    assert_eq!(cfg.calculate_output_path(&project, &project.media_files[0]), "/out/Media/Footage/Take 1");
}
