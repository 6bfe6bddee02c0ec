//! Values exchanged with the user interface: the consolidation options as
//! chosen there, project and media summaries, and size formatting.

use vstd::prelude::*;
use crate::ffmpeg::TranscodePreset;
use crate::model::PremiereProject;
use crate::planner::{ConsolidationConfig, FolderStructure, OptimizationMode, ProcessingModeConfig, ProxyMode};
use crate::text::{append_chars, append_str, decimal, fmt_padded, fmt_u64, padded, str_eq, string_of};

verus! {

broadcast use vstd::string::group_string_axioms;

/// A project summary.
#[derive(Debug, Clone)]
pub struct ProjectInfo {
    pub name: String,
    pub file_path: String,
    pub version: u32,
    pub sequence_count: usize,
    pub media_count: usize,
    pub bin_count: usize,
}

impl ProjectInfo {
    pub fn of(project: &PremiereProject) -> (r: ProjectInfo)
        ensures
            r.name == project.name,
            r.file_path == project.file_path,
            r.version == project.version,
            r.sequence_count == project.sequences@.len(),
            r.media_count == project.media_files@.len(),
            r.bin_count == project.bins@.len(),
    {
        ProjectInfo {
            name: project.name.clone(),
            file_path: project.file_path.clone(),
            version: project.version,
            sequence_count: project.sequences.len(),
            media_count: project.media_files.len(),
            bin_count: project.bins.len(),
        }
    }
}

/// A media file as listed to the user.
#[derive(Debug, Clone)]
pub struct MediaItemInfo {
    pub object_id: String,
    pub file_path: String,
    pub file_name: String,
    pub file_size: u64,
    pub file_size_formatted: String,
    pub is_online: bool,
    pub media_type: String,
    pub has_proxy: bool,
    pub bin_path: Option<String>,
}

/// The options of a consolidation as the user interface names them.
#[derive(Debug, Clone)]
pub struct ConsolidationOptions {
    pub output_path: String,
    pub sequences: Vec<String>,
    pub processing_mode: String,
    pub transcode_preset: Option<String>,
    pub optimization_mode: String,
    pub folder_structure: String,
    pub proxy_mode: String,
    pub handle_frames: i64,
    pub include_all_multicam_angles: bool,
    pub generate_unique_filenames: bool,
    pub use_project_item_names: bool,
    pub add_frame_range_to_filename: bool,
    pub copy_sidecar_files: bool,
    pub skip_offline_media: bool,
}

pub open spec fn preset_named(name: Option<Seq<char>>) -> TranscodePreset {
    match name {
        Some(n) => if n == "prores422hq"@ {
            TranscodePreset::ProRes422HQ
        } else if n == "prores422lt"@ {
            TranscodePreset::ProRes422LT
        } else if n == "prores4444"@ {
            TranscodePreset::ProRes4444
        } else if n == "dnxhd"@ {
            TranscodePreset::DNxHD
        } else if n == "dnxhr"@ {
            TranscodePreset::DNxHR
        } else if n == "h264high"@ {
            TranscodePreset::H264High
        } else if n == "h264medium"@ {
            TranscodePreset::H264Medium
        } else if n == "h265high"@ {
            TranscodePreset::H265High
        } else if n == "h265medium"@ {
            TranscodePreset::H265Medium
        } else {
            TranscodePreset::ProRes422
        },
        None => TranscodePreset::ProRes422,
    }
}

/// The optimization mode a name selects; keeping the number of files is the
/// default.
pub open spec fn optimization_named(n: Seq<char>) -> OptimizationMode {
    if n == "minimize"@ {
        OptimizationMode::MinimizeDiskSpace
    } else if n == "unique_clips"@ {
        OptimizationMode::EachClipUnique
    } else {
        OptimizationMode::KeepSameNumberOfFiles
    }
}

/// The folder structure a name selects; flat is the default.
pub open spec fn folders_named(n: Seq<char>) -> FolderStructure {
    if n == "bins"@ {
        FolderStructure::BinStructure
    } else if n == "original"@ {
        FolderStructure::OriginalDiskStructure
    } else {
        FolderStructure::Flat
    }
}

/// The proxy mode a name selects; copying both is the default.
pub open spec fn proxy_named(n: Seq<char>) -> ProxyMode {
    if n == "proxy_only"@ {
        ProxyMode::ProxyOnly
    } else if n == "main_only"@ {
        ProxyMode::MainOnly
    } else if n == "preserve"@ {
        ProxyMode::PreserveReferences
    } else {
        ProxyMode::CopyBoth
    }
}

fn preset_of(name: &Option<String>) -> (r: TranscodePreset)
    ensures
        r == preset_named(match name {
            Some(n) => Some(n@),
            None => None,
        }),
{
    match name {
        Some(n) => {
            let s = n.as_str();
            if str_eq(s, "prores422hq") {
                TranscodePreset::ProRes422HQ
            } else if str_eq(s, "prores422lt") {
                TranscodePreset::ProRes422LT
            } else if str_eq(s, "prores4444") {
                TranscodePreset::ProRes4444
            } else if str_eq(s, "dnxhd") {
                TranscodePreset::DNxHD
            } else if str_eq(s, "dnxhr") {
                TranscodePreset::DNxHR
            } else if str_eq(s, "h264high") {
                TranscodePreset::H264High
            } else if str_eq(s, "h264medium") {
                TranscodePreset::H264Medium
            } else if str_eq(s, "h265high") {
                TranscodePreset::H265High
            } else if str_eq(s, "h265medium") {
                TranscodePreset::H265Medium
            } else {
                TranscodePreset::ProRes422
            }
        },
        None => TranscodePreset::ProRes422,
    }
}

/// The configuration the options describe; unknown names select the
/// defaults (trim, ProRes 422, same number of files, flat, copy both).
pub fn build_consolidation_config(project_path: String, options: ConsolidationOptions) -> (r: ConsolidationConfig)
    ensures
        r.project_path == project_path,
        r.output_path == options.output_path,
        r.sequences == options.sequences,
        options.processing_mode@ == "transcode"@ ==> r.processing_mode == (ProcessingModeConfig::Transcode {
            preset: preset_named(match options.transcode_preset {
                Some(n) => Some(n@),
                None => None,
            }),
        }),
        options.processing_mode@ == "copy"@ ==> r.processing_mode is Copy,
        options.processing_mode@ == "no_process"@ ==> r.processing_mode is NoProcess,
        options.processing_mode@ != "transcode"@ && options.processing_mode@ != "copy"@ && options.processing_mode@
            != "no_process"@ ==> r.processing_mode is Trim,
        r.optimization_mode == optimization_named(options.optimization_mode@),
        r.folder_structure == folders_named(options.folder_structure@),
        r.proxy_mode == proxy_named(options.proxy_mode@),
        r.handle_frames == options.handle_frames,
        r.include_unused_multicam_angles == options.include_all_multicam_angles,
        r.generate_unique_filenames == options.generate_unique_filenames,
        r.use_project_item_names == options.use_project_item_names,
        r.add_frame_range_to_filename == options.add_frame_range_to_filename,
        r.copy_sidecar_files == options.copy_sidecar_files,
        r.skip_offline_media == options.skip_offline_media,
{
    proof {
        reveal_strlit("transcode");
        reveal_strlit("copy");
        reveal_strlit("no_process");
        assert("copy"@.len() != "transcode"@.len());
        assert("no_process"@.len() != "transcode"@.len());
        assert("no_process"@.len() != "copy"@.len());
    }
    let pm = options.processing_mode.as_str();
    let processing_mode = if str_eq(pm, "transcode") {
        ProcessingModeConfig::Transcode { preset: preset_of(&options.transcode_preset) }
    } else if str_eq(pm, "copy") {
        ProcessingModeConfig::Copy
    } else if str_eq(pm, "no_process") {
        ProcessingModeConfig::NoProcess
    } else {
        ProcessingModeConfig::Trim
    };
    let om = options.optimization_mode.as_str();
    let optimization_mode = if str_eq(om, "minimize") {
        OptimizationMode::MinimizeDiskSpace
    } else if str_eq(om, "unique_clips") {
        OptimizationMode::EachClipUnique
    } else {
        OptimizationMode::KeepSameNumberOfFiles
    };
    let fs = options.folder_structure.as_str();
    let folder_structure = if str_eq(fs, "bins") {
        FolderStructure::BinStructure
    } else if str_eq(fs, "original") {
        FolderStructure::OriginalDiskStructure
    } else {
        FolderStructure::Flat
    };
    let px = options.proxy_mode.as_str();
    let proxy_mode = if str_eq(px, "proxy_only") {
        ProxyMode::ProxyOnly
    } else if str_eq(px, "main_only") {
        ProxyMode::MainOnly
    } else if str_eq(px, "preserve") {
        ProxyMode::PreserveReferences
    } else {
        ProxyMode::CopyBoth
    };
    ConsolidationConfig {
        project_path,
        output_path: options.output_path,
        sequences: options.sequences,
        processing_mode,
        optimization_mode,
        folder_structure,
        proxy_mode,
        handle_frames: options.handle_frames,
        include_unused_multicam_angles: options.include_all_multicam_angles,
        generate_unique_filenames: options.generate_unique_filenames,
        use_project_item_names: options.use_project_item_names,
        add_frame_range_to_filename: options.add_frame_range_to_filename,
        copy_sidecar_files: options.copy_sidecar_files,
        skip_offline_media: options.skip_offline_media,
    }
}

// ---------------------------------------------------------------------------
// Sizes
// ---------------------------------------------------------------------------
pub const KB: u64 = 1024;

pub const MB: u64 = 1048576;

pub const GB: u64 = 1073741824;

pub const TB: u64 = 1099511627776;

/// `bytes / unit` in hundredths, rounded half up.
pub open spec fn hundredths(bytes: nat, unit: nat) -> nat {
    ((bytes * 100 + unit / 2) / unit) as nat
}

/// `bytes / unit` with two decimals, then a space and the unit's name.
pub open spec fn scaled_text(bytes: nat, unit: nat, name: Seq<char>) -> Seq<char> {
    decimal(hundredths(bytes, unit) / 100) + seq!['.'] + padded(hundredths(bytes, unit) % 100, 2) + seq![' '] + name
}

/// A byte count in binary units: `B` below a kibibyte, else `KB`, `MB`, `GB`
/// or `TB` with two decimals.
pub open spec fn size_text(bytes: nat) -> Seq<char> {
    if bytes >= TB {
        scaled_text(bytes, TB as nat, "TB"@)
    } else if bytes >= GB {
        scaled_text(bytes, GB as nat, "GB"@)
    } else if bytes >= MB {
        scaled_text(bytes, MB as nat, "MB"@)
    } else if bytes >= KB {
        scaled_text(bytes, KB as nat, "KB"@)
    } else {
        decimal(bytes) + " B"@
    }
}

fn scaled(bytes: u64, unit: u64, name: &str) -> (r: String)
    requires
        unit >= 1024,
    ensures
        r@ == scaled_text(bytes as nat, unit as nat, name@),
{
    let b = bytes as u128;
    let u = unit as u128;
    assert(b * 100 + u / 2 <= 18446744073709551615u128 * 100 + 9223372036854775807u128) by (nonlinear_arith)
        requires
            b <= 18446744073709551615u128,
            u <= 18446744073709551615u128,
    ;
    let h: u128 = (b * 100 + u / 2) / u;
    assert(h as int <= b as int + 1) by (nonlinear_arith)
        requires
            h as int == (b as int * 100 + u as int / 2) / (u as int),
            u >= 1024,
            b >= 0,
    ;
    let whole = (h / 100) as u64;
    let frac = (h % 100) as u64;
    let mut v = fmt_u64(whole);
    v.push('.');
    let f = fmt_padded(frac, 2);
    append_chars(&mut v, &f);
    v.push(' ');
    append_str(&mut v, name);
    string_of(&v)
}

/// A byte count in binary units with two decimals.
pub fn format_file_size(bytes: u64) -> (r: String)
    ensures
        r@ == size_text(bytes as nat),
{
    if bytes >= TB {
        scaled(bytes, TB, "TB")
    } else if bytes >= GB {
        scaled(bytes, GB, "GB")
    } else if bytes >= MB {
        scaled(bytes, MB, "MB")
    } else if bytes >= KB {
        scaled(bytes, KB, "KB")
    } else {
        let mut v = fmt_u64(bytes);
        append_str(&mut v, " B");
        string_of(&v)
    }
}

} // verus!
