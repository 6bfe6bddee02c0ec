//! Argument lists for the external transcoder: stream-copy trims, preset
//! transcodes, and which codecs can be trimmed without re-encoding.

use vstd::prelude::*;
use crate::text::{append_chars, chars_of, decimal, fmt_padded, fmt_u64, is_text, lower_of, lowercase, padded, string_of};
use crate::time_range::TICKS_PER_SECOND;

verus! {

broadcast use vstd::string::group_string_axioms;

/// Encoding presets.
#[derive(Debug, Clone)]
pub enum TranscodePreset {
    ProRes422,
    ProRes422HQ,
    ProRes422LT,
    ProRes4444,
    DNxHD,
    DNxHR,
    H264High,
    H264Medium,
    H265High,
    H265Medium,
    Custom {
        video_codec: String,
        video_bitrate: Option<String>,
        audio_codec: String,
        audio_bitrate: Option<String>,
        extra_args: Vec<String>,
    },
}

/// The characters of each string.
pub open spec fn texts(v: Seq<String>) -> Seq<Seq<char>> {
    v.map_values(|s: String| s@)
}

pub open spec fn prores_args(profile: Seq<char>) -> Seq<Seq<char>> {
    seq!["-c:v"@, "prores_ks"@, "-profile:v"@, profile, "-c:a"@, "pcm_s24le"@]
}

pub open spec fn x26x_args(codec: Seq<char>, preset: Seq<char>, crf: Seq<char>, audio_rate: Seq<char>) -> Seq<Seq<char>> {
    seq!["-c:v"@, codec, "-preset"@, preset, "-crf"@, crf, "-c:a"@, "aac"@, "-b:a"@, audio_rate]
}

impl TranscodePreset {
    /// The encoder arguments of the preset.
    pub open spec fn spec_args(&self) -> Seq<Seq<char>> {
        match self {
            TranscodePreset::ProRes422 => prores_args("2"@),
            TranscodePreset::ProRes422HQ => prores_args("3"@),
            TranscodePreset::ProRes422LT => prores_args("1"@),
            TranscodePreset::ProRes4444 => prores_args("4"@),
            TranscodePreset::DNxHD => seq!["-c:v"@, "dnxhd"@, "-b:v"@, "185M"@, "-c:a"@, "pcm_s24le"@],
            TranscodePreset::DNxHR => seq!["-c:v"@, "dnxhd"@, "-profile:v"@, "dnxhr_hq"@, "-c:a"@, "pcm_s24le"@],
            TranscodePreset::H264High => x26x_args("libx264"@, "slow"@, "18"@, "320k"@),
            TranscodePreset::H264Medium => x26x_args("libx264"@, "medium"@, "23"@, "192k"@),
            TranscodePreset::H265High => x26x_args("libx265"@, "slow"@, "18"@, "320k"@),
            TranscodePreset::H265Medium => x26x_args("libx265"@, "medium"@, "23"@, "192k"@),
            TranscodePreset::Custom { video_codec, video_bitrate, audio_codec, audio_bitrate, extra_args } => {
                seq!["-c:v"@, video_codec@] + (match video_bitrate {
                    Some(b) => seq!["-b:v"@, b@],
                    None => Seq::empty(),
                }) + seq!["-c:a"@, audio_codec@] + (match audio_bitrate {
                    Some(b) => seq!["-b:a"@, b@],
                    None => Seq::empty(),
                }) + texts(extra_args@)
            },
        }
    }

    /// The encoder arguments of the preset.
    pub fn to_ffmpeg_args(&self) -> (r: Vec<String>)
        ensures
            texts(r@) == self.spec_args(),
    {
        let mut v: Vec<String> = Vec::new();
        match self {
            TranscodePreset::ProRes422 => push_all(&mut v, &["-c:v", "prores_ks", "-profile:v", "2", "-c:a", "pcm_s24le"]),
            TranscodePreset::ProRes422HQ => push_all(&mut v, &["-c:v", "prores_ks", "-profile:v", "3", "-c:a", "pcm_s24le"]),
            TranscodePreset::ProRes422LT => push_all(&mut v, &["-c:v", "prores_ks", "-profile:v", "1", "-c:a", "pcm_s24le"]),
            TranscodePreset::ProRes4444 => push_all(&mut v, &["-c:v", "prores_ks", "-profile:v", "4", "-c:a", "pcm_s24le"]),
            TranscodePreset::DNxHD => push_all(&mut v, &["-c:v", "dnxhd", "-b:v", "185M", "-c:a", "pcm_s24le"]),
            TranscodePreset::DNxHR => push_all(&mut v, &["-c:v", "dnxhd", "-profile:v", "dnxhr_hq", "-c:a", "pcm_s24le"]),
            TranscodePreset::H264High => push_all(
                &mut v,
                &["-c:v", "libx264", "-preset", "slow", "-crf", "18", "-c:a", "aac", "-b:a", "320k"],
            ),
            TranscodePreset::H264Medium => push_all(
                &mut v,
                &["-c:v", "libx264", "-preset", "medium", "-crf", "23", "-c:a", "aac", "-b:a", "192k"],
            ),
            TranscodePreset::H265High => push_all(
                &mut v,
                &["-c:v", "libx265", "-preset", "slow", "-crf", "18", "-c:a", "aac", "-b:a", "320k"],
            ),
            TranscodePreset::H265Medium => push_all(
                &mut v,
                &["-c:v", "libx265", "-preset", "medium", "-crf", "23", "-c:a", "aac", "-b:a", "192k"],
            ),
            TranscodePreset::Custom { video_codec, video_bitrate, audio_codec, audio_bitrate, extra_args } => {
                push_str(&mut v, "-c:v");
                push_string(&mut v, video_codec);
                let ghost a = texts(v@);
                match video_bitrate {
                    Some(b) => {
                        push_str(&mut v, "-b:v");
                        push_string(&mut v, b);
                    },
                    None => {},
                }
                push_str(&mut v, "-c:a");
                push_string(&mut v, audio_codec);
                match audio_bitrate {
                    Some(b) => {
                        push_str(&mut v, "-b:a");
                        push_string(&mut v, b);
                    },
                    None => {},
                }
                push_strings(&mut v, extra_args);
                proof {
                    let vb: Seq<Seq<char>> = match video_bitrate {
                        Some(b) => seq!["-b:v"@, b@],
                        None => Seq::empty(),
                    };
                    let ab: Seq<Seq<char>> = match audio_bitrate {
                        Some(b) => seq!["-b:a"@, b@],
                        None => Seq::empty(),
                    };
                    assert(texts(v@) =~= seq!["-c:v"@, video_codec@] + vb + seq!["-c:a"@, audio_codec@] + ab + texts(extra_args@));
                }
            },
        }
        proof {
            assert(texts(v@) =~= self.spec_args());
        }
        v
    }
}

proof fn lemma_texts_push(v: Seq<String>, s: String)
    ensures
        texts(v.push(s)) == texts(v).push(s@),
{
    assert(texts(v.push(s)) =~= texts(v).push(s@));
}

/// Appends the string `s`.
fn push_str(v: &mut Vec<String>, s: &str)
    ensures
        texts(final(v)@) == texts(old(v)@).push(s@),
{
    let ghost v0 = v@;
    let o = s.to_owned();
    v.push(o);
    proof {
        lemma_texts_push(v0, o);
    }
}

/// Appends a copy of `s`.
fn push_string(v: &mut Vec<String>, s: &String)
    ensures
        texts(final(v)@) == texts(old(v)@).push(s@),
{
    let ghost v0 = v@;
    let o = s.clone();
    v.push(o);
    proof {
        lemma_texts_push(v0, o);
    }
}

/// Appends each of the strings.
fn push_all(v: &mut Vec<String>, items: &[&str])
    ensures
        texts(final(v)@) == texts(old(v)@) + items@.map_values(|s: &str| s@),
{
    let ghost v0 = texts(v@);
    let mut i: usize = 0;
    while i < items.len()
        invariant
            i <= items@.len(),
            texts(v@) == v0 + items@.subrange(0, i as int).map_values(|s: &str| s@),
        decreases items@.len() - i,
    {
        push_str(v, items[i]);
        assert(items@.subrange(0, i + 1).map_values(|s: &str| s@) =~= items@.subrange(0, i as int).map_values(|s: &str| s@).push(items@[i as int]@));
        i = i + 1;
    }
    assert(items@.subrange(0, items@.len() as int) =~= items@);
}

/// Appends copies of the strings.
fn push_strings(v: &mut Vec<String>, items: &Vec<String>)
    ensures
        texts(final(v)@) == texts(old(v)@) + texts(items@),
{
    let ghost v0 = texts(v@);
    let mut i: usize = 0;
    while i < items.len()
        invariant
            i <= items@.len(),
            texts(v@) == v0 + texts(items@.subrange(0, i as int)),
        decreases items@.len() - i,
    {
        let ghost vi = v@;
        v.push(items[i].clone());
        proof {
            lemma_texts_push(vi, items@[i as int]);
            assert(texts(items@.subrange(0, i + 1)) =~= texts(items@.subrange(0, i as int)).push(items@[i as int]@));
        }
        i = i + 1;
    }
    assert(items@.subrange(0, items@.len() as int) =~= items@);
}

// ---------------------------------------------------------------------------
// Seconds
// ---------------------------------------------------------------------------
/// Microseconds in `ticks`, rounded half up.
pub open spec fn micros_of(ticks: int) -> int {
    (ticks * 1000000 + TICKS_PER_SECOND / 2) / (TICKS_PER_SECOND as int)
}

/// Seconds of `ticks` with six decimals, as in `10.000000`.
pub open spec fn seconds_text(ticks: int) -> Seq<char> {
    decimal((micros_of(ticks) / 1000000) as nat) + seq!['.'] + padded((micros_of(ticks) % 1000000) as nat, 6)
}

/// Seconds of `ticks`, with six decimals.
pub fn seconds_string(ticks: i64) -> (r: String)
    requires
        ticks >= 0,
    ensures
        r@ == seconds_text(ticks as int),
{
    let t = ticks as i128;
    assert(0 <= t * 1000000 + 127008000000 <= 9223372036854775807i128 * 1000000 + 127008000000) by (nonlinear_arith)
        requires
            0 <= t <= 9223372036854775807i128,
    ;
    let q: i128 = (t * 1000000 + 127008000000) / 254016000000;
    assert(0 <= q <= t * 1000000 + 127008000000) by (nonlinear_arith)
        requires
            q == (t * 1000000 + 127008000000) / 254016000000,
            t >= 0,
    ;
    let whole = (q / 1000000) as u64;
    let frac = (q % 1000000) as u64;
    let mut v = fmt_u64(whole);
    v.push('.');
    let f = fmt_padded(frac, 6);
    append_chars(&mut v, &f);
    string_of(&v)
}

/// An audio stream as the probe reports it.
#[derive(Debug, Clone)]
pub struct AudioStream {
    pub index: usize,
    pub codec_name: String,
    pub sample_rate: u32,
    pub channels: u32,
    pub bit_rate: Option<u64>,
}

// ---------------------------------------------------------------------------
// Commands
// ---------------------------------------------------------------------------
/// Located transcoder binaries.
pub struct FFmpeg {
    pub ffmpeg_path: String,
    pub ffprobe_path: String,
}

/// Arguments of a stream-copy trim of `[start_ticks, end_ticks]`.
pub open spec fn trim_args_spec(input: Seq<char>, output: Seq<char>, start_ticks: int, end_ticks: int) -> Seq<Seq<char>> {
    seq!["-y"@, "-i"@, input, "-ss"@, seconds_text(start_ticks), "-t"@, seconds_text(end_ticks - start_ticks),
        "-c"@, "copy"@, "-map"@, "0:v?"@, "-map"@, "0:a?"@, "-avoid_negative_ts"@, "make_zero"@,
        "-reset_timestamps"@, "1"@, output]
}

/// Arguments of a transcode, limited to `range` when there is one.
pub open spec fn transcode_args_spec(
    input: Seq<char>,
    output: Seq<char>,
    range: Option<(int, int)>,
    preset: Seq<Seq<char>>,
) -> Seq<Seq<char>> {
    seq!["-y"@] + (match range {
        Some((s, e)) => seq!["-ss"@, seconds_text(s)],
        None => Seq::empty(),
    }) + seq!["-i"@, input] + (match range {
        Some((s, e)) => seq!["-t"@, seconds_text(e - s)],
        None => Seq::empty(),
    }) + preset + seq![output]
}

/// The codec names, in lower case, that can be cut by stream copy.
pub open spec fn lossless_codec(c: Seq<char>) -> bool {
    c == "prores"@ || c == "prores_ks"@ || c == "dnxhd"@ || c == "dnxhr"@ || c == "h264"@ || c == "avc"@
        || c == "h265"@ || c == "hevc"@ || c == "mjpeg"@ || c == "jpeg2000"@ || c == "cineform"@
        || c == "cfhd"@ || c == "v210"@ || c == "v410"@ || c == "rawvideo"@ || c == "png"@ || c == "tiff"@
        || c == "dpx"@ || c == "exr"@
}

impl FFmpeg {
    /// The transcoder at the located paths.
    pub fn new(ffmpeg_path: String, ffprobe_path: String) -> (r: FFmpeg)
        ensures
            r.ffmpeg_path == ffmpeg_path,
            r.ffprobe_path == ffprobe_path,
    {
        FFmpeg { ffmpeg_path, ffprobe_path }
    }

    /// Whether a codec name already in lower case can be trimmed by stream
    /// copy.
    pub fn is_lossless_codec(codec_lower: &str) -> (r: bool)
        ensures
            r == lossless_codec(codec_lower@),
    {
        let c = chars_of(codec_lower);
        is_text(&c, "prores") || is_text(&c, "prores_ks") || is_text(&c, "dnxhd") || is_text(&c, "dnxhr") || is_text(&c, "h264") || is_text(&c, "avc") || is_text(&c, "h265") || is_text(&c, "hevc") || is_text(&c, "mjpeg") || is_text(&c, "jpeg2000") || is_text(&c, "cineform") || is_text(&c, "cfhd") || is_text(&c, "v210") || is_text(&c, "v410") || is_text(&c, "rawvideo") || is_text(&c, "png") || is_text(&c, "tiff") || is_text(&c, "dpx") || is_text(&c, "exr")
    }

    /// Whether a codec, named in any case, can be trimmed by stream copy.
    pub fn is_lossless_trimmable(codec_name: &str) -> (r: bool)
        ensures
            r == lossless_codec(lower_of(codec_name@)),
    {
        let lower = lowercase(codec_name);
        FFmpeg::is_lossless_codec(lower.as_str())
    }

    /// Arguments that cut `[start_ticks, end_ticks]` of `input` into `output`
    /// by stream copy, keeping video and audio streams only.
    pub fn trim_args(input: &str, output: &str, start_ticks: i64, end_ticks: i64) -> (r: Vec<String>)
        requires
            0 <= start_ticks <= end_ticks,
        ensures
            texts(r@) == trim_args_spec(input@, output@, start_ticks as int, end_ticks as int),
    {
        let mut v: Vec<String> = Vec::new();
        push_all(&mut v, &["-y", "-i"]);
        push_str(&mut v, input);
        push_str(&mut v, "-ss");
        let s = seconds_string(start_ticks);
        push_str(&mut v, s.as_str());
        push_str(&mut v, "-t");
        let d = seconds_string(end_ticks - start_ticks);
        push_str(&mut v, d.as_str());
        push_all(&mut v, &["-c", "copy", "-map", "0:v?", "-map", "0:a?", "-avoid_negative_ts", "make_zero", "-reset_timestamps", "1"]);
        push_str(&mut v, output);
        assert(texts(v@) =~= trim_args_spec(input@, output@, start_ticks as int, end_ticks as int));
        v
    }

    /// Arguments that encode `input` into `output` with `preset`, limited to
    /// `[start, end]` ticks when a range is given.
    pub fn transcode_args(input: &str, output: &str, range: Option<(i64, i64)>, preset: &TranscodePreset) -> (r: Vec<String>)
        requires
            range matches Some((s, e)) ==> 0 <= s <= e,
        ensures
            texts(r@) == transcode_args_spec(
                input@,
                output@,
                match range {
                    Some((s, e)) => Some((s as int, e as int)),
                    None => None,
                },
                preset.spec_args(),
            ),
    {
        let mut v: Vec<String> = Vec::new();
        push_str(&mut v, "-y");
        let ghost a0 = texts(v@);
        match range {
            Some((s, _)) => {
                push_str(&mut v, "-ss");
                let t = seconds_string(s);
                push_str(&mut v, t.as_str());
            },
            None => {},
        }
        push_str(&mut v, "-i");
        push_str(&mut v, input);
        match range {
            Some((s, e)) => {
                push_str(&mut v, "-t");
                let t = seconds_string(e - s);
                push_str(&mut v, t.as_str());
            },
            None => {},
        }
        let p = preset.to_ffmpeg_args();
        push_strings(&mut v, &p);
        push_str(&mut v, output);
        proof {
            let spec_range = match range {
                Some((s, e)) => Some((s as int, e as int)),
                None => None,
            };
            assert(texts(v@) =~= transcode_args_spec(input@, output@, spec_range, preset.spec_args()));
        }
        v
    }
}

} // verus!
