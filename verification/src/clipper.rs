//! The ffmpeg command that cuts one segment out of a video.
use vstd::prelude::*;

use crate::config::VideoSettings;
use crate::models::{VideoMetadata, VideoSegment};
use crate::text::{decimal, decimal_string, push_decimal, push_str};
use vstd::string::StringExecFns;

verus! {

/// The frame is larger than the settings allow, so the clip is scaled down.
pub open spec fn needs_resize(metadata: VideoMetadata, settings: VideoSettings) -> bool {
    metadata.width > settings.max_resolution_width || metadata.height
        > settings.max_resolution_height
}

/// The scale filter that fits the frame into the maximum size, keeping its aspect ratio.
pub open spec fn scale_filter(settings: VideoSettings) -> Seq<char> {
    "scale='min("@ + decimal(settings.max_resolution_width as nat) + ",iw)':'min("@ + decimal(
        settings.max_resolution_height as nat,
    ) + ",ih)':force_original_aspect_ratio=decrease"@
}

/// The ffmpeg arguments that cut `segment` out of `source_path` into its clip path:
/// seek to the start, read the segment's length, scale down when the frame is too large,
/// and encode H.264 with AAC audio for streaming.
pub open spec fn clip_args(
    source_path: Seq<char>,
    segment: VideoSegment,
    metadata: VideoMetadata,
    settings: VideoSettings,
) -> Seq<Seq<char>> {
    seq![
        "-y"@,
        "-ss"@,
        decimal(segment.start_seconds as nat),
        "-i"@,
        source_path,
        "-t"@,
        decimal((segment.end_seconds - segment.start_seconds) as nat),
    ] + (if needs_resize(metadata, settings) {
        seq!["-vf"@, scale_filter(settings)]
    } else {
        Seq::empty()
    }) + seq![
        "-c:v"@,
        "libx264"@,
        "-preset"@,
        "veryfast"@,
        "-crf"@,
        "28"@,
        "-pix_fmt"@,
        "yuv420p"@,
        "-c:a"@,
        "aac"@,
        "-movflags"@,
        "+faststart"@,
        segment.clip_path@,
    ]
}

/// The ffmpeg arguments that cut one segment out of the source video.
pub fn clip_command_args(
    source_path: &str,
    segment: &VideoSegment,
    metadata: &VideoMetadata,
    settings: &VideoSettings,
) -> (args: Vec<String>)
    requires
        segment.start_seconds <= segment.end_seconds,
    ensures
        crate::writer::texts(args@) == clip_args(source_path@, *segment, *metadata, *settings),
{
    let mut args: Vec<String> = Vec::new();
    args.push(String::from_str("-y"));
    args.push(String::from_str("-ss"));
    args.push(decimal_string(segment.start_seconds));
    args.push(String::from_str("-i"));
    args.push(String::from_str(source_path));
    args.push(String::from_str("-t"));
    args.push(decimal_string(segment.end_seconds - segment.start_seconds));
    let ghost head = crate::writer::texts(args@);
    if metadata.width > settings.max_resolution_width || metadata.height
        > settings.max_resolution_height {
        args.push(String::from_str("-vf"));
        let mut filter = String::new();
        push_str(&mut filter, "scale='min(");
        push_decimal(&mut filter, settings.max_resolution_width as u64);
        push_str(&mut filter, ",iw)':'min(");
        push_decimal(&mut filter, settings.max_resolution_height as u64);
        push_str(&mut filter, ",ih)':force_original_aspect_ratio=decrease");
        args.push(filter);
    }
    let ghost mid = crate::writer::texts(args@);
    args.push(String::from_str("-c:v"));
    args.push(String::from_str("libx264"));
    args.push(String::from_str("-preset"));
    args.push(String::from_str("veryfast"));
    args.push(String::from_str("-crf"));
    args.push(String::from_str("28"));
    args.push(String::from_str("-pix_fmt"));
    args.push(String::from_str("yuv420p"));
    args.push(String::from_str("-c:a"));
    args.push(String::from_str("aac"));
    args.push(String::from_str("-movflags"));
    args.push(String::from_str("+faststart"));
    args.push(segment.clip_path.clone());
    assert(crate::writer::texts(args@) =~= clip_args(
        source_path@,
        *segment,
        *metadata,
        *settings,
    ));
    args
}

/// Whether a clip already on disk is used as it is: never with `--force`, which processes
/// every target from scratch, and otherwise when the clip file exists and is not empty.
pub fn keep_existing_clip(force: bool, clip_len: Option<u64>) -> (b: bool)
    ensures
        b == (!force && (clip_len matches Some(n) && n > 0)),
{
    if force {
        return false;
    }
    match clip_len {
        Some(n) => n > 0,
        None => false,
    }
}

} // verus!
