//! Planning the segments of a video, and what ffprobe reports of it.
use vstd::prelude::*;

use crate::config::VideoSettings;
use crate::models::{SourceVideo, VideoMetadata, VideoSegment};
use crate::paths::{join, join_of};
use crate::text::{decimal, decimal_width2, push_char, push_decimal, push_decimal_width2, push_str};
use vstd::string::StringExecFns;

verus! {

/// `n` in decimal, padded with leading zeros to at least `width` digits (`{:0width$}`).
pub open spec fn decimal_padded(n: nat, width: nat) -> Seq<char> {
    if decimal(n).len() < width {
        Seq::new((width - decimal(n).len()) as nat, |i: int| '0') + decimal(n)
    } else {
        decimal(n)
    }
}

proof fn lemma_decimal_len(n: nat)
    ensures
        decimal(n).len() >= 1,
        n < 10 ==> decimal(n).len() == 1,
        10 <= n < 100 ==> decimal(n).len() == 2,
        n >= 100 ==> decimal(n).len() >= 3,
    decreases n,
{
    if n >= 10 {
        lemma_decimal_len(n / 10);
    }
}

/// Appends `n` padded with zeros to three digits.
fn push_decimal_width3(s: &mut String, n: u64)
    ensures
        final(s)@ == old(s)@ + decimal_padded(n as nat, 3),
{
    proof {
        lemma_decimal_len(n as nat);
    }
    if n < 10 {
        push_char(s, '0');
        push_char(s, '0');
        assert(Seq::new(2, |i: int| '0') =~= seq!['0', '0']);
    } else if n < 100 {
        push_char(s, '0');
        assert(Seq::new(1, |i: int| '0') =~= seq!['0']);
    }
    let ghost before = s@;
    push_decimal(s, n);
    assert(final(s)@ =~= old(s)@ + decimal_padded(n as nat, 3));
}

/// `hh:mm:ss`, each part at least two digits.
pub open spec fn hms_text(t: nat) -> Seq<char> {
    decimal_width2(t / 3600) + ":"@ + decimal_width2((t % 3600) / 60) + ":"@ + decimal_width2(
        t % 60,
    )
}

/// Appends `hh:mm:ss`.
fn push_hms(s: &mut String, total_seconds: u64)
    ensures
        final(s)@ == old(s)@ + hms_text(total_seconds as nat),
{
    let hours = total_seconds / 3600;
    let minutes = (total_seconds % 3600) / 60;
    let seconds = total_seconds % 60;
    push_decimal_width2(s, hours);
    push_str(s, ":");
    push_decimal_width2(s, minutes);
    push_str(s, ":");
    push_decimal_width2(s, seconds);
}

/// A number of seconds as `hh:mm:ss`.
pub fn format_hms(total_seconds: u64) -> (r: String)
    ensures
        r@ == hms_text(total_seconds as nat),
{
    let mut s = String::new();
    push_hms(&mut s, total_seconds);
    s
}

/// The time range of a segment: `start-end`, each as `hh:mm:ss`.
pub open spec fn time_range_text(start: nat, end: nat) -> Seq<char> {
    hms_text(start) + "-"@ + hms_text(end)
}

/// The time range a segment covers, as `hh:mm:ss-hh:mm:ss`.
pub fn format_time_range(segment: &VideoSegment) -> (r: String)
    ensures
        r@ == time_range_text(segment.start_seconds as nat, segment.end_seconds as nat),
{
    let mut s = String::new();
    push_hms(&mut s, segment.start_seconds);
    push_str(&mut s, "-");
    push_hms(&mut s, segment.end_seconds);
    s
}

/// The length the segments are planned over: the probed length, at least one second.
pub open spec fn planned_duration(metadata: VideoMetadata) -> nat {
    if metadata.duration_seconds == 0 {
        1
    } else {
        metadata.duration_seconds as nat
    }
}

/// The number of segments: the planned length divided by the segment length, rounded up.
pub open spec fn segment_total(duration: nat, seg: nat) -> nat {
    if duration % seg == 0 {
        duration / seg
    } else {
        duration / seg + 1
    }
}

/// The identifier of segment `i` (counting from zero): `clip_` and `i + 1` in three digits.
pub open spec fn segment_id_text(i: nat) -> Seq<char> {
    "clip_"@ + decimal_padded(i + 1, 3)
}

/// Segment `i` of the plan for the video.
pub open spec fn segment_ok(
    s: VideoSegment,
    i: nat,
    video: SourceVideo,
    metadata: VideoMetadata,
    settings: VideoSettings,
) -> bool {
    let seg = settings.segment_seconds as nat;
    let duration = planned_duration(metadata);
    let start = i * seg;
    let end = if (i + 1) * seg < duration {
        (i + 1) * seg
    } else {
        duration
    };
    &&& s.segment_id@ == segment_id_text(i)
    &&& s.source_relative_path@ == video.relative_path@
    &&& s.clip_path@ == join_of(
        join_of(video.working_path@, "clips"@),
        segment_id_text(i) + ".mp4"@,
    )
    &&& s.start_seconds == start
    &&& s.end_seconds == if end < start + 1 {
        start + 1
    } else {
        end
    }
    &&& s.resized == (metadata.width > settings.max_resolution_width || metadata.height
        > settings.max_resolution_height)
    &&& s.upload_mode == settings.preferred_upload_mode
    &&& s.uploaded_file_id is None
}

/// The segments of a video: consecutive pieces of `segment_seconds` each, the last one
/// ending at the video's end, all sharing the upload mode and the resize decision.
pub fn build_segments(
    video: &SourceVideo,
    metadata: &VideoMetadata,
    settings: &VideoSettings,
) -> (segments: Vec<VideoSegment>)
    requires
        settings.segment_seconds > 0,
    ensures
        segments@.len() == segment_total(
            planned_duration(*metadata),
            settings.segment_seconds as nat,
        ),
        forall|i: int|
            0 <= i < segments@.len() ==> #[trigger] segment_ok(
                segments@[i],
                i as nat,
                *video,
                *metadata,
                *settings,
            ),
{
    let seg = settings.segment_seconds;
    let duration: u64 = if metadata.duration_seconds == 0 {
        1
    } else {
        metadata.duration_seconds
    };
    let total: u64 = if duration % seg == 0 {
        duration / seg
    } else {
        proof {
            assert(duration / seg + 1 <= u64::MAX) by (nonlinear_arith)
                requires
                    duration % seg != 0,
                    seg > 0,
                    duration <= u64::MAX,
            ;
        }
        duration / seg + 1
    };
    let resized = metadata.width > settings.max_resolution_width || metadata.height
        > settings.max_resolution_height;
    let clips_dir = join(video.working_path.as_str(), "clips");
    let mut segments: Vec<VideoSegment> = Vec::new();
    let mut index: u64 = 0;
    let mut start: u64 = 0;
    proof {
        assert(total * seg >= duration) by (nonlinear_arith)
            requires
                total as int == (if duration % seg == 0 { (duration / seg) as int } else { (duration / seg) as int + 1 }),
                seg > 0,
        ;
    }
    while index < total
        invariant
            seg == settings.segment_seconds,
            seg > 0,
            duration as nat == planned_duration(*metadata),
            total as nat == segment_total(duration as nat, seg as nat),
            total * seg >= duration,
            clips_dir@ == join_of(video.working_path@, "clips"@),
            resized == (metadata.width > settings.max_resolution_width || metadata.height
                > settings.max_resolution_height),
            index <= total,
            index < total ==> start == index * seg,
            segments@.len() == index,
            forall|i: int|
                0 <= i < segments@.len() ==> #[trigger] segment_ok(
                    segments@[i],
                    i as nat,
                    *video,
                    *metadata,
                    *settings,
                ),
        decreases total - index,
    {
        proof {
            assert(start < duration) by (nonlinear_arith)
                requires
                    start == index * seg,
                    index < total,
                    total as int == (if duration % seg == 0 { (duration / seg) as int } else { (duration / seg) as int + 1 }),
                    seg > 0,
                    duration > 0,
            ;
        }
        let end: u64 = if duration - start > seg {
            start + seg
        } else {
            duration
        };
        let mut id = String::new();
        push_str(&mut id, "clip_");
        push_decimal_width3(&mut id, index + 1);
        let mut clip_name = id.clone();
        push_str(&mut clip_name, ".mp4");
        let clip_path = join(clips_dir.as_str(), clip_name.as_str());
        let segment = VideoSegment {
            segment_id: id,
            source_relative_path: video.relative_path.clone(),
            clip_path,
            start_seconds: start,
            end_seconds: if end < start + 1 {
                start + 1
            } else {
                end
            },
            resized,
            upload_mode: settings.preferred_upload_mode,
            uploaded_file_id: None,
        };
        proof {
            assert((index + 1) * seg == start + seg) by (nonlinear_arith)
                requires
                    start == index * seg,
            ;
        }
        assert(segment_ok(segment, index as nat, *video, *metadata, *settings));
        segments.push(segment);
        index = index + 1;
        if index < total {
            proof {
                assert(index * seg < duration) by (nonlinear_arith)
                    requires
                        index < total,
                        total as int == (if duration % seg == 0 { (duration / seg) as int } else { (duration / seg) as int + 1 }),
                        seg > 0,
                ;
            }
            start = start + seg;
        }
    }
    segments
}

/// A video of at least one second has at least one segment.
proof fn lemma_segment_total_positive(d: nat, seg: nat)
    requires
        seg > 0,
        d >= 1,
    ensures
        segment_total(d, seg) >= 1,
{
    vstd::arithmetic::div_mod::lemma_fundamental_div_mod(d as int, seg as int);
    let q = d / seg;
    if d % seg == 0 {
        assert(q >= 1) by (nonlinear_arith)
            requires
                d == seg * q,
                d >= 1,
                seg > 0,
        ;
    }
}

/// Where segment `i` starts, and every earlier one, lies before the end; the whole plan
/// reaches the end.
proof fn lemma_segment_bounds(d: nat, seg: nat, i: nat)
    requires
        seg > 0,
        d >= 1,
        i < segment_total(d, seg),
    ensures
        i * seg < d,
        segment_total(d, seg) * seg >= d,
        segment_total(d, seg) >= 1,
        (i + 1) * seg == i * seg + seg,
{
    let q = d / seg;
    let r = d % seg;
    let n = segment_total(d, seg);
    vstd::arithmetic::div_mod::lemma_fundamental_div_mod(d as int, seg as int);
    assert(d == seg * q + r);
    assert((i + 1) * seg == i * seg + seg) by (nonlinear_arith);
    if r == 0 {
        assert(n == q);
        assert(q >= 1) by (nonlinear_arith)
            requires
                d == seg * q,
                d >= 1,
                seg > 0,
        ;
        assert(i * seg < d) by (nonlinear_arith)
            requires
                i < q,
                d == seg * q,
                seg > 0,
        ;
        assert(n * seg >= d) by (nonlinear_arith)
            requires
                n == q,
                d == seg * q,
        ;
    } else {
        assert(n == q + 1);
        assert(i * seg < d) by (nonlinear_arith)
            requires
                i <= q,
                d == seg * q + r,
                r > 0,
                seg > 0,
        ;
        assert(n * seg >= d) by (nonlinear_arith)
            requires
                n == q + 1,
                d == seg * q + r,
                r < seg,
        ;
    }
}

/// Law: the segments of a video cover it from start to end without gap or overlap: there
/// is at least one, the first starts at 0, each ends after it starts and where the next one
/// starts, and the last ends at the video's planned end.
pub proof fn segments_tile_the_video(
    segments: Seq<VideoSegment>,
    video: SourceVideo,
    metadata: VideoMetadata,
    settings: VideoSettings,
)
    requires
        settings.segment_seconds > 0,
        segments.len() == segment_total(planned_duration(metadata), settings.segment_seconds as nat),
        forall|i: int|
            0 <= i < segments.len() ==> #[trigger] segment_ok(
                segments[i],
                i as nat,
                video,
                metadata,
                settings,
            ),
    ensures
        segments.len() >= 1,
        segments[0].start_seconds == 0,
        forall|i: int|
            0 <= i < segments.len() ==> (#[trigger] segments[i]).start_seconds
                < segments[i].end_seconds,
        forall|i: int|
            0 <= i < segments.len() - 1 ==> (#[trigger] segments[i]).end_seconds == segments[i
                + 1].start_seconds,
        segments[segments.len() - 1].end_seconds == planned_duration(metadata),
{
    let d = planned_duration(metadata);
    let seg = settings.segment_seconds as nat;
    lemma_segment_total_positive(d, seg);
    lemma_segment_bounds(d, seg, 0);
    assert(segment_ok(segments[0], 0, video, metadata, settings));
    assert(0 * seg == 0) by (nonlinear_arith);
    assert forall|i: int| 0 <= i < segments.len() implies (#[trigger] segments[i]).start_seconds
        < segments[i].end_seconds by {
        lemma_segment_bounds(d, seg, i as nat);
        assert(segment_ok(segments[i], i as nat, video, metadata, settings));
    }
    assert forall|i: int| 0 <= i < segments.len() - 1 implies (#[trigger] segments[i]).end_seconds
        == segments[i + 1].start_seconds by {
        lemma_segment_bounds(d, seg, i as nat);
        lemma_segment_bounds(d, seg, (i + 1) as nat);
        assert(segment_ok(segments[i], i as nat, video, metadata, settings));
        assert(segment_ok(segments[i + 1], (i + 1) as nat, video, metadata, settings));
    }
    let last = segments.len() - 1;
    lemma_segment_bounds(d, seg, last as nat);
    assert(segment_ok(segments[last], last as nat, video, metadata, settings));
    assert((last + 1) as nat == segments.len());
}

} // verus!

verus! {

/// One stream as ffprobe reports it: its frame size when it has one.
pub struct ProbeStream {
    pub width: Option<u32>,
    pub height: Option<u32>,
}

/// The first width any stream reports, or 0.
pub open spec fn first_width(streams: Seq<ProbeStream>) -> u32
    decreases streams.len(),
{
    if streams.len() == 0 {
        0
    } else {
        match streams[0].width {
            Some(w) => w,
            None => first_width(streams.drop_first()),
        }
    }
}

/// The first height any stream reports, or 0.
pub open spec fn first_height(streams: Seq<ProbeStream>) -> u32
    decreases streams.len(),
{
    if streams.len() == 0 {
        0
    } else {
        match streams[0].height {
            Some(h) => h,
            None => first_height(streams.drop_first()),
        }
    }
}

/// The frame size of a video: the first width and the first height its streams report,
/// 0 for each that none reports.
pub fn frame_size(streams: &[ProbeStream]) -> (r: (u32, u32))
    ensures
        r == (first_width(streams@), first_height(streams@)),
{
    let mut width: Option<u32> = None;
    let mut height: Option<u32> = None;
    let mut i: usize = 0;
    assert(streams@.skip(0) =~= streams@);
    while i < streams.len()
        invariant
            i <= streams@.len(),
            width is None ==> first_width(streams@) == first_width(streams@.skip(i as int)),
            width matches Some(w) ==> first_width(streams@) == w,
            height is None ==> first_height(streams@) == first_height(streams@.skip(i as int)),
            height matches Some(h) ==> first_height(streams@) == h,
        decreases streams@.len() - i,
    {
        assert(streams@.skip(i as int).drop_first() =~= streams@.skip(i + 1));
        assert(streams@.skip(i as int)[0] == streams@[i as int]);
        if width.is_none() {
            width = streams[i].width;
        }
        if height.is_none() {
            height = streams[i].height;
        }
        i = i + 1;
    }
    assert(streams@.skip(streams@.len() as int) =~= Seq::<ProbeStream>::empty());
    assert(streams@.skip(0) =~= streams@);
    let w = match width {
        Some(w) => w,
        None => 0,
    };
    let h = match height {
        Some(h) => h,
        None => 0,
    };
    (w, h)
}

/// The ffprobe arguments that report a video's length and frame size as JSON.
pub fn ffprobe_args(path: &str) -> (args: Vec<String>)
    ensures
        crate::writer::texts(args@) == seq![
            "-v"@,
            "error"@,
            "-show_entries"@,
            "format=duration:stream=width,height"@,
            "-of"@,
            "json"@,
            path@,
        ],
{
    let mut args: Vec<String> = Vec::new();
    args.push(String::from_str("-v"));
    args.push(String::from_str("error"));
    args.push(String::from_str("-show_entries"));
    args.push(String::from_str("format=duration:stream=width,height"));
    args.push(String::from_str("-of"));
    args.push(String::from_str("json"));
    args.push(String::from_str(path));
    assert(crate::writer::texts(args@) =~= seq![
        "-v"@,
        "error"@,
        "-show_entries"@,
        "format=duration:stream=width,height"@,
        "-of"@,
        "json"@,
        path@,
    ]);
    args
}

} // verus!
