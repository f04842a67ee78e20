//! The decisions of a run: which videos are reused, when a failed video is tried again,
//! which metadata a video is processed with, what its document holds, and what the run
//! reports at the end.
use vstd::prelude::*;

use crate::models::{
    CourseDocument, ExitReport, RunSummary, SourceVideo, TaskState, VideoMetadata, VideoTaskState,
};
use crate::state_store::{status_allows_reuse, StateStore};
use crate::writer::{render_course_document, rendered_document, rendered_sections_in_order, section_order_holds};

verus! {

/// What became of one video of a run.
#[derive(Clone, Copy, Debug, PartialEq, Eq, Structural)]
pub enum VideoOutcome {
    /// Its finished output was still valid and was kept.
    Reused,
    /// It was processed and its document written.
    Processed,
    /// Every attempt at it failed.
    Failed,
}

/// How many of `outcomes` are `o`.
pub open spec fn count_outcome(outcomes: Seq<VideoOutcome>, o: VideoOutcome) -> nat
    decreases outcomes.len(),
{
    if outcomes.len() == 0 {
        0
    } else {
        count_outcome(outcomes.drop_last(), o) + if outcomes.last() == o {
            1nat
        } else {
            0nat
        }
    }
}

/// Law: every video of a run is counted once, as reused, processed or failed.
pub proof fn outcomes_add_up(outcomes: Seq<VideoOutcome>)
    ensures
        count_outcome(outcomes, VideoOutcome::Processed) + count_outcome(outcomes, VideoOutcome::Reused)
            + count_outcome(outcomes, VideoOutcome::Failed) == outcomes.len(),
    decreases outcomes.len(),
{
    if outcomes.len() > 0 {
        outcomes_add_up(outcomes.drop_last());
    }
}

/// The counts of a run whose videos had the given outcomes, in the order they were found.
pub fn tally(outcomes: &[VideoOutcome]) -> (s: RunSummary)
    ensures
        s.discovered == outcomes@.len(),
        s.processed == count_outcome(outcomes@, VideoOutcome::Processed),
        s.reused == count_outcome(outcomes@, VideoOutcome::Reused),
        s.failed == count_outcome(outcomes@, VideoOutcome::Failed),
        s.discovered == s.processed + s.reused + s.failed,
{
    let mut s = RunSummary { discovered: outcomes.len(), processed: 0, reused: 0, failed: 0 };
    let mut i: usize = 0;
    while i < outcomes.len()
        invariant
            i <= outcomes@.len(),
            s.discovered == outcomes@.len(),
            s.processed == count_outcome(outcomes@.take(i as int), VideoOutcome::Processed),
            s.reused == count_outcome(outcomes@.take(i as int), VideoOutcome::Reused),
            s.failed == count_outcome(outcomes@.take(i as int), VideoOutcome::Failed),
        decreases outcomes@.len() - i,
    {
        proof {
            outcomes_add_up(outcomes@.take(i as int));
            assert(outcomes@.take(i + 1).drop_last() =~= outcomes@.take(i as int));
        }
        match outcomes[i] {
            VideoOutcome::Reused => s.reused = s.reused + 1,
            VideoOutcome::Processed => s.processed = s.processed + 1,
            VideoOutcome::Failed => s.failed = s.failed + 1,
        }
        i = i + 1;
    }
    proof {
        assert(outcomes@.take(outcomes@.len() as int) =~= outcomes@);
        outcomes_add_up(outcomes@);
    }
    s
}

/// The report of a run: exit code 2 when any video failed, 0 otherwise.
pub fn exit_report(summary: RunSummary) -> (r: ExitReport)
    ensures
        r.summary == summary,
        r.code == if summary.failed > 0 {
            2i32
        } else {
            0i32
        },
{
    let code: i32 = if summary.failed > 0 {
        2
    } else {
        0
    };
    ExitReport { code, summary }
}

/// The report of a run that only rebuilt the indexes: every document found counts as
/// discovered and reused, and the run succeeds.
pub fn only_index_report(document_count: usize) -> (r: ExitReport)
    ensures
        r.code == 0,
        r.summary == (RunSummary {
            discovered: document_count,
            processed: 0,
            reused: document_count,
            failed: 0,
        }),
{
    ExitReport {
        code: 0,
        summary: RunSummary {
            discovered: document_count,
            processed: 0,
            reused: document_count,
            failed: 0,
        },
    }
}

/// Whether a video's finished output is kept instead of processing it again: never with
/// `force`, and otherwise when its status, its Markdown file and its stored document say
/// that the output is complete and fresh.
pub fn reuses_video(
    store: &StateStore,
    force: bool,
    status: &Option<VideoTaskState>,
    video: &SourceVideo,
    fingerprint: &str,
    output_exists: bool,
    bundle_present: bool,
) -> (b: bool)
    ensures
        b == (!force && (*status matches Some(s) && status_allows_reuse(s, *video, fingerprint@)
            && output_exists && bundle_present)),
{
    !force && store.is_video_complete_and_valid(status, video, fingerprint, output_exists, bundle_present)
}

/// Law: a video whose status says its document was written, from the same version of the
/// file (modification time) with the same processing options (fingerprint), is reused by the
/// next run that is not forced, as long as its Markdown file and stored document are still
/// there; a change of the file or of the options, or `--force`, makes the run process it
/// again.
pub proof fn unchanged_finished_video_is_reused(
    status: VideoTaskState,
    video: SourceVideo,
    fingerprint: Seq<char>,
)
    ensures
        status.state == TaskState::DocumentWritten && status.source_mtime_ms
            == video.source_mtime_ms && status.config_fingerprint@ == fingerprint
            ==> status_allows_reuse(status, video, fingerprint),
        status.source_mtime_ms != video.source_mtime_ms || status.config_fingerprint@
            != fingerprint ==> !status_allows_reuse(status, video, fingerprint),
{
}

/// The attempt that follows a failed one: the next, while fewer than `max_retries` retries
/// have been made; none after that.
pub fn next_attempt(attempt: u32, max_retries: u32) -> (r: Option<u32>)
    ensures
        r == if attempt < max_retries {
            Some((attempt + 1) as u32)
        } else {
            None::<u32>
        },
{
    if attempt < max_retries {
        Some(attempt + 1)
    } else {
        None
    }
}

/// How many attempts are made from attempt `attempt` on when every one of them fails.
pub open spec fn attempts_when_failing(attempt: int, max_retries: int) -> nat
    decreases max_retries - attempt,
{
    if attempt < max_retries {
        1 + attempts_when_failing(attempt + 1, max_retries)
    } else {
        1
    }
}

/// Law: a video whose every attempt fails is tried exactly `max_retries + 1` times.
pub proof fn failing_video_attempt_count(max_retries: u32)
    ensures
        attempts_when_failing(0, max_retries as int) == max_retries + 1,
{
    lemma_attempts_from(0, max_retries as int);
}

proof fn lemma_attempts_from(attempt: int, max_retries: int)
    requires
        0 <= attempt <= max_retries,
    ensures
        attempts_when_failing(attempt, max_retries) == max_retries - attempt + 1,
    decreases max_retries - attempt,
{
    if attempt < max_retries {
        lemma_attempts_from(attempt + 1, max_retries);
    }
}

/// The metadata a video is processed with: the stored metadata when it is fresh and `force`
/// is off, else what probing the video found.
pub fn pick_metadata(force: bool, stored: Option<VideoMetadata>, probed: VideoMetadata) -> (m:
    VideoMetadata)
    ensures
        m == if !force && stored is Some {
            stored.unwrap()
        } else {
            probed
        },
{
    if force {
        probed
    } else {
        match stored {
            Some(s) => s,
            None => probed,
        }
    }
}

/// The video with its length and frame size filled in from its metadata.
pub fn enrich_video(video: &SourceVideo, metadata: &VideoMetadata) -> (v: SourceVideo)
    ensures
        v.source_path@ == video.source_path@,
        v.relative_path@ == video.relative_path@,
        v.stem_path@ == video.stem_path@,
        v.output_markdown_path@ == video.output_markdown_path@,
        v.working_path@ == video.working_path@,
        v.file_name@ == video.file_name@,
        v.extension@ == video.extension@,
        v.size_bytes == video.size_bytes,
        v.source_mtime_ms == video.source_mtime_ms,
        v.duration_seconds == Some(metadata.duration_seconds),
        v.width == Some(metadata.width),
        v.height == Some(metadata.height),
{
    SourceVideo {
        source_path: video.source_path.clone(),
        relative_path: video.relative_path.clone(),
        stem_path: video.stem_path.clone(),
        output_markdown_path: video.output_markdown_path.clone(),
        working_path: video.working_path.clone(),
        file_name: video.file_name.clone(),
        extension: video.extension.clone(),
        size_bytes: video.size_bytes,
        source_mtime_ms: video.source_mtime_ms,
        duration_seconds: Some(metadata.duration_seconds),
        width: Some(metadata.width),
        height: Some(metadata.height),
    }
}

/// The document with its Markdown rendered in. The rendering always passes the section
/// order check, so a document built this way is never refused for it.
pub fn attach_markdown(document: CourseDocument) -> (r: CourseDocument)
    ensures
        r == (CourseDocument { document_markdown: r.document_markdown, ..document }),
        r.document_markdown@ == rendered_document(document),
        section_order_holds(r.document_markdown@),
{
    let markdown = render_course_document(&document);
    proof {
        rendered_sections_in_order(document);
    }
    CourseDocument { document_markdown: markdown, ..document }
}

} // verus!
