//! Where the working directory keeps each video's state, and when what it keeps may be
//! reused.
use vstd::prelude::*;

use crate::models::{CourseDocument, DirectoryIndex, SourceVideo, TaskState, Timestamp, VideoTaskState};
use crate::paths::{components, components_of, join, join_of, joined_components, views};
use crate::order::{apply_order, is_stable_order, key_views, sorted_order};
use crate::text::{chars_of, push_str};
use vstd::string::StringExecFns;

verus! {

/// The working directory that holds the state of every video.
pub struct StateStore {
    pub root: String,
}

impl StateStore {
    pub fn new(root: String) -> (s: StateStore)
        ensures
            s.root == root,
    {
        StateStore { root }
    }

    /// The directory of one video's state: its stem path under the root.
    pub open spec fn video_dir(&self, video: SourceVideo) -> Seq<char> {
        join_of(self.root@, video.stem_path@)
    }

    /// `status.json` in the video's state directory.
    pub fn status_path(&self, video: &SourceVideo) -> (p: String)
        ensures
            p@ == join_of(self.video_dir(*video), "status.json"@),
    {
        let dir = join(self.root.as_str(), video.stem_path.as_str());
        join(dir.as_str(), "status.json")
    }

    /// `status.json` in the state directory of the given relative path.
    pub fn status_path_for_relative(&self, relative: &str) -> (p: String)
        ensures
            p@ == join_of(join_of(self.root@, relative@), "status.json"@),
    {
        let dir = join(self.root.as_str(), relative);
        join(dir.as_str(), "status.json")
    }

    /// `metadata.json` in the video's state directory.
    pub fn metadata_path(&self, video: &SourceVideo) -> (p: String)
        ensures
            p@ == join_of(self.video_dir(*video), "metadata.json"@),
    {
        let dir = join(self.root.as_str(), video.stem_path.as_str());
        join(dir.as_str(), "metadata.json")
    }

    /// `kimi_segment_outputs/<segment>.json` in the video's state directory.
    pub fn segment_analysis_path(&self, video: &SourceVideo, segment_id: &str) -> (p: String)
        ensures
            p@ == join_of(
                join_of(self.video_dir(*video), "kimi_segment_outputs"@),
                segment_id@ + ".json"@,
            ),
    {
        let dir = join(self.root.as_str(), video.stem_path.as_str());
        let outputs = join(dir.as_str(), "kimi_segment_outputs");
        let mut name = String::from_str(segment_id);
        push_str(&mut name, ".json");
        join(outputs.as_str(), name.as_str())
    }

    /// `kimi_final_outputs/document.json` in the video's state directory.
    pub fn final_document_path(&self, video: &SourceVideo) -> (p: String)
        ensures
            p@ == join_of(
                join_of(self.video_dir(*video), "kimi_final_outputs"@),
                "document.json"@,
            ),
    {
        let dir = join(self.root.as_str(), video.stem_path.as_str());
        let outputs = join(dir.as_str(), "kimi_final_outputs");
        join(outputs.as_str(), "document.json")
    }

    /// `index_cache.json` for a directory index: in the root for the top directory, else in
    /// the directory's path under the root (an absolute directory path loses its leading `/`).
    pub fn index_cache_path(&self, index: &DirectoryIndex) -> (p: String)
        ensures
            p@ == ({
                let rel = index_cache_relative(index.directory_path@);
                if rel.len() == 0 {
                    join_of(self.root@, "index_cache.json"@)
                } else {
                    join_of(join_of(self.root@, rel), "index_cache.json"@)
                }
            }),
    {
        let v = chars_of(index.directory_path.as_str());
        let rel = if v.len() > 0 && v[0] == '/' {
            let parts = components(index.directory_path.as_str());
            crate::indexer::join_components(&parts)
        } else {
            index.directory_path.clone()
        };
        if rel.as_str().is_empty() {
            join(self.root.as_str(), "index_cache.json")
        } else {
            let dir = join(self.root.as_str(), rel.as_str());
            join(dir.as_str(), "index_cache.json")
        }
    }
}

/// A directory path without the root, when it has one (`strip_prefix("/")`).
pub open spec fn index_cache_relative(s: Seq<char>) -> Seq<char> {
    if s.len() > 0 && s[0] == '/' {
        joined_components(components_of(s))
    } else {
        s
    }
}

/// Something stored for a video is still valid: it was made from the same version of the
/// source file (same modification time) with the same processing options (same fingerprint).
pub open spec fn is_fresh(
    stored_mtime_ms: u128,
    stored_fingerprint: Seq<char>,
    video: SourceVideo,
    fingerprint: Seq<char>,
) -> bool {
    stored_mtime_ms == video.source_mtime_ms && stored_fingerprint == fingerprint
}

/// Whether something stored for a video is still valid.
pub fn stored_is_fresh(
    stored_mtime_ms: u128,
    stored_fingerprint: &str,
    video: &SourceVideo,
    fingerprint: &str,
) -> (b: bool)
    ensures
        b == is_fresh(stored_mtime_ms, stored_fingerprint@, *video, fingerprint@),
{
    let a = chars_of(stored_fingerprint);
    let f = chars_of(fingerprint);
    stored_mtime_ms == video.source_mtime_ms && crate::order::order_chars(&a, &f)
        == crate::order::Rank::Same
}

/// The recorded status allows reusing a video's results: it is fresh and the video got at
/// least as far as writing its document.
pub open spec fn status_allows_reuse(
    status: VideoTaskState,
    video: SourceVideo,
    fingerprint: Seq<char>,
) -> bool {
    &&& is_fresh(status.source_mtime_ms, status.config_fingerprint@, video, fingerprint)
    &&& status.state.rank() >= TaskState::DocumentWritten.rank()
}

/// Whether stored segment analyses may be reused: the recorded status is fresh.
pub fn segment_cache_usable(status: &Option<VideoTaskState>, video: &SourceVideo, fingerprint: &str) -> (b: bool)
    ensures
        b == (*status matches Some(s) && is_fresh(
            s.source_mtime_ms,
            s.config_fingerprint@,
            *video,
            fingerprint@,
        )),
{
    match status {
        None => false,
        Some(s) => stored_is_fresh(s.source_mtime_ms, s.config_fingerprint.as_str(), video, fingerprint),
    }
}

/// The order stored documents are listed in: by their relative path, compared component by
/// component.
pub open spec fn document_keys(docs: Seq<CourseDocument>) -> Seq<Seq<Seq<char>>> {
    docs.map_values(|d: CourseDocument| components_of(d.relative_path@))
}

/// The stored documents sorted by relative path; documents with equal paths keep their order.
pub fn sort_documents(documents: Vec<CourseDocument>) -> (r: Vec<CourseDocument>)
    ensures
        r@.len() == documents@.len(),
        exists|p: Seq<usize>|
            is_stable_order(document_keys(documents@), p) && forall|i: int|
                0 <= i < r@.len() ==> #[trigger] r@[i] == documents@[p[i] as int],
{
    let mut keys: Vec<Vec<Vec<char>>> = Vec::new();
    let mut i: usize = 0;
    while i < documents.len()
        invariant
            i <= documents@.len(),
            key_views(keys@) == document_keys(documents@).take(i as int),
        decreases documents@.len() - i,
    {
        let key = components(documents[i].relative_path.as_str());
        let ghost before = key_views(keys@);
        keys.push(key);
        assert(key_views(keys@) =~= before.push(components_of(documents@[i as int].relative_path@)));
        assert(document_keys(documents@).take(i + 1) =~= document_keys(documents@).take(
            i as int,
        ).push(components_of(documents@[i as int].relative_path@)));
        i = i + 1;
    }
    assert(document_keys(documents@).take(documents@.len() as int) =~= document_keys(documents@));
    let p = sorted_order(&keys);
    let ghost dv = documents@;
    let r = apply_order(documents, &p);
    assert(forall|i: int| 0 <= i < r@.len() ==> #[trigger] r@[i] == dv[p@[i] as int]);
    r
}

impl StateStore {
    /// Whether a video's finished output may be reused instead of processing it again: its
    /// status is recorded, fresh and at least `DocumentWritten`, its Markdown file exists, and
    /// a fresh document bundle is stored.
    pub fn is_video_complete_and_valid(
        &self,
        status: &Option<VideoTaskState>,
        video: &SourceVideo,
        fingerprint: &str,
        output_exists: bool,
        bundle_present: bool,
    ) -> (b: bool)
        ensures
            b == (*status matches Some(s) && status_allows_reuse(s, *video, fingerprint@)
                && output_exists && bundle_present),
    {
        match status {
            None => false,
            Some(s) => {
                if !stored_is_fresh(s.source_mtime_ms, s.config_fingerprint.as_str(), video, fingerprint) {
                    return false;
                }
                if s.state.precedes(&TaskState::DocumentWritten) || !output_exists {
                    return false;
                }
                bundle_present
            },
        }
    }

    /// The status record a state update writes for a video at the time `now`.
    pub fn update_state(
        &self,
        video: &SourceVideo,
        fingerprint: &str,
        state: TaskState,
        segment_count: usize,
        errors: Vec<String>,
        now: Timestamp,
    ) -> (s: VideoTaskState)
        ensures
            s.relative_path@ == video.relative_path@,
            s.source_mtime_ms == video.source_mtime_ms,
            s.config_fingerprint@ == fingerprint@,
            s.state == state,
            s.segment_count == segment_count,
            s.updated_at == now,
            s.errors == errors,
    {
        VideoTaskState {
            relative_path: video.relative_path.clone(),
            source_mtime_ms: video.source_mtime_ms,
            config_fingerprint: String::from_str(fingerprint),
            state,
            segment_count,
            updated_at: now,
            errors,
        }
    }

    /// The status record written at the time `now` for a video whose processing failed with
    /// the given message.
    pub fn record_failure(
        &self,
        video: &SourceVideo,
        fingerprint: &str,
        error_message: String,
        now: Timestamp,
    ) -> (s: VideoTaskState)
        ensures
            s.relative_path@ == video.relative_path@,
            s.source_mtime_ms == video.source_mtime_ms,
            s.config_fingerprint@ == fingerprint@,
            s.state == TaskState::Failed,
            s.segment_count == 0,
            s.updated_at == now,
            s.errors@ == seq![error_message],
    {
        let mut errors: Vec<String> = Vec::new();
        errors.push(error_message);
        self.update_state(video, fingerprint, TaskState::Failed, 0, errors, now)
    }
}

} // verus!
