//! The data the pipeline passes between its stages.
use vstd::prelude::*;

use crate::text::{chars_of, find_from, push_str};

verus! {

/// How a clip reaches the model: inline as base64, uploaded as a file, or chosen by size.
#[derive(Clone, Copy, Debug, PartialEq, Eq, Structural)]
pub enum UploadMode {
    Auto,
    Base64,
    File,
}

impl Default for UploadMode {
    fn default() -> (r: Self)
        ensures
            r == UploadMode::Auto,
    {
        UploadMode::Auto
    }
}

/// `DateTime::<Utc>::from_timestamp(secs, nanos)` gives a date-time.
pub uninterp spec fn chrono_accepts(secs: i64, nanos: u32) -> bool;

/// What `DateTime::<Utc>::to_rfc3339` writes for the date-time `secs`, `nanos` stands for.
pub uninterp spec fn rfc3339_text(secs: i64, nanos: u32) -> Seq<char>;

/// Whether chrono's `DateTime::<Utc>::from_timestamp` accepts the pair; the contract
/// claims that the answer is `chrono_accepts` of the arguments.
#[verifier::external_body]
fn chrono_from_timestamp_is_some(secs: i64, nanos: u32) -> (b: bool)
    ensures
        b == chrono_accepts(secs, nanos),
{
    chrono::DateTime::<chrono::Utc>::from_timestamp(secs, nanos).is_some()
}

/// chrono's `DateTime::<Utc>::to_rfc3339` of the date-time that `from_timestamp` makes of
/// the pair; the contract names its text `rfc3339_text` of the pair.
#[verifier::external_body]
fn chrono_to_rfc3339(secs: i64, nanos: u32) -> (s: String)
    requires
        chrono_accepts(secs, nanos),
    ensures
        s@ == rfc3339_text(secs, nanos),
{
    chrono::DateTime::<chrono::Utc>::from_timestamp(secs, nanos).unwrap().to_rfc3339()
}

/// A UTC date-time: whole seconds since the Unix epoch and the nanoseconds after them.
#[derive(Clone, Copy, Debug, PartialEq, Eq)]
pub struct Timestamp {
    secs: i64,
    nanos: u32,
}

impl Timestamp {
    #[verifier::type_invariant]
    spec fn inv(self) -> bool {
        chrono_accepts(self.secs, self.nanos)
    }

    pub closed spec fn secs_view(self) -> i64 {
        self.secs
    }

    pub closed spec fn nanos_view(self) -> u32 {
        self.nanos
    }

    /// The date-time `secs` seconds and `nanos` nanoseconds after the epoch, when chrono
    /// can hold it.
    pub fn from_parts(secs: i64, nanos: u32) -> (r: Option<Timestamp>)
        ensures
            r is Some <==> chrono_accepts(secs, nanos),
            r matches Some(t) ==> t.secs_view() == secs && t.nanos_view() == nanos,
    {
        if chrono_from_timestamp_is_some(secs, nanos) {
            Some(Timestamp { secs, nanos })
        } else {
            None
        }
    }

    pub fn seconds(&self) -> (r: i64)
        ensures
            r == self.secs_view(),
    {
        self.secs
    }

    pub fn subsec_nanos(&self) -> (r: u32)
        ensures
            r == self.nanos_view(),
    {
        self.nanos
    }

    /// The RFC 3339 text of this date-time.
    pub fn to_rfc3339(&self) -> (s: String)
        ensures
            s@ == self.rfc3339(),
    {
        proof {
            use_type_invariant(self);
        }
        chrono_to_rfc3339(self.secs, self.nanos)
    }

    pub closed spec fn rfc3339(self) -> Seq<char> {
        rfc3339_text(self.secs, self.nanos)
    }

    /// `self` comes strictly before `other`.
    pub open spec fn before(self, other: Timestamp) -> bool {
        self.secs_view() < other.secs_view() || (self.secs_view() == other.secs_view()
            && self.nanos_view() < other.nanos_view())
    }

    pub fn is_before(&self, other: &Timestamp) -> (b: bool)
        ensures
            b == self.before(*other),
    {
        self.secs < other.secs || (self.secs == other.secs && self.nanos < other.nanos)
    }
}

/// A video found under the input directory, with the paths derived from it.
pub struct SourceVideo {
    pub source_path: String,
    pub relative_path: String,
    pub stem_path: String,
    pub output_markdown_path: String,
    pub working_path: String,
    pub file_name: String,
    pub extension: String,
    pub size_bytes: u64,
    pub source_mtime_ms: u128,
    /// Whole seconds, rounded up.
    pub duration_seconds: Option<u64>,
    pub width: Option<u32>,
    pub height: Option<u32>,
}

/// What probing a video found: its length in whole seconds, rounded up, and its frame size.
#[derive(Clone, Copy, Debug, PartialEq, Eq, Structural)]
pub struct VideoMetadata {
    pub duration_seconds: u64,
    pub width: u32,
    pub height: u32,
}

/// One clip of a video, sent to the model on its own.
pub struct VideoSegment {
    pub segment_id: String,
    pub source_relative_path: String,
    pub clip_path: String,
    pub start_seconds: u64,
    pub end_seconds: u64,
    pub resized: bool,
    pub upload_mode: UploadMode,
    pub uploaded_file_id: Option<String>,
}

#[derive(Clone, Debug)]
pub struct ConceptItem {
    pub term: String,
    pub note: String,
}

#[derive(Clone, Debug)]
pub struct FormulaItem {
    pub expression: String,
    pub description: String,
}

#[derive(Clone, Debug)]
pub struct ExampleItem {
    pub title: String,
    pub summary: String,
}

/// The model's notes on one segment.
pub struct SegmentAnalysis {
    pub course: String,
    pub relative_path: String,
    pub segment_id: String,
    pub time_range: String,
    pub topic: String,
    pub summary: String,
    pub key_concepts: Vec<ConceptItem>,
    pub formulas: Vec<FormulaItem>,
    pub teacher_emphasis: Vec<String>,
    pub examples: Vec<ExampleItem>,
    pub confusions: Vec<String>,
    pub questions: Vec<String>,
    pub tags: Vec<String>,
    pub low_confidence: Vec<String>,
}

/// One generated course document.
pub struct CourseDocument {
    pub relative_path: String,
    pub document_path: String,
    pub title: String,
    pub document_markdown: String,
    pub directory_summary: String,
    pub keywords: Vec<String>,
    pub review_flags: Vec<String>,
    pub generated_at: Timestamp,
    pub objectives: Vec<String>,
    pub knowledge_mainline: Vec<String>,
    pub core_concepts: Vec<ConceptItem>,
    pub formulas: Vec<FormulaItem>,
    pub examples: Vec<ExampleItem>,
    pub teacher_emphasis: Vec<String>,
    pub glossary: Vec<ConceptItem>,
    pub questions_and_quiz: Vec<String>,
}

/// The section titles every course document has, in this order.
pub open spec fn section_title(i: int) -> Seq<char> {
    if i == 0 {
        "本讲目标"@
    } else if i == 1 {
        "知识主线"@
    } else if i == 2 {
        "核心概念"@
    } else if i == 3 {
        "公式与结论"@
    } else if i == 4 {
        "例题与案例"@
    } else if i == 5 {
        "老师强调内容"@
    } else if i == 6 {
        "术语与概念简记"@
    } else {
        "问答与自测"@
    }
}

/// How many required sections there are.
pub const SECTION_COUNT: usize = 8;

/// The `i`-th required section title.
pub fn required_section_title(i: usize) -> (t: &'static str)
    requires
        i < SECTION_COUNT,
    ensures
        t@ == section_title(i as int),
{
    if i == 0 {
        "本讲目标"
    } else if i == 1 {
        "知识主线"
    } else if i == 2 {
        "核心概念"
    } else if i == 3 {
        "公式与结论"
    } else if i == 4 {
        "例题与案例"
    } else if i == 5 {
        "老师强调内容"
    } else if i == 6 {
        "术语与概念简记"
    } else {
        "问答与自测"
    }
}

/// The heading line that opens section `i`: `## ` and its title.
pub open spec fn section_heading(i: int) -> Seq<char> {
    "## "@ + section_title(i)
}

/// The heading of section `i`, as characters.
pub fn section_heading_chars(i: usize) -> (v: Vec<char>)
    requires
        i < SECTION_COUNT,
    ensures
        v@ == section_heading(i as int),
{
    let mut s = String::new();
    push_str(&mut s, "## ");
    push_str(&mut s, required_section_title(i));
    chars_of(s.as_str())
}

/// The heading of section `i` occurs somewhere in `markdown`.
pub open spec fn contains_heading(markdown: Seq<char>, i: int) -> bool {
    exists|p: int| crate::text::occurs_at(markdown, section_heading(i), p)
}

/// Every section heading occurs somewhere in `markdown`.
pub open spec fn contains_all_headings(markdown: Seq<char>) -> bool {
    forall|i: int| 0 <= i < SECTION_COUNT ==> #[trigger] contains_heading(markdown, i)
}

impl CourseDocument {
    /// Whether the rendered markdown holds every required section heading.
    pub fn has_required_sections(&self) -> (b: bool)
        ensures
            b == contains_all_headings(self.document_markdown@),
    {
        let md = chars_of(self.document_markdown.as_str());
        let mut i: usize = 0;
        while i < SECTION_COUNT
            invariant
                md@ == self.document_markdown@,
                i <= SECTION_COUNT,
                forall|j: int| 0 <= j < i ==> #[trigger] contains_heading(md@, j),
            decreases SECTION_COUNT - i,
        {
            let needle = section_heading_chars(i);
            match find_from(&md, &needle, 0) {
                Some(p) => {
                    assert(crate::text::occurs_at(md@, section_heading(i as int), p as int));
                },
                None => {
                    assert(!contains_heading(md@, i as int));
                    return false;
                },
            }
            i = i + 1;
        }
        true
    }
}

/// Entry for one document in a directory index.
pub struct DirectoryDocumentEntry {
    pub title: String,
    pub link: String,
    pub relative_path: String,
    pub generated_at: Timestamp,
    pub summary: String,
    pub keywords: Vec<String>,
}

/// Entry for one child directory in a directory index.
pub struct DirectoryChildEntry {
    pub name: String,
    pub link: String,
    pub relative_path: String,
    pub document_count: usize,
    pub latest_generated_at: Option<Timestamp>,
    pub summary: String,
}

/// The index of one output directory.
pub struct DirectoryIndex {
    pub directory_path: String,
    pub index_path: String,
    pub child_directories: Vec<DirectoryChildEntry>,
    pub child_documents: Vec<DirectoryDocumentEntry>,
    pub document_count: usize,
    pub latest_generated_at: Option<Timestamp>,
    pub summary: String,
}

/// How far the processing of one video has come.
#[derive(Clone, Copy, Debug, PartialEq, Eq, Structural)]
pub enum TaskState {
    Pending,
    Scanning,
    MetadataDone,
    Clipped,
    KimiSegmentDone,
    KimiDocumentDone,
    DocumentWritten,
    Indexed,
    Reviewed,
    Failed,
}

impl TaskState {
    /// Position in the declared order of the states (the order the states compare in).
    pub open spec fn rank(self) -> int {
        match self {
            TaskState::Pending => 0,
            TaskState::Scanning => 1,
            TaskState::MetadataDone => 2,
            TaskState::Clipped => 3,
            TaskState::KimiSegmentDone => 4,
            TaskState::KimiDocumentDone => 5,
            TaskState::DocumentWritten => 6,
            TaskState::Indexed => 7,
            TaskState::Reviewed => 8,
            TaskState::Failed => 9,
        }
    }

    /// The position of this state in the declared order.
    pub fn position(&self) -> (r: u8)
        ensures
            r as int == self.rank(),
    {
        match self {
            TaskState::Pending => 0,
            TaskState::Scanning => 1,
            TaskState::MetadataDone => 2,
            TaskState::Clipped => 3,
            TaskState::KimiSegmentDone => 4,
            TaskState::KimiDocumentDone => 5,
            TaskState::DocumentWritten => 6,
            TaskState::Indexed => 7,
            TaskState::Reviewed => 8,
            TaskState::Failed => 9,
        }
    }

    /// Whether this state comes before `other` in the declared order.
    pub fn precedes(&self, other: &TaskState) -> (b: bool)
        ensures
            b == (self.rank() < other.rank()),
    {
        self.position() < other.position()
    }
}

/// The recorded status of one video.
pub struct VideoTaskState {
    pub relative_path: String,
    pub source_mtime_ms: u128,
    pub config_fingerprint: String,
    pub state: TaskState,
    pub segment_count: usize,
    pub updated_at: Timestamp,
    pub errors: Vec<String>,
}

/// Counts of what a run did with the videos it found.
#[derive(Clone, Copy, Debug, PartialEq, Eq, Structural)]
pub struct RunSummary {
    pub discovered: usize,
    pub processed: usize,
    pub reused: usize,
    pub failed: usize,
}

impl Default for RunSummary {
    fn default() -> (r: Self)
        ensures
            r == (RunSummary { discovered: 0, processed: 0, reused: 0, failed: 0 }),
    {
        RunSummary { discovered: 0, processed: 0, reused: 0, failed: 0 }
    }
}

/// The process exit code of a run and its counts.
#[derive(Clone, Copy, Debug, PartialEq, Eq, Structural)]
pub struct ExitReport {
    pub code: i32,
    pub summary: RunSummary,
}

} // verus!
