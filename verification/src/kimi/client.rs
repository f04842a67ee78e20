//! What the client sends to the model and what it makes of the answers.
use vstd::prelude::*;
use base64::Engine;

use crate::metadata::{format_time_range, time_range_text};
use crate::models::{SegmentAnalysis, SourceVideo, UploadMode, VideoSegment};
use crate::kimi::types::{ContentPart, MessageContent, RequestMessage, VideoUrlPayload};
use crate::paths::{file_name, file_name_of, parent, parent_of};
use crate::text::{chars_of, is_blank, push_all, push_char, push_str, string_from_range, trim};
use vstd::string::StringExecFns;

verus! {

/// Clips up to this size go inline when the upload mode is `Auto`.
pub const AUTO_BASE64_MAX_BYTES: u64 = 25165824;

/// How a clip reaches the model.
#[derive(Clone, Copy, Debug, PartialEq, Eq, Structural)]
pub enum ClipTransport {
    /// Inline, as a base64 data URL.
    Inline,
    /// Uploaded as a file first, then referred to.
    Upload,
}

/// Whether choosing the transport needs the clip's size (only in `Auto` mode).
pub fn transport_needs_size(mode: UploadMode) -> (b: bool)
    ensures
        b == (mode == UploadMode::Auto),
{
    match mode {
        UploadMode::Auto => true,
        _ => false,
    }
}

/// The transport for a clip: as the mode says, and in `Auto` mode inline up to 24 MiB.
pub fn clip_transport(mode: UploadMode, size_bytes: u64) -> (t: ClipTransport)
    ensures
        t == match mode {
            UploadMode::Base64 => ClipTransport::Inline,
            UploadMode::File => ClipTransport::Upload,
            UploadMode::Auto => if size_bytes <= AUTO_BASE64_MAX_BYTES {
                ClipTransport::Inline
            } else {
                ClipTransport::Upload
            },
        },
{
    match mode {
        UploadMode::Base64 => ClipTransport::Inline,
        UploadMode::File => ClipTransport::Upload,
        UploadMode::Auto => if size_bytes <= AUTO_BASE64_MAX_BYTES {
            ClipTransport::Inline
        } else {
            ClipTransport::Upload
        },
    }
}

/// The character of a 6-bit value in the standard base64 alphabet.
pub open spec fn b64_char(n: int) -> char {
    if n < 26 {
        (65 + n) as char
    } else if n < 52 {
        (97 + n - 26) as char
    } else if n < 62 {
        (48 + n - 52) as char
    } else if n == 62 {
        '+'
    } else {
        '/'
    }
}

/// Standard base64 with padding: each 3 bytes become 4 characters; a final 1 or 2 bytes
/// become 2 or 3 characters followed by `=` up to 4.
pub open spec fn base64_text(b: Seq<u8>) -> Seq<char>
    decreases b.len(),
{
    if b.len() == 0 {
        Seq::empty()
    } else {
        let b0 = b[0] as int;
        if b.len() == 1 {
            seq![b64_char(b0 / 4), b64_char((b0 % 4) * 16), '=', '=']
        } else {
            let b1 = b[1] as int;
            if b.len() == 2 {
                seq![
                    b64_char(b0 / 4),
                    b64_char((b0 % 4) * 16 + b1 / 16),
                    b64_char((b1 % 16) * 4),
                    '=',
                ]
            } else {
                let b2 = b[2] as int;
                seq![
                    b64_char(b0 / 4),
                    b64_char((b0 % 4) * 16 + b1 / 16),
                    b64_char((b1 % 16) * 4 + b2 / 64),
                    b64_char(b2 % 64),
                ] + base64_text(b.skip(3))
            }
        }
    }
}

/// The encoded length stays within `usize`.
pub open spec fn base64_fits(len: nat) -> bool {
    (len / 3) * 4 + (if len % 3 == 0 {
        0nat
    } else {
        4nat
    }) <= usize::MAX
}

/// base64's `STANDARD.encode` (alphabet `A-Z a-z 0-9 + /`, padded with `=`); the contract
/// states its output as the crate documents it. The crate panics when the output length
/// overflows `usize`, which `requires` rules out.
#[verifier::external_body]
fn base64_encode(data: &[u8]) -> (s: String)
    requires
        base64_fits(data@.len()),
    ensures
        s@ == base64_text(data@),
{
    base64::engine::general_purpose::STANDARD.encode(data)
}

/// A clip inline, as a `data:video/mp4;base64,` URL.
pub fn data_url(bytes: &[u8]) -> (s: String)
    requires
        base64_fits(bytes@.len()),
    ensures
        s@ == "data:video/mp4;base64,"@ + base64_text(bytes@),
{
    let encoded = base64_encode(bytes);
    let mut s = String::from_str("data:video/mp4;base64,");
    push_str(&mut s, encoded.as_str());
    s
}

/// The reference to an uploaded file: `ms://` and its identifier.
pub fn file_reference(id: &str) -> (s: String)
    ensures
        s@ == "ms://"@ + id@,
{
    let mut s = String::from_str("ms://");
    push_str(&mut s, id);
    s
}

/// `s` without trailing `/`.
pub open spec fn trim_trailing_slashes(s: Seq<char>) -> Seq<char>
    decreases s.len(),
{
    if s.len() > 0 && s.last() == '/' {
        trim_trailing_slashes(s.drop_last())
    } else {
        s
    }
}

/// The API base URL without trailing `/`.
pub fn normalize_base_url(base_url: &str) -> (s: String)
    ensures
        s@ == trim_trailing_slashes(base_url@),
{
    let v = chars_of(base_url);
    let mut end: usize = v.len();
    assert(v@.subrange(0, v@.len() as int) =~= v@);
    while end > 0 && v[end - 1] == '/'
        invariant
            end <= v@.len(),
            trim_trailing_slashes(v@) == trim_trailing_slashes(v@.subrange(0, end as int)),
        decreases end,
    {
        assert(v@.subrange(0, end as int).drop_last() =~= v@.subrange(0, end - 1));
        end = end - 1;
    }
    string_from_range(&v, 0, end)
}

/// The chat-completions endpoint under the base URL.
pub fn chat_completions_url(base_url: &str) -> (s: String)
    ensures
        s@ == base_url@ + "/chat/completions"@,
{
    let mut s = String::from_str(base_url);
    push_str(&mut s, "/chat/completions");
    s
}

/// The file-upload endpoint under the base URL.
pub fn files_url(base_url: &str) -> (s: String)
    ensures
        s@ == base_url@ + "/files"@,
{
    let mut s = String::from_str(base_url);
    push_str(&mut s, "/files");
    s
}

} // verus!

verus! {

/// The instruction to the model for one segment: the JSON shape it must answer with,
/// filled in with the segment's path, identifier and time range, and the rules for it.
pub open spec fn segment_prompt_text(
    relative_path: Seq<char>,
    segment_id: Seq<char>,
    time_range: Seq<char>,
    file_name: Seq<char>,
) -> Seq<char> {
    "请根据视频片段整理中文课程笔记，返回一个 JSON 对象，字段必须完整：\n{\n  \"course\": \"\",\n  \"relative_path\": \""@
        + relative_path + "\",\n  \"segment_id\": \""@ + segment_id
        + "\",\n  \"time_range\": \""@ + time_range
        + "\",\n  \"topic\": \"\",\n  \"summary\": \"\",\n  \"key_concepts\": [{\"term\": \"\", \"note\": \"\"}],\n  \"formulas\": [{\"expression\": \"\", \"description\": \"\"}],\n  \"teacher_emphasis\": [\"\"],\n  \"examples\": [{\"title\": \"\", \"summary\": \"\"}],\n  \"confusions\": [\"\"],\n  \"questions\": [\"\"],\n  \"tags\": [\"\"],\n  \"low_confidence\": [\"\"]\n}\n要求：\n1. 仅保留课堂精讲内容。\n2. 术语与概念简记保持简短。\n3. 问答与自测相关内容写入 questions。\n4. 无内容的数组返回空数组。\n5. 不要输出 JSON 以外的任何文本。\n视频文件："@
        + file_name + "\n时间范围："@ + time_range
}

/// The instruction to the model for one segment of a video.
pub fn build_segment_prompt(source_video: &SourceVideo, segment: &VideoSegment) -> (s: String)
    ensures
        s@ == segment_prompt_text(
            source_video.relative_path@,
            segment.segment_id@,
            time_range_text(segment.start_seconds as nat, segment.end_seconds as nat),
            source_video.file_name@,
        ),
{
    let range = format_time_range(segment);
    let mut s = String::from_str(
        "请根据视频片段整理中文课程笔记，返回一个 JSON 对象，字段必须完整：\n{\n  \"course\": \"\",\n  \"relative_path\": \"",
    );
    push_str(&mut s, source_video.relative_path.as_str());
    push_str(&mut s, "\",\n  \"segment_id\": \"");
    push_str(&mut s, segment.segment_id.as_str());
    push_str(&mut s, "\",\n  \"time_range\": \"");
    push_str(&mut s, range.as_str());
    push_str(
        &mut s,
        "\",\n  \"topic\": \"\",\n  \"summary\": \"\",\n  \"key_concepts\": [{\"term\": \"\", \"note\": \"\"}],\n  \"formulas\": [{\"expression\": \"\", \"description\": \"\"}],\n  \"teacher_emphasis\": [\"\"],\n  \"examples\": [{\"title\": \"\", \"summary\": \"\"}],\n  \"confusions\": [\"\"],\n  \"questions\": [\"\"],\n  \"tags\": [\"\"],\n  \"low_confidence\": [\"\"]\n}\n要求：\n1. 仅保留课堂精讲内容。\n2. 术语与概念简记保持简短。\n3. 问答与自测相关内容写入 questions。\n4. 无内容的数组返回空数组。\n5. 不要输出 JSON 以外的任何文本。\n视频文件：",
    );
    push_str(&mut s, source_video.file_name.as_str());
    push_str(&mut s, "\n时间范围：");
    push_str(&mut s, range.as_str());
    s
}

/// The course of a segment whose analysis names none: the name of the directory that holds
/// the video, or "未命名课程" where there is no such name.
pub open spec fn fallback_course(relative_path: Seq<char>) -> Seq<char> {
    match parent_of(relative_path) {
        Some(p) => match file_name_of(p) {
            Some(n) => n,
            None => "未命名课程"@,
        },
        None => "未命名课程"@,
    }
}

/// The model's analysis of a segment, completed from what the client knows: the video's
/// relative path, the segment's id and time range, and a course where the model gave a blank
/// one. Everything else is kept as the model wrote it.
pub fn finalize_analysis(
    analysis: SegmentAnalysis,
    source_video: &SourceVideo,
    segment: &VideoSegment,
) -> (r: SegmentAnalysis)
    ensures
        r.relative_path@ == source_video.relative_path@,
        r.segment_id@ == segment.segment_id@,
        r.time_range@ == time_range_text(segment.start_seconds as nat, segment.end_seconds as nat),
        r.course@ == if trim(analysis.course@).len() == 0 {
            fallback_course(source_video.relative_path@)
        } else {
            analysis.course@
        },
        r.topic == analysis.topic,
        r.summary == analysis.summary,
        r.key_concepts == analysis.key_concepts,
        r.formulas == analysis.formulas,
        r.teacher_emphasis == analysis.teacher_emphasis,
        r.examples == analysis.examples,
        r.confusions == analysis.confusions,
        r.questions == analysis.questions,
        r.tags == analysis.tags,
        r.low_confidence == analysis.low_confidence,
{
    let course = if is_blank(analysis.course.as_str()) {
        proof {
            reveal_strlit("未命名课程");
        }
        match parent(source_video.relative_path.as_str()) {
            Some(p) => match file_name(p.as_str()) {
                Some(n) => n,
                None => String::from_str("未命名课程"),
            },
            None => String::from_str("未命名课程"),
        }
    } else {
        analysis.course
    };
    SegmentAnalysis {
        course,
        relative_path: source_video.relative_path.clone(),
        segment_id: segment.segment_id.clone(),
        time_range: format_time_range(segment),
        ..analysis
    }
}

/// The system instruction: answer with a JSON object only.
pub open spec fn system_instruction() -> Seq<char> {
    "你是一名课程整理助手。只输出 JSON 对象，不要输出 Markdown、解释或代码块。"@
}

/// The messages of a segment's request: the system instruction, then the prompt and the clip.
pub open spec fn messages_ok(m: Seq<RequestMessage>, prompt: Seq<char>, clip_reference: Seq<char>) -> bool {
    &&& m.len() == 2
    &&& m[0].role@ == "system"@
    &&& m[0].content matches MessageContent::Text(t) && t@ == system_instruction()
    &&& m[1].role@ == "user"@
    &&& m[1].content matches MessageContent::Parts(parts) && parts@.len() == 2 && (
    parts@[0] matches ContentPart::Text { text } && text@ == prompt) && (
    parts@[1] matches ContentPart::VideoUrl { video_url } && video_url.url@ == clip_reference)
}

/// The messages asking the model to analyse one clip.
pub fn chat_messages(prompt: String, clip_reference: String) -> (m: Vec<RequestMessage>)
    ensures
        messages_ok(m@, prompt@, clip_reference@),
{
    let ghost p = prompt@;
    let ghost c = clip_reference@;
    let mut parts: Vec<ContentPart> = Vec::new();
    parts.push(ContentPart::Text { text: prompt });
    parts.push(ContentPart::VideoUrl { video_url: VideoUrlPayload { url: clip_reference } });
    let mut m: Vec<RequestMessage> = Vec::new();
    m.push(
        RequestMessage {
            role: String::from_str("system"),
            content: MessageContent::Text(
                String::from_str(
                    "你是一名课程整理助手。只输出 JSON 对象，不要输出 Markdown、解释或代码块。",
                ),
            ),
        },
    );
    m.push(RequestMessage { role: String::from_str("user"), content: MessageContent::Parts(parts) });
    m
}

/// Position of the first `c` in `s`, or -1.
pub open spec fn first_index_of(s: Seq<char>, c: char) -> int
    decreases s.len(),
{
    if s.len() == 0 {
        -1
    } else if s[0] == c {
        0
    } else {
        let r = first_index_of(s.drop_first(), c);
        if r < 0 {
            -1
        } else {
            r + 1
        }
    }
}

/// Position of the last `c` in `s`, or -1.
pub open spec fn last_index_of(s: Seq<char>, c: char) -> int
    decreases s.len(),
{
    if s.len() == 0 {
        -1
    } else if s.last() == c {
        s.len() - 1
    } else {
        last_index_of(s.drop_last(), c)
    }
}

/// The text from the first `{` to the last `}`: `None` when either is missing or the last
/// `}` comes more than one place before the first `{`; empty when it comes just before it.
pub open spec fn json_object_of(s: Seq<char>) -> Option<Seq<char>> {
    let start = first_index_of(s, '{');
    let end = last_index_of(s, '}');
    if start < 0 || end < 0 || end + 1 < start {
        None
    } else {
        Some(s.subrange(start, end + 1))
    }
}

proof fn lemma_first_index_of(s: Seq<char>, c: char)
    ensures
        -1 <= first_index_of(s, c) < s.len(),
        first_index_of(s, c) >= 0 ==> s[first_index_of(s, c)] == c,
    decreases s.len(),
{
    if s.len() > 0 && s[0] != c {
        lemma_first_index_of(s.drop_first(), c);
    }
}

proof fn lemma_last_index_of(s: Seq<char>, c: char)
    ensures
        -1 <= last_index_of(s, c) < s.len(),
    decreases s.len(),
{
    if s.len() > 0 && s.last() != c {
        lemma_last_index_of(s.drop_last(), c);
    }
}

/// The JSON object inside the model's answer, from the first `{` to the last `}`.
pub fn extract_json_object(content: &str) -> (r: Option<String>)
    ensures
        match r {
            Some(t) => json_object_of(content@) == Some(t@),
            None => json_object_of(content@) is None,
        },
{
    let v = chars_of(content);
    proof {
        lemma_first_index_of(v@, '{');
        lemma_last_index_of(v@, '}');
    }
    let mut i: usize = 0;
    assert(v@.skip(0) =~= v@);
    while i < v.len() && v[i] != '{'
        invariant
            i <= v@.len(),
            first_index_of(v@, '{') == if first_index_of(v@.skip(i as int), '{') < 0 {
                -1
            } else {
                first_index_of(v@.skip(i as int), '{') + i
            },
        decreases v@.len() - i,
    {
        assert(v@.skip(i as int).drop_first() =~= v@.skip(i + 1));
        i = i + 1;
    }
    let mut j: usize = v.len();
    assert(v@.subrange(0, v@.len() as int) =~= v@);
    while j > 0 && v[j - 1] != '}'
        invariant
            j <= v@.len(),
            last_index_of(v@, '}') == last_index_of(v@.subrange(0, j as int), '}'),
        decreases j,
    {
        assert(v@.subrange(0, j as int).drop_last() =~= v@.subrange(0, j - 1));
        j = j - 1;
    }
    if i == v.len() || j == 0 {
        if i == v.len() {
            assert(v@.skip(i as int) =~= Seq::<char>::empty());
        }
        return None;
    }
    assert(v@.skip(i as int)[0] == v@[i as int]);
    assert(first_index_of(v@, '{') == i);
    assert(v@.subrange(0, j as int).last() == v@[j - 1]);
    assert(last_index_of(v@, '}') == j - 1);
    if j < i {
        return None;
    }
    Some(string_from_range(&v, i, j))
}

/// The text the model's answer is parsed from: the JSON object inside it, or all of it.
pub fn json_candidate(content: &str) -> (r: String)
    ensures
        r@ == match json_object_of(content@) {
            Some(t) => t,
            None => content@,
        },
{
    match extract_json_object(content) {
        Some(t) => t,
        None => String::from_str(content),
    }
}

/// The content of the model's answer: a string, a list of parts, or another JSON value
/// (held as its JSON text).
pub enum ContentValue {
    Text(String),
    /// For each part, its `text` field when that is a string.
    Parts(Vec<Option<String>>),
    Other(String),
}

/// The text fields of the parts, joined by newlines.
pub open spec fn part_texts(parts: Seq<Option<String>>) -> Seq<Seq<char>>
    decreases parts.len(),
{
    if parts.len() == 0 {
        Seq::empty()
    } else {
        let prev = part_texts(parts.drop_last());
        match parts.last() {
            Some(t) => prev.push(t@),
            None => prev,
        }
    }
}

/// The text of the model's answer: a string as it is, the texts of a list of parts joined
/// by newlines, or the JSON text of anything else.
pub fn extract_content_text(content: ContentValue) -> (s: String)
    ensures
        s@ == match content {
            ContentValue::Text(t) => t@,
            ContentValue::Parts(parts) => crate::writer::join_lines(part_texts(parts@)),
            ContentValue::Other(t) => t@,
        },
{
    match content {
        ContentValue::Text(t) => t,
        ContentValue::Other(t) => t,
        ContentValue::Parts(parts) => {
            let mut s = String::new();
            let mut count: usize = 0;
            let mut i: usize = 0;
            while i < parts.len()
                invariant
                    i <= parts@.len(),
                    count == part_texts(parts@.take(i as int)).len(),
                    count <= i,
                    s@ == crate::writer::join_lines(part_texts(parts@.take(i as int))),
                decreases parts@.len() - i,
            {
                let ghost before = part_texts(parts@.take(i as int));
                assert(parts@.take(i + 1).drop_last() =~= parts@.take(i as int));
                assert(parts@.take(i + 1).last() == parts@[i as int]);
                match &parts[i] {
                    Some(t) => {
                        if count > 0 {
                            push_str(&mut s, "\n");
                        }
                        push_str(&mut s, t.as_str());
                        count = count + 1;
                        let ghost after = before.push(t@);
                        assert(after.drop_last() =~= before);
                        assert(s@ =~= crate::writer::join_lines(after));
                    },
                    None => {},
                }
                i = i + 1;
            }
            assert(parts@.take(parts@.len() as int) =~= parts@);
            s
        },
    }
}

} // verus!
