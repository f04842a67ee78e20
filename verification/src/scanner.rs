//! Which files under the input directory are videos to process, and the paths derived
//! from each.
use vstd::prelude::*;

use crate::config::{AppSettings, PathSettings};
use crate::models::{CourseDocument, SourceVideo};
use crate::order::{key_views, sorted_order, is_stable_order, apply_order, path_lt};
use crate::paths::{
    components, components_of, extension, extension_of, file_name, file_name_of, join, join_of,
    joined_components, views, with_extension, with_extension_of,
};
use crate::text::{chars_of, has_prefix, has_suffix, push_char, ends_with, starts_with, string_from_chars};
use vstd::string::StringExecFns;

verus! {

/// ASCII letters in lower case, other characters unchanged (`to_ascii_lowercase`).
pub open spec fn ascii_lower(s: Seq<char>) -> Seq<char> {
    s.map_values(|c: char| if 'A' <= c <= 'Z' {
        ((c as u32) + 32) as char
    } else {
        c
    })
}

/// A copy of `s` with ASCII letters in lower case.
pub fn ascii_lowercase(s: &str) -> (r: String)
    ensures
        r@ == ascii_lower(s@),
{
    let v = chars_of(s);
    let mut out: Vec<char> = Vec::new();
    let mut i: usize = 0;
    while i < v.len()
        invariant
            i <= v@.len(),
            out@ == ascii_lower(v@).take(i as int),
            v@ == s@,
        decreases v@.len() - i,
    {
        let c = v[i];
        let d = if 'A' <= c && c <= 'Z' {
            ((c as u8) + 32) as char
        } else {
            c
        };
        assert(d == ascii_lower(v@)[i as int]) by {
            if 'A' <= c && c <= 'Z' {
                assert((c as u8) as u32 == c as u32);
            }
        }
        out.push(d);
        assert(ascii_lower(v@).take(i + 1) =~= ascii_lower(v@).take(i as int).push(d));
        i = i + 1;
    }
    assert(ascii_lower(v@).take(v@.len() as int) =~= ascii_lower(v@));
    string_from_chars(out.as_slice())
}

/// The extensions of the video files the scan takes.
pub open spec fn is_supported_extension(e: Seq<char>) -> bool {
    e == "mp4"@ || e == "mov"@ || e == "mkv"@ || e == "avi"@ || e == "webm"@ || e == "m4v"@
}

fn text_equals(a: &Vec<char>, b: &str) -> (r: bool)
    ensures
        r == (a@ == b@),
{
    let bv = chars_of(b);
    crate::order::order_chars(a, &bv) == crate::order::Rank::Same
}

/// Whether the path's extension, in lower case, is one of `mp4`, `mov`, `mkv`, `avi`,
/// `webm` or `m4v`.
pub fn is_supported_video(path: &str) -> (b: bool)
    ensures
        b == match extension_of(path@) {
            Some(e) => is_supported_extension(ascii_lower(e)),
            None => false,
        },
{
    match extension(path) {
        Some(e) => {
            let lower = ascii_lowercase(e.as_str());
            let lv = chars_of(lower.as_str());
            text_equals(&lv, "mp4") || text_equals(&lv, "mov") || text_equals(&lv, "mkv")
                || text_equals(&lv, "avi") || text_equals(&lv, "webm") || text_equals(&lv, "m4v")
        },
        None => false,
    }
}

/// The six video extensions, written out letter by letter.
pub open spec fn listed_video_extension(e: Seq<char>) -> bool {
    ||| e == seq!['m', 'p', '4']
    ||| e == seq!['m', 'o', 'v']
    ||| e == seq!['m', 'k', 'v']
    ||| e == seq!['a', 'v', 'i']
    ||| e == seq!['w', 'e', 'b', 'm']
    ||| e == seq!['m', '4', 'v']
}

/// Law: a path counts as a supported video exactly when it has an extension that, in ASCII
/// lower case, is `mp4`, `mov`, `mkv`, `avi`, `webm` or `m4v`; and a file is taken by the
/// scan exactly when it is such a video and no component below the root marks it hidden or
/// temporary.
pub proof fn supported_videos_are_the_six_extensions(path: Seq<char>, root: Seq<char>)
    ensures
        (match extension_of(path) {
            Some(e) => is_supported_extension(ascii_lower(e)),
            None => false,
        }) <==> (extension_of(path) matches Some(e) && listed_video_extension(ascii_lower(e))),
        is_candidate(path, root) <==> (extension_of(path) matches Some(e)
            && listed_video_extension(ascii_lower(e)) && !exists|i: int|
            0 <= i < relative_components(path, root).len() && is_hidden_or_temporary_name(
                #[trigger] relative_components(path, root)[i],
            )),
{
    reveal_strlit("mp4");
    reveal_strlit("mov");
    reveal_strlit("mkv");
    reveal_strlit("avi");
    reveal_strlit("webm");
    reveal_strlit("m4v");
    assert forall|e: Seq<char>| is_supported_extension(e) <==> listed_video_extension(e) by {
        assert("mp4"@ =~= seq!['m', 'p', '4']);
        assert("mov"@ =~= seq!['m', 'o', 'v']);
        assert("mkv"@ =~= seq!['m', 'k', 'v']);
        assert("avi"@ =~= seq!['a', 'v', 'i']);
        assert("webm"@ =~= seq!['w', 'e', 'b', 'm']);
        assert("m4v"@ =~= seq!['m', '4', 'v']);
    }
}

/// A component that marks a hidden or temporary file: it starts with `.` or `~$`, or
/// ends with `.tmp` or `.part` (the `.` and `..` components are not names and do not count).
pub open spec fn is_hidden_or_temporary_name(c: Seq<char>) -> bool {
    &&& c != "."@
    &&& c != ".."@
    &&& (has_prefix(c, "."@) || has_prefix(c, "~$"@) || has_suffix(c, ".tmp"@) || has_suffix(
        c,
        ".part"@,
    ))
}

/// Law: a path component marks a hidden or temporary file exactly when it is neither `.`
/// nor `..` and it begins with `.` or `~$` or ends with `.tmp` or `.part`.
pub proof fn hidden_and_temporary_names(c: Seq<char>)
    ensures
        is_hidden_or_temporary_name(c) <==> (c != seq!['.'] && c != seq!['.', '.'] && (
        (c.len() >= 1 && c[0] == '.') || (c.len() >= 2 && c[0] == '~' && c[1] == '$') || (
        c.len() >= 4 && c.subrange(c.len() - 4, c.len() as int) == seq!['.', 't', 'm', 'p']) || (
        c.len() >= 5 && c.subrange(c.len() - 5, c.len() as int) == seq!['.', 'p', 'a', 'r', 't']))),
{
    reveal_strlit(".");
    reveal_strlit("..");
    reveal_strlit("~$");
    reveal_strlit(".tmp");
    reveal_strlit(".part");
    assert("."@ =~= seq!['.']);
    assert(".."@ =~= seq!['.', '.']);
    assert("~$"@ =~= seq!['~', '$']);
    assert(".tmp"@ =~= seq!['.', 't', 'm', 'p']);
    assert(".part"@ =~= seq!['.', 'p', 'a', 'r', 't']);
    if c.len() >= 1 {
        assert(has_prefix(c, "."@) <==> c[0] == '.') by {
            if c[0] == '.' {
                assert(c.subrange(0, 1) =~= seq!['.']);
            }
            if has_prefix(c, "."@) {
                assert(c.subrange(0, 1)[0] == c[0]);
            }
        }
    }
    if c.len() >= 2 {
        assert(has_prefix(c, "~$"@) <==> (c[0] == '~' && c[1] == '$')) by {
            if c[0] == '~' && c[1] == '$' {
                assert(c.subrange(0, 2) =~= seq!['~', '$']);
            }
            if has_prefix(c, "~$"@) {
                assert(c.subrange(0, 2)[0] == c[0]);
                assert(c.subrange(0, 2)[1] == c[1]);
            }
        }
    }
}

/// The components of `path` below `root` (`Path::strip_prefix`), or all of them when
/// `path` is not below `root`.
pub open spec fn relative_components(path: Seq<char>, root: Seq<char>) -> Seq<Seq<char>> {
    let p = components_of(path);
    let r = components_of(root);
    if r.len() <= p.len() && p.take(r.len() as int) == r {
        p.skip(r.len() as int)
    } else {
        p
    }
}

fn is_marked_name(c: &Vec<char>) -> (b: bool)
    ensures
        b == is_hidden_or_temporary_name(c@),
{
    let dot = chars_of(".");
    let tilde = chars_of("~$");
    let tmp = chars_of(".tmp");
    let part = chars_of(".part");
    !text_equals(c, ".") && !text_equals(c, "..") && (starts_with(c, &dot) || starts_with(
        c,
        &tilde,
    ) || ends_with(c, &tmp) || ends_with(c, &part))
}

/// The components of `path` below `root`, or all of them.
fn strip_root(path: &str, root: &str) -> (r: Vec<Vec<char>>)
    ensures
        views(r@) == relative_components(path@, root@),
{
    let p = components(path);
    let rc = components(root);
    if crate::indexer::path_is_under(&p, &rc) {
        let mut out: Vec<Vec<char>> = Vec::new();
        let mut i: usize = rc.len();
        while i < p.len()
            invariant
                rc@.len() <= i <= p@.len(),
                views(out@) == views(p@).subrange(rc@.len() as int, i as int),
            decreases p@.len() - i,
        {
            let ghost before = views(out@);
            out.push(crate::indexer::copy_chars(&p[i]));
            assert(views(out@) =~= before.push(p@[i as int]@));
            assert(views(p@).subrange(rc@.len() as int, i + 1) =~= views(p@).subrange(
                rc@.len() as int,
                i as int,
            ).push(p@[i as int]@));
            i = i + 1;
        }
        assert(views(rc@).len() == rc@.len());
        assert(views(p@).subrange(rc@.len() as int, p@.len() as int) =~= views(p@).skip(
            rc@.len() as int,
        ));
        out
    } else {
        p
    }
}

/// Whether a component of the path below `input_root` marks a hidden or temporary file.
pub fn is_hidden_or_temporary(path: &str, input_root: &str) -> (b: bool)
    ensures
        b == exists|i: int|
            0 <= i < relative_components(path@, input_root@).len()
                && is_hidden_or_temporary_name(
                #[trigger] relative_components(path@, input_root@)[i],
            ),
{
    let rel = strip_root(path, input_root);
    let ghost rv = views(rel@);
    let mut i: usize = 0;
    while i < rel.len()
        invariant
            rv == views(rel@),
            rv == relative_components(path@, input_root@),
            i <= rel@.len(),
            forall|j: int| 0 <= j < i ==> !is_hidden_or_temporary_name(#[trigger] rv[j]),
        decreases rel@.len() - i,
    {
        if is_marked_name(&rel[i]) {
            assert(is_hidden_or_temporary_name(rv[i as int]));
            return true;
        }
        i = i + 1;
    }
    false
}

} // verus!

verus! {

/// std's `str::to_lowercase` of the text.
pub uninterp spec fn lowercase_of(s: Seq<char>) -> Seq<char>;

/// std's `str::to_lowercase`; the contract names its result `lowercase_of` of the input
/// (the Unicode lower-case mapping, which is not written out here).
#[verifier::external_body]
fn to_lowercase(s: &str) -> (r: String)
    ensures
        r@ == lowercase_of(s@),
{
    s.to_lowercase()
}

/// A file the walk of the input directory found, with what its metadata gave.
pub struct ScannedFile {
    pub path: String,
    pub size_bytes: u64,
    pub source_mtime_ms: u128,
}

/// Why a scan was refused.
pub enum ScanError {
    /// A file was found outside the input directory.
    OutsideRoot { path: String },
    /// Two videos would write the same output file (compared ignoring case).
    OutputCollision { previous: String, current: String },
}

impl ScanError {
    pub fn message(&self) -> (s: String)
        ensures
            s@ == match self {
                ScanError::OutsideRoot { path } => "path is outside the input directory: "@
                    + path@,
                ScanError::OutputCollision { previous, current } =>
                    "output collision detected between "@ + previous@ + " and "@ + current@,
            },
    {
        let mut s = String::new();
        match self {
            ScanError::OutsideRoot { path } => {
                crate::text::push_str(&mut s, "path is outside the input directory: ");
                crate::text::push_str(&mut s, path.as_str());
            },
            ScanError::OutputCollision { previous, current } => {
                crate::text::push_str(&mut s, "output collision detected between ");
                crate::text::push_str(&mut s, previous.as_str());
                crate::text::push_str(&mut s, " and ");
                crate::text::push_str(&mut s, current.as_str());
            },
        }
        s
    }
}

/// A supported video that is neither hidden nor temporary.
pub open spec fn is_candidate(path: Seq<char>, root: Seq<char>) -> bool {
    &&& match extension_of(path) {
        Some(e) => is_supported_extension(ascii_lower(e)),
        None => false,
    }
    &&& !exists|i: int|
        0 <= i < relative_components(path, root).len() && is_hidden_or_temporary_name(
            #[trigger] relative_components(path, root)[i],
        )
}

/// The files the scan takes, in the order they were found.
pub open spec fn candidates(files: Seq<ScannedFile>, root: Seq<char>) -> Seq<ScannedFile>
    decreases files.len(),
{
    if files.len() == 0 {
        Seq::empty()
    } else {
        let prev = candidates(files.drop_last(), root);
        if is_candidate(files.last().path@, root) {
            prev.push(files.last())
        } else {
            prev
        }
    }
}

/// The path lies below the root.
pub open spec fn under_root(path: Seq<char>, root: Seq<char>) -> bool {
    crate::indexer::is_under(components_of(path), components_of(root))
}

/// The path below the root, components joined by `/`.
pub open spec fn relative_text(path: Seq<char>, root: Seq<char>) -> Seq<char> {
    joined_components(components_of(path).skip(components_of(root).len() as int))
}

/// The Markdown file a video is written to: its relative path under the output directory,
/// with the extension `md`.
pub open spec fn output_path_of(rel: Seq<char>, paths: PathSettings) -> Seq<char> {
    with_extension_of(join_of(paths.output_dir@, rel), "md"@)
}

/// Two videos collide when their output paths are equal ignoring case.
pub open spec fn collision_key(f: ScannedFile, root: Seq<char>, paths: PathSettings) -> Seq<char> {
    lowercase_of(output_path_of(relative_text(f.path@, root), paths))
}

/// The video record of a file.
pub open spec fn video_ok(v: SourceVideo, f: ScannedFile, root: Seq<char>, paths: PathSettings) -> bool {
    let rel = relative_text(f.path@, root);
    let stem = with_extension_of(rel, Seq::empty());
    &&& v.source_path@ == f.path@
    &&& v.relative_path@ == rel
    &&& v.stem_path@ == stem
    &&& v.output_markdown_path@ == output_path_of(rel, paths)
    &&& v.working_path@ == join_of(paths.working_dir@, stem)
    &&& v.file_name@ == crate::indexer::name_or_empty(f.path@)
    &&& v.extension@ == (match extension_of(f.path@) {
        Some(e) => ascii_lower(e),
        None => Seq::empty(),
    })
    &&& v.size_bytes == f.size_bytes
    &&& v.source_mtime_ms == f.source_mtime_ms
    &&& v.duration_seconds is None
    &&& v.width is None
    &&& v.height is None
}

/// Candidate `j` is refused: it lies outside the root, or collides with an earlier one.
pub open spec fn refused_at(cands: Seq<ScannedFile>, j: int, root: Seq<char>, paths: PathSettings) -> bool {
    ||| !under_root(cands[j].path@, root)
    ||| exists|i: int|
        0 <= i < j && #[trigger] collision_key(cands[i], root, paths) == collision_key(
            cands[j],
            root,
            paths,
        )
}

/// No candidate before `k` is refused.
pub open spec fn accepted_upto(cands: Seq<ScannedFile>, k: int, root: Seq<char>, paths: PathSettings) -> bool {
    forall|j: int| 0 <= j < k ==> !#[trigger] refused_at(cands, j, root, paths)
}

} // verus!

verus! {

/// The error reported for candidate `j`, the first one refused.
pub open spec fn error_ok(e: ScanError, cands: Seq<ScannedFile>, j: int, root: Seq<char>, paths: PathSettings) -> bool {
    match e {
        ScanError::OutsideRoot { path } => !under_root(cands[j].path@, root) && path@
            == cands[j].path@,
        ScanError::OutputCollision { previous, current } => {
            &&& under_root(cands[j].path@, root)
            &&& current@ == relative_text(cands[j].path@, root)
            &&& exists|i: int|
                0 <= i < j && #[trigger] collision_key(cands[i], root, paths) == collision_key(
                    cands[j],
                    root,
                    paths,
                ) && previous@ == relative_text(cands[i].path@, root)
        },
    }
}

/// The videos planned from the files the walk found: one for each candidate, none refused,
/// in the order of their relative paths.
pub open spec fn plan_ok(
    videos: Seq<SourceVideo>,
    files: Seq<ScannedFile>,
    root: Seq<char>,
    paths: PathSettings,
) -> bool {
    let cands = candidates(files, root);
    &&& accepted_upto(cands, cands.len() as int, root, paths)
    &&& videos.len() == cands.len()
    &&& exists|p: Seq<usize>|
        is_stable_order(sort_keys(cands, root), p) && forall|i: int|
            0 <= i < videos.len() ==> #[trigger] video_ok(videos[i], cands[p[i] as int], root, paths)
}

/// Law: a plan gives every video its own Markdown file; no two output paths are equal, not
/// even ignoring case.
pub proof fn each_video_gets_its_own_document(
    videos: Seq<SourceVideo>,
    files: Seq<ScannedFile>,
    root: Seq<char>,
    paths: PathSettings,
)
    requires
        plan_ok(videos, files, root, paths),
    ensures
        forall|i: int, j: int|
            0 <= i < j < videos.len() ==> lowercase_of(videos[i].output_markdown_path@)
                != lowercase_of(videos[j].output_markdown_path@),
        forall|i: int, j: int|
            0 <= i < j < videos.len() ==> videos[i].output_markdown_path@
                != videos[j].output_markdown_path@,
{
    let cands = candidates(files, root);
    let p = choose|p: Seq<usize>|
        is_stable_order(sort_keys(cands, root), p) && forall|i: int|
            0 <= i < videos.len() ==> #[trigger] video_ok(videos[i], cands[p[i] as int], root, paths);
    assert forall|i: int, j: int| 0 <= i < j < videos.len() implies lowercase_of(
        videos[i].output_markdown_path@,
    ) != lowercase_of(videos[j].output_markdown_path@) by {
        assert(video_ok(videos[i], cands[p[i] as int], root, paths));
        assert(video_ok(videos[j], cands[p[j] as int], root, paths));
        let a = p[i] as int;
        let b = p[j] as int;
        assert(a != b);
        if a < b {
            assert(!refused_at(cands, b, root, paths));
            assert(collision_key(cands[a], root, paths) != collision_key(cands[b], root, paths));
        } else {
            assert(!refused_at(cands, a, root, paths));
            assert(collision_key(cands[b], root, paths) != collision_key(cands[a], root, paths));
        }
    }
}

/// The order videos are listed in: by their relative path.
pub open spec fn sort_keys(cands: Seq<ScannedFile>, root: Seq<char>) -> Seq<Seq<Seq<char>>> {
    cands.map_values(|f: ScannedFile| components_of(relative_text(f.path@, root)))
}

/// The video record of a file below the root.
fn video_of(f: &ScannedFile, input_root: &str, rel: String, paths: &PathSettings) -> (v: SourceVideo)
    requires
        rel@ == relative_text(f.path@, input_root@),
    ensures
        video_ok(v, *f, input_root@, *paths),
{
    proof {
        reveal_strlit("");
        assert(""@ =~= Seq::<char>::empty());
    }
    let stem_path = with_extension(rel.as_str(), "");
    let joined = join(paths.output_dir.as_str(), rel.as_str());
    let output_markdown_path = with_extension(joined.as_str(), "md");
    let working_path = join(paths.working_dir.as_str(), stem_path.as_str());
    let file_name_text = match file_name(f.path.as_str()) {
        Some(n) => n,
        None => String::new(),
    };
    let extension_text = match extension(f.path.as_str()) {
        Some(e) => ascii_lowercase(e.as_str()),
        None => String::new(),
    };
    SourceVideo {
        source_path: f.path.clone(),
        relative_path: rel,
        stem_path,
        output_markdown_path,
        working_path,
        file_name: file_name_text,
        extension: extension_text,
        size_bytes: f.size_bytes,
        source_mtime_ms: f.source_mtime_ms,
        duration_seconds: None,
        width: None,
        height: None,
    }
}

/// Whether a file is a supported video that is neither hidden nor temporary.
pub fn is_scan_candidate(path: &str, input_root: &str) -> (b: bool)
    ensures
        b == is_candidate(path@, input_root@),
{
    is_supported_video(path) && !is_hidden_or_temporary(path, input_root)
}

proof fn lemma_candidates_prefix(fs: Seq<ScannedFile>, k: int, root: Seq<char>)
    requires
        0 <= k <= fs.len(),
    ensures
        candidates(fs.take(k), root).len() <= candidates(fs, root).len(),
        candidates(fs, root).take(candidates(fs.take(k), root).len() as int) == candidates(
            fs.take(k),
            root,
        ),
    decreases fs.len() - k,
{
    if k < fs.len() {
        lemma_candidates_prefix(fs, k + 1, root);
        assert(fs.take(k + 1).drop_last() =~= fs.take(k));
        let a = candidates(fs.take(k), root);
        let b = candidates(fs.take(k + 1), root);
        let c = candidates(fs, root);
        assert(c.take(a.len() as int) =~= b.take(a.len() as int));
        assert(b.take(a.len() as int) =~= a);
    } else {
        assert(fs.take(k) =~= fs);
        assert(candidates(fs, root).take(candidates(fs, root).len() as int) =~= candidates(
            fs,
            root,
        ));
    }
}

/// Where `key` first occurs among the keys of the videos accepted so far, if it does.
pub fn find_collision(previous: &Vec<Vec<char>>, key: &Vec<char>) -> (r: Option<usize>)
    ensures
        match r {
            Some(q) => q < previous@.len() && previous@[q as int]@ == key@ && forall|i: int|
                0 <= i < q ==> previous@[i]@ != key@,
            None => forall|i: int| 0 <= i < previous@.len() ==> previous@[i]@ != key@,
        },
{
    let mut q: usize = 0;
    while q < previous.len()
        invariant
            q <= previous@.len(),
            forall|i: int| 0 <= i < q ==> previous@[i]@ != key@,
        decreases previous@.len() - q,
    {
        if crate::order::order_chars(&previous[q], key) == crate::order::Rank::Same {
            return Some(q);
        }
        q = q + 1;
    }
    None
}

/// The videos among the files the walk found: supported, neither hidden nor temporary, in
/// the order of their relative paths; refused when one lies outside the root or two would
/// write the same output file.
pub fn plan_videos(files: &[ScannedFile], input_root: &str, paths: &PathSettings) -> (r: Result<
    Vec<SourceVideo>,
    ScanError,
>)
    ensures
        match r {
            Ok(videos) => plan_ok(videos@, files@, input_root@, *paths),
            Err(e) => {
                let cands = candidates(files@, input_root@);
                exists|j: int|
                    0 <= j < cands.len() && accepted_upto(cands, j, input_root@, *paths)
                        && refused_at(cands, j, input_root@, *paths) && error_ok(
                        e,
                        cands,
                        j,
                        input_root@,
                        *paths,
                    )
            },
        },
{
    let ghost root = input_root@;
    let ghost fs = files@;
    let ghost all = candidates(fs, root);
    let root_parts = components(input_root);
    let mut found: Vec<SourceVideo> = Vec::new();
    let mut keys: Vec<Vec<char>> = Vec::new();
    let mut order_keys: Vec<Vec<Vec<char>>> = Vec::new();
    let mut k: usize = 0;
    assert(fs.take(0) =~= Seq::<ScannedFile>::empty());
    while k < files.len()
        invariant
            root == input_root@,
            fs == files@,
            all == candidates(fs, root),
            views(root_parts@) == components_of(root),
            k <= fs.len(),
            found@.len() <= all.len(),
            candidates(fs.take(k as int), root) == all.take(found@.len() as int),
            keys@.len() == found@.len(),
            accepted_upto(all, found@.len() as int, root, *paths),
            forall|i: int|
                0 <= i < found@.len() ==> #[trigger] video_ok(found@[i], all[i], root, *paths),
            forall|i: int|
                0 <= i < found@.len() ==> #[trigger] keys@[i]@ == collision_key(
                    all[i],
                    root,
                    *paths,
                ),
            key_views(order_keys@) == sort_keys(all.take(found@.len() as int), root),
        decreases fs.len() - k,
    {
        assert(fs.take(k + 1).drop_last() =~= fs.take(k as int));
        assert(fs.take(k + 1).last() == fs[k as int]);
        proof {
            lemma_candidates_prefix(fs, k + 1, root);
        }
        let f = &files[k];
        if is_scan_candidate(f.path.as_str(), input_root) {
            let j = found.len();
            let ghost c1 = candidates(fs.take(k + 1), root);
            assert(c1 == all.take(j as int).push(fs[k as int]));
            assert(c1.len() == j + 1);
            assert(all.take(j + 1) == c1);
            assert(all.take(j + 1)[j as int] == all[j as int]);
            assert(all[j as int] == fs[k as int]);
            let parts = components(f.path.as_str());
            if !crate::indexer::path_is_under(&parts, &root_parts) {
                assert(refused_at(all, j as int, root, *paths));
                return Err(ScanError::OutsideRoot { path: f.path.clone() });
            }
            let rel_parts = strip_root(f.path.as_str(), input_root);
            let rel = crate::indexer::join_components(&rel_parts);
            assert(rel@ == relative_text(f.path@, root));
            let v = video_of(f, input_root, rel, paths);
            let key_text = to_lowercase(v.output_markdown_path.as_str());
            let key = chars_of(key_text.as_str());
            assert(key@ == collision_key(all[j as int], root, *paths));
            let found_at = find_collision(&keys, &key);
            let q: usize = match found_at {
                Some(q) => q,
                None => keys.len(),
            };
            if q < keys.len() {
                assert(collision_key(all[q as int], root, *paths) == collision_key(
                    all[j as int],
                    root,
                    *paths,
                ));
                assert(refused_at(all, j as int, root, *paths));
                let previous = found[q].relative_path.clone();
                let current = v.relative_path.clone();
                assert(video_ok(found@[q as int], all[q as int], root, *paths));
                assert(previous@ == relative_text(all[q as int].path@, root));
                assert(current@ == relative_text(all[j as int].path@, root));
                assert(under_root(all[j as int].path@, root));
                assert(error_ok(
                    ScanError::OutputCollision { previous, current },
                    all,
                    j as int,
                    root,
                    *paths,
                ));
                return Err(ScanError::OutputCollision { previous, current });
            }
            assert(!refused_at(all, j as int, root, *paths)) by {
                assert forall|i: int| 0 <= i < j implies #[trigger] collision_key(
                    all[i],
                    root,
                    *paths,
                ) != collision_key(all[j as int], root, *paths) by {
                    assert(keys@[i]@ == collision_key(all[i], root, *paths));
                }
            }
            let ghost kb = key_views(order_keys@);
            let okey = components(v.relative_path.as_str());
            order_keys.push(okey);
            assert(key_views(order_keys@) =~= kb.push(components_of(v.relative_path@)));
            assert(sort_keys(all.take(j + 1), root) =~= sort_keys(all.take(j as int), root).push(
                components_of(relative_text(all[j as int].path@, root)),
            ));
            keys.push(key);
            found.push(v);
        } else {
            assert(candidates(fs.take(k + 1), root) == candidates(fs.take(k as int), root));
        }
        k = k + 1;
    }
    assert(fs.take(fs.len() as int) =~= fs);
    assert(all.take(found@.len() as int).len() == found@.len());
    assert(all.take(all.len() as int) =~= all);
    let p = sorted_order(&order_keys);
    let videos = apply_order(found, &p);
    assert(is_stable_order(sort_keys(all, root), p@));
    Ok(videos)
}

} // verus!

verus! {

/// The video record a document stands for, rebuilt from its relative path under the
/// configured roots (without size, time or extension, which only the file could give).
pub fn map_document_to_video_roots(document: &CourseDocument, paths: &PathSettings) -> (r: Option<
    SourceVideo,
>)
    ensures
        r matches Some(v) && {
            let rel = document.relative_path@;
            let stem = with_extension_of(rel, Seq::empty());
            &&& v.source_path@ == join_of(paths.input_dir@, rel)
            &&& v.relative_path@ == rel
            &&& v.stem_path@ == stem
            &&& v.output_markdown_path@ == join_of(paths.output_dir@, rel)
            &&& v.working_path@ == join_of(paths.working_dir@, stem)
            &&& v.file_name@ == crate::indexer::name_or_empty(rel)
            &&& v.extension@ == Seq::<char>::empty()
            &&& v.size_bytes == 0
            &&& v.source_mtime_ms == 0
            &&& v.duration_seconds is None
            &&& v.width is None
            &&& v.height is None
        },
{
    proof {
        reveal_strlit("");
        assert(""@ =~= Seq::<char>::empty());
    }
    let rel = document.relative_path.as_str();
    let stem_path = with_extension(rel, "");
    let working_path = join(paths.working_dir.as_str(), stem_path.as_str());
    Some(
        SourceVideo {
            source_path: join(paths.input_dir.as_str(), rel),
            relative_path: document.relative_path.clone(),
            stem_path,
            output_markdown_path: join(paths.output_dir.as_str(), rel),
            working_path,
            file_name: match file_name(rel) {
                Some(n) => n,
                None => String::new(),
            },
            extension: String::new(),
            size_bytes: 0,
            source_mtime_ms: 0,
            duration_seconds: None,
            width: None,
            height: None,
        },
    )
}

} // verus!
