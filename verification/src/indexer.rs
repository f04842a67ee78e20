//! Directory indexes over the generated documents.
use vstd::prelude::*;

use crate::models::{
    CourseDocument, DirectoryChildEntry, DirectoryDocumentEntry, DirectoryIndex, Timestamp,
};
use crate::order::{key_views, path_lt, sorted_order, is_stable_order, order_paths, Rank};
use crate::paths::{
    components, components_of, extension, extension_of, file_name, file_name_of, file_stem_of, join, join_of, joined_components,
    parent, parent_of, views, clean_component, lemma_components_clean,
    lemma_components_of_joined,
};
use crate::text::{chars_of, has_prefix, push_all, push_char, push_str, string_from_range};

verus! {

/// The parent of a path, or the empty path when it has none.
pub open spec fn parent_or_empty(s: Seq<char>) -> Seq<char> {
    match parent_of(s) {
        Some(p) => p,
        None => Seq::empty(),
    }
}

/// The components of the directory a document lies in.
pub open spec fn document_dir(d: CourseDocument) -> Seq<Seq<char>> {
    components_of(parent_or_empty(d.relative_path@))
}

/// `Path::starts_with`: `key` is a leading run of the components `path`.
pub open spec fn is_under(path: Seq<Seq<char>>, key: Seq<Seq<char>>) -> bool {
    key.len() <= path.len() && path.take(key.len() as int) == key
}

/// The document lies in the directory `key` or below it.
pub open spec fn doc_under(d: CourseDocument, key: Seq<Seq<char>>) -> bool {
    is_under(components_of(d.relative_path@), key)
}

/// The number of documents in `key` or below it.
pub open spec fn count_in(docs: Seq<CourseDocument>, key: Seq<Seq<char>>) -> nat
    decreases docs.len(),
{
    if docs.len() == 0 {
        0
    } else {
        count_in(docs.drop_last(), key) + if doc_under(docs.last(), key) {
            1nat
        } else {
            0nat
        }
    }
}

/// The later of two optional date-times.
pub open spec fn later(a: Option<Timestamp>, b: Timestamp) -> Timestamp {
    match a {
        Some(t) => if t.before(b) {
            b
        } else {
            t
        },
        None => b,
    }
}

/// The latest generation time of the documents in `key` or below it.
pub open spec fn latest_in(docs: Seq<CourseDocument>, key: Seq<Seq<char>>) -> Option<Timestamp>
    decreases docs.len(),
{
    if docs.len() == 0 {
        None
    } else {
        let prev = latest_in(docs.drop_last(), key);
        if doc_under(docs.last(), key) {
            Some(later(prev, docs.last().generated_at))
        } else {
            prev
        }
    }
}

/// The non-empty summaries of the documents in `key` or below it, in order.
pub open spec fn summaries_in(docs: Seq<CourseDocument>, key: Seq<Seq<char>>) -> Seq<Seq<char>>
    decreases docs.len(),
{
    if docs.len() == 0 {
        Seq::empty()
    } else {
        let prev = summaries_in(docs.drop_last(), key);
        if doc_under(docs.last(), key) && docs.last().directory_summary@.len() > 0 {
            prev.push(docs.last().directory_summary@)
        } else {
            prev
        }
    }
}

/// The first two summaries, joined by `；`.
pub open spec fn summary_of(summaries: Seq<Seq<char>>) -> Seq<char> {
    if summaries.len() == 0 {
        Seq::empty()
    } else if summaries.len() == 1 {
        summaries[0]
    } else {
        summaries[0] + "；"@ + summaries[1]
    }
}

/// The documents that lie directly in `key`, in order.
pub open spec fn docs_in_dir(docs: Seq<CourseDocument>, key: Seq<Seq<char>>) -> Seq<CourseDocument>
    decreases docs.len(),
{
    if docs.len() == 0 {
        Seq::empty()
    } else {
        let prev = docs_in_dir(docs.drop_last(), key);
        if document_dir(docs.last()) == key {
            prev.push(docs.last())
        } else {
            prev
        }
    }
}

/// The leading runs of `p`: empty, one component, two, ... all of them.
pub open spec fn prefixes_of(p: Seq<Seq<char>>) -> Seq<Seq<Seq<char>>> {
    Seq::new((p.len() + 1) as nat, |k: int| p.take(k))
}

/// Every directory an index is made for, once per document and level (with repeats).
pub open spec fn all_dirs(docs: Seq<CourseDocument>) -> Seq<Seq<Seq<char>>>
    decreases docs.len(),
{
    if docs.len() == 0 {
        Seq::empty()
    } else {
        all_dirs(docs.drop_last()) + prefixes_of(document_dir(docs.last()))
    }
}

/// `key` is a directory that gets an index: a document's directory or one above it.
pub open spec fn is_index_dir(docs: Seq<CourseDocument>, key: Seq<Seq<char>>) -> bool {
    all_dirs(docs).contains(key)
}

/// The file name of a path, or the empty text.
pub open spec fn name_or_empty(s: Seq<char>) -> Seq<char> {
    match file_name_of(s) {
        Some(n) => n,
        None => Seq::empty(),
    }
}

/// The index entry of a document.
pub open spec fn document_entry_ok(e: DirectoryDocumentEntry, d: CourseDocument) -> bool {
    &&& e.title@ == d.title@
    &&& e.link@ == name_or_empty(d.document_path@)
    &&& e.relative_path@ == d.relative_path@
    &&& e.generated_at == d.generated_at
    &&& e.summary@ == d.directory_summary@
    &&& e.keywords@ == d.keywords@
}

/// The index entry of the child directory `key`.
pub open spec fn child_entry_ok(
    e: DirectoryChildEntry,
    docs: Seq<CourseDocument>,
    key: Seq<Seq<char>>,
) -> bool {
    let path = joined_components(key);
    &&& e.name@ == (match file_name_of(path) {
        Some(n) => n,
        None => "."@,
    })
    &&& e.link@ == name_or_empty(path) + "/index.md"@
    &&& e.relative_path@ == path
    &&& e.document_count == count_in(docs, key)
    &&& e.latest_generated_at == latest_in(docs, key)
    &&& e.summary@ == summary_of(summaries_in(docs, key))
}

/// `child` is a directory directly inside `key`.
pub open spec fn is_child_dir(key: Seq<Seq<char>>, child: Seq<Seq<char>>) -> bool {
    child.len() == key.len() + 1 && child.take(key.len() as int) == key
}

/// A child entry of the index of `key`, for a directory directly inside it that has an index.
pub open spec fn child_ok(
    docs: Seq<CourseDocument>,
    key: Seq<Seq<char>>,
    e: DirectoryChildEntry,
) -> bool {
    let c = key_of(e.relative_path@);
    &&& is_child_dir(key, c)
    &&& is_index_dir(docs, c)
    &&& child_entry_ok(e, docs, c)
}

/// The directory key an index or entry stands for.
pub open spec fn key_of(path: Seq<char>) -> Seq<Seq<char>> {
    components_of(path)
}

/// The index of directory `key`.
pub open spec fn index_ok(
    docs: Seq<CourseDocument>,
    output_root: Seq<char>,
    idx: DirectoryIndex,
    key: Seq<Seq<char>>,
) -> bool {
    let path = joined_components(key);
    let direct = docs_in_dir(docs, key);
    let children = idx.child_directories@;
    &&& idx.directory_path@ == path
    &&& idx.index_path@ == join_of(join_of(output_root, path), "index.md"@)
    &&& idx.document_count == count_in(docs, key)
    &&& idx.latest_generated_at == latest_in(docs, key)
    &&& idx.summary@ == summary_of(summaries_in(docs, key))
    &&& idx.child_documents@.len() == direct.len()
    &&& forall|j: int|
        0 <= j < direct.len() ==> #[trigger] document_entry_ok(idx.child_documents@[j], direct[j])
    &&& forall|j: int|
        0 <= j < children.len() ==> #[trigger] child_ok(docs, key, children[j])
    &&& forall|i: int, j: int|
        0 <= i < j < children.len() ==> path_lt(
            key_of(children[i].relative_path@),
            key_of(children[j].relative_path@),
        )
    &&& forall|c: Seq<Seq<char>>|
        is_index_dir(docs, c) && is_child_dir(key, c) ==> exists|j: int|
            0 <= j < children.len() && #[trigger] key_of(children[j].relative_path@) == c
}

} // verus!

verus! {

/// Components written back with `/` between them.
pub fn join_components(parts: &Vec<Vec<char>>) -> (r: String)
    ensures
        r@ == joined_components(views(parts@)),
{
    let ghost ps = views(parts@);
    let mut s = String::new();
    let mut i: usize = 0;
    while i < parts.len()
        invariant
            ps == views(parts@),
            i <= parts@.len(),
            s@ == joined_components(ps.take(i as int)),
        decreases parts@.len() - i,
    {
        if i > 0 {
            push_char(&mut s, '/');
        }
        push_all(&mut s, &parts[i]);
        proof {
            let t = ps.take(i + 1);
            assert(t.drop_last() =~= ps.take(i as int));
            if i == 0 {
                assert(s@ =~= joined_components(t));
            } else {
                assert(s@ =~= joined_components(t));
            }
        }
        i = i + 1;
    }
    assert(ps.take(parts@.len() as int) =~= ps);
    s
}

/// A copy of a character vector.
pub fn copy_chars(v: &Vec<char>) -> (r: Vec<char>)
    ensures
        r@ == v@,
{
    let mut r: Vec<char> = Vec::new();
    let mut i: usize = 0;
    while i < v.len()
        invariant
            i <= v@.len(),
            r@ == v@.take(i as int),
        decreases v@.len() - i,
    {
        r.push(v[i]);
        assert(v@.take(i + 1) =~= v@.take(i as int).push(v@[i as int]));
        i = i + 1;
    }
    assert(v@.take(v@.len() as int) =~= v@);
    r
}

/// A copy of a list of components.
pub fn copy_path(p: &Vec<Vec<char>>) -> (r: Vec<Vec<char>>)
    ensures
        views(r@) == views(p@),
{
    let mut r: Vec<Vec<char>> = Vec::new();
    let mut i: usize = 0;
    while i < p.len()
        invariant
            i <= p@.len(),
            views(r@) == views(p@).take(i as int),
        decreases p@.len() - i,
    {
        let ghost before = views(r@);
        r.push(copy_chars(&p[i]));
        assert(views(r@) =~= before.push(p@[i as int]@));
        assert(views(p@).take(i + 1) =~= views(p@).take(i as int).push(p@[i as int]@));
        i = i + 1;
    }
    assert(views(p@).take(p@.len() as int) =~= views(p@));
    r
}

/// A copy of a list of strings.
pub fn copy_strings(v: &Vec<String>) -> (r: Vec<String>)
    ensures
        r@ == v@,
{
    let mut r: Vec<String> = Vec::new();
    let mut i: usize = 0;
    while i < v.len()
        invariant
            i <= v@.len(),
            r@ == v@.take(i as int),
        decreases v@.len() - i,
    {
        r.push(v[i].clone());
        assert(v@.take(i + 1) =~= v@.take(i as int).push(v@[i as int]));
        i = i + 1;
    }
    assert(v@.take(v@.len() as int) =~= v@);
    r
}

/// Whether `key` is a leading run of the components `path`.
pub fn path_is_under(path: &Vec<Vec<char>>, key: &Vec<Vec<char>>) -> (b: bool)
    ensures
        b == is_under(views(path@), views(key@)),
{
    if key.len() > path.len() {
        return false;
    }
    let mut i: usize = 0;
    while i < key.len()
        invariant
            key@.len() <= path@.len(),
            i <= key@.len(),
            views(path@).take(i as int) == views(key@).take(i as int),
        decreases key@.len() - i,
    {
        if crate::order::order_chars(&path[i], &key[i]) != Rank::Same {
            assert(views(path@).take(key@.len() as int)[i as int] != views(key@)[i as int]);
            return false;
        }
        assert(views(path@).take(i + 1) =~= views(path@).take(i as int).push(path@[i as int]@));
        assert(views(key@).take(i + 1) =~= views(key@).take(i as int).push(key@[i as int]@));
        i = i + 1;
    }
    assert(views(key@).take(key@.len() as int) =~= views(key@));
    true
}

/// The components of each document's path.
spec fn paths_match(paths: Seq<Vec<Vec<char>>>, docs: Seq<CourseDocument>) -> bool {
    &&& paths.len() == docs.len()
    &&& forall|i: int|
        0 <= i < docs.len() ==> views(#[trigger] paths[i]@) == components_of(docs[i].relative_path@)
}

/// How many documents lie in `key` or below it.
fn count_documents_in_directory(
    key: &Vec<Vec<char>>,
    paths: &Vec<Vec<Vec<char>>>,
    documents: &[CourseDocument],
) -> (n: usize)
    requires
        paths_match(paths@, documents@),
    ensures
        n == count_in(documents@, views(key@)),
{
    let mut n: usize = 0;
    let mut i: usize = 0;
    while i < paths.len()
        invariant
            paths_match(paths@, documents@),
            i <= paths@.len(),
            n == count_in(documents@.take(i as int), views(key@)),
            n <= i,
        decreases paths@.len() - i,
    {
        assert(documents@.take(i + 1).drop_last() =~= documents@.take(i as int));
        assert(views(paths@[i as int]@) == components_of(documents@[i as int].relative_path@));
        if path_is_under(&paths[i], key) {
            n = n + 1;
        }
        i = i + 1;
    }
    assert(documents@.take(documents@.len() as int) =~= documents@);
    n
}

/// The latest generation time of the documents in `key` or below it.
fn latest_generated_at(
    key: &Vec<Vec<char>>,
    paths: &Vec<Vec<Vec<char>>>,
    documents: &[CourseDocument],
) -> (r: Option<Timestamp>)
    requires
        paths_match(paths@, documents@),
    ensures
        r == latest_in(documents@, views(key@)),
{
    let mut r: Option<Timestamp> = None;
    let mut i: usize = 0;
    while i < paths.len()
        invariant
            paths_match(paths@, documents@),
            i <= paths@.len(),
            r == latest_in(documents@.take(i as int), views(key@)),
        decreases paths@.len() - i,
    {
        assert(documents@.take(i + 1).drop_last() =~= documents@.take(i as int));
        assert(views(paths@[i as int]@) == components_of(documents@[i as int].relative_path@));
        if path_is_under(&paths[i], key) {
            let t = documents[i].generated_at;
            r = match r {
                Some(prev) => if prev.is_before(&t) {
                    Some(t)
                } else {
                    Some(prev)
                },
                None => Some(t),
            };
        }
        i = i + 1;
    }
    assert(documents@.take(documents@.len() as int) =~= documents@);
    r
}

/// The first two non-empty summaries of the documents in `key` or below it, joined by `；`.
fn summarize_directory(
    key: &Vec<Vec<char>>,
    paths: &Vec<Vec<Vec<char>>>,
    documents: &[CourseDocument],
) -> (s: String)
    requires
        paths_match(paths@, documents@),
    ensures
        s@ == summary_of(summaries_in(documents@, views(key@))),
{
    let mut found: Vec<usize> = Vec::new();
    let mut i: usize = 0;
    while i < paths.len()
        invariant
            paths_match(paths@, documents@),
            i <= paths@.len(),
            found@.len() == summaries_in(documents@.take(i as int), views(key@)).len(),
            forall|j: int| 0 <= j < found@.len() ==> #[trigger] found@[j] < i,
            forall|j: int|
                0 <= j < found@.len() ==> documents@[found@[j] as int].directory_summary@
                    == #[trigger] summaries_in(documents@.take(i as int), views(key@))[j],
        decreases paths@.len() - i,
    {
        let ghost before = summaries_in(documents@.take(i as int), views(key@));
        assert(documents@.take(i + 1).drop_last() =~= documents@.take(i as int));
        assert(documents@.take(i + 1).last() == documents@[i as int]);
        assert(views(paths@[i as int]@) == components_of(documents@[i as int].relative_path@));
        if path_is_under(&paths[i], key) && !documents[i].directory_summary.as_str().is_empty() {
            found.push(i);
        }
        i = i + 1;
        assert forall|j: int| 0 <= j < found@.len() implies documents@[found@[j] as int].directory_summary@ == #[trigger] summaries_in(
            documents@.take(i as int),
            views(key@),
        )[j] by {
            if j < before.len() {
                assert(summaries_in(documents@.take(i as int), views(key@))[j] == before[j]);
            }
        }
    }
    assert(documents@.take(documents@.len() as int) =~= documents@);
    let mut s = String::new();
    assert(forall|j: int| 0 <= j < found@.len() ==> found@[j] < documents@.len());
    if found.len() >= 1 {
        push_str(&mut s, documents[found[0]].directory_summary.as_str());
    }
    if found.len() >= 2 {
        push_str(&mut s, "；");
        push_str(&mut s, documents[found[1]].directory_summary.as_str());
    }
    assert(s@ =~= summary_of(summaries_in(documents@, views(key@))));
    s
}

/// The index entry of a document.
fn document_entry(d: &CourseDocument) -> (e: DirectoryDocumentEntry)
    ensures
        document_entry_ok(e, *d),
{
    let link = match file_name(d.document_path.as_str()) {
        Some(n) => n,
        None => String::new(),
    };
    DirectoryDocumentEntry {
        title: d.title.clone(),
        link,
        relative_path: d.relative_path.clone(),
        generated_at: d.generated_at,
        summary: d.directory_summary.clone(),
        keywords: copy_strings(&d.keywords),
    }
}

} // verus!

verus! {

/// The directory keys, each once, in increasing order.
spec fn keys_ok(docs: Seq<CourseDocument>, keys: Seq<Seq<Seq<char>>>) -> bool {
    &&& forall|i: int, j: int| 0 <= i < j < keys.len() ==> path_lt(keys[i], keys[j])
    &&& forall|i: int| 0 <= i < keys.len() ==> is_index_dir(docs, #[trigger] keys[i])
    &&& forall|k: Seq<Seq<char>>| is_index_dir(docs, k) ==> #[trigger] keys.contains(k)
}

/// Each document's directory.
spec fn dirs_match(dirs: Seq<Vec<Vec<char>>>, docs: Seq<CourseDocument>) -> bool {
    &&& dirs.len() == docs.len()
    &&& forall|i: int| 0 <= i < docs.len() ==> views(#[trigger] dirs[i]@) == document_dir(docs[i])
}

proof fn lemma_index_dir_clean(docs: Seq<CourseDocument>, k: Seq<Seq<char>>)
    requires
        is_index_dir(docs, k),
    ensures
        forall|i: int| 0 <= i < k.len() ==> #[trigger] clean_component(k[i]),
    decreases docs.len(),
{
    let prev = all_dirs(docs.drop_last());
    let ps = prefixes_of(document_dir(docs.last()));
    assert(all_dirs(docs) == prev + ps);
    let t = choose|t: int| 0 <= t < all_dirs(docs).len() && all_dirs(docs)[t] == k;
    if t < prev.len() {
        assert(prev[t] == k);
        lemma_index_dir_clean(docs.drop_last(), k);
    } else {
        let d = document_dir(docs.last());
        lemma_components_clean(parent_or_empty(docs.last().relative_path@));
        assert(ps[t - prev.len()] == k);
        assert forall|i: int| 0 <= i < k.len() implies #[trigger] clean_component(k[i]) by {
            assert(k[i] == d[i]);
        }
    }
}

/// The entry of a child directory.
fn child_entry(
    c: &Vec<Vec<char>>,
    paths: &Vec<Vec<Vec<char>>>,
    documents: &[CourseDocument],
) -> (e: DirectoryChildEntry)
    requires
        paths_match(paths@, documents@),
        forall|i: int| 0 <= i < c@.len() ==> #[trigger] clean_component(views(c@)[i]),
    ensures
        key_of(e.relative_path@) == views(c@),
        child_entry_ok(e, documents@, views(c@)),
{
    let path = join_components(c);
    proof {
        lemma_components_of_joined(views(c@));
    }
    let fname = file_name(path.as_str());
    let name = match &fname {
        Some(n) => n.clone(),
        None => {
            let mut s = String::new();
            push_char(&mut s, '.');
            assert(s@ =~= "."@) by {
                reveal_strlit(".");
            }
            s
        },
    };
    let mut link = match fname {
        Some(n) => n,
        None => String::new(),
    };
    push_str(&mut link, "/index.md");
    DirectoryChildEntry {
        name,
        link,
        relative_path: path,
        document_count: count_documents_in_directory(c, paths, documents),
        latest_generated_at: latest_generated_at(c, paths, documents),
        summary: summarize_directory(c, paths, documents),
    }
}

/// Whether `c` lies directly inside `key`.
fn is_direct_child(key: &Vec<Vec<char>>, c: &Vec<Vec<char>>) -> (b: bool)
    ensures
        b == is_child_dir(views(key@), views(c@)),
{
    assert(views(c@).len() == c@.len());
    assert(views(key@).len() == key@.len());
    key.len() < c.len() && c.len() - key.len() == 1 && path_is_under(c, key)
}

/// The entries of the directories directly inside `keys[t]`, in key order.
fn child_entries(
    keys: &Vec<Vec<Vec<char>>>,
    t: usize,
    paths: &Vec<Vec<Vec<char>>>,
    documents: &[CourseDocument],
) -> (children: Vec<DirectoryChildEntry>)
    requires
        t < keys@.len(),
        keys_ok(documents@, key_views(keys@)),
        paths_match(paths@, documents@),
    ensures
        forall|j: int|
            0 <= j < children@.len() ==> #[trigger] child_ok(
                documents@,
                key_views(keys@)[t as int],
                children@[j],
            ),
        forall|i: int, j: int|
            0 <= i < j < children@.len() ==> path_lt(
                key_of(children@[i].relative_path@),
                key_of(children@[j].relative_path@),
            ),
        forall|c: Seq<Seq<char>>|
            is_index_dir(documents@, c) && is_child_dir(key_views(keys@)[t as int], c)
                ==> exists|j: int|
                0 <= j < children@.len() && #[trigger] key_of(children@[j].relative_path@) == c,
{
    let ghost kv = key_views(keys@);
    let ghost docs = documents@;
    let key = &keys[t];
    let ghost k = kv[t as int];
    let mut children: Vec<DirectoryChildEntry> = Vec::new();
    let mut u: usize = 0;
    while u < keys.len()
        invariant
            kv == key_views(keys@),
            docs == documents@,
            t < keys@.len(),
            k == kv[t as int],
            views(key@) == k,
            keys_ok(docs, kv),
            paths_match(paths@, docs),
            u <= keys@.len(),
            forall|j: int| 0 <= j < children@.len() ==> #[trigger] child_ok(docs, k, children@[j]),
            forall|j: int|
                0 <= j < children@.len() ==> exists|w: int|
                    0 <= w < u && kv[w] == key_of((#[trigger] children@[j]).relative_path@),
            forall|i: int, j: int|
                0 <= i < j < children@.len() ==> path_lt(
                    key_of(children@[i].relative_path@),
                    key_of(children@[j].relative_path@),
                ),
            forall|w: int|
                0 <= w < u && is_child_dir(k, #[trigger] kv[w]) ==> exists|j: int|
                    0 <= j < children@.len() && key_of(children@[j].relative_path@) == kv[w],
        decreases keys@.len() - u,
    {
        let c = &keys[u];
        assert(views(c@) == kv[u as int]);
        if is_direct_child(key, c) {
            proof {
                assert(is_index_dir(docs, kv[u as int]));
                lemma_index_dir_clean(docs, kv[u as int]);
            }
            let entry = child_entry(c, paths, documents);
            let ghost before = children@;
            children.push(entry);
            assert forall|i: int, j: int| 0 <= i < j < children@.len() implies path_lt(
                key_of(children@[i].relative_path@),
                key_of(children@[j].relative_path@),
            ) by {
                if j == before.len() {
                    assert(before[i] == children@[i]);
                    let w = choose|w: int| 0 <= w < u && kv[w] == key_of(before[i].relative_path@);
                }
            }
            assert forall|j: int| 0 <= j < children@.len() implies exists|w: int|
                0 <= w < u + 1 && kv[w] == key_of((#[trigger] children@[j]).relative_path@) by {
                if j < before.len() {
                    assert(before[j] == children@[j]);
                    let w = choose|w: int| 0 <= w < u && kv[w] == key_of(before[j].relative_path@);
                } else {
                    assert(kv[u as int] == key_of(children@[j].relative_path@));
                }
            }
            assert forall|w: int| 0 <= w < u + 1 && is_child_dir(k, #[trigger] kv[w]) implies exists|j: int|
                0 <= j < children@.len() && key_of(children@[j].relative_path@) == kv[w] by {
                if w < u {
                    let j = choose|j: int|
                        0 <= j < before.len() && key_of(before[j].relative_path@) == kv[w];
                    assert(children@[j] == before[j]);
                } else {
                    assert(key_of(children@[before.len() as int].relative_path@) == kv[w]);
                }
            }
            assert forall|j: int| 0 <= j < children@.len() implies #[trigger] child_ok(
                docs,
                k,
                children@[j],
            ) by {
                if j < before.len() {
                    assert(before[j] == children@[j]);
                }
            }
        }
        u = u + 1;
    }
    assert forall|c: Seq<Seq<char>>| is_index_dir(docs, c) && is_child_dir(k, c) implies exists|j: int|
        0 <= j < children@.len() && #[trigger] key_of(children@[j].relative_path@) == c by {
        assert(kv.contains(c));
        let w = choose|w: int| 0 <= w < kv.len() && kv[w] == c;
        assert(is_child_dir(k, kv[w]));
    }
    children
}

/// The entries of the documents directly in `key`, in document order.
fn document_entries(
    key: &Vec<Vec<char>>,
    dirs: &Vec<Vec<Vec<char>>>,
    documents: &[CourseDocument],
) -> (entries: Vec<DirectoryDocumentEntry>)
    requires
        dirs_match(dirs@, documents@),
    ensures
        entries@.len() == docs_in_dir(documents@, views(key@)).len(),
        forall|j: int|
            0 <= j < entries@.len() ==> #[trigger] document_entry_ok(
                entries@[j],
                docs_in_dir(documents@, views(key@))[j],
            ),
{
    let ghost docs = documents@;
    let ghost k = views(key@);
    let mut child_documents: Vec<DirectoryDocumentEntry> = Vec::new();
    let mut i: usize = 0;
    while i < documents.len()
        invariant
            docs == documents@,
            dirs_match(dirs@, docs),
            k == views(key@),
            i <= docs.len(),
            child_documents@.len() == docs_in_dir(docs.take(i as int), k).len(),
            forall|j: int|
                0 <= j < child_documents@.len() ==> #[trigger] document_entry_ok(
                    child_documents@[j],
                    docs_in_dir(docs.take(i as int), k)[j],
                ),
        decreases docs.len() - i,
    {
        let ghost before = docs_in_dir(docs.take(i as int), k);
        assert(docs.take(i + 1).drop_last() =~= docs.take(i as int));
        assert(docs.take(i + 1).last() == docs[i as int]);
        assert(views(dirs@[i as int]@) == document_dir(docs[i as int]));
        if order_paths(&dirs[i], key) == Rank::Same {
            child_documents.push(document_entry(&documents[i]));
        }
        i = i + 1;
        assert forall|j: int| 0 <= j < child_documents@.len() implies #[trigger] document_entry_ok(
            child_documents@[j],
            docs_in_dir(docs.take(i as int), k)[j],
        ) by {
            if j < before.len() {
                assert(docs_in_dir(docs.take(i as int), k)[j] == before[j]);
            }
        }
    }
    assert(docs.take(docs.len() as int) =~= docs);
    child_documents
}

/// The index of the directory `keys[t]`.
fn index_for(
    output_root: &str,
    keys: &Vec<Vec<Vec<char>>>,
    t: usize,
    paths: &Vec<Vec<Vec<char>>>,
    dirs: &Vec<Vec<Vec<char>>>,
    documents: &[CourseDocument],
) -> (idx: DirectoryIndex)
    requires
        t < keys@.len(),
        keys_ok(documents@, key_views(keys@)),
        paths_match(paths@, documents@),
        dirs_match(dirs@, documents@),
    ensures
        index_ok(documents@, output_root@, idx, key_views(keys@)[t as int]),
{
    let key = &keys[t];
    assert(views(key@) == key_views(keys@)[t as int]);
    let directory_path = join_components(key);
    let base = join(output_root, directory_path.as_str());
    let index_path = join(base.as_str(), "index.md");
    let child_directories = child_entries(keys, t, paths, documents);
    let child_documents = document_entries(key, dirs, documents);
    DirectoryIndex {
        directory_path,
        index_path,
        child_directories,
        child_documents,
        document_count: count_documents_in_directory(key, paths, documents),
        latest_generated_at: latest_generated_at(key, paths, documents),
        summary: summarize_directory(key, paths, documents),
    }
}

} // verus!

verus! {

/// The parent of a path, or the empty path.
fn parent_or_empty_path(s: &str) -> (r: String)
    ensures
        r@ == parent_or_empty(s@),
{
    match parent(s) {
        Some(p) => p,
        None => String::new(),
    }
}

/// Every leading run of every document directory (with repeats).
fn collect_dirs(dirs: &Vec<Vec<Vec<char>>>, documents: &[CourseDocument]) -> (all: Vec<
    Vec<Vec<char>>,
>)
    requires
        dirs_match(dirs@, documents@),
    ensures
        key_views(all@) == all_dirs(documents@),
{
    let ghost docs = documents@;
    let mut all: Vec<Vec<Vec<char>>> = Vec::new();
    let mut i: usize = 0;
    while i < dirs.len()
        invariant
            docs == documents@,
            dirs_match(dirs@, docs),
            i <= dirs@.len(),
            key_views(all@) == all_dirs(docs.take(i as int)),
        decreases dirs@.len() - i,
    {
        let d = &dirs[i];
        let ghost dv = views(d@);
        let ghost base = key_views(all@);
        let mut cur: Vec<Vec<char>> = Vec::new();
        let mut k: usize = 0;
        loop
            invariant_except_break
                key_views(all@) == base + prefixes_of(dv).take(k as int),
            invariant
                docs == documents@,
                dirs_match(dirs@, docs),
                i < dirs@.len(),
                dv == views(d@),
                k <= d@.len(),
                views(cur@) == dv.take(k as int),
            ensures
                key_views(all@) == base + prefixes_of(dv),
            decreases d@.len() - k,
        {
            let ghost before = key_views(all@);
            all.push(copy_path(&cur));
            assert(key_views(all@) =~= before.push(dv.take(k as int)));
            assert(prefixes_of(dv).take(k + 1) =~= prefixes_of(dv).take(k as int).push(
                dv.take(k as int),
            ));
            if k == d.len() {
                assert(prefixes_of(dv).take(k + 1) =~= prefixes_of(dv));
                break ;
            }
            let ghost cb = views(cur@);
            cur.push(copy_chars(&d[k]));
            assert(views(cur@) =~= cb.push(dv[k as int]));
            assert(dv.take(k + 1) =~= dv.take(k as int).push(dv[k as int]));
            k = k + 1;
        }
        assert(docs.take(i + 1).drop_last() =~= docs.take(i as int));
        assert(docs.take(i + 1).last() == docs[i as int]);
        assert(views(dirs@[i as int]@) == document_dir(docs[i as int]));
        i = i + 1;
    }
    assert(docs.take(docs.len() as int) =~= docs);
    all
}

/// The directory keys of the documents, each once, in increasing order.
fn directory_keys(dirs: &Vec<Vec<Vec<char>>>, documents: &[CourseDocument]) -> (keys: Vec<
    Vec<Vec<char>>,
>)
    requires
        dirs_match(dirs@, documents@),
    ensures
        keys_ok(documents@, key_views(keys@)),
{
    let ghost docs = documents@;
    let all = collect_dirs(dirs, documents);
    let ghost av = key_views(all@);
    let p = sorted_order(&all);
    let mut keys: Vec<Vec<Vec<char>>> = Vec::new();
    let mut t: usize = 0;
    while t < p.len()
        invariant
            docs == documents@,
            av == key_views(all@),
            av == all_dirs(docs),
            is_stable_order(av, p@),
            t <= p@.len(),
            forall|i: int, j: int|
                0 <= i < j < keys@.len() ==> path_lt(key_views(keys@)[i], key_views(keys@)[j]),
            forall|i: int| 0 <= i < keys@.len() ==> av.contains(#[trigger] key_views(keys@)[i]),
            forall|s: int| 0 <= s < t ==> key_views(keys@).contains(#[trigger] av[p@[s] as int]),
            t > 0 ==> keys@.len() > 0 && key_views(keys@).last() == av[p@[t - 1] as int],
            t == 0 ==> keys@.len() == 0,
        decreases p@.len() - t,
    {
        let j = p[t];
        let ghost kb = key_views(keys@);
        let ghost x = av[j as int];
        assert(views(all@[j as int]@) == x);
        let fresh = if t == 0 {
            true
        } else {
            let last = keys.len() - 1;
            order_paths(&keys[last], &all[j]) != Rank::Same
        };
        if fresh {
            keys.push(copy_path(&all[j]));
            assert(key_views(keys@) =~= kb.push(x));
            proof {
                if t > 0 {
                    let y = av[p@[t - 1] as int];
                    assert(!path_lt(x, y));
                    crate::order::lemma_path_lt_order(x, y, x);
                    assert(path_lt(y, x));
                    assert(kb.last() == y);
                    assert forall|i: int, j2: int|
                        0 <= i < j2 < key_views(keys@).len() implies path_lt(
                        key_views(keys@)[i],
                        key_views(keys@)[j2],
                    ) by {
                        assert(key_views(keys@)[i] == kb[i]);
                        if j2 == kb.len() as int {
                            assert(key_views(keys@)[j2] == x);
                            if i < kb.len() - 1 {
                                assert(path_lt(kb[i], kb[kb.len() - 1]));
                                crate::order::lemma_path_lt_order(kb[i], y, x);
                            }
                        } else {
                            assert(key_views(keys@)[j2] == kb[j2]);
                        }
                    }
                }
                assert(av.contains(x));
                assert forall|i: int| 0 <= i < key_views(keys@).len() implies av.contains(
                    #[trigger] key_views(keys@)[i],
                ) by {
                    if i < kb.len() {
                        assert(key_views(keys@)[i] == kb[i]);
                    }
                }
                assert forall|s: int| 0 <= s < t + 1 implies key_views(keys@).contains(
                    #[trigger] av[p@[s] as int],
                ) by {
                    if s < t {
                        let w = choose|w: int| 0 <= w < kb.len() && kb[w] == av[p@[s] as int];
                        assert(key_views(keys@)[w] == kb[w]);
                    } else {
                        assert(key_views(keys@)[kb.len() as int] == x);
                    }
                }
            }
        } else {
            assert(kb.last() == x);
            assert(key_views(keys@).contains(x)) by {
                assert(kb[kb.len() - 1] == x);
            }
        }
        t = t + 1;
    }
    assert forall|k: Seq<Seq<char>>| is_index_dir(docs, k) implies #[trigger] key_views(
        keys@,
    ).contains(k) by {
        let j = choose|j: int| 0 <= j < av.len() && av[j] == k;
        assert(p@.contains(j as usize));
        let s = choose|s: int| 0 <= s < p@.len() && p@[s] == j as usize;
        assert(key_views(keys@).contains(av[p@[s] as int]));
    }
    keys
}

/// The index of every directory that holds a document, directly or below it, in
/// increasing path order (none when there are no documents).
pub fn build_indexes(output_root: &str, documents: &[CourseDocument]) -> (indexes: Vec<
    DirectoryIndex,
>)
    ensures
        documents@.len() == 0 ==> indexes@.len() == 0,
        forall|i: int|
            0 <= i < indexes@.len() ==> is_index_dir(
                documents@,
                key_of(indexes@[i].directory_path@),
            ) && #[trigger] index_ok(
                documents@,
                output_root@,
                indexes@[i],
                key_of(indexes@[i].directory_path@),
            ),
        forall|i: int, j: int|
            0 <= i < j < indexes@.len() ==> path_lt(
                key_of(indexes@[i].directory_path@),
                key_of(indexes@[j].directory_path@),
            ),
        forall|k: Seq<Seq<char>>|
            is_index_dir(documents@, k) ==> exists|i: int|
                0 <= i < indexes@.len() && #[trigger] key_of(indexes@[i].directory_path@) == k,
{
    let ghost docs = documents@;
    if documents.len() == 0 {
        assert forall|k: Seq<Seq<char>>| !is_index_dir(docs, k) by {
            assert(all_dirs(docs) =~= Seq::<Seq<Seq<char>>>::empty());
        }
        return Vec::new();
    }
    let mut paths: Vec<Vec<Vec<char>>> = Vec::new();
    let mut dirs: Vec<Vec<Vec<char>>> = Vec::new();
    let mut i: usize = 0;
    while i < documents.len()
        invariant
            docs == documents@,
            i <= docs.len(),
            paths@.len() == i,
            dirs@.len() == i,
            forall|j: int|
                0 <= j < i ==> views(#[trigger] paths@[j]@) == components_of(
                    docs[j].relative_path@,
                ),
            forall|j: int| 0 <= j < i ==> views(#[trigger] dirs@[j]@) == document_dir(docs[j]),
        decreases docs.len() - i,
    {
        paths.push(components(documents[i].relative_path.as_str()));
        let parent_text = parent_or_empty_path(documents[i].relative_path.as_str());
        dirs.push(components(parent_text.as_str()));
        i = i + 1;
    }
    let keys = directory_keys(&dirs, documents);
    let ghost kv = key_views(keys@);
    let mut indexes: Vec<DirectoryIndex> = Vec::new();
    let mut t: usize = 0;
    while t < keys.len()
        invariant
            docs == documents@,
            kv == key_views(keys@),
            keys_ok(docs, kv),
            paths_match(paths@, docs),
            dirs_match(dirs@, docs),
            t <= keys@.len(),
            indexes@.len() == t,
            forall|j: int|
                0 <= j < t ==> key_of(#[trigger] indexes@[j].directory_path@) == kv[j] && index_ok(
                    docs,
                    output_root@,
                    indexes@[j],
                    kv[j],
                ),
        decreases keys@.len() - t,
    {
        let idx = index_for(output_root, &keys, t, &paths, &dirs, documents);
        proof {
            lemma_index_dir_clean(docs, kv[t as int]);
            lemma_components_of_joined(kv[t as int]);
        }
        indexes.push(idx);
        t = t + 1;
    }
    assert forall|k: Seq<Seq<char>>| is_index_dir(docs, k) implies exists|i: int|
        0 <= i < indexes@.len() && #[trigger] key_of(indexes@[i].directory_path@) == k by {
        assert(kv.contains(k));
        let w = choose|w: int| 0 <= w < kv.len() && kv[w] == k;
        assert(key_of(indexes@[w].directory_path@) == kv[w]);
    }
    indexes
}

} // verus!

verus! {

/// The lines of `s` from the current position on, `cur` being what the current line holds so
/// far: split at each `\n`, a `\r` just before it dropped, no empty line after a final `\n`.
pub open spec fn lines_from(s: Seq<char>, cur: Seq<char>) -> Seq<Seq<char>>
    decreases s.len(),
{
    if s.len() == 0 {
        if cur.len() == 0 {
            Seq::empty()
        } else {
            seq![cur]
        }
    } else if s[0] == '\n' {
        seq![without_cr(cur)] + lines_from(s.drop_first(), Seq::empty())
    } else {
        lines_from(s.drop_first(), cur.push(s[0]))
    }
}

/// A line ended by `\n`, without the `\r` that may stand before it.
pub open spec fn without_cr(line: Seq<char>) -> Seq<char> {
    if line.len() > 0 && line.last() == '\r' {
        line.drop_last()
    } else {
        line
    }
}

/// The lines of a text, as `str::lines` splits it.
pub open spec fn text_lines(s: Seq<char>) -> Seq<Seq<char>> {
    lines_from(s, Seq::empty())
}

/// The text after `# ` on the first line that begins with it.
pub open spec fn first_heading(lines: Seq<Seq<char>>) -> Option<Seq<char>>
    decreases lines.len(),
{
    if lines.len() == 0 {
        None
    } else {
        match first_heading(lines.drop_last()) {
            Some(t) => Some(t),
            None => if has_prefix(lines.last(), seq!['#', ' ']) {
                Some(lines.last().skip(2))
            } else {
                None
            },
        }
    }
}

/// A line without all the `- ` it begins with.
pub open spec fn without_dashes(line: Seq<char>) -> Seq<char>
    decreases line.len(),
{
    if has_prefix(line, seq!['-', ' ']) {
        without_dashes(line.skip(2))
    } else {
        line
    }
}

/// The first line that begins with `- `, without all the `- ` it begins with.
pub open spec fn first_bullet(lines: Seq<Seq<char>>) -> Option<Seq<char>>
    decreases lines.len(),
{
    if lines.len() == 0 {
        None
    } else {
        match first_bullet(lines.drop_last()) {
            Some(t) => Some(t),
            None => if has_prefix(lines.last(), seq!['-', ' ']) {
                Some(without_dashes(lines.last()))
            } else {
                None
            },
        }
    }
}

/// Whether a file under the output directory is a course document: a `.md` file other than
/// an `index.md`.
pub open spec fn is_document_file(path: Seq<char>) -> bool {
    extension_of(path) == Some(seq!['m', 'd']) && file_name_of(path) != Some(
        seq!['i', 'n', 'd', 'e', 'x', '.', 'm', 'd'],
    )
}

/// Whether a file under the output directory is a course document.
pub fn is_document_markdown(path: &str) -> (b: bool)
    ensures
        b == is_document_file(path@),
{
    let md: Vec<char> = vec!['m', 'd'];
    let index: Vec<char> = vec!['i', 'n', 'd', 'e', 'x', '.', 'm', 'd'];
    let ext_ok = match extension(path) {
        Some(e) => {
            let ev = chars_of(e.as_str());
            let ok = ev.len() == 2 && crate::text::starts_with(&ev, &md);
            proof {
                assert(md@ =~= seq!['m', 'd']);
                if ev@.len() == 2 {
                    assert(ev@.subrange(0, 2) =~= ev@);
                }
            }
            ok
        },
        None => false,
    };
    if !ext_ok {
        return false;
    }
    let name_is_index = match file_name(path) {
        Some(n) => {
            let nv = chars_of(n.as_str());
            nv.len() == 8 && crate::text::starts_with(&nv, &index)
        },
        None => false,
    };
    proof {
        assert(index@ =~= seq!['i', 'n', 'd', 'e', 'x', '.', 'm', 'd']);
        if file_name_of(path@) is Some {
            let n = file_name_of(path@)->0;
            if n.len() == 8 {
                assert(n.subrange(0, 8) =~= n);
            }
        }
    }
    !name_is_index
}

/// The line in `v` from `lo` on, without all the `- ` it begins with, as a string.
fn strip_dashes_from(v: &Vec<char>, lo: usize) -> (s: String)
    requires
        lo <= v@.len(),
    ensures
        s@ == without_dashes(v@.skip(lo as int)),
{
    let mut j = lo;
    while v.len() - j >= 2 && v[j] == '-' && v[j + 1] == ' '
        invariant
            lo <= j <= v@.len(),
            without_dashes(v@.skip(lo as int)) == without_dashes(v@.skip(j as int)),
        decreases v@.len() - j,
    {
        assert(has_prefix(v@.skip(j as int), seq!['-', ' '])) by {
            assert(v@.skip(j as int).subrange(0, 2) =~= seq!['-', ' ']);
        }
        assert(v@.skip(j as int).skip(2) =~= v@.skip(j + 2));
        j = j + 2;
    }
    assert(!has_prefix(v@.skip(j as int), seq!['-', ' '])) by {
        if has_prefix(v@.skip(j as int), seq!['-', ' ']) {
            assert(v@.skip(j as int).subrange(0, 2)[0] == v@[j as int]);
            assert(v@.skip(j as int).subrange(0, 2)[1] == v@[j + 1]);
        }
    }
    assert(v@.subrange(j as int, v@.len() as int) =~= v@.skip(j as int));
    string_from_range(v, j, v.len())
}

/// The text an optional string holds.
pub open spec fn opt_view(o: Option<String>) -> Option<Seq<char>> {
    match o {
        Some(t) => Some(t@),
        None => None,
    }
}

proof fn lemma_single_line(l: Seq<char>)
    ensures
        first_heading(seq![l]) == if has_prefix(l, seq!['#', ' ']) {
            Some(l.skip(2))
        } else {
            None::<Seq<char>>
        },
        first_bullet(seq![l]) == if has_prefix(l, seq!['-', ' ']) {
            Some(without_dashes(l))
        } else {
            None::<Seq<char>>
        },
{
    assert(seq![l].drop_last() =~= Seq::<Seq<char>>::empty());
    assert(seq![l].last() == l);
    assert(first_heading(Seq::<Seq<char>>::empty()) is None);
    assert(first_bullet(Seq::<Seq<char>>::empty()) is None);
}

/// Takes a finished line into account: it gives the title and the summary where none was
/// found before it.
fn scan_line(line: &Vec<char>, title: &mut Option<String>, summary: &mut Option<String>)
    ensures
        opt_view(*final(title)) == match opt_view(*old(title)) {
            Some(t) => Some(t),
            None => first_heading(seq![line@]),
        },
        opt_view(*final(summary)) == match opt_view(*old(summary)) {
            Some(t) => Some(t),
            None => first_bullet(seq![line@]),
        },
{
    proof {
        lemma_single_line(line@);
    }
    if title.is_none() && line.len() >= 2 && line[0] == '#' && line[1] == ' ' {
        assert(line@.subrange(0, 2) =~= seq!['#', ' ']);
        assert(line@.subrange(2, line@.len() as int) =~= line@.skip(2));
        *title = Some(string_from_range(line, 2, line.len()));
    } else {
        proof {
            if has_prefix(line@, seq!['#', ' ']) {
                assert(line@.subrange(0, 2)[0] == line@[0]);
                assert(line@.subrange(0, 2)[1] == line@[1]);
            }
        }
    }
    if summary.is_none() && line.len() >= 2 && line[0] == '-' && line[1] == ' ' {
        assert(line@.subrange(0, 2) =~= seq!['-', ' ']);
        assert(line@.skip(0) =~= line@);
        *summary = Some(strip_dashes_from(line, 0));
    } else {
        proof {
            if has_prefix(line@, seq!['-', ' ']) {
                assert(line@.subrange(0, 2)[0] == line@[0]);
                assert(line@.subrange(0, 2)[1] == line@[1]);
            }
        }
    }
}

/// The title of a document read back from the output directory: the text of its first `# `
/// line, else the stem of its file name, else "课程文档".
pub open spec fn markdown_title(content: Seq<char>, relative_path: Seq<char>) -> Seq<char> {
    match first_heading(text_lines(content)) {
        Some(t) => t,
        None => match file_stem_of(relative_path) {
            Some(stem) => stem,
            None => "课程文档"@,
        },
    }
}

/// The directory summary of a document read back from the output directory: its first
/// `- ` line without the `- ` it begins with, else nothing.
pub open spec fn markdown_summary(content: Seq<char>) -> Seq<char> {
    match first_bullet(text_lines(content)) {
        Some(t) => t,
        None => Seq::empty(),
    }
}

proof fn lemma_push_line(done: Seq<Seq<char>>, l: Seq<char>)
    ensures
        first_heading(done.push(l)) == match first_heading(done) {
            Some(t) => Some(t),
            None => first_heading(seq![l]),
        },
        first_bullet(done.push(l)) == match first_bullet(done) {
            Some(t) => Some(t),
            None => first_bullet(seq![l]),
        },
{
    assert(done.push(l).drop_last() =~= done);
    lemma_single_line(l);
}

/// A course document read back from a Markdown file of the output directory, dated
/// `generated_at`: its title and summary come from the text, everything else is empty.
pub fn document_from_markdown(
    relative_path: String,
    document_path: String,
    content: String,
    generated_at: Timestamp,
) -> (d: CourseDocument)
    ensures
        d.relative_path == relative_path,
        d.document_path == document_path,
        d.title@ == markdown_title(content@, relative_path@),
        d.document_markdown == content,
        d.directory_summary@ == markdown_summary(content@),
        d.generated_at == generated_at,
        d.keywords@.len() == 0,
        d.review_flags@.len() == 0,
        d.objectives@.len() == 0,
        d.knowledge_mainline@.len() == 0,
        d.core_concepts@.len() == 0,
        d.formulas@.len() == 0,
        d.examples@.len() == 0,
        d.teacher_emphasis@.len() == 0,
        d.glossary@.len() == 0,
        d.questions_and_quiz@.len() == 0,
{
    let v = chars_of(content.as_str());
    let mut title: Option<String> = None;
    let mut summary: Option<String> = None;
    let mut cur: Vec<char> = Vec::new();
    let ghost mut done: Seq<Seq<char>> = Seq::empty();
    let mut i: usize = 0;
    assert(v@.skip(0) =~= v@);
    assert(done + lines_from(v@, cur@) =~= text_lines(v@)) by {
        assert(cur@ =~= Seq::<char>::empty());
    }
    while i < v.len()
        invariant
            i <= v@.len(),
            text_lines(v@) == done + lines_from(v@.skip(i as int), cur@),
            opt_view(title) == first_heading(done),
            opt_view(summary) == first_bullet(done),
        decreases v@.len() - i,
    {
        let c = v[i];
        assert(v@.skip(i as int)[0] == c);
        assert(v@.skip(i as int).drop_first() =~= v@.skip(i + 1));
        if c == '\n' {
            let ghost line = without_cr(cur@);
            if cur.len() > 0 && cur[cur.len() - 1] == '\r' {
                cur.pop();
            }
            assert(cur@ =~= line);
            scan_line(&cur, &mut title, &mut summary);
            proof {
                lemma_push_line(done, line);
                let rest = lines_from(v@.skip(i + 1), Seq::empty());
                assert(done + (seq![line] + rest) =~= done.push(line) + rest);
                done = done.push(line);
            }
            cur = Vec::new();
            assert(cur@ =~= Seq::<char>::empty());
        } else {
            cur.push(c);
        }
        i = i + 1;
    }
    assert(v@.skip(i as int) =~= Seq::<char>::empty());
    if cur.len() > 0 {
        scan_line(&cur, &mut title, &mut summary);
        proof {
            lemma_push_line(done, cur@);
            assert(done + seq![cur@] =~= done.push(cur@));
            done = done.push(cur@);
        }
    } else {
        assert(done + Seq::<Seq<char>>::empty() =~= done);
    }
    let title_text = match title {
        Some(t) => t,
        None => match crate::paths::file_stem(relative_path.as_str()) {
            Some(stem) => stem,
            None => {
                proof {
                    reveal_strlit("课程文档");
                }
                String::from_str("课程文档")
            },
        },
    };
    let summary_text = match summary {
        Some(t) => t,
        None => String::new(),
    };
    CourseDocument {
        relative_path,
        document_path,
        title: title_text,
        document_markdown: content,
        directory_summary: summary_text,
        keywords: Vec::new(),
        review_flags: Vec::new(),
        generated_at,
        objectives: Vec::new(),
        knowledge_mainline: Vec::new(),
        core_concepts: Vec::new(),
        formulas: Vec::new(),
        examples: Vec::new(),
        teacher_emphasis: Vec::new(),
        glossary: Vec::new(),
        questions_and_quiz: Vec::new(),
    }
}

/// Law: every set of documents that is not empty gets an index of the output directory
/// itself, and that index counts every document.
pub proof fn root_index_counts_every_document(docs: Seq<CourseDocument>)
    ensures
        count_in(docs, Seq::empty()) == docs.len(),
        docs.len() > 0 ==> is_index_dir(docs, Seq::empty()),
    decreases docs.len(),
{
    if docs.len() > 0 {
        root_index_counts_every_document(docs.drop_last());
        let c = components_of(docs.last().relative_path@);
        assert(c.take(0) =~= Seq::<Seq<char>>::empty());
        assert(doc_under(docs.last(), Seq::empty()));
        let p = prefixes_of(document_dir(docs.last()));
        assert(p[0] =~= Seq::<Seq<char>>::empty());
        let before = all_dirs(docs.drop_last());
        assert(all_dirs(docs)[before.len() as int] == p[0]);
    }
}

proof fn lemma_summaries_prefix(docs: Seq<CourseDocument>, key: Seq<Seq<char>>, n: int)
    requires
        0 <= n <= docs.len(),
    ensures
        summaries_in(docs.take(n), key).len() <= summaries_in(docs, key).len(),
        summaries_in(docs, key).take(summaries_in(docs.take(n), key).len() as int)
            == summaries_in(docs.take(n), key),
    decreases docs.len(),
{
    if n == docs.len() {
        assert(docs.take(n) =~= docs);
        assert(summaries_in(docs, key).take(summaries_in(docs, key).len() as int) =~= summaries_in(
            docs,
            key,
        ));
    } else {
        let d = docs.drop_last();
        assert(docs.take(n) =~= d.take(n));
        lemma_summaries_prefix(d, key, n);
        let a = summaries_in(d.take(n), key);
        let b = summaries_in(d, key);
        let c = summaries_in(docs, key);
        assert(c.take(a.len() as int) =~= b.take(a.len() as int));
    }
}

proof fn lemma_first_two_summaries(
    docs: Seq<CourseDocument>,
    key: Seq<Seq<char>>,
    i: int,
    j: int,
    m: int,
)
    requires
        0 <= i < j < docs.len(),
        0 <= m <= j + 1,
        doc_under(docs[i], key),
        docs[i].directory_summary@.len() > 0,
        doc_under(docs[j], key),
        docs[j].directory_summary@.len() > 0,
        forall|k: int|
            0 <= k < j && k != i && doc_under(#[trigger] docs[k], key)
                ==> docs[k].directory_summary@.len() == 0,
    ensures
        summaries_in(docs.take(m), key) == (if m <= i {
            Seq::<Seq<char>>::empty()
        } else if m <= j {
            seq![docs[i].directory_summary@]
        } else {
            seq![docs[i].directory_summary@, docs[j].directory_summary@]
        }),
    decreases m,
{
    if m == 0 {
        assert(docs.take(0) =~= Seq::<CourseDocument>::empty());
    } else {
        lemma_first_two_summaries(docs, key, i, j, m - 1);
        assert(docs.take(m).drop_last() =~= docs.take(m - 1));
        assert(docs.take(m).last() == docs[m - 1]);
        let prev = summaries_in(docs.take(m - 1), key);
        if m - 1 == i {
            assert(prev.push(docs[i].directory_summary@) =~= seq![docs[i].directory_summary@]);
        } else if m - 1 == j {
            assert(prev.push(docs[j].directory_summary@) =~= seq![
                docs[i].directory_summary@,
                docs[j].directory_summary@,
            ]);
        }
    }
}

/// Law: the summary of a directory's index joins, with `；`, the summaries of the first two
/// documents in or under the directory that have a summary, in document order: when those
/// are documents `i` and `j`, the index summary is the one, `；`, and the other.
pub proof fn index_summary_joins_first_two(
    docs: Seq<CourseDocument>,
    output_root: Seq<char>,
    idx: DirectoryIndex,
    key: Seq<Seq<char>>,
    i: int,
    j: int,
)
    requires
        index_ok(docs, output_root, idx, key),
        0 <= i < j < docs.len(),
        doc_under(docs[i], key),
        docs[i].directory_summary@.len() > 0,
        doc_under(docs[j], key),
        docs[j].directory_summary@.len() > 0,
        forall|k: int|
            0 <= k < j && k != i && doc_under(#[trigger] docs[k], key)
                ==> docs[k].directory_summary@.len() == 0,
    ensures
        idx.summary@ == docs[i].directory_summary@ + "；"@ + docs[j].directory_summary@,
{
    lemma_first_two_summaries(docs, key, i, j, j + 1);
    lemma_summaries_prefix(docs, key, j + 1);
    let all = summaries_in(docs, key);
    let first = summaries_in(docs.take(j + 1), key);
    assert(first.len() == 2);
    assert(all.take(2)[0] == all[0]);
    assert(all.take(2)[1] == all[1]);
    assert(all[0] == docs[i].directory_summary@);
    assert(all[1] == docs[j].directory_summary@);
}

/// Law: a directory whose documents (in it or below it) have exactly one summary among them
/// gets that summary as its index summary.
pub proof fn index_summary_of_single_document(
    docs: Seq<CourseDocument>,
    output_root: Seq<char>,
    idx: DirectoryIndex,
    key: Seq<Seq<char>>,
    i: int,
)
    requires
        index_ok(docs, output_root, idx, key),
        0 <= i < docs.len(),
        doc_under(docs[i], key),
        docs[i].directory_summary@.len() > 0,
        forall|k: int|
            0 <= k < docs.len() && k != i && doc_under(#[trigger] docs[k], key)
                ==> docs[k].directory_summary@.len() == 0,
    ensures
        idx.summary@ == docs[i].directory_summary@,
{
    lemma_single_summary(docs, key, i, docs.len() as int);
    assert(docs.take(docs.len() as int) =~= docs);
}

proof fn lemma_single_summary(docs: Seq<CourseDocument>, key: Seq<Seq<char>>, i: int, m: int)
    requires
        0 <= i < docs.len(),
        0 <= m <= docs.len(),
        doc_under(docs[i], key),
        docs[i].directory_summary@.len() > 0,
        forall|k: int|
            0 <= k < docs.len() && k != i && doc_under(#[trigger] docs[k], key)
                ==> docs[k].directory_summary@.len() == 0,
    ensures
        summaries_in(docs.take(m), key) == (if m <= i {
            Seq::<Seq<char>>::empty()
        } else {
            seq![docs[i].directory_summary@]
        }),
    decreases m,
{
    if m == 0 {
        assert(docs.take(0) =~= Seq::<CourseDocument>::empty());
    } else {
        lemma_single_summary(docs, key, i, m - 1);
        assert(docs.take(m).drop_last() =~= docs.take(m - 1));
        assert(docs.take(m).last() == docs[m - 1]);
        if m - 1 == i {
            assert(Seq::<Seq<char>>::empty().push(docs[i].directory_summary@) =~= seq![
                docs[i].directory_summary@,
            ]);
        }
    }
}

/// Some document in `docs` lies in or under `key` and was generated at `t`.
pub open spec fn generated_under(docs: Seq<CourseDocument>, key: Seq<Seq<char>>, t: Timestamp) -> bool {
    exists|i: int| 0 <= i < docs.len() && doc_under(docs[i], key) && (#[trigger] docs[i]).generated_at == t
}

proof fn lemma_latest_in(docs: Seq<CourseDocument>, key: Seq<Seq<char>>)
    ensures
        latest_in(docs, key) is None <==> forall|i: int|
            0 <= i < docs.len() ==> !doc_under(#[trigger] docs[i], key),
        latest_in(docs, key) matches Some(t) ==> generated_under(docs, key, t) && forall|i: int|
            0 <= i < docs.len() && doc_under(#[trigger] docs[i], key) ==> !t.before(
                docs[i].generated_at,
            ),
    decreases docs.len(),
{
    if docs.len() > 0 {
        let d = docs.drop_last();
        lemma_latest_in(d, key);
        let last = docs.last();
        assert forall|i: int| 0 <= i < d.len() implies #[trigger] d[i] == docs[i] by {}
        if doc_under(last, key) {
            let t = latest_in(docs, key)->0;
            match latest_in(d, key) {
                Some(p) => {
                    let w = choose|i: int| 0 <= i < d.len() && doc_under(d[i], key) && (#[trigger] d[i]).generated_at == p;
                    assert(docs[w] == d[w]);
                    if p.before(last.generated_at) {
                        assert(docs[docs.len() - 1] == last);
                    }
                },
                None => {
                    assert(docs[docs.len() - 1] == last);
                },
            }
            assert forall|i: int|
                0 <= i < docs.len() && doc_under(#[trigger] docs[i], key) implies !t.before(
                docs[i].generated_at,
            ) by {
                if i < d.len() {
                    assert(docs[i] == d[i]);
                } else {
                    assert(docs[i] == last);
                }
            }
            assert(generated_under(docs, key, t)) by {
                match latest_in(d, key) {
                    Some(p) => {
                        let w = choose|i: int| 0 <= i < d.len() && doc_under(d[i], key) && (#[trigger] d[i]).generated_at == p;
                        assert(docs[w] == d[w]);
                        assert(docs[docs.len() - 1] == last);
                    },
                    None => {
                        assert(docs[docs.len() - 1] == last);
                    },
                }
            }
        } else {
            assert forall|i: int| 0 <= i < docs.len() && doc_under(#[trigger] docs[i], key) implies i < d.len() by {
                if i == docs.len() - 1 {
                    assert(docs[i] == last);
                }
            }
            if latest_in(d, key) is Some {
                let p = latest_in(d, key)->0;
                let w = choose|i: int| 0 <= i < d.len() && doc_under(d[i], key) && (#[trigger] d[i]).generated_at == p;
                assert(docs[w] == d[w]);
                assert forall|i: int|
                    0 <= i < docs.len() && doc_under(#[trigger] docs[i], key) implies !p.before(
                    docs[i].generated_at,
                ) by {
                    if i < d.len() {
                        assert(docs[i] == d[i]);
                    } else {
                        assert(docs[i] == last);
                    }
                }
            } else {
                assert forall|i: int| 0 <= i < docs.len() implies !doc_under(#[trigger] docs[i], key) by {
                    if i < d.len() {
                        assert(docs[i] == d[i]);
                    } else {
                        assert(docs[i] == last);
                    }
                }
            }
        }
    }
}

/// Law: the index of a directory dates itself by the latest generation time of the
/// documents in or under it: none when there are no such documents, and otherwise a time
/// one of them was generated at that none of them comes after.
pub proof fn index_latest_is_newest_document(
    docs: Seq<CourseDocument>,
    output_root: Seq<char>,
    idx: DirectoryIndex,
    key: Seq<Seq<char>>,
)
    requires
        index_ok(docs, output_root, idx, key),
    ensures
        idx.latest_generated_at is None <==> forall|i: int|
            0 <= i < docs.len() ==> !doc_under(#[trigger] docs[i], key),
        idx.latest_generated_at matches Some(t) ==> generated_under(docs, key, t) && forall|i: int|
            0 <= i < docs.len() && doc_under(#[trigger] docs[i], key) ==> !(docs[i].generated_at.secs_view()
                > t.secs_view() || (docs[i].generated_at.secs_view() == t.secs_view()
                && docs[i].generated_at.nanos_view() > t.nanos_view())),
{
    lemma_latest_in(docs, key);
}

} // verus!
