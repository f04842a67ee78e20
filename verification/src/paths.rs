//! Paths as text: components are separated by `/`, a leading `/` marks an
//! absolute path, and the functions follow the documented behaviour of
//! `std::path` on paths written without trailing or doubled separators.
use vstd::prelude::*;

use crate::text::{chars_of, push_all, push_char, string_from_range};

verus! {

/// Position of the last `/` in `s`, or -1 when there is none.
pub open spec fn last_sep(s: Seq<char>) -> int
    decreases s.len(),
{
    if s.len() == 0 {
        -1
    } else if s.last() == '/' {
        s.len() - 1
    } else {
        last_sep(s.drop_last())
    }
}

pub proof fn lemma_last_sep(s: Seq<char>)
    ensures
        -1 <= last_sep(s) < s.len(),
        last_sep(s) >= 0 ==> s[last_sep(s)] == '/',
        forall|j: int| last_sep(s) < j < s.len() ==> s[j] != '/',
    decreases s.len(),
{
    if s.len() > 0 && s.last() != '/' {
        lemma_last_sep(s.drop_last());
        assert forall|j: int| last_sep(s) < j < s.len() implies s[j] != '/' by {
            if j < s.len() - 1 {
                assert(s.drop_last()[j] == s[j]);
            }
        }
    }
}

/// The text after the last separator.
pub open spec fn name_part(s: Seq<char>) -> Seq<char> {
    s.subrange(last_sep(s) + 1, s.len() as int)
}

/// `Path::file_name`: the last component, unless there is none or it is `.` or `..`.
pub open spec fn file_name_of(s: Seq<char>) -> Option<Seq<char>> {
    let n = name_part(s);
    if n.len() == 0 || n == seq!['.'] || n == seq!['.', '.'] {
        None
    } else {
        Some(n)
    }
}

/// `Path::parent`: the path without its last component, `None` when there is no last component.
pub open spec fn parent_of(s: Seq<char>) -> Option<Seq<char>> {
    let i = last_sep(s);
    if name_part(s).len() == 0 {
        None
    } else if i < 0 {
        Some(Seq::empty())
    } else if i == 0 {
        Some(seq!['/'])
    } else {
        Some(s.subrange(0, i))
    }
}

/// `Path::join`: an absolute `b` replaces `a`; otherwise a separator is put between them
/// unless `a` is empty or already ends with one.
pub open spec fn join_of(a: Seq<char>, b: Seq<char>) -> Seq<char> {
    if b.len() > 0 && b[0] == '/' {
        b
    } else if a.len() == 0 || a.last() == '/' {
        a + b
    } else {
        a + seq!['/'] + b
    }
}

/// Position of the last `.` in `s`, or -1.
pub open spec fn last_dot(s: Seq<char>) -> int
    decreases s.len(),
{
    if s.len() == 0 {
        -1
    } else if s.last() == '.' {
        s.len() - 1
    } else {
        last_dot(s.drop_last())
    }
}

pub proof fn lemma_last_dot(s: Seq<char>)
    ensures
        -1 <= last_dot(s) < s.len(),
        last_dot(s) >= 0 ==> s[last_dot(s)] == '.',
        forall|j: int| last_dot(s) < j < s.len() ==> s[j] != '.',
    decreases s.len(),
{
    if s.len() > 0 && s.last() != '.' {
        lemma_last_dot(s.drop_last());
        assert forall|j: int| last_dot(s) < j < s.len() implies s[j] != '.' by {
            if j < s.len() - 1 {
                assert(s.drop_last()[j] == s[j]);
            }
        }
    }
}

/// The stem of a file name (`Path::file_stem`): the name before its last `.`, or the whole
/// name when it has no `.` after its first character.
pub open spec fn stem_of_name(name: Seq<char>) -> Seq<char> {
    if last_dot(name) <= 0 {
        name
    } else {
        name.subrange(0, last_dot(name))
    }
}

/// The extension of a file name (`Path::extension`): the text after its last `.`, when that
/// `.` is not its first character.
pub open spec fn extension_of_name(name: Seq<char>) -> Option<Seq<char>> {
    if last_dot(name) <= 0 {
        None
    } else {
        Some(name.subrange(last_dot(name) + 1, name.len() as int))
    }
}

/// `Path::extension` of a path.
pub open spec fn extension_of(s: Seq<char>) -> Option<Seq<char>> {
    match file_name_of(s) {
        Some(n) => extension_of_name(n),
        None => None,
    }
}

/// `Path::file_stem` of a path.
pub open spec fn file_stem_of(s: Seq<char>) -> Option<Seq<char>> {
    match file_name_of(s) {
        Some(n) => Some(stem_of_name(n)),
        None => None,
    }
}

/// `Path::with_extension`: the path up to the end of its stem, then `.` and `ext` unless
/// `ext` is empty; unchanged when the path has no file name.
pub open spec fn with_extension_of(s: Seq<char>, ext: Seq<char>) -> Seq<char> {
    match file_name_of(s) {
        Some(n) => {
            let head = s.subrange(0, last_sep(s) + 1) + stem_of_name(n);
            if ext.len() == 0 {
                head
            } else {
                head + seq!['.'] + ext
            }
        },
        None => s,
    }
}

/// Splitting state after reading `s`: the finished components and the one being read.
pub open spec fn split_state(s: Seq<char>) -> (Seq<Seq<char>>, Seq<char>)
    decreases s.len(),
{
    if s.len() == 0 {
        (Seq::empty(), Seq::empty())
    } else {
        let (done, cur) = split_state(s.drop_last());
        if s.last() == '/' {
            (if cur.len() > 0 {
                done.push(cur)
            } else {
                done
            }, Seq::empty())
        } else {
            (done, cur.push(s.last()))
        }
    }
}

/// The non-empty components of `s`, separated by `/`.
pub open spec fn components_of(s: Seq<char>) -> Seq<Seq<char>> {
    let (done, cur) = split_state(s);
    if cur.len() > 0 {
        done.push(cur)
    } else {
        done
    }
}

/// Components written back with `/` between them.
pub open spec fn joined_components(parts: Seq<Seq<char>>) -> Seq<char>
    decreases parts.len(),
{
    if parts.len() == 0 {
        Seq::empty()
    } else if parts.len() == 1 {
        parts[0]
    } else {
        joined_components(parts.drop_last()) + seq!['/'] + parts.last()
    }
}

/// The character sequences held by a vector of character vectors.
pub open spec fn views(v: Seq<Vec<char>>) -> Seq<Seq<char>> {
    v.map_values(|x: Vec<char>| x@)
}

/// Position of the last `/`.
pub fn find_last_sep(v: &Vec<char>) -> (r: Option<usize>)
    ensures
        match r {
            Some(i) => i == last_sep(v@),
            None => last_sep(v@) == -1,
        },
{
    let mut i: usize = v.len();
    assert(v@.subrange(0, v@.len() as int) == v@);
    while i > 0
        invariant
            i <= v@.len(),
            last_sep(v@) == last_sep(v@.subrange(0, i as int)),
        decreases i,
    {
        assert(v@.subrange(0, i as int).drop_last() == v@.subrange(0, i - 1));
        if v[i - 1] == '/' {
            return Some(i - 1);
        }
        i = i - 1;
    }
    None
}

/// Position of the last `.`.
pub fn find_last_dot(v: &Vec<char>) -> (r: Option<usize>)
    ensures
        match r {
            Some(i) => i == last_dot(v@),
            None => last_dot(v@) == -1,
        },
{
    let mut i: usize = v.len();
    assert(v@.subrange(0, v@.len() as int) == v@);
    while i > 0
        invariant
            i <= v@.len(),
            last_dot(v@) == last_dot(v@.subrange(0, i as int)),
        decreases i,
    {
        assert(v@.subrange(0, i as int).drop_last() == v@.subrange(0, i - 1));
        if v[i - 1] == '.' {
            return Some(i - 1);
        }
        i = i - 1;
    }
    None
}

/// Start of the name part: one past the last separator.
fn name_start(v: &Vec<char>) -> (r: usize)
    ensures
        r == last_sep(v@) + 1,
        r <= v@.len(),
{
    proof {
        lemma_last_sep(v@);
    }
    let len = v.len();
    match find_last_sep(v) {
        Some(i) => {
            assert(i < len);
            i + 1
        },
        None => 0,
    }
}

fn is_dot_or_dots(v: &Vec<char>, lo: usize) -> (b: bool)
    requires
        lo <= v@.len(),
    ensures
        b == (v@.subrange(lo as int, v@.len() as int) == seq!['.'] || v@.subrange(
            lo as int,
            v@.len() as int,
        ) == seq!['.', '.']),
{
    let n = v.len() - lo;
    let ghost sub = v@.subrange(lo as int, v@.len() as int);
    assert(sub.len() == n);
    assert(seq!['.'].len() == 1);
    assert(seq!['.', '.'].len() == 2);
    if n == 1 {
        if v[lo] == '.' {
            assert(sub =~= seq!['.']);
            true
        } else {
            assert(sub[0] != seq!['.'][0]);
            false
        }
    } else if n == 2 {
        if v[lo] == '.' && v[lo + 1] == '.' {
            assert(sub =~= seq!['.', '.']);
            true
        } else {
            assert(sub[0] != seq!['.', '.'][0] || sub[1] != seq!['.', '.'][1]);
            false
        }
    } else {
        false
    }
}

/// `Path::file_name`.
pub fn file_name(path: &str) -> (r: Option<String>)
    ensures
        match r {
            Some(n) => file_name_of(path@) == Some(n@),
            None => file_name_of(path@) is None,
        },
{
    let v = chars_of(path);
    let lo = name_start(&v);
    if lo == v.len() || is_dot_or_dots(&v, lo) {
        None
    } else {
        Some(string_from_range(&v, lo, v.len()))
    }
}

/// `Path::parent`.
pub fn parent(path: &str) -> (r: Option<String>)
    ensures
        match r {
            Some(p) => parent_of(path@) == Some(p@),
            None => parent_of(path@) is None,
        },
{
    let v = chars_of(path);
    let lo = name_start(&v);
    if lo == v.len() {
        None
    } else if lo == 0 {
        Some(String::new())
    } else if lo == 1 {
        let mut s = String::new();
        push_char(&mut s, '/');
        Some(s)
    } else {
        Some(string_from_range(&v, 0, lo - 1))
    }
}

/// `Path::join`.
pub fn join(a: &str, b: &str) -> (r: String)
    ensures
        r@ == join_of(a@, b@),
{
    let av = chars_of(a);
    let bv = chars_of(b);
    if bv.len() > 0 && bv[0] == '/' {
        return string_from_range(&bv, 0, bv.len());
    }
    let mut s = string_from_range(&av, 0, av.len());
    assert(av@.subrange(0, av@.len() as int) == av@);
    assert(bv@.subrange(0, bv@.len() as int) == bv@);
    if av.len() > 0 && av[av.len() - 1] != '/' {
        push_char(&mut s, '/');
    }
    push_all(&mut s, &bv);
    s
}

/// `Path::with_extension`.
pub fn with_extension(path: &str, ext: &str) -> (r: String)
    ensures
        r@ == with_extension_of(path@, ext@),
{
    let v = chars_of(path);
    let lo = name_start(&v);
    if lo == v.len() || is_dot_or_dots(&v, lo) {
        return string_from_range(&v, 0, v.len());
    }
    let name = string_from_range(&v, lo, v.len());
    let nv = chars_of(name.as_str());
    proof {
        lemma_last_dot(nv@);
    }
    let stem_len = match find_last_dot(&nv) {
        Some(d) => if d == 0 {
            nv.len()
        } else {
            d
        },
        None => nv.len(),
    };
    let mut s = string_from_range(&v, 0, lo + stem_len);
    assert(v@.subrange(0, lo + stem_len) == v@.subrange(0, lo as int) + nv@.subrange(
        0,
        stem_len as int,
    ));
    assert(nv@.subrange(0, nv@.len() as int) == nv@);
    let ev = chars_of(ext);
    if ev.len() > 0 {
        push_char(&mut s, '.');
        push_all(&mut s, &ev);
    }
    s
}

/// The stem and extension of a file name, split at its last `.`.
fn split_name(name: &Vec<char>) -> (r: (usize, Option<usize>))
    ensures
        r.0 <= name@.len(),
        name@.subrange(0, r.0 as int) == stem_of_name(name@),
        match r.1 {
            Some(d) => d < name@.len() && extension_of_name(name@) == Some(
                name@.subrange(d + 1, name@.len() as int),
            ),
            None => extension_of_name(name@) is None,
        },
{
    proof {
        lemma_last_dot(name@);
    }
    assert(name@.subrange(0, name@.len() as int) == name@);
    match find_last_dot(name) {
        Some(d) => if d == 0 {
            (name.len(), None)
        } else {
            (d, Some(d))
        },
        None => (name.len(), None),
    }
}

/// `Path::extension`.
pub fn extension(path: &str) -> (r: Option<String>)
    ensures
        match r {
            Some(e) => extension_of(path@) == Some(e@),
            None => extension_of(path@) is None,
        },
{
    match file_name(path) {
        Some(n) => {
            let nv = chars_of(n.as_str());
            let (_, dot) = split_name(&nv);
            match dot {
                Some(d) => {
                    let len = nv.len();
                    assert(d < len);
                    Some(string_from_range(&nv, d + 1, nv.len()))
                },
                None => None,
            }
        },
        None => None,
    }
}

/// `Path::file_stem`.
pub fn file_stem(path: &str) -> (r: Option<String>)
    ensures
        match r {
            Some(e) => file_stem_of(path@) == Some(e@),
            None => file_stem_of(path@) is None,
        },
{
    match file_name(path) {
        Some(n) => {
            let nv = chars_of(n.as_str());
            let (end, _) = split_name(&nv);
            Some(string_from_range(&nv, 0, end))
        },
        None => None,
    }
}

/// The non-empty `/`-separated components of a path.
pub fn components(path: &str) -> (r: Vec<Vec<char>>)
    ensures
        views(r@) == components_of(path@),
{
    let v = chars_of(path);
    let mut done: Vec<Vec<char>> = Vec::new();
    let mut cur: Vec<char> = Vec::new();
    let mut i: usize = 0;
    while i < v.len()
        invariant
            i <= v@.len(),
            split_state(v@.subrange(0, i as int)) == (views(done@), cur@),
        decreases v@.len() - i,
    {
        assert(v@.subrange(0, i + 1).drop_last() == v@.subrange(0, i as int));
        let c = v[i];
        if c == '/' {
            if cur.len() > 0 {
                let ghost before = views(done@);
                let ghost cv = cur@;
                done.push(cur);
                assert(views(done@) =~= before.push(cv));
            }
            cur = Vec::new();
        } else {
            cur.push(c);
        }
        i = i + 1;
    }
    assert(v@.subrange(0, v@.len() as int) == v@);
    if cur.len() > 0 {
        let ghost before = views(done@);
        let ghost cv = cur@;
        done.push(cur);
        assert(views(done@) =~= before.push(cv));
    }
    done
}

} // verus!

verus! {

/// A component as splitting leaves it: not empty, without separators.
pub open spec fn clean_component(c: Seq<char>) -> bool {
    c.len() > 0 && forall|j: int| 0 <= j < c.len() ==> c[j] != '/'
}

proof fn lemma_split_state_clean(s: Seq<char>)
    ensures
        forall|i: int|
            0 <= i < split_state(s).0.len() ==> #[trigger] clean_component(split_state(s).0[i]),
        forall|j: int| 0 <= j < split_state(s).1.len() ==> split_state(s).1[j] != '/',
    decreases s.len(),
{
    if s.len() > 0 {
        lemma_split_state_clean(s.drop_last());
        let (done, cur) = split_state(s.drop_last());
        if s.last() != '/' {
            assert forall|j: int| 0 <= j < cur.push(s.last()).len() implies cur.push(
                s.last(),
            )[j] != '/' by {
                if j < cur.len() {
                    assert(cur.push(s.last())[j] == cur[j]);
                }
            }
        }
    }
}

/// The components of a path are not empty and hold no separator.
pub proof fn lemma_components_clean(s: Seq<char>)
    ensures
        forall|i: int|
            0 <= i < components_of(s).len() ==> #[trigger] clean_component(components_of(s)[i]),
{
    lemma_split_state_clean(s);
}

proof fn lemma_split_append_plain(a: Seq<char>, b: Seq<char>)
    requires
        forall|j: int| 0 <= j < b.len() ==> b[j] != '/',
    ensures
        split_state(a + b) == (split_state(a).0, split_state(a).1 + b),
    decreases b.len(),
{
    if b.len() == 0 {
        assert(a + b =~= a);
        assert(split_state(a).1 + b =~= split_state(a).1);
    } else {
        assert((a + b).drop_last() =~= a + b.drop_last());
        assert((a + b).last() == b.last());
        lemma_split_append_plain(a, b.drop_last());
        assert((split_state(a).1 + b.drop_last()).push(b.last()) =~= split_state(a).1 + b);
    }
}

proof fn lemma_split_append_sep(a: Seq<char>)
    ensures
        split_state(a + seq!['/']) == (components_of(a), Seq::<char>::empty()),
{
    assert((a + seq!['/']).drop_last() =~= a);
    assert((a + seq!['/']).last() == '/');
}

/// Splitting components written back with separators gives the same components.
pub proof fn lemma_components_of_joined(parts: Seq<Seq<char>>)
    requires
        forall|i: int| 0 <= i < parts.len() ==> #[trigger] clean_component(parts[i]),
    ensures
        components_of(joined_components(parts)) == parts,
    decreases parts.len(),
{
    if parts.len() == 0 {
        assert(components_of(Seq::<char>::empty()) =~= parts);
    } else if parts.len() == 1 {
        assert(clean_component(parts[0]));
        lemma_split_append_plain(Seq::<char>::empty(), parts[0]);
        assert(Seq::<char>::empty() + parts[0] =~= parts[0]);
        assert(Seq::<Seq<char>>::empty().push(parts[0]) =~= parts);
    } else {
        let init = parts.drop_last();
        let x = parts.last();
        assert(clean_component(parts[parts.len() - 1]));
        assert forall|i: int| 0 <= i < init.len() implies #[trigger] clean_component(init[i]) by {
            assert(clean_component(parts[i]));
        }
        lemma_components_of_joined(init);
        let j = joined_components(init);
        lemma_split_append_sep(j);
        lemma_split_append_plain(j + seq!['/'], x);
        assert(Seq::<char>::empty() + x =~= x);
        assert(init.push(x) =~= parts);
    }
}

} // verus!
