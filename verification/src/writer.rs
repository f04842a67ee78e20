//! Rendering course documents and directory indexes as Markdown.
use vstd::prelude::*;

use crate::models::{
    section_heading, section_heading_chars, section_title, required_section_title,
    ConceptItem, CourseDocument, ExampleItem, FormulaItem, SECTION_COUNT,
};
use crate::text::{chars_of, decimal, find_from, occurs_at, push_char, push_decimal, push_str};

verus! {

/// The text of each string.
pub open spec fn texts(v: Seq<String>) -> Seq<Seq<char>> {
    v.map_values(|s: String| s@)
}

/// Lines joined with a newline between each two.
pub open spec fn join_lines(lines: Seq<Seq<char>>) -> Seq<char>
    decreases lines.len(),
{
    if lines.len() == 0 {
        Seq::empty()
    } else if lines.len() == 1 {
        lines[0]
    } else {
        join_lines(lines.drop_last()) + "\n"@ + lines.last()
    }
}

/// What an empty list renders as.
pub open spec fn empty_note() -> Seq<char> {
    "暂无明确提炼。"@
}

/// A bulleted list of the items, or a single bullet with `empty` when there are none.
pub open spec fn bullet_body(lines: Seq<Seq<char>>, empty: Seq<char>) -> Seq<char> {
    if lines.len() == 0 {
        "- "@ + empty
    } else {
        join_lines(lines.map_values(|x: Seq<char>| "- "@ + x))
    }
}

/// The numbered line for item `i` (counting from zero).
pub open spec fn numbered_line(i: int, x: Seq<char>) -> Seq<char> {
    decimal((i + 1) as nat) + ". "@ + x
}

/// A numbered list of the items, or `1. ` and `empty` when there are none.
pub open spec fn numbered_body(lines: Seq<Seq<char>>, empty: Seq<char>) -> Seq<char> {
    if lines.len() == 0 {
        "1. "@ + empty
    } else {
        join_lines(lines.map(|i: int, x: Seq<char>| numbered_line(i, x)))
    }
}

/// `first: second`, the text of a two-part item.
pub open spec fn pair_text(first: Seq<char>, second: Seq<char>) -> Seq<char> {
    first + ": "@ + second
}

pub open spec fn concept_texts(v: Seq<ConceptItem>) -> Seq<Seq<char>> {
    v.map_values(|c: ConceptItem| pair_text(c.term@, c.note@))
}

pub open spec fn formula_texts(v: Seq<FormulaItem>) -> Seq<Seq<char>> {
    v.map_values(|c: FormulaItem| pair_text(c.expression@, c.description@))
}

pub open spec fn example_texts(v: Seq<ExampleItem>) -> Seq<Seq<char>> {
    v.map_values(|c: ExampleItem| pair_text(c.title@, c.summary@))
}

/// The body of section `i` of the document.
pub open spec fn section_body(doc: CourseDocument, i: int) -> Seq<char> {
    if i == 0 {
        bullet_body(texts(doc.objectives@), empty_note())
    } else if i == 1 {
        bullet_body(texts(doc.knowledge_mainline@), empty_note())
    } else if i == 2 {
        bullet_body(concept_texts(doc.core_concepts@), empty_note())
    } else if i == 3 {
        bullet_body(formula_texts(doc.formulas@), empty_note())
    } else if i == 4 {
        bullet_body(example_texts(doc.examples@), empty_note())
    } else if i == 5 {
        bullet_body(texts(doc.teacher_emphasis@), empty_note())
    } else if i == 6 {
        bullet_body(concept_texts(doc.glossary@), empty_note())
    } else {
        numbered_body(texts(doc.questions_and_quiz@), empty_note())
    }
}

/// A section: its heading, a blank line, its body and a blank line.
pub open spec fn section_text(i: int, body: Seq<char>) -> Seq<char> {
    section_heading(i) + "\n\n"@ + body + "\n\n"@
}

/// Sections `k` to the last, in order.
pub open spec fn sections_from(doc: CourseDocument, k: int) -> Seq<char>
    decreases SECTION_COUNT - k,
{
    if k >= SECTION_COUNT || k < 0 {
        Seq::empty()
    } else {
        section_text(k, section_body(doc, k)) + sections_from(doc, k + 1)
    }
}

/// The title line of the document.
pub open spec fn title_block(doc: CourseDocument) -> Seq<char> {
    "# "@ + doc.title@ + "\n\n"@
}

/// The whole rendered document.
pub open spec fn rendered_document(doc: CourseDocument) -> Seq<char> {
    title_block(doc) + sections_from(doc, 0)
}

/// Appends `lines` joined by newlines, each behind `- `.
fn push_bullets(s: &mut String, lines: &Vec<Vec<char>>, empty: &str)
    ensures
        final(s)@ == old(s)@ + bullet_body(crate::paths::views(lines@), empty@),
{
    let ghost ls = crate::paths::views(lines@);
    let ghost bl = ls.map_values(|x: Seq<char>| "- "@ + x);
    if lines.len() == 0 {
        push_str(s, "- ");
        push_str(s, empty);
        return ;
    }
    let mut i: usize = 0;
    while i < lines.len()
        invariant
            ls == crate::paths::views(lines@),
            bl == ls.map_values(|x: Seq<char>| "- "@ + x),
            lines@.len() > 0,
            i <= lines@.len(),
            s@ == old(s)@ + join_lines(bl.take(i as int)),
        decreases lines@.len() - i,
    {
        let ghost before = s@;
        if i > 0 {
            push_char(s, '\n');
        }
        push_str(s, "- ");
        crate::text::push_all(s, &lines[i]);
        proof {
            let t = bl.take(i + 1);
            assert(t.drop_last() =~= bl.take(i as int));
            assert(t.last() == "- "@ + lines@[i as int]@);
            if i > 0 {
                assert(seq!['\n'] =~= "\n"@) by {
                    reveal_strlit("\n");
                }
                assert(s@ =~= old(s)@ + join_lines(t));
            } else {
                assert(s@ =~= old(s)@ + join_lines(t));
            }
        }
        i = i + 1;
    }
    assert(bl.take(lines@.len() as int) =~= bl);
}

} // verus!

verus! {

/// Appends the numbered lines `1. a`, `2. b`, ... joined by newlines.
fn push_numbered(s: &mut String, lines: &Vec<Vec<char>>, empty: &str)
    ensures
        final(s)@ == old(s)@ + numbered_body(crate::paths::views(lines@), empty@),
{
    let ghost ls = crate::paths::views(lines@);
    let ghost nl = ls.map(|i: int, x: Seq<char>| numbered_line(i, x));
    if lines.len() == 0 {
        push_str(s, "1. ");
        push_str(s, empty);
        return ;
    }
    let mut i: usize = 0;
    while i < lines.len()
        invariant
            ls == crate::paths::views(lines@),
            nl == ls.map(|i: int, x: Seq<char>| numbered_line(i, x)),
            lines@.len() > 0,
            lines@.len() <= usize::MAX,
            i <= lines@.len(),
            s@ == old(s)@ + join_lines(nl.take(i as int)),
        decreases lines@.len() - i,
    {
        if i > 0 {
            push_char(s, '\n');
        }
        push_decimal(s, (i + 1) as u64);
        push_str(s, ". ");
        crate::text::push_all(s, &lines[i]);
        proof {
            let t = nl.take(i + 1);
            assert(t.drop_last() =~= nl.take(i as int));
            assert(t.last() == numbered_line(i as int, lines@[i as int]@));
            assert(((i + 1) as u64) as nat == (i + 1) as nat);
            if i > 0 {
                assert(seq!['\n'] =~= "\n"@) by {
                    reveal_strlit("\n");
                }
            }
            assert(s@ =~= old(s)@ + join_lines(t));
        }
        i = i + 1;
    }
    assert(nl.take(lines@.len() as int) =~= nl);
}

/// The characters of each string.
pub fn lines_of(v: &Vec<String>) -> (r: Vec<Vec<char>>)
    ensures
        crate::paths::views(r@) == texts(v@),
{
    let mut r: Vec<Vec<char>> = Vec::new();
    let mut i: usize = 0;
    while i < v.len()
        invariant
            i <= v@.len(),
            crate::paths::views(r@) == texts(v@).take(i as int),
        decreases v@.len() - i,
    {
        let c = chars_of(v[i].as_str());
        let ghost before = crate::paths::views(r@);
        r.push(c);
        assert(crate::paths::views(r@) =~= before.push(v@[i as int]@));
        assert(texts(v@).take(i + 1) =~= texts(v@).take(i as int).push(v@[i as int]@));
        i = i + 1;
    }
    assert(texts(v@).take(v@.len() as int) =~= texts(v@));
    r
}

/// `first: second` as characters.
fn pair_chars(first: &String, second: &String) -> (r: Vec<char>)
    ensures
        r@ == pair_text(first@, second@),
{
    let mut s = String::new();
    push_str(&mut s, first.as_str());
    push_str(&mut s, ": ");
    push_str(&mut s, second.as_str());
    chars_of(s.as_str())
}

fn concept_lines(v: &Vec<ConceptItem>) -> (r: Vec<Vec<char>>)
    ensures
        crate::paths::views(r@) == concept_texts(v@),
{
    let mut r: Vec<Vec<char>> = Vec::new();
    let mut i: usize = 0;
    while i < v.len()
        invariant
            i <= v@.len(),
            crate::paths::views(r@) == concept_texts(v@).take(i as int),
        decreases v@.len() - i,
    {
        let c = pair_chars(&v[i].term, &v[i].note);
        let ghost before = crate::paths::views(r@);
        r.push(c);
        assert(crate::paths::views(r@) =~= before.push(c@));
        assert(concept_texts(v@).take(i + 1) =~= concept_texts(v@).take(i as int).push(c@));
        i = i + 1;
    }
    assert(concept_texts(v@).take(v@.len() as int) =~= concept_texts(v@));
    r
}

fn formula_lines(v: &Vec<FormulaItem>) -> (r: Vec<Vec<char>>)
    ensures
        crate::paths::views(r@) == formula_texts(v@),
{
    let mut r: Vec<Vec<char>> = Vec::new();
    let mut i: usize = 0;
    while i < v.len()
        invariant
            i <= v@.len(),
            crate::paths::views(r@) == formula_texts(v@).take(i as int),
        decreases v@.len() - i,
    {
        let c = pair_chars(&v[i].expression, &v[i].description);
        let ghost before = crate::paths::views(r@);
        r.push(c);
        assert(crate::paths::views(r@) =~= before.push(c@));
        assert(formula_texts(v@).take(i + 1) =~= formula_texts(v@).take(i as int).push(c@));
        i = i + 1;
    }
    assert(formula_texts(v@).take(v@.len() as int) =~= formula_texts(v@));
    r
}

fn example_lines(v: &Vec<ExampleItem>) -> (r: Vec<Vec<char>>)
    ensures
        crate::paths::views(r@) == example_texts(v@),
{
    let mut r: Vec<Vec<char>> = Vec::new();
    let mut i: usize = 0;
    while i < v.len()
        invariant
            i <= v@.len(),
            crate::paths::views(r@) == example_texts(v@).take(i as int),
        decreases v@.len() - i,
    {
        let c = pair_chars(&v[i].title, &v[i].summary);
        let ghost before = crate::paths::views(r@);
        r.push(c);
        assert(crate::paths::views(r@) =~= before.push(c@));
        assert(example_texts(v@).take(i + 1) =~= example_texts(v@).take(i as int).push(c@));
        i = i + 1;
    }
    assert(example_texts(v@).take(v@.len() as int) =~= example_texts(v@));
    r
}

/// The lines of section `i`'s body.
fn section_lines(doc: &CourseDocument, i: usize) -> (r: Vec<Vec<char>>)
    requires
        i < SECTION_COUNT,
    ensures
        i < 7 ==> section_body(*doc, i as int) == bullet_body(
            crate::paths::views(r@),
            empty_note(),
        ),
        i == 7 ==> section_body(*doc, i as int) == numbered_body(
            crate::paths::views(r@),
            empty_note(),
        ),
{
    if i == 0 {
        lines_of(&doc.objectives)
    } else if i == 1 {
        lines_of(&doc.knowledge_mainline)
    } else if i == 2 {
        concept_lines(&doc.core_concepts)
    } else if i == 3 {
        formula_lines(&doc.formulas)
    } else if i == 4 {
        example_lines(&doc.examples)
    } else if i == 5 {
        lines_of(&doc.teacher_emphasis)
    } else if i == 6 {
        concept_lines(&doc.glossary)
    } else {
        lines_of(&doc.questions_and_quiz)
    }
}

/// The document as Markdown: its title, then the eight sections in their fixed order.
pub fn render_course_document(document: &CourseDocument) -> (markdown: String)
    ensures
        markdown@ == rendered_document(*document),
{
    let mut s = String::new();
    push_str(&mut s, "# ");
    push_str(&mut s, document.title.as_str());
    push_str(&mut s, "\n\n");
    assert(s@ == title_block(*document));
    let mut i: usize = 0;
    while i < SECTION_COUNT
        invariant
            i <= SECTION_COUNT,
            s@ + sections_from(*document, i as int) == rendered_document(*document),
        decreases SECTION_COUNT - i,
    {
        let ghost before = s@;
        push_str(&mut s, "## ");
        push_str(&mut s, required_section_title(i));
        push_str(&mut s, "\n\n");
        let lines = section_lines(document, i);
        let empty = "暂无明确提炼。";
        if i < 7 {
            push_bullets(&mut s, &lines, empty);
        } else {
            push_numbered(&mut s, &lines, empty);
        }
        push_str(&mut s, "\n\n");
        assert(s@ =~= before + section_text(i as int, section_body(*document, i as int)));
        assert(sections_from(*document, i as int) == section_text(
            i as int,
            section_body(*document, i as int),
        ) + sections_from(*document, i + 1));
        assert(s@ + sections_from(*document, i + 1) =~= before + sections_from(
            *document,
            i as int,
        ));
        i = i + 1;
    }
    assert(sections_from(*document, SECTION_COUNT as int) =~= Seq::<char>::empty());
    assert(s@ + Seq::<char>::empty() =~= s@);
    s
}

} // verus!

verus! {

/// The first position at or after `from` where `needle` occurs in `m`.
pub open spec fn first_from(m: Seq<char>, needle: Seq<char>, from: int) -> Option<int>
    decreases m.len() + 1 - from,
{
    if from > m.len() || from < 0 {
        None
    } else if occurs_at(m, needle, from) {
        Some(from)
    } else {
        first_from(m, needle, from + 1)
    }
}

pub proof fn lemma_first_from(m: Seq<char>, needle: Seq<char>, from: int)
    requires
        0 <= from,
    ensures
        match first_from(m, needle, from) {
            Some(i) => from <= i && occurs_at(m, needle, i) && forall|j: int|
                from <= j < i ==> !occurs_at(m, needle, j),
            None => forall|j: int| from <= j ==> !occurs_at(m, needle, j),
        },
    decreases m.len() + 1 - from,
{
    if from <= m.len() && !occurs_at(m, needle, from) {
        lemma_first_from(m, needle, from + 1);
    }
}

/// Reading from `cursor`, the headings of sections `k` and after can each be found after
/// the end of the one before (the search the writer's check makes).
pub open spec fn headings_in_order_from(m: Seq<char>, k: int, cursor: int) -> bool
    decreases SECTION_COUNT - k,
{
    if k >= SECTION_COUNT || k < 0 {
        true
    } else {
        match first_from(m, section_heading(k), cursor) {
            Some(p) => headings_in_order_from(m, k + 1, p + section_heading(k).len()),
            None => false,
        }
    }
}

/// The section headings occur in `m` in their fixed order.
pub open spec fn section_order_holds(m: Seq<char>) -> bool {
    headings_in_order_from(m, 0, 0)
}

/// Whether the required section headings occur in `markdown` in their fixed order, each
/// searched for after the end of the previous one.
pub fn validate_section_order(markdown: &str) -> (b: bool)
    ensures
        b == section_order_holds(markdown@),
{
    let md = chars_of(markdown);
    let total = md.len();
    let mut cursor: usize = 0;
    let mut i: usize = 0;
    while i < SECTION_COUNT
        invariant
            md@ == markdown@,
            total == md@.len(),
            i <= SECTION_COUNT,
            cursor <= md@.len(),
            section_order_holds(md@) == headings_in_order_from(md@, i as int, cursor as int),
        decreases SECTION_COUNT - i,
    {
        let needle = section_heading_chars(i);
        proof {
            lemma_first_from(md@, needle@, cursor as int);
        }
        match find_from(&md, &needle, cursor) {
            Some(next) => {
                assert(first_from(md@, needle@, cursor as int) == Some(next as int)) by {
                    match first_from(md@, needle@, cursor as int) {
                        Some(q) => {
                            if q < next {
                            } else if q > next {
                            }
                        },
                        None => {
                        },
                    }
                }
                assert(next + needle@.len() <= total);
                cursor = next + needle.len();
            },
            None => {
                assert(first_from(md@, needle@, cursor as int) is None) by {
                    match first_from(md@, needle@, cursor as int) {
                        Some(q) => {
                        },
                        None => {
                        },
                    }
                }
                return false;
            },
        }
        i = i + 1;
    }
    true
}

} // verus!

verus! {

/// Sections before section `k`, in order.
pub open spec fn sections_upto(doc: CourseDocument, k: int) -> Seq<char>
    decreases k,
{
    if k <= 0 {
        Seq::empty()
    } else {
        sections_upto(doc, k - 1) + section_text(k - 1, section_body(doc, k - 1))
    }
}

proof fn lemma_sections_split(doc: CourseDocument, k: int)
    requires
        0 <= k <= SECTION_COUNT,
    ensures
        sections_upto(doc, k) + sections_from(doc, k) == sections_from(doc, 0),
    decreases k,
{
    if k == 0 {
        assert(Seq::<char>::empty() + sections_from(doc, 0) =~= sections_from(doc, 0));
    } else {
        lemma_sections_split(doc, k - 1);
        assert(sections_from(doc, k - 1) == section_text(k - 1, section_body(doc, k - 1))
            + sections_from(doc, k));
        assert(sections_upto(doc, k) + sections_from(doc, k) =~= sections_upto(doc, k - 1)
            + sections_from(doc, k - 1));
    }
}

/// Where the heading of section `k` begins in the rendered document.
pub open spec fn heading_position(doc: CourseDocument, k: int) -> int {
    (title_block(doc).len() + sections_upto(doc, k).len()) as int
}

proof fn lemma_heading_at(doc: CourseDocument, k: int)
    requires
        0 <= k < SECTION_COUNT,
    ensures
        occurs_at(rendered_document(doc), section_heading(k), heading_position(doc, k)),
        heading_position(doc, k) + section_heading(k).len() <= heading_position(doc, k + 1),
{
    lemma_sections_split(doc, k);
    let m = rendered_document(doc);
    let a = title_block(doc) + sections_upto(doc, k);
    let h = section_heading(k);
    let rest = "\n\n"@ + section_body(doc, k) + "\n\n"@ + sections_from(doc, k + 1);
    assert(sections_from(doc, k) == section_text(k, section_body(doc, k)) + sections_from(
        doc,
        k + 1,
    ));
    assert(m =~= a + (h + rest));
    let p = heading_position(doc, k);
    assert(p == a.len());
    assert(m.subrange(p, p + h.len()) =~= h);
}

proof fn lemma_greedy_search(doc: CourseDocument, k: int, cursor: int)
    requires
        0 <= k <= SECTION_COUNT,
        0 <= cursor,
        k < SECTION_COUNT ==> cursor <= heading_position(doc, k),
    ensures
        headings_in_order_from(rendered_document(doc), k, cursor),
    decreases SECTION_COUNT - k,
{
    if k < SECTION_COUNT {
        let m = rendered_document(doc);
        let h = section_heading(k);
        lemma_heading_at(doc, k);
        lemma_first_from(m, h, cursor);
        match first_from(m, h, cursor) {
            Some(p) => {
                assert(p <= heading_position(doc, k));
                lemma_greedy_search(doc, k + 1, p + h.len());
            },
            None => {
                assert(!occurs_at(m, h, heading_position(doc, k)));
            },
        }
    }
}

/// Law: a rendered course document begins with `# <title>`, and then has the eight
/// headings `## 本讲目标`, `## 知识主线`, `## 核心概念`, `## 公式与结论`, `## 例题与案例`,
/// `## 老师强调内容`, `## 术语与概念简记` and `## 问答与自测`, each after the one before.
pub proof fn rendered_headings_are_the_eight_in_order(doc: CourseDocument)
    ensures
        occurs_at(rendered_document(doc), "# "@ + doc.title@, 0),
        forall|k: int|
            0 <= k < 8 ==> occurs_at(
                rendered_document(doc),
                "## "@ + seq![
                    "本讲目标"@,
                    "知识主线"@,
                    "核心概念"@,
                    "公式与结论"@,
                    "例题与案例"@,
                    "老师强调内容"@,
                    "术语与概念简记"@,
                    "问答与自测"@,
                ][k],
                #[trigger] heading_position(doc, k),
            ),
        forall|k: int| 0 <= k < 7 ==> #[trigger] heading_position(doc, k) < heading_position(doc, k + 1),
{
    let titles = seq![
        "本讲目标"@,
        "知识主线"@,
        "核心概念"@,
        "公式与结论"@,
        "例题与案例"@,
        "老师强调内容"@,
        "术语与概念简记"@,
        "问答与自测"@,
    ];
    let m = rendered_document(doc);
    assert(m.subrange(0, ("# "@ + doc.title@).len() as int) =~= "# "@ + doc.title@);
    assert forall|k: int| 0 <= k < 8 implies occurs_at(
        m,
        "## "@ + titles[k],
        #[trigger] heading_position(doc, k),
    ) by {
        lemma_heading_at(doc, k);
        assert(section_title(k) == titles[k]);
    }
    assert forall|k: int| 0 <= k < 7 implies #[trigger] heading_position(doc, k) < heading_position(
        doc,
        k + 1,
    ) by {
        lemma_heading_at(doc, k);
        reveal_strlit("## ");
        assert(section_heading(k).len() >= 3);
    }
}

/// Law: a rendered course document holds every required section heading, and the
/// headings come in the fixed section order, so the writer's own check accepts it.
pub proof fn rendered_sections_in_order(doc: CourseDocument)
    ensures
        section_order_holds(rendered_document(doc)),
        crate::models::contains_all_headings(rendered_document(doc)),
{
    lemma_greedy_search(doc, 0, 0);
    assert forall|i: int| 0 <= i < SECTION_COUNT implies #[trigger] crate::models::contains_heading(
        rendered_document(doc),
        i,
    ) by {
        lemma_heading_at(doc, i);
    }
}

} // verus!

verus! {

/// The pieces written one after another.
pub open spec fn concat_all(parts: Seq<Seq<char>>) -> Seq<char>
    decreases parts.len(),
{
    if parts.len() == 0 {
        Seq::empty()
    } else {
        concat_all(parts.drop_last()) + parts.last()
    }
}

/// ` | 最近生成: <time>` when there is a time.
pub open spec fn latest_suffix(t: Option<crate::models::Timestamp>) -> Seq<char> {
    match t {
        Some(t) => " | 最近生成: "@ + t.rfc3339(),
        None => Seq::empty(),
    }
}

/// ` | 摘要: <summary>` when the summary is not empty.
pub open spec fn summary_suffix(summary: Seq<char>) -> Seq<char> {
    if summary.len() == 0 {
        Seq::empty()
    } else {
        " | 摘要: "@ + summary
    }
}

/// The index line of one child directory.
pub open spec fn child_line(e: crate::models::DirectoryChildEntry) -> Seq<char> {
    "- ["@ + e.name@ + "]("@ + e.link@ + ") | 文档数: "@ + decimal(e.document_count as nat)
        + latest_suffix(e.latest_generated_at) + summary_suffix(e.summary@) + "\n"@
}

/// The index line of one document.
pub open spec fn document_line(e: crate::models::DirectoryDocumentEntry) -> Seq<char> {
    "- ["@ + e.title@ + "]("@ + e.link@ + ") | 最近生成: "@ + e.generated_at.rfc3339()
        + summary_suffix(e.summary@) + "\n"@
}

/// The head of an index: its title and the directory's counts.
pub open spec fn index_head(index: crate::models::DirectoryIndex) -> Seq<char> {
    "# 目录索引\n\n"@ + "- 文档总数: "@ + decimal(index.document_count as nat) + "\n"@ + (
    match index.latest_generated_at {
        Some(t) => "- 最近生成: "@ + t.rfc3339() + "\n"@,
        None => Seq::empty(),
    }) + (if index.summary@.len() == 0 {
        Seq::empty()
    } else {
        "- 摘要: "@ + index.summary@ + "\n"@
    }) + "\n"@
}

/// The child-directory part of an index.
pub open spec fn index_children(index: crate::models::DirectoryIndex) -> Seq<char> {
    "## 子目录\n\n"@ + if index.child_directories@.len() == 0 {
        "- 当前目录下无子目录。\n\n"@
    } else {
        concat_all(index.child_directories@.map_values(|e| child_line(e))) + "\n"@
    }
}

/// The document part of an index.
pub open spec fn index_documents(index: crate::models::DirectoryIndex) -> Seq<char> {
    "## 课程文档\n\n"@ + if index.child_documents@.len() == 0 {
        "- 当前目录下无课程文档。\n"@
    } else {
        concat_all(index.child_documents@.map_values(|e| document_line(e)))
    }
}

/// The whole rendered index.
pub open spec fn rendered_index(index: crate::models::DirectoryIndex) -> Seq<char> {
    index_head(index) + index_children(index) + index_documents(index)
}

fn push_summary_suffix(s: &mut String, summary: &String)
    ensures
        final(s)@ == old(s)@ + summary_suffix(summary@),
{
    if summary.as_str().is_empty() {
        assert(old(s)@ + Seq::<char>::empty() =~= old(s)@);
    } else {
        push_str(s, " | 摘要: ");
        push_str(s, summary.as_str());
    }
}

} // verus!

verus! {

fn push_latest_suffix(s: &mut String, t: &Option<crate::models::Timestamp>)
    ensures
        final(s)@ == old(s)@ + latest_suffix(*t),
{
    match t {
        Some(t) => {
            push_str(s, " | 最近生成: ");
            let text = t.to_rfc3339();
            push_str(s, text.as_str());
        },
        None => {
            assert(old(s)@ + Seq::<char>::empty() =~= old(s)@);
        },
    }
}

fn push_child_line(s: &mut String, e: &crate::models::DirectoryChildEntry)
    ensures
        final(s)@ == old(s)@ + child_line(*e),
{
    push_str(s, "- [");
    push_str(s, e.name.as_str());
    push_str(s, "](");
    push_str(s, e.link.as_str());
    push_str(s, ") | 文档数: ");
    push_decimal(s, e.document_count as u64);
    push_latest_suffix(s, &e.latest_generated_at);
    push_summary_suffix(s, &e.summary);
    push_str(s, "\n");
    assert(final(s)@ =~= old(s)@ + child_line(*e));
}

fn push_document_line(s: &mut String, e: &crate::models::DirectoryDocumentEntry)
    ensures
        final(s)@ == old(s)@ + document_line(*e),
{
    push_str(s, "- [");
    push_str(s, e.title.as_str());
    push_str(s, "](");
    push_str(s, e.link.as_str());
    push_str(s, ") | 最近生成: ");
    let text = e.generated_at.to_rfc3339();
    push_str(s, text.as_str());
    push_summary_suffix(s, &e.summary);
    push_str(s, "\n");
    assert(final(s)@ =~= old(s)@ + document_line(*e));
}

/// The directory index as Markdown: counts, child directories, then documents.
pub fn render_index(index: &crate::models::DirectoryIndex) -> (markdown: String)
    ensures
        markdown@ == rendered_index(*index),
{
    let mut s = String::new();
    push_str(&mut s, "# 目录索引\n\n");
    push_str(&mut s, "- 文档总数: ");
    push_decimal(&mut s, index.document_count as u64);
    push_str(&mut s, "\n");
    match &index.latest_generated_at {
        Some(t) => {
            push_str(&mut s, "- 最近生成: ");
            let text = t.to_rfc3339();
            push_str(&mut s, text.as_str());
            push_str(&mut s, "\n");
        },
        None => {
        },
    }
    if !index.summary.as_str().is_empty() {
        push_str(&mut s, "- 摘要: ");
        push_str(&mut s, index.summary.as_str());
        push_str(&mut s, "\n");
    }
    push_str(&mut s, "\n");
    assert(s@ =~= index_head(*index));
    let ghost head = s@;
    push_str(&mut s, "## 子目录\n\n");
    let ghost children_start = s@;
    if index.child_directories.len() == 0 {
        push_str(&mut s, "- 当前目录下无子目录。\n\n");
    } else {
        let ghost lines = index.child_directories@.map_values(|e| child_line(e));
        let mut i: usize = 0;
        while i < index.child_directories.len()
            invariant
                i <= index.child_directories@.len(),
                lines == index.child_directories@.map_values(|e| child_line(e)),
                s@ == children_start + concat_all(lines.take(i as int)),
            decreases index.child_directories@.len() - i,
        {
            push_child_line(&mut s, &index.child_directories[i]);
            assert(lines.take(i + 1).drop_last() =~= lines.take(i as int));
            assert(s@ =~= children_start + concat_all(lines.take(i + 1)));
            i = i + 1;
        }
        assert(lines.take(lines.len() as int) =~= lines);
        push_str(&mut s, "\n");
    }
    assert(s@ =~= head + index_children(*index));
    let ghost mid = s@;
    push_str(&mut s, "## 课程文档\n\n");
    let ghost docs_start = s@;
    if index.child_documents.len() == 0 {
        push_str(&mut s, "- 当前目录下无课程文档。\n");
    } else {
        let ghost lines = index.child_documents@.map_values(|e| document_line(e));
        let mut i: usize = 0;
        while i < index.child_documents.len()
            invariant
                i <= index.child_documents@.len(),
                lines == index.child_documents@.map_values(|e| document_line(e)),
                s@ == docs_start + concat_all(lines.take(i as int)),
            decreases index.child_documents@.len() - i,
        {
            push_document_line(&mut s, &index.child_documents[i]);
            assert(lines.take(i + 1).drop_last() =~= lines.take(i as int));
            assert(s@ =~= docs_start + concat_all(lines.take(i + 1)));
            i = i + 1;
        }
        assert(lines.take(lines.len() as int) =~= lines);
    }
    assert(s@ =~= mid + index_documents(*index));
    s
}

} // verus!

verus! {

/// `t` occurs somewhere in `s`.
pub open spec fn contains_text(s: Seq<char>, t: Seq<char>) -> bool {
    exists|p: int| occurs_at(s, t, p)
}

proof fn lemma_contains_self(t: Seq<char>)
    ensures
        contains_text(t, t),
{
    assert(t.subrange(0, t.len() as int) =~= t);
    assert(occurs_at(t, t, 0));
}

proof fn lemma_contains_prefix(t: Seq<char>, rest: Seq<char>)
    ensures
        contains_text(t + rest, t),
{
    assert((t + rest).subrange(0, t.len() as int) =~= t);
    assert(occurs_at(t + rest, t, 0));
}

proof fn lemma_contains_trans(s: Seq<char>, t: Seq<char>, u: Seq<char>)
    requires
        contains_text(s, t),
        contains_text(t, u),
    ensures
        contains_text(s, u),
{
    let p = choose|p: int| occurs_at(s, t, p);
    let q = choose|q: int| occurs_at(t, u, q);
    assert(s.subrange(p + q, p + q + u.len()) =~= t.subrange(q, q + u.len())) by {
        assert forall|x: int| 0 <= x < u.len() implies #[trigger] s.subrange(p + q, p + q + u.len())[x]
            == t.subrange(q, q + u.len())[x] by {
            assert(s.subrange(p, p + t.len())[q + x] == t[q + x]);
        }
    }
    assert(occurs_at(s, u, p + q));
}

proof fn lemma_contains_in_middle(a: Seq<char>, s: Seq<char>, b: Seq<char>, t: Seq<char>)
    requires
        contains_text(s, t),
    ensures
        contains_text(a + s + b, t),
{
    let p = choose|p: int| occurs_at(s, t, p);
    assert((a + s + b).subrange(a.len() + p, a.len() + p + t.len()) =~= s.subrange(
        p,
        p + t.len(),
    ));
    assert(occurs_at(a + s + b, t, a.len() + p));
}

proof fn lemma_join_lines_contains(lines: Seq<Seq<char>>, k: int)
    requires
        0 <= k < lines.len(),
    ensures
        contains_text(join_lines(lines), lines[k]),
    decreases lines.len(),
{
    if lines.len() == 1 {
        lemma_contains_self(lines[0]);
    } else {
        let d = lines.drop_last();
        let a = join_lines(d) + "\n"@;
        if k == lines.len() - 1 {
            lemma_contains_self(lines.last());
            lemma_contains_in_middle(a, lines.last(), Seq::empty(), lines[k]);
            assert(a + lines.last() + Seq::<char>::empty() =~= join_lines(lines));
        } else {
            assert(d[k] == lines[k]);
            lemma_join_lines_contains(d, k);
            lemma_contains_in_middle(Seq::empty(), join_lines(d), "\n"@ + lines.last(), lines[k]);
            assert(Seq::<char>::empty() + join_lines(d) + ("\n"@ + lines.last()) =~= join_lines(
                lines,
            ));
        }
    }
}

proof fn lemma_concat_all_contains(parts: Seq<Seq<char>>, k: int)
    requires
        0 <= k < parts.len(),
    ensures
        contains_text(concat_all(parts), parts[k]),
    decreases parts.len(),
{
    let d = parts.drop_last();
    if k == parts.len() - 1 {
        lemma_contains_self(parts.last());
        lemma_contains_in_middle(concat_all(d), parts.last(), Seq::empty(), parts[k]);
        assert(concat_all(d) + parts.last() + Seq::<char>::empty() =~= concat_all(parts));
    } else {
        assert(d[k] == parts[k]);
        lemma_concat_all_contains(d, k);
        lemma_contains_in_middle(Seq::empty(), concat_all(d), parts.last(), parts[k]);
        assert(Seq::<char>::empty() + concat_all(d) + parts.last() =~= concat_all(parts));
    }
}

proof fn lemma_sections_contain(doc: CourseDocument, k: int, i: int)
    requires
        0 <= k <= i < SECTION_COUNT,
    ensures
        contains_text(sections_from(doc, k), section_body(doc, i)),
    decreases i - k,
{
    if k == i {
        let body = section_body(doc, i);
        lemma_contains_self(body);
        lemma_contains_in_middle(
            section_heading(i) + "\n\n"@,
            body,
            "\n\n"@ + sections_from(doc, k + 1),
            body,
        );
        assert(section_heading(i) + "\n\n"@ + body + ("\n\n"@ + sections_from(doc, k + 1))
            =~= sections_from(doc, k));
    } else {
        lemma_sections_contain(doc, k + 1, i);
        lemma_contains_in_middle(
            section_text(k, section_body(doc, k)),
            sections_from(doc, k + 1),
            Seq::empty(),
            section_body(doc, i),
        );
        assert(section_text(k, section_body(doc, k)) + sections_from(doc, k + 1) + Seq::<
            char,
        >::empty() =~= sections_from(doc, k));
    }
}

proof fn lemma_document_contains(doc: CourseDocument, i: int, t: Seq<char>)
    requires
        0 <= i < SECTION_COUNT,
        contains_text(section_body(doc, i), t),
    ensures
        contains_text(rendered_document(doc), t),
{
    lemma_sections_contain(doc, 0, i);
    lemma_contains_trans(sections_from(doc, 0), section_body(doc, i), t);
    lemma_contains_in_middle(title_block(doc), sections_from(doc, 0), Seq::empty(), t);
    assert(title_block(doc) + sections_from(doc, 0) + Seq::<char>::empty() =~= rendered_document(
        doc,
    ));
}

proof fn lemma_bullet_contains(lines: Seq<Seq<char>>, k: int, empty: Seq<char>)
    requires
        0 <= k < lines.len(),
    ensures
        contains_text(bullet_body(lines, empty), "- "@ + lines[k]),
{
    let m = lines.map_values(|x: Seq<char>| "- "@ + x);
    assert(m[k] == "- "@ + lines[k]);
    lemma_join_lines_contains(m, k);
}

proof fn lemma_item_in_document(doc: CourseDocument, i: int, lines: Seq<Seq<char>>, k: int, line: Seq<char>)
    requires
        0 <= i < SECTION_COUNT,
        i != 7,
        section_body(doc, i) == bullet_body(lines, empty_note()),
        0 <= k < lines.len(),
        line == "- "@ + lines[k],
    ensures
        contains_text(rendered_document(doc), line),
{
    lemma_bullet_contains(lines, k, empty_note());
    lemma_document_contains(doc, i, line);
}

/// Law: every objective, step of the knowledge line and point the teacher stressed appears
/// in the rendered document as a bullet line `- <item>`, and every question as a numbered
/// line `<n>. <item>`, `n` counting from 1.
pub proof fn rendered_lists_show_every_item(doc: CourseDocument)
    ensures
        forall|k: int|
            0 <= k < doc.objectives@.len() ==> contains_text(
                rendered_document(doc),
                "- "@ + (#[trigger] doc.objectives@[k])@,
            ),
        forall|k: int|
            0 <= k < doc.knowledge_mainline@.len() ==> contains_text(
                rendered_document(doc),
                "- "@ + (#[trigger] doc.knowledge_mainline@[k])@,
            ),
        forall|k: int|
            0 <= k < doc.teacher_emphasis@.len() ==> contains_text(
                rendered_document(doc),
                "- "@ + (#[trigger] doc.teacher_emphasis@[k])@,
            ),
        forall|k: int|
            0 <= k < doc.questions_and_quiz@.len() ==> contains_text(
                rendered_document(doc),
                decimal((k + 1) as nat) + ". "@ + (#[trigger] doc.questions_and_quiz@[k])@,
            ),
{
    assert forall|k: int| 0 <= k < doc.objectives@.len() implies contains_text(
        rendered_document(doc),
        "- "@ + (#[trigger] doc.objectives@[k])@,
    ) by {
        lemma_item_in_document(doc, 0, texts(doc.objectives@), k, "- "@ + doc.objectives@[k]@);
    }
    assert forall|k: int| 0 <= k < doc.knowledge_mainline@.len() implies contains_text(
        rendered_document(doc),
        "- "@ + (#[trigger] doc.knowledge_mainline@[k])@,
    ) by {
        lemma_item_in_document(
            doc,
            1,
            texts(doc.knowledge_mainline@),
            k,
            "- "@ + doc.knowledge_mainline@[k]@,
        );
    }
    assert forall|k: int| 0 <= k < doc.teacher_emphasis@.len() implies contains_text(
        rendered_document(doc),
        "- "@ + (#[trigger] doc.teacher_emphasis@[k])@,
    ) by {
        lemma_item_in_document(
            doc,
            5,
            texts(doc.teacher_emphasis@),
            k,
            "- "@ + doc.teacher_emphasis@[k]@,
        );
    }
    assert forall|k: int| 0 <= k < doc.questions_and_quiz@.len() implies contains_text(
        rendered_document(doc),
        decimal((k + 1) as nat) + ". "@ + (#[trigger] doc.questions_and_quiz@[k])@,
    ) by {
        let lines = texts(doc.questions_and_quiz@);
        let m = lines.map(|i: int, x: Seq<char>| numbered_line(i, x));
        assert(m[k] == decimal((k + 1) as nat) + ". "@ + doc.questions_and_quiz@[k]@);
        lemma_join_lines_contains(m, k);
        lemma_document_contains(doc, 7, m[k]);
    }
}

/// Law: every core concept, formula, example and glossary entry appears in the rendered
/// document as a bullet line with both of its parts, `- <first>: <second>`.
pub proof fn rendered_pairs_show_both_parts(doc: CourseDocument)
    ensures
        forall|k: int|
            0 <= k < doc.core_concepts@.len() ==> contains_text(
                rendered_document(doc),
                "- "@ + (#[trigger] doc.core_concepts@[k]).term@ + ": "@ + doc.core_concepts@[k].note@,
            ),
        forall|k: int|
            0 <= k < doc.formulas@.len() ==> contains_text(
                rendered_document(doc),
                "- "@ + (#[trigger] doc.formulas@[k]).expression@ + ": "@
                    + doc.formulas@[k].description@,
            ),
        forall|k: int|
            0 <= k < doc.examples@.len() ==> contains_text(
                rendered_document(doc),
                "- "@ + (#[trigger] doc.examples@[k]).title@ + ": "@ + doc.examples@[k].summary@,
            ),
        forall|k: int|
            0 <= k < doc.glossary@.len() ==> contains_text(
                rendered_document(doc),
                "- "@ + (#[trigger] doc.glossary@[k]).term@ + ": "@ + doc.glossary@[k].note@,
            ),
{
    assert forall|k: int| 0 <= k < doc.core_concepts@.len() implies contains_text(
        rendered_document(doc),
        "- "@ + (#[trigger] doc.core_concepts@[k]).term@ + ": "@ + doc.core_concepts@[k].note@,
    ) by {
        let c = doc.core_concepts@[k];
        assert("- "@ + concept_texts(doc.core_concepts@)[k] =~= "- "@ + c.term@ + ": "@ + c.note@);
        lemma_item_in_document(doc, 2, concept_texts(doc.core_concepts@), k, "- "@ + c.term@ + ": "@ + c.note@);
    }
    assert forall|k: int| 0 <= k < doc.formulas@.len() implies contains_text(
        rendered_document(doc),
        "- "@ + (#[trigger] doc.formulas@[k]).expression@ + ": "@ + doc.formulas@[k].description@,
    ) by {
        let c = doc.formulas@[k];
        assert("- "@ + formula_texts(doc.formulas@)[k] =~= "- "@ + c.expression@ + ": "@
            + c.description@);
        lemma_item_in_document(
            doc,
            3,
            formula_texts(doc.formulas@),
            k,
            "- "@ + c.expression@ + ": "@ + c.description@,
        );
    }
    assert forall|k: int| 0 <= k < doc.examples@.len() implies contains_text(
        rendered_document(doc),
        "- "@ + (#[trigger] doc.examples@[k]).title@ + ": "@ + doc.examples@[k].summary@,
    ) by {
        let c = doc.examples@[k];
        assert("- "@ + example_texts(doc.examples@)[k] =~= "- "@ + c.title@ + ": "@ + c.summary@);
        lemma_item_in_document(doc, 4, example_texts(doc.examples@), k, "- "@ + c.title@ + ": "@ + c.summary@);
    }
    assert forall|k: int| 0 <= k < doc.glossary@.len() implies contains_text(
        rendered_document(doc),
        "- "@ + (#[trigger] doc.glossary@[k]).term@ + ": "@ + doc.glossary@[k].note@,
    ) by {
        let c = doc.glossary@[k];
        assert("- "@ + concept_texts(doc.glossary@)[k] =~= "- "@ + c.term@ + ": "@ + c.note@);
        lemma_item_in_document(doc, 6, concept_texts(doc.glossary@), k, "- "@ + c.term@ + ": "@ + c.note@);
    }
}

/// Law: the rendered index lists every child directory of the index as a line
/// `- [<name>](<link>) | 文档数: <count>...` and every document as a line
/// `- [<title>](<link>) | 最近生成: <time>...`.
pub proof fn rendered_index_lists_every_entry(index: crate::models::DirectoryIndex)
    ensures
        forall|j: int|
            0 <= j < index.child_directories@.len() ==> contains_text(
                rendered_index(index),
                "- ["@ + (#[trigger] index.child_directories@[j]).name@ + "]("@
                    + index.child_directories@[j].link@ + ") | 文档数: "@ + decimal(
                    index.child_directories@[j].document_count as nat,
                ),
            ),
        forall|j: int|
            0 <= j < index.child_documents@.len() ==> contains_text(
                rendered_index(index),
                "- ["@ + (#[trigger] index.child_documents@[j]).title@ + "]("@
                    + index.child_documents@[j].link@ + ") | 最近生成: "@
                    + index.child_documents@[j].generated_at.rfc3339(),
            ),
{
    let head = index_head(index);
    let children = index_children(index);
    let documents = index_documents(index);
    assert(rendered_index(index) == head + children + documents);
    assert forall|j: int| 0 <= j < index.child_directories@.len() implies contains_text(
        rendered_index(index),
        "- ["@ + (#[trigger] index.child_directories@[j]).name@ + "]("@
            + index.child_directories@[j].link@ + ") | 文档数: "@ + decimal(
            index.child_directories@[j].document_count as nat,
        ),
    ) by {
        let e = index.child_directories@[j];
        let prefix = "- ["@ + e.name@ + "]("@ + e.link@ + ") | 文档数: "@ + decimal(
            e.document_count as nat,
        );
        let rest = latest_suffix(e.latest_generated_at) + summary_suffix(e.summary@) + "\n"@;
        assert(child_line(e) =~= prefix + rest);
        lemma_contains_prefix(prefix, rest);
        let lines = index.child_directories@.map_values(|x| child_line(x));
        assert(lines[j] == child_line(e));
        lemma_concat_all_contains(lines, j);
        lemma_contains_trans(concat_all(lines), child_line(e), prefix);
        lemma_contains_in_middle("## 子目录\n\n"@, concat_all(lines), "\n"@, prefix);
        assert("## 子目录\n\n"@ + concat_all(lines) + "\n"@ =~= children);
        lemma_contains_in_middle(head, children, documents, prefix);
    }
    assert forall|j: int| 0 <= j < index.child_documents@.len() implies contains_text(
        rendered_index(index),
        "- ["@ + (#[trigger] index.child_documents@[j]).title@ + "]("@
            + index.child_documents@[j].link@ + ") | 最近生成: "@
            + index.child_documents@[j].generated_at.rfc3339(),
    ) by {
        let e = index.child_documents@[j];
        let prefix = "- ["@ + e.title@ + "]("@ + e.link@ + ") | 最近生成: "@
            + e.generated_at.rfc3339();
        let rest = summary_suffix(e.summary@) + "\n"@;
        assert(document_line(e) =~= prefix + rest);
        lemma_contains_prefix(prefix, rest);
        let lines = index.child_documents@.map_values(|x| document_line(x));
        assert(lines[j] == document_line(e));
        lemma_concat_all_contains(lines, j);
        lemma_contains_trans(concat_all(lines), document_line(e), prefix);
        lemma_contains_in_middle("## 课程文档\n\n"@, concat_all(lines), Seq::empty(), prefix);
        assert("## 课程文档\n\n"@ + concat_all(lines) + Seq::<char>::empty() =~= documents);
        lemma_contains_in_middle(head + children, documents, Seq::empty(), prefix);
        assert(head + children + documents + Seq::<char>::empty() =~= rendered_index(index));
    }
}

} // verus!
