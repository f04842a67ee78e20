//! Merging the notes of all segments of a video into one course document.
use vstd::prelude::*;

use crate::models::{
    ConceptItem, CourseDocument, ExampleItem, FormulaItem, SegmentAnalysis, SourceVideo,
    Timestamp,
};
use crate::paths::views;
use crate::text::{chars_of, lemma_trim_idempotent, push_str, trim, trimmed};
use crate::writer::texts;

verus! {

/// The trimmed, non-empty texts, each kept at its first occurrence.
pub open spec fn unique_texts(items: Seq<Seq<char>>) -> Seq<Seq<char>>
    decreases items.len(),
{
    if items.len() == 0 {
        Seq::empty()
    } else {
        let prev = unique_texts(items.drop_last());
        let t = trim(items.last());
        if t.len() == 0 || prev.contains(t) {
            prev
        } else {
            prev.push(t)
        }
    }
}

/// The key two-part items are told apart by: both parts with `::` between them.
pub open spec fn pair_key(p: (Seq<char>, Seq<char>)) -> Seq<char> {
    p.0 + "::"@ + p.1
}

/// The trimmed pairs whose first part is not blank, each kept when its key is new.
pub open spec fn unique_pairs(items: Seq<(Seq<char>, Seq<char>)>) -> Seq<(Seq<char>, Seq<char>)>
    decreases items.len(),
{
    if items.len() == 0 {
        Seq::empty()
    } else {
        let prev = unique_pairs(items.drop_last());
        let t = (trim(items.last().0), trim(items.last().1));
        if t.0.len() == 0 || prev.map_values(|p: (Seq<char>, Seq<char>)| pair_key(p)).contains(
            pair_key(t),
        ) {
            prev
        } else {
            prev.push(t)
        }
    }
}

/// Whether `v` is one of `seen`.
fn contains_text(seen: &Vec<Vec<char>>, v: &Vec<char>) -> (b: bool)
    ensures
        b == views(seen@).contains(v@),
{
    let mut i: usize = 0;
    while i < seen.len()
        invariant
            i <= seen@.len(),
            forall|j: int| 0 <= j < i ==> views(seen@)[j] != v@,
        decreases seen@.len() - i,
    {
        if crate::order::order_chars(&seen[i], v) == crate::order::Rank::Same {
            assert(views(seen@)[i as int] == v@);
            return true;
        }
        i = i + 1;
    }
    false
}

/// Trims every text, drops the blank ones and keeps each of the rest at its first occurrence.
pub fn unique_strings(items: Vec<String>) -> (r: Vec<String>)
    ensures
        texts(r@) == unique_texts(texts(items@)),
{
    let ghost iv = texts(items@);
    let mut result: Vec<String> = Vec::new();
    let mut seen: Vec<Vec<char>> = Vec::new();
    let mut i: usize = 0;
    while i < items.len()
        invariant
            iv == texts(items@),
            i <= items@.len(),
            views(seen@) == texts(result@),
            texts(result@) == unique_texts(iv.take(i as int)),
        decreases items@.len() - i,
    {
        let ghost before = texts(result@);
        assert(iv.take(i + 1).drop_last() =~= iv.take(i as int));
        assert(iv.take(i + 1).last() == items@[i as int]@);
        let t = trimmed(items[i].as_str());
        let tv = chars_of(t.as_str());
        if tv.len() > 0 && !contains_text(&seen, &tv) {
            let ghost sb = views(seen@);
            seen.push(tv);
            result.push(t);
            assert(views(seen@) =~= sb.push(t@));
            assert(texts(result@) =~= before.push(t@));
        }
        i = i + 1;
    }
    assert(iv.take(items@.len() as int) =~= iv);
    result
}

/// The texts of a list of pairs of strings.
pub open spec fn pair_texts(v: Seq<(String, String)>) -> Seq<(Seq<char>, Seq<char>)> {
    v.map_values(|p: (String, String)| (p.0@, p.1@))
}

/// Trims both parts of each pair, drops those whose first part is blank, and keeps each of
/// the rest when its key (`first::second`) has not been kept before.
pub fn unique_pair_strings(items: Vec<(String, String)>) -> (r: Vec<(String, String)>)
    ensures
        pair_texts(r@) == unique_pairs(pair_texts(items@)),
{
    let ghost iv = pair_texts(items@);
    let mut result: Vec<(String, String)> = Vec::new();
    let mut seen: Vec<Vec<char>> = Vec::new();
    let mut i: usize = 0;
    while i < items.len()
        invariant
            iv == pair_texts(items@),
            i <= items@.len(),
            views(seen@) == pair_texts(result@).map_values(
                |p: (Seq<char>, Seq<char>)| pair_key(p),
            ),
            pair_texts(result@) == unique_pairs(iv.take(i as int)),
        decreases items@.len() - i,
    {
        let ghost before = pair_texts(result@);
        assert(iv.take(i + 1).drop_last() =~= iv.take(i as int));
        assert(iv.take(i + 1).last() == (items@[i as int].0@, items@[i as int].1@));
        let first = trimmed(items[i].0.as_str());
        let second = trimmed(items[i].1.as_str());
        let mut key = String::new();
        push_str(&mut key, first.as_str());
        push_str(&mut key, "::");
        push_str(&mut key, second.as_str());
        let kv = chars_of(key.as_str());
        let fv = chars_of(first.as_str());
        assert(kv@ == pair_key((first@, second@)));
        if fv.len() > 0 && !contains_text(&seen, &kv) {
            let ghost sb = views(seen@);
            seen.push(kv);
            result.push((first, second));
            assert(pair_texts(result@) =~= before.push((first@, second@)));
            assert(views(seen@) =~= sb.push(kv@));
            assert(before.push((first@, second@)).map_values(
                |p: (Seq<char>, Seq<char>)| pair_key(p),
            ) =~= before.map_values(|p: (Seq<char>, Seq<char>)| pair_key(p)).push(kv@));
            assert(views(seen@) =~= pair_texts(result@).map_values(
                |p: (Seq<char>, Seq<char>)| pair_key(p),
            ));
        }
        i = i + 1;
    }
    assert(iv.take(items@.len() as int) =~= iv);
    result
}

} // verus!

verus! {

pub open spec fn concept_pairs(v: Seq<ConceptItem>) -> Seq<(Seq<char>, Seq<char>)> {
    v.map_values(|c: ConceptItem| (c.term@, c.note@))
}

pub open spec fn formula_pairs(v: Seq<FormulaItem>) -> Seq<(Seq<char>, Seq<char>)> {
    v.map_values(|c: FormulaItem| (c.expression@, c.description@))
}

pub open spec fn example_pairs(v: Seq<ExampleItem>) -> Seq<(Seq<char>, Seq<char>)> {
    v.map_values(|c: ExampleItem| (c.title@, c.summary@))
}

fn concepts_to_pairs(items: &Vec<ConceptItem>) -> (r: Vec<(String, String)>)
    ensures
        pair_texts(r@) == concept_pairs(items@),
{
    let mut r: Vec<(String, String)> = Vec::new();
    let mut i: usize = 0;
    while i < items.len()
        invariant
            i <= items@.len(),
            pair_texts(r@) == concept_pairs(items@).take(i as int),
        decreases items@.len() - i,
    {
        let ghost before = pair_texts(r@);
        let a = items[i].term.clone();
        let b = items[i].note.clone();
        let ghost pair = (a@, b@);
        r.push((a, b));
        assert(pair_texts(r@) =~= before.push(pair));
        assert(concept_pairs(items@).take(i + 1) =~= concept_pairs(items@).take(i as int).push(pair));
        i = i + 1;
    }
    assert(concept_pairs(items@).take(items@.len() as int) =~= concept_pairs(items@));
    r
}

fn pairs_to_concepts(items: Vec<(String, String)>) -> (r: Vec<ConceptItem>)
    ensures
        concept_pairs(r@) == pair_texts(items@),
{
    let mut r: Vec<ConceptItem> = Vec::new();
    let mut i: usize = 0;
    while i < items.len()
        invariant
            i <= items@.len(),
            concept_pairs(r@) == pair_texts(items@).take(i as int),
        decreases items@.len() - i,
    {
        let ghost before = concept_pairs(r@);
        let a = items[i].0.clone();
        let b = items[i].1.clone();
        let ghost pair = (a@, b@);
        r.push(ConceptItem { term: a, note: b });
        assert(concept_pairs(r@) =~= before.push(pair));
        assert(pair_texts(items@).take(i + 1) =~= pair_texts(items@).take(i as int).push(pair));
        i = i + 1;
    }
    assert(pair_texts(items@).take(items@.len() as int) =~= pair_texts(items@));
    r
}

fn formulas_to_pairs(items: &Vec<FormulaItem>) -> (r: Vec<(String, String)>)
    ensures
        pair_texts(r@) == formula_pairs(items@),
{
    let mut r: Vec<(String, String)> = Vec::new();
    let mut i: usize = 0;
    while i < items.len()
        invariant
            i <= items@.len(),
            pair_texts(r@) == formula_pairs(items@).take(i as int),
        decreases items@.len() - i,
    {
        let ghost before = pair_texts(r@);
        let a = items[i].expression.clone();
        let b = items[i].description.clone();
        let ghost pair = (a@, b@);
        r.push((a, b));
        assert(pair_texts(r@) =~= before.push(pair));
        assert(formula_pairs(items@).take(i + 1) =~= formula_pairs(items@).take(i as int).push(pair));
        i = i + 1;
    }
    assert(formula_pairs(items@).take(items@.len() as int) =~= formula_pairs(items@));
    r
}

fn pairs_to_formulas(items: Vec<(String, String)>) -> (r: Vec<FormulaItem>)
    ensures
        formula_pairs(r@) == pair_texts(items@),
{
    let mut r: Vec<FormulaItem> = Vec::new();
    let mut i: usize = 0;
    while i < items.len()
        invariant
            i <= items@.len(),
            formula_pairs(r@) == pair_texts(items@).take(i as int),
        decreases items@.len() - i,
    {
        let ghost before = formula_pairs(r@);
        let a = items[i].0.clone();
        let b = items[i].1.clone();
        let ghost pair = (a@, b@);
        r.push(FormulaItem { expression: a, description: b });
        assert(formula_pairs(r@) =~= before.push(pair));
        assert(pair_texts(items@).take(i + 1) =~= pair_texts(items@).take(i as int).push(pair));
        i = i + 1;
    }
    assert(pair_texts(items@).take(items@.len() as int) =~= pair_texts(items@));
    r
}

fn examples_to_pairs(items: &Vec<ExampleItem>) -> (r: Vec<(String, String)>)
    ensures
        pair_texts(r@) == example_pairs(items@),
{
    let mut r: Vec<(String, String)> = Vec::new();
    let mut i: usize = 0;
    while i < items.len()
        invariant
            i <= items@.len(),
            pair_texts(r@) == example_pairs(items@).take(i as int),
        decreases items@.len() - i,
    {
        let ghost before = pair_texts(r@);
        let a = items[i].title.clone();
        let b = items[i].summary.clone();
        let ghost pair = (a@, b@);
        r.push((a, b));
        assert(pair_texts(r@) =~= before.push(pair));
        assert(example_pairs(items@).take(i + 1) =~= example_pairs(items@).take(i as int).push(pair));
        i = i + 1;
    }
    assert(example_pairs(items@).take(items@.len() as int) =~= example_pairs(items@));
    r
}

fn pairs_to_examples(items: Vec<(String, String)>) -> (r: Vec<ExampleItem>)
    ensures
        example_pairs(r@) == pair_texts(items@),
{
    let mut r: Vec<ExampleItem> = Vec::new();
    let mut i: usize = 0;
    while i < items.len()
        invariant
            i <= items@.len(),
            example_pairs(r@) == pair_texts(items@).take(i as int),
        decreases items@.len() - i,
    {
        let ghost before = example_pairs(r@);
        let a = items[i].0.clone();
        let b = items[i].1.clone();
        let ghost pair = (a@, b@);
        r.push(ExampleItem { title: a, summary: b });
        assert(example_pairs(r@) =~= before.push(pair));
        assert(pair_texts(items@).take(i + 1) =~= pair_texts(items@).take(i as int).push(pair));
        i = i + 1;
    }
    assert(pair_texts(items@).take(items@.len() as int) =~= pair_texts(items@));
    r
}

/// Concepts trimmed, without blank terms, each `term::note` kept once.
pub fn unique_concepts(items: Vec<ConceptItem>) -> (r: Vec<ConceptItem>)
    ensures
        concept_pairs(r@) == unique_pairs(concept_pairs(items@)),
{
    pairs_to_concepts(unique_pair_strings(concepts_to_pairs(&items)))
}

/// Formulas trimmed, without blank expressions, each `expression::description` kept once.
pub fn unique_formulas(items: Vec<FormulaItem>) -> (r: Vec<FormulaItem>)
    ensures
        formula_pairs(r@) == unique_pairs(formula_pairs(items@)),
{
    pairs_to_formulas(unique_pair_strings(formulas_to_pairs(&items)))
}

/// Examples trimmed, without blank titles, each `title::summary` kept once.
pub fn unique_examples(items: Vec<ExampleItem>) -> (r: Vec<ExampleItem>)
    ensures
        example_pairs(r@) == unique_pairs(example_pairs(items@)),
{
    pairs_to_examples(unique_pair_strings(examples_to_pairs(&items)))
}

} // verus!

verus! {

/// The texts `f` picks from each analysis, one analysis after another.
pub open spec fn flat_texts(
    analyses: Seq<SegmentAnalysis>,
    f: spec_fn(SegmentAnalysis) -> Seq<Seq<char>>,
) -> Seq<Seq<char>>
    decreases analyses.len(),
{
    if analyses.len() == 0 {
        Seq::empty()
    } else {
        flat_texts(analyses.drop_last(), f) + f(analyses.last())
    }
}

/// The pairs `f` picks from each analysis, one analysis after another.
pub open spec fn flat_pairs(
    analyses: Seq<SegmentAnalysis>,
    f: spec_fn(SegmentAnalysis) -> Seq<(Seq<char>, Seq<char>)>,
) -> Seq<(Seq<char>, Seq<char>)>
    decreases analyses.len(),
{
    if analyses.len() == 0 {
        Seq::empty()
    } else {
        flat_pairs(analyses.drop_last(), f) + f(analyses.last())
    }
}

/// `理解 <topic>`: the objective an analysis contributes.
pub open spec fn objective_of(a: SegmentAnalysis) -> Seq<Seq<char>> {
    seq!["理解 "@ + trim(a.topic@)]
}

/// `<time range>: <summary>`: the step of the knowledge line an analysis contributes.
pub open spec fn mainline_of(a: SegmentAnalysis) -> Seq<Seq<char>> {
    seq![a.time_range@ + ": "@ + trim(a.summary@)]
}

/// The questions of an analysis, then each of its confusions as `待核对：<confusion>`.
pub open spec fn questions_of(a: SegmentAnalysis) -> Seq<Seq<char>> {
    texts(a.questions@) + texts(a.confusions@).map_values(|c: Seq<char>| "待核对："@ + c)
}

pub open spec fn emphasis_of(a: SegmentAnalysis) -> Seq<Seq<char>> {
    texts(a.teacher_emphasis@)
}

pub open spec fn tags_of(a: SegmentAnalysis) -> Seq<Seq<char>> {
    texts(a.tags@)
}

pub open spec fn low_confidence_of(a: SegmentAnalysis) -> Seq<Seq<char>> {
    texts(a.low_confidence@)
}

pub open spec fn concepts_of(a: SegmentAnalysis) -> Seq<(Seq<char>, Seq<char>)> {
    concept_pairs(a.key_concepts@)
}

pub open spec fn formulas_of(a: SegmentAnalysis) -> Seq<(Seq<char>, Seq<char>)> {
    formula_pairs(a.formulas@)
}

pub open spec fn examples_of(a: SegmentAnalysis) -> Seq<(Seq<char>, Seq<char>)> {
    example_pairs(a.examples@)
}

/// At most the first `n` items.
pub open spec fn first_n<T>(s: Seq<T>, n: int) -> Seq<T> {
    if s.len() <= n {
        s
    } else {
        s.take(n)
    }
}

/// The merged concepts of all analyses.
pub open spec fn merged_concepts(analyses: Seq<SegmentAnalysis>) -> Seq<(Seq<char>, Seq<char>)> {
    unique_pairs(flat_pairs(analyses, |a: SegmentAnalysis| concepts_of(a)))
}

/// The merged knowledge line of all analyses.
pub open spec fn merged_mainline(analyses: Seq<SegmentAnalysis>) -> Seq<Seq<char>> {
    unique_texts(flat_texts(analyses, |a: SegmentAnalysis| mainline_of(a)))
}

/// The document made of the analyses of a video at the time `now`.
pub open spec fn aggregation_ok(
    doc: CourseDocument,
    video: SourceVideo,
    analyses: Seq<SegmentAnalysis>,
    now: Timestamp,
) -> bool {
    let concepts = merged_concepts(analyses);
    let mainline = merged_mainline(analyses);
    &&& doc.relative_path@ == crate::paths::with_extension_of(video.relative_path@, "md"@)
    &&& doc.document_path@ == video.output_markdown_path@
    &&& doc.title@ == (match crate::paths::file_name_of(video.stem_path@) {
        Some(n) => n,
        None => "课程文档"@,
    })
    &&& doc.document_markdown@ == Seq::<char>::empty()
    &&& doc.directory_summary@ == (if mainline.len() > 0 {
        mainline[0]
    } else {
        "暂无摘要"@
    })
    &&& texts(doc.keywords@) == unique_texts(
        first_n(
            flat_texts(analyses, |a: SegmentAnalysis| tags_of(a)) + concepts.map_values(
                |p: (Seq<char>, Seq<char>)| p.0,
            ),
            12,
        ),
    )
    &&& texts(doc.review_flags@) == unique_texts(
        flat_texts(analyses, |a: SegmentAnalysis| low_confidence_of(a)),
    )
    &&& doc.generated_at == now
    &&& texts(doc.objectives@) == unique_texts(
        flat_texts(analyses, |a: SegmentAnalysis| objective_of(a)),
    )
    &&& texts(doc.knowledge_mainline@) == mainline
    &&& concept_pairs(doc.core_concepts@) == concepts
    &&& formula_pairs(doc.formulas@) == unique_pairs(
        flat_pairs(analyses, |a: SegmentAnalysis| formulas_of(a)),
    )
    &&& example_pairs(doc.examples@) == unique_pairs(
        flat_pairs(analyses, |a: SegmentAnalysis| examples_of(a)),
    )
    &&& texts(doc.teacher_emphasis@) == unique_texts(
        flat_texts(analyses, |a: SegmentAnalysis| emphasis_of(a)),
    )
    &&& concept_pairs(doc.glossary@) == first_n(concepts, 8)
    &&& texts(doc.questions_and_quiz@) == unique_texts(
        flat_texts(analyses, |a: SegmentAnalysis| questions_of(a)),
    )
}

/// Appends copies of the strings.
fn append_strings(out: &mut Vec<String>, v: &Vec<String>)
    ensures
        texts(final(out)@) == texts(old(out)@) + texts(v@),
{
    let mut i: usize = 0;
    while i < v.len()
        invariant
            i <= v@.len(),
            texts(out@) == texts(old(out)@) + texts(v@).take(i as int),
        decreases v@.len() - i,
    {
        let ghost before = texts(out@);
        out.push(v[i].clone());
        assert(texts(out@) =~= before.push(v@[i as int]@));
        assert(texts(v@).take(i + 1) =~= texts(v@).take(i as int).push(v@[i as int]@));
        i = i + 1;
    }
    assert(texts(v@).take(v@.len() as int) =~= texts(v@));
}

/// Appends copies of the pairs.
fn append_pairs(out: &mut Vec<(String, String)>, v: Vec<(String, String)>)
    ensures
        pair_texts(final(out)@) == pair_texts(old(out)@) + pair_texts(v@),
{
    let mut i: usize = 0;
    while i < v.len()
        invariant
            i <= v@.len(),
            pair_texts(out@) == pair_texts(old(out)@) + pair_texts(v@).take(i as int),
        decreases v@.len() - i,
    {
        let ghost before = pair_texts(out@);
        let a = v[i].0.clone();
        let b = v[i].1.clone();
        let ghost pair = (a@, b@);
        out.push((a, b));
        assert(pair_texts(out@) =~= before.push(pair));
        assert(pair_texts(v@).take(i + 1) =~= pair_texts(v@).take(i as int).push(pair));
        i = i + 1;
    }
    assert(pair_texts(v@).take(v@.len() as int) =~= pair_texts(v@));
}

proof fn lemma_flat_texts_step(
    analyses: Seq<SegmentAnalysis>,
    i: int,
    f: spec_fn(SegmentAnalysis) -> Seq<Seq<char>>,
)
    requires
        0 <= i < analyses.len(),
    ensures
        flat_texts(analyses.take(i + 1), f) == flat_texts(analyses.take(i), f) + f(analyses[i]),
{
    assert(analyses.take(i + 1).drop_last() =~= analyses.take(i));
    assert(analyses.take(i + 1).last() == analyses[i]);
}

proof fn lemma_flat_pairs_step(
    analyses: Seq<SegmentAnalysis>,
    i: int,
    f: spec_fn(SegmentAnalysis) -> Seq<(Seq<char>, Seq<char>)>,
)
    requires
        0 <= i < analyses.len(),
    ensures
        flat_pairs(analyses.take(i + 1), f) == flat_pairs(analyses.take(i), f) + f(analyses[i]),
{
    assert(analyses.take(i + 1).drop_last() =~= analyses.take(i));
    assert(analyses.take(i + 1).last() == analyses[i]);
}

} // verus!

verus! {

fn collect_objectives(analyses: &[SegmentAnalysis]) -> (out: Vec<String>)
    ensures
        texts(out@) == flat_texts(analyses@, |a: SegmentAnalysis| objective_of(a)),
{
    let ghost f = |a: SegmentAnalysis| objective_of(a);
    let mut out: Vec<String> = Vec::new();
    let mut i: usize = 0;
    while i < analyses.len()
        invariant
            i <= analyses@.len(),
            f == (|a: SegmentAnalysis| objective_of(a)),
            texts(out@) == flat_texts(analyses@.take(i as int), f),
        decreases analyses@.len() - i,
    {
        proof {
            lemma_flat_texts_step(analyses@, i as int, f);
        }
        let ghost before = texts(out@);
        let mut s = String::new();
        push_str(&mut s, "理解 ");
        let t = trimmed(analyses[i].topic.as_str());
        push_str(&mut s, t.as_str());
        out.push(s);
        assert(texts(out@) =~= before + objective_of(analyses@[i as int]));
        i = i + 1;
    }
    assert(analyses@.take(analyses@.len() as int) =~= analyses@);
    out
}

fn collect_mainline(analyses: &[SegmentAnalysis]) -> (out: Vec<String>)
    ensures
        texts(out@) == flat_texts(analyses@, |a: SegmentAnalysis| mainline_of(a)),
{
    let ghost f = |a: SegmentAnalysis| mainline_of(a);
    let mut out: Vec<String> = Vec::new();
    let mut i: usize = 0;
    while i < analyses.len()
        invariant
            i <= analyses@.len(),
            f == (|a: SegmentAnalysis| mainline_of(a)),
            texts(out@) == flat_texts(analyses@.take(i as int), f),
        decreases analyses@.len() - i,
    {
        proof {
            lemma_flat_texts_step(analyses@, i as int, f);
        }
        let ghost before = texts(out@);
        let mut s = String::new();
        push_str(&mut s, analyses[i].time_range.as_str());
        push_str(&mut s, ": ");
        let t = trimmed(analyses[i].summary.as_str());
        push_str(&mut s, t.as_str());
        out.push(s);
        assert(texts(out@) =~= before + mainline_of(analyses@[i as int]));
        i = i + 1;
    }
    assert(analyses@.take(analyses@.len() as int) =~= analyses@);
    out
}

fn collect_questions(analyses: &[SegmentAnalysis]) -> (out: Vec<String>)
    ensures
        texts(out@) == flat_texts(analyses@, |a: SegmentAnalysis| questions_of(a)),
{
    let ghost f = |a: SegmentAnalysis| questions_of(a);
    let mut out: Vec<String> = Vec::new();
    let mut i: usize = 0;
    while i < analyses.len()
        invariant
            i <= analyses@.len(),
            f == (|a: SegmentAnalysis| questions_of(a)),
            texts(out@) == flat_texts(analyses@.take(i as int), f),
        decreases analyses@.len() - i,
    {
        proof {
            lemma_flat_texts_step(analyses@, i as int, f);
        }
        let ghost before = texts(out@);
        append_strings(&mut out, &analyses[i].questions);
        let ghost mid = texts(out@);
        let confusions = &analyses[i].confusions;
        let ghost marked = texts(confusions@).map_values(|c: Seq<char>| "待核对："@ + c);
        let mut j: usize = 0;
        while j < confusions.len()
            invariant
                j <= confusions@.len(),
                marked == texts(confusions@).map_values(|c: Seq<char>| "待核对："@ + c),
                texts(out@) == mid + marked.take(j as int),
            decreases confusions@.len() - j,
        {
            let ghost b2 = texts(out@);
            let mut s = String::new();
            push_str(&mut s, "待核对：");
            push_str(&mut s, confusions[j].as_str());
            out.push(s);
            assert(texts(out@) =~= b2.push(marked[j as int]));
            assert(marked.take(j + 1) =~= marked.take(j as int).push(marked[j as int]));
            j = j + 1;
        }
        assert(marked.take(confusions@.len() as int) =~= marked);
        assert(texts(out@) =~= before + questions_of(analyses@[i as int]));
        i = i + 1;
    }
    assert(analyses@.take(analyses@.len() as int) =~= analyses@);
    out
}

/// Which list of strings of an analysis to collect.
#[derive(Clone, Copy, PartialEq, Eq, Structural)]
enum TextField {
    Emphasis,
    Tags,
    LowConfidence,
}

spec fn field_texts(field: TextField, a: SegmentAnalysis) -> Seq<Seq<char>> {
    match field {
        TextField::Emphasis => emphasis_of(a),
        TextField::Tags => tags_of(a),
        TextField::LowConfidence => low_confidence_of(a),
    }
}

fn collect_field(analyses: &[SegmentAnalysis], field: TextField) -> (out: Vec<String>)
    ensures
        texts(out@) == flat_texts(analyses@, |a: SegmentAnalysis| field_texts(field, a)),
{
    let ghost f = |a: SegmentAnalysis| field_texts(field, a);
    let mut out: Vec<String> = Vec::new();
    let mut i: usize = 0;
    while i < analyses.len()
        invariant
            i <= analyses@.len(),
            f == (|a: SegmentAnalysis| field_texts(field, a)),
            texts(out@) == flat_texts(analyses@.take(i as int), f),
        decreases analyses@.len() - i,
    {
        proof {
            lemma_flat_texts_step(analyses@, i as int, f);
        }
        let a = &analyses[i];
        match field {
            TextField::Emphasis => append_strings(&mut out, &a.teacher_emphasis),
            TextField::Tags => append_strings(&mut out, &a.tags),
            TextField::LowConfidence => append_strings(&mut out, &a.low_confidence),
        }
        i = i + 1;
    }
    assert(analyses@.take(analyses@.len() as int) =~= analyses@);
    out
}

/// Which list of pairs of an analysis to collect.
#[derive(Clone, Copy, PartialEq, Eq, Structural)]
enum PairField {
    Concepts,
    Formulas,
    Examples,
}

spec fn field_pairs(field: PairField, a: SegmentAnalysis) -> Seq<(Seq<char>, Seq<char>)> {
    match field {
        PairField::Concepts => concepts_of(a),
        PairField::Formulas => formulas_of(a),
        PairField::Examples => examples_of(a),
    }
}

fn collect_pairs(analyses: &[SegmentAnalysis], field: PairField) -> (out: Vec<(String, String)>)
    ensures
        pair_texts(out@) == flat_pairs(analyses@, |a: SegmentAnalysis| field_pairs(field, a)),
{
    let ghost f = |a: SegmentAnalysis| field_pairs(field, a);
    let mut out: Vec<(String, String)> = Vec::new();
    let mut i: usize = 0;
    while i < analyses.len()
        invariant
            i <= analyses@.len(),
            f == (|a: SegmentAnalysis| field_pairs(field, a)),
            pair_texts(out@) == flat_pairs(analyses@.take(i as int), f),
        decreases analyses@.len() - i,
    {
        proof {
            lemma_flat_pairs_step(analyses@, i as int, f);
        }
        let a = &analyses[i];
        let items = match field {
            PairField::Concepts => concepts_to_pairs(&a.key_concepts),
            PairField::Formulas => formulas_to_pairs(&a.formulas),
            PairField::Examples => examples_to_pairs(&a.examples),
        };
        append_pairs(&mut out, items);
        i = i + 1;
    }
    assert(analyses@.take(analyses@.len() as int) =~= analyses@);
    out
}

} // verus!

verus! {

fn first_concepts(items: &Vec<ConceptItem>, n: usize) -> (r: Vec<ConceptItem>)
    ensures
        concept_pairs(r@) == first_n(concept_pairs(items@), n as int),
{
    let mut r: Vec<ConceptItem> = Vec::new();
    let mut i: usize = 0;
    while i < items.len() && i < n
        invariant
            i <= items@.len(),
            i <= n,
            concept_pairs(r@) == concept_pairs(items@).take(i as int),
        decreases items@.len() - i,
    {
        let ghost before = concept_pairs(r@);
        let a = items[i].term.clone();
        let b = items[i].note.clone();
        let ghost pair = (a@, b@);
        r.push(ConceptItem { term: a, note: b });
        assert(concept_pairs(r@) =~= before.push(pair));
        assert(concept_pairs(items@).take(i + 1) =~= concept_pairs(items@).take(i as int).push(
            pair,
        ));
        i = i + 1;
    }
    assert(concept_pairs(items@).take(items@.len() as int) =~= concept_pairs(items@));
    r
}

/// The course document of a video made from the analyses of its segments, dated `now`.
pub fn aggregate_document(
    video: &SourceVideo,
    analyses: &[SegmentAnalysis],
    now: Timestamp,
) -> (doc: CourseDocument)
    ensures
        aggregation_ok(doc, *video, analyses@, now),
{
    let ghost av = analyses@;
    let title = match crate::paths::file_name(video.stem_path.as_str()) {
        Some(n) => n,
        None => {
            let mut s = String::new();
            push_str(&mut s, "课程文档");
            s
        },
    };
    let objectives = unique_strings(collect_objectives(analyses));
    let knowledge_mainline = unique_strings(collect_mainline(analyses));
    let core_pairs = unique_pair_strings(collect_pairs(analyses, PairField::Concepts));
    proof {
        assert((|a: SegmentAnalysis| field_pairs(PairField::Concepts, a)) =~= (|
            a: SegmentAnalysis,
        |
            concepts_of(a)));
    }
    let core_concepts = pairs_to_concepts(core_pairs);
    let formula_list = unique_pair_strings(collect_pairs(analyses, PairField::Formulas));
    proof {
        assert((|a: SegmentAnalysis| field_pairs(PairField::Formulas, a)) =~= (|
            a: SegmentAnalysis,
        |
            formulas_of(a)));
    }
    let formulas = pairs_to_formulas(formula_list);
    let example_list = unique_pair_strings(collect_pairs(analyses, PairField::Examples));
    proof {
        assert((|a: SegmentAnalysis| field_pairs(PairField::Examples, a)) =~= (|
            a: SegmentAnalysis,
        |
            examples_of(a)));
    }
    let examples = pairs_to_examples(example_list);
    let teacher_emphasis = unique_strings(collect_field(analyses, TextField::Emphasis));
    proof {
        assert((|a: SegmentAnalysis| field_texts(TextField::Emphasis, a)) =~= (|
            a: SegmentAnalysis,
        |
            emphasis_of(a)));
    }
    let glossary = first_concepts(&core_concepts, 8);
    let questions_and_quiz = unique_strings(collect_questions(analyses));
    let mut keyword_pool = collect_field(analyses, TextField::Tags);
    proof {
        assert((|a: SegmentAnalysis| field_texts(TextField::Tags, a)) =~= (|a: SegmentAnalysis|
            tags_of(a)));
    }
    let ghost tags = texts(keyword_pool@);
    let ghost terms = concept_pairs(core_concepts@).map_values(
        |p: (Seq<char>, Seq<char>)| p.0,
    );
    let mut j: usize = 0;
    while j < core_concepts.len()
        invariant
            j <= core_concepts@.len(),
            terms == concept_pairs(core_concepts@).map_values(|p: (Seq<char>, Seq<char>)| p.0),
            texts(keyword_pool@) == tags + terms.take(j as int),
        decreases core_concepts@.len() - j,
    {
        let ghost before = texts(keyword_pool@);
        keyword_pool.push(core_concepts[j].term.clone());
        assert(texts(keyword_pool@) =~= before.push(terms[j as int]));
        assert(terms.take(j + 1) =~= terms.take(j as int).push(terms[j as int]));
        j = j + 1;
    }
    assert(terms.take(core_concepts@.len() as int) =~= terms);
    let ghost pool = texts(keyword_pool@);
    if keyword_pool.len() > 12 {
        keyword_pool.truncate(12);
    }
    assert(texts(keyword_pool@) =~= first_n(pool, 12));
    let keywords = unique_strings(keyword_pool);
    let review_flags = unique_strings(collect_field(analyses, TextField::LowConfidence));
    proof {
        assert((|a: SegmentAnalysis| field_texts(TextField::LowConfidence, a)) =~= (|
            a: SegmentAnalysis,
        |
            low_confidence_of(a)));
    }
    let directory_summary = if knowledge_mainline.len() > 0 {
        knowledge_mainline[0].clone()
    } else {
        let mut s = String::new();
        push_str(&mut s, "暂无摘要");
        s
    };
    let mut document_markdown = String::new();
    CourseDocument {
        relative_path: crate::paths::with_extension(video.relative_path.as_str(), "md"),
        document_path: video.output_markdown_path.clone(),
        title,
        document_markdown,
        directory_summary,
        keywords,
        review_flags,
        generated_at: now,
        objectives,
        knowledge_mainline,
        core_concepts,
        formulas,
        examples,
        teacher_emphasis,
        glossary,
        questions_and_quiz,
    }
}

} // verus!

verus! {

/// Law: merging keeps the trimmed text of each non-blank item exactly once, at its first
/// occurrence, and nothing else: no text twice, no blank or untrimmed text, no text that is
/// not an item's, and never more texts than items.
pub proof fn merged_texts_are_unique(items: Seq<Seq<char>>)
    ensures
        unique_texts(items).len() <= items.len(),
        forall|i: int, j: int|
            0 <= i < j < unique_texts(items).len() ==> unique_texts(items)[i] != unique_texts(
                items,
            )[j],
        forall|i: int|
            0 <= i < unique_texts(items).len() ==> trim(#[trigger] unique_texts(items)[i])
                == unique_texts(items)[i] && unique_texts(items)[i].len() > 0,
        forall|i: int|
            #![trigger unique_texts(items)[i]]
            0 <= i < unique_texts(items).len() ==> exists|j: int|
                0 <= j < items.len() && trim(#[trigger] items[j]) == unique_texts(items)[i],
        forall|j: int|
            0 <= j < items.len() && trim(items[j]).len() > 0 ==> unique_texts(items).contains(
                trim(#[trigger] items[j]),
            ),
    decreases items.len(),
{
    if items.len() > 0 {
        let prev_items = items.drop_last();
        merged_texts_are_unique(prev_items);
        lemma_trim_idempotent(items.last());
        let u = unique_texts(items);
        let p = unique_texts(prev_items);
        let t = trim(items.last());
        assert forall|i: int| #![trigger u[i]] 0 <= i < u.len() implies exists|j: int|
            0 <= j < items.len() && trim(#[trigger] items[j]) == u[i] by {
            if i < p.len() {
                let j = choose|j: int| 0 <= j < prev_items.len() && trim(#[trigger] prev_items[j]) == p[i];
                assert(items[j] == prev_items[j]);
            } else {
                assert(items[items.len() - 1] == items.last());
            }
        }
        assert forall|j: int| 0 <= j < items.len() && trim(items[j]).len() > 0 implies u.contains(
            trim(#[trigger] items[j]),
        ) by {
            if j < items.len() - 1 {
                assert(items[j] == prev_items[j]);
                assert(p.contains(trim(prev_items[j])));
                let k = choose|k: int| 0 <= k < p.len() && p[k] == trim(prev_items[j]);
                assert(u[k] == p[k]);
            } else {
                assert(items[j] == items.last());
                if !p.contains(t) {
                    assert(u[p.len() as int] == t);
                }
            }
        }
    }
}

/// Law: merging merged texts again changes nothing.
pub proof fn merging_twice_changes_nothing(items: Seq<Seq<char>>)
    ensures
        unique_texts(unique_texts(items)) == unique_texts(items),
{
    merged_texts_are_unique(items);
    lemma_unique_texts_fixed(unique_texts(items));
}

proof fn lemma_unique_texts_fixed(s: Seq<Seq<char>>)
    requires
        forall|i: int, j: int| 0 <= i < j < s.len() ==> s[i] != s[j],
        forall|i: int| 0 <= i < s.len() ==> trim(#[trigger] s[i]) == s[i] && s[i].len() > 0,
    ensures
        unique_texts(s) == s,
    decreases s.len(),
{
    if s.len() > 0 {
        let d = s.drop_last();
        assert forall|i: int| 0 <= i < d.len() implies trim(#[trigger] d[i]) == d[i] && d[i].len()
            > 0 by {
            assert(d[i] == s[i]);
        }
        lemma_unique_texts_fixed(d);
        assert(trim(s[s.len() - 1]) == s[s.len() - 1]);
        assert(!d.contains(s.last())) by {
            if d.contains(s.last()) {
                let k = choose|k: int| 0 <= k < d.len() && d[k] == s.last();
                assert(s[k] == s[s.len() - 1]);
            }
        }
        assert(d.push(s.last()) =~= s);
    }
}

/// Law: the glossary holds the first (at most eight) core concepts, and a document has at
/// most twelve keywords.
pub proof fn glossary_and_keywords_bounded(
    doc: CourseDocument,
    video: SourceVideo,
    analyses: Seq<SegmentAnalysis>,
    now: Timestamp,
)
    requires
        aggregation_ok(doc, video, analyses, now),
    ensures
        doc.glossary@.len() <= 8,
        doc.glossary@.len() <= doc.core_concepts@.len(),
        concept_pairs(doc.glossary@) == concept_pairs(doc.core_concepts@).take(
            doc.glossary@.len() as int,
        ),
        doc.keywords@.len() <= 12,
{
    let concepts = merged_concepts(analyses);
    let kw = first_n(
        flat_texts(analyses, |a: SegmentAnalysis| tags_of(a)) + concepts.map_values(
            |p: (Seq<char>, Seq<char>)| p.0,
        ),
        12,
    );
    merged_texts_are_unique(kw);
    assert(texts(doc.keywords@).len() == doc.keywords@.len());
    assert(concept_pairs(doc.glossary@).len() == doc.glossary@.len());
    assert(concept_pairs(doc.core_concepts@).len() == doc.core_concepts@.len());
    if concepts.len() <= 8 {
        assert(concepts.take(concepts.len() as int) =~= concepts);
    }
}

} // verus!

verus! {

/// `t` is item `k` of what `f` picks from analysis `i`, for some `i` and `k`.
pub open spec fn picked_from(
    analyses: Seq<SegmentAnalysis>,
    f: spec_fn(SegmentAnalysis) -> Seq<Seq<char>>,
    t: Seq<char>,
) -> bool {
    exists|i: int, k: int|
        0 <= i < analyses.len() && 0 <= k < f(analyses[i]).len() && #[trigger] f(analyses[i])[k]
            == t
}

/// `t` is the trimmed text of item `k` of what `f` picks from analysis `i`, for some `i`
/// and `k`.
pub open spec fn trimmed_from(
    analyses: Seq<SegmentAnalysis>,
    f: spec_fn(SegmentAnalysis) -> Seq<Seq<char>>,
    t: Seq<char>,
) -> bool {
    exists|i: int, k: int|
        0 <= i < analyses.len() && 0 <= k < f(analyses[i]).len() && trim(
            #[trigger] f(analyses[i])[k],
        ) == t
}

proof fn lemma_flat_texts_members(
    analyses: Seq<SegmentAnalysis>,
    f: spec_fn(SegmentAnalysis) -> Seq<Seq<char>>,
)
    ensures
        forall|i: int, k: int|
            #![trigger f(analyses[i])[k]]
            0 <= i < analyses.len() && 0 <= k < f(analyses[i]).len() ==> flat_texts(
                analyses,
                f,
            ).contains(f(analyses[i])[k]),
        forall|x: int|
            0 <= x < flat_texts(analyses, f).len() ==> picked_from(
                analyses,
                f,
                #[trigger] flat_texts(analyses, f)[x],
            ),
    decreases analyses.len(),
{
    if analyses.len() > 0 {
        let d = analyses.drop_last();
        lemma_flat_texts_members(d, f);
        let prev = flat_texts(d, f);
        let last = f(analyses.last());
        let all = flat_texts(analyses, f);
        assert(all == prev + last);
        assert forall|i: int, k: int|
            #![trigger f(analyses[i])[k]]
            0 <= i < analyses.len() && 0 <= k < f(analyses[i]).len() implies all.contains(
                f(analyses[i])[k],
            ) by {
            if i < analyses.len() - 1 {
                assert(d[i] == analyses[i]);
                assert(prev.contains(f(d[i])[k]));
                let x = choose|x: int| 0 <= x < prev.len() && prev[x] == f(d[i])[k];
                assert(all[x] == prev[x]);
            } else {
                assert(analyses[i] == analyses.last());
                assert(all[prev.len() + k] == last[k]);
            }
        }
        assert forall|x: int| 0 <= x < all.len() implies picked_from(
            analyses,
            f,
            #[trigger] all[x],
        ) by {
            if x < prev.len() {
                assert(all[x] == prev[x]);
                assert(picked_from(d, f, prev[x]));
                let (i, k) = choose|i: int, k: int|
                    0 <= i < d.len() && 0 <= k < f(d[i]).len() && #[trigger] f(d[i])[k] == prev[x];
                assert(d[i] == analyses[i]);
                assert(f(analyses[i])[k] == all[x]);
            } else {
                let i = analyses.len() - 1;
                let k = x - prev.len();
                assert(analyses[i] == analyses.last());
                assert(f(analyses[i])[k] == all[x]);
            }
        }
    }
}

proof fn lemma_merged_field(
    analyses: Seq<SegmentAnalysis>,
    f: spec_fn(SegmentAnalysis) -> Seq<Seq<char>>,
)
    ensures
        forall|i: int, k: int|
            #![trigger f(analyses[i])[k]]
            0 <= i < analyses.len() && 0 <= k < f(analyses[i]).len() && trim(
                f(analyses[i])[k],
            ).len() > 0 ==> unique_texts(flat_texts(analyses, f)).contains(trim(f(analyses[i])[k])),
        forall|x: int|
            0 <= x < unique_texts(flat_texts(analyses, f)).len() ==> trimmed_from(
                analyses,
                f,
                #[trigger] unique_texts(flat_texts(analyses, f))[x],
            ),
{
    let items = flat_texts(analyses, f);
    let u = unique_texts(items);
    lemma_flat_texts_members(analyses, f);
    merged_texts_are_unique(items);
    assert forall|i: int, k: int|
        #![trigger f(analyses[i])[k]]
        0 <= i < analyses.len() && 0 <= k < f(analyses[i]).len() && trim(f(analyses[i])[k]).len()
            > 0 implies u.contains(trim(f(analyses[i])[k])) by {
        assert(items.contains(f(analyses[i])[k]));
        let j = choose|j: int| 0 <= j < items.len() && items[j] == f(analyses[i])[k];
        assert(u.contains(trim(items[j])));
    }
    assert forall|x: int| 0 <= x < u.len() implies trimmed_from(analyses, f, #[trigger] u[x]) by {
        let j = choose|j: int| 0 <= j < items.len() && trim(#[trigger] items[j]) == u[x];
        assert(picked_from(analyses, f, items[j]));
        let (i, k) = choose|i: int, k: int|
            0 <= i < analyses.len() && 0 <= k < f(analyses[i]).len() && #[trigger] f(analyses[i])[k]
                == items[j];
        assert(trim(f(analyses[i])[k]) == u[x]);
    }
}

/// The trimmed text of a point some analysis's teacher stressed.
pub open spec fn stressed_point(analyses: Seq<SegmentAnalysis>, t: Seq<char>) -> bool {
    exists|i: int, k: int|
        0 <= i < analyses.len() && 0 <= k < analyses[i].teacher_emphasis@.len() && trim(
            (#[trigger] analyses[i].teacher_emphasis@[k])@,
        ) == t
}

/// The trimmed text of a low-confidence note of some analysis.
pub open spec fn doubtful_note(analyses: Seq<SegmentAnalysis>, t: Seq<char>) -> bool {
    exists|i: int, k: int|
        0 <= i < analyses.len() && 0 <= k < analyses[i].low_confidence@.len() && trim(
            (#[trigger] analyses[i].low_confidence@[k])@,
        ) == t
}

/// Law: the points the teacher stressed in the document are exactly the non-blank points
/// of the analyses, trimmed: each such point of any analysis appears, and every point of
/// the document is the trimmed text of a point of some analysis.
pub proof fn emphasis_comes_from_every_analysis(
    doc: CourseDocument,
    video: SourceVideo,
    analyses: Seq<SegmentAnalysis>,
    now: Timestamp,
)
    requires
        aggregation_ok(doc, video, analyses, now),
    ensures
        forall|i: int, k: int|
            0 <= i < analyses.len() && 0 <= k < analyses[i].teacher_emphasis@.len() && trim(
                (#[trigger] analyses[i].teacher_emphasis@[k])@,
            ).len() > 0 ==> texts(doc.teacher_emphasis@).contains(
                trim(analyses[i].teacher_emphasis@[k]@),
            ),
        forall|j: int|
            0 <= j < doc.teacher_emphasis@.len() ==> stressed_point(
                analyses,
                (#[trigger] doc.teacher_emphasis@[j])@,
            ),
{
    let f = |a: SegmentAnalysis| emphasis_of(a);
    lemma_merged_field(analyses, f);
    let u = unique_texts(flat_texts(analyses, f));
    assert(texts(doc.teacher_emphasis@) == u);
    assert forall|i: int, k: int|
        0 <= i < analyses.len() && 0 <= k < analyses[i].teacher_emphasis@.len() && trim(
            (#[trigger] analyses[i].teacher_emphasis@[k])@,
        ).len() > 0 implies texts(doc.teacher_emphasis@).contains(
        trim(analyses[i].teacher_emphasis@[k]@),
    ) by {
        assert(f(analyses[i])[k] == analyses[i].teacher_emphasis@[k]@);
    }
    assert forall|j: int| 0 <= j < doc.teacher_emphasis@.len() implies stressed_point(
        analyses,
        (#[trigger] doc.teacher_emphasis@[j])@,
    ) by {
        assert(u[j] == doc.teacher_emphasis@[j]@);
        assert(trimmed_from(analyses, f, u[j]));
        let (i, k) = choose|i: int, k: int|
            0 <= i < analyses.len() && 0 <= k < f(analyses[i]).len() && trim(
                #[trigger] f(analyses[i])[k],
            ) == u[j];
        assert(f(analyses[i])[k] == analyses[i].teacher_emphasis@[k]@);
    }
}

/// Law: the review flags of the document are exactly the non-blank low-confidence notes of
/// the analyses, trimmed: each such note of any analysis appears, and every flag is the
/// trimmed text of a note of some analysis.
pub proof fn review_flags_come_from_every_analysis(
    doc: CourseDocument,
    video: SourceVideo,
    analyses: Seq<SegmentAnalysis>,
    now: Timestamp,
)
    requires
        aggregation_ok(doc, video, analyses, now),
    ensures
        forall|i: int, k: int|
            0 <= i < analyses.len() && 0 <= k < analyses[i].low_confidence@.len() && trim(
                (#[trigger] analyses[i].low_confidence@[k])@,
            ).len() > 0 ==> texts(doc.review_flags@).contains(
                trim(analyses[i].low_confidence@[k]@),
            ),
        forall|j: int|
            0 <= j < doc.review_flags@.len() ==> doubtful_note(
                analyses,
                (#[trigger] doc.review_flags@[j])@,
            ),
{
    let f = |a: SegmentAnalysis| low_confidence_of(a);
    lemma_merged_field(analyses, f);
    let u = unique_texts(flat_texts(analyses, f));
    assert(texts(doc.review_flags@) == u);
    assert forall|i: int, k: int|
        0 <= i < analyses.len() && 0 <= k < analyses[i].low_confidence@.len() && trim(
            (#[trigger] analyses[i].low_confidence@[k])@,
        ).len() > 0 implies texts(doc.review_flags@).contains(
        trim(analyses[i].low_confidence@[k]@),
    ) by {
        assert(f(analyses[i])[k] == analyses[i].low_confidence@[k]@);
    }
    assert forall|j: int| 0 <= j < doc.review_flags@.len() implies doubtful_note(
        analyses,
        (#[trigger] doc.review_flags@[j])@,
    ) by {
        assert(u[j] == doc.review_flags@[j]@);
        assert(trimmed_from(analyses, f, u[j]));
        let (i, k) = choose|i: int, k: int|
            0 <= i < analyses.len() && 0 <= k < f(analyses[i]).len() && trim(
                #[trigger] f(analyses[i])[k],
            ) == u[j];
        assert(f(analyses[i])[k] == analyses[i].low_confidence@[k]@);
    }
}

/// Law: every non-blank question of any analysis appears, trimmed, among the document's
/// questions, and so does every confusion of any analysis as `待核对：<confusion>`.
pub proof fn questions_and_confusions_are_kept(
    doc: CourseDocument,
    video: SourceVideo,
    analyses: Seq<SegmentAnalysis>,
    now: Timestamp,
)
    requires
        aggregation_ok(doc, video, analyses, now),
    ensures
        forall|i: int, k: int|
            0 <= i < analyses.len() && 0 <= k < analyses[i].questions@.len() && trim(
                (#[trigger] analyses[i].questions@[k])@,
            ).len() > 0 ==> texts(doc.questions_and_quiz@).contains(
                trim(analyses[i].questions@[k]@),
            ),
        forall|i: int, k: int|
            0 <= i < analyses.len() && 0 <= k < analyses[i].confusions@.len() && trim(
                "待核对："@ + (#[trigger] analyses[i].confusions@[k])@,
            ).len() > 0 ==> texts(doc.questions_and_quiz@).contains(
                trim("待核对："@ + analyses[i].confusions@[k]@),
            ),
{
    let f = |a: SegmentAnalysis| questions_of(a);
    lemma_merged_field(analyses, f);
    assert(texts(doc.questions_and_quiz@) == unique_texts(flat_texts(analyses, f)));
    assert forall|i: int, k: int|
        0 <= i < analyses.len() && 0 <= k < analyses[i].questions@.len() && trim(
            (#[trigger] analyses[i].questions@[k])@,
        ).len() > 0 implies texts(doc.questions_and_quiz@).contains(
        trim(analyses[i].questions@[k]@),
    ) by {
        assert(f(analyses[i])[k] == analyses[i].questions@[k]@);
    }
    assert forall|i: int, k: int|
        0 <= i < analyses.len() && 0 <= k < analyses[i].confusions@.len() && trim(
            "待核对："@ + (#[trigger] analyses[i].confusions@[k])@,
        ).len() > 0 implies texts(doc.questions_and_quiz@).contains(
        trim("待核对："@ + analyses[i].confusions@[k]@),
    ) by {
        let q = analyses[i].questions@.len() as int;
        assert(f(analyses[i])[q + k] == "待核对："@ + analyses[i].confusions@[k]@);
    }
}

/// Law: the document's objectives hold `理解 <topic>` for the topic of every analysis, and
/// its knowledge line holds `<time range>: <summary>` for every analysis (each trimmed).
pub proof fn every_analysis_gives_an_objective_and_a_step(
    doc: CourseDocument,
    video: SourceVideo,
    analyses: Seq<SegmentAnalysis>,
    now: Timestamp,
)
    requires
        aggregation_ok(doc, video, analyses, now),
    ensures
        forall|i: int|
            0 <= i < analyses.len() && trim("理解 "@ + trim((#[trigger] analyses[i]).topic@)).len()
                > 0 ==> texts(doc.objectives@).contains(
                trim("理解 "@ + trim(analyses[i].topic@)),
            ),
        forall|i: int|
            0 <= i < analyses.len() && trim(
                (#[trigger] analyses[i]).time_range@ + ": "@ + trim(analyses[i].summary@),
            ).len() > 0 ==> texts(doc.knowledge_mainline@).contains(
                trim(analyses[i].time_range@ + ": "@ + trim(analyses[i].summary@)),
            ),
{
    let f = |a: SegmentAnalysis| objective_of(a);
    let g = |a: SegmentAnalysis| mainline_of(a);
    lemma_merged_field(analyses, f);
    lemma_merged_field(analyses, g);
    assert forall|i: int|
        0 <= i < analyses.len() && trim("理解 "@ + trim((#[trigger] analyses[i]).topic@)).len()
            > 0 implies texts(doc.objectives@).contains(trim("理解 "@ + trim(analyses[i].topic@))) by {
        assert(f(analyses[i])[0] == "理解 "@ + trim(analyses[i].topic@));
    }
    assert forall|i: int|
        0 <= i < analyses.len() && trim(
            (#[trigger] analyses[i]).time_range@ + ": "@ + trim(analyses[i].summary@),
        ).len() > 0 implies texts(doc.knowledge_mainline@).contains(
        trim(analyses[i].time_range@ + ": "@ + trim(analyses[i].summary@)),
    ) by {
        assert(g(analyses[i])[0] == analyses[i].time_range@ + ": "@ + trim(analyses[i].summary@));
    }
}

/// A pair with both parts trimmed.
pub open spec fn trimmed_pair(p: (Seq<char>, Seq<char>)) -> (Seq<char>, Seq<char>) {
    (trim(p.0), trim(p.1))
}

/// Some pair of `u` has the key `key`.
pub open spec fn has_pair_key(u: Seq<(Seq<char>, Seq<char>)>, key: Seq<char>) -> bool {
    exists|x: int| 0 <= x < u.len() && #[trigger] pair_key(u[x]) == key
}

/// `p` is the trimmed form of an item of `items` whose first part is not blank.
pub open spec fn trimmed_item_of(items: Seq<(Seq<char>, Seq<char>)>, p: (Seq<char>, Seq<char>)) -> bool {
    exists|j: int|
        0 <= j < items.len() && trim(items[j].0).len() > 0 && #[trigger] trimmed_pair(items[j]) == p
}

proof fn lemma_unique_pairs_props(items: Seq<(Seq<char>, Seq<char>)>)
    ensures
        forall|j: int|
            0 <= j < items.len() && trim(items[j].0).len() > 0 ==> has_pair_key(
                unique_pairs(items),
                pair_key(#[trigger] trimmed_pair(items[j])),
            ),
        forall|x: int|
            0 <= x < unique_pairs(items).len() ==> trimmed_item_of(
                items,
                #[trigger] unique_pairs(items)[x],
            ),
    decreases items.len(),
{
    if items.len() > 0 {
        let d = items.drop_last();
        lemma_unique_pairs_props(d);
        let prev = unique_pairs(d);
        let u = unique_pairs(items);
        let t = trimmed_pair(items.last());
        let keys = prev.map_values(|p: (Seq<char>, Seq<char>)| pair_key(p));
        assert(t == (trim(items.last().0), trim(items.last().1)));
        assert forall|x: int| 0 <= x < prev.len() implies u[x] == prev[x] by {
        }
        assert forall|j: int|
            0 <= j < items.len() && trim(items[j].0).len() > 0 implies has_pair_key(
            u,
            pair_key(#[trigger] trimmed_pair(items[j])),
        ) by {
            if j < items.len() - 1 {
                assert(d[j] == items[j]);
                assert(has_pair_key(prev, pair_key(trimmed_pair(d[j]))));
                let x = choose|x: int| 0 <= x < prev.len() && #[trigger] pair_key(prev[x]) == pair_key(trimmed_pair(d[j]));
                assert(u[x] == prev[x]);
            } else {
                assert(items[j] == items.last());
                if keys.contains(pair_key(t)) {
                    let x = choose|x: int| 0 <= x < keys.len() && keys[x] == pair_key(t);
                    assert(keys[x] == pair_key(prev[x]));
                    assert(u[x] == prev[x]);
                } else {
                    assert(u[prev.len() as int] == t);
                }
            }
        }
        assert forall|x: int| 0 <= x < u.len() implies trimmed_item_of(items, #[trigger] u[x]) by {
            if x < prev.len() {
                assert(u[x] == prev[x]);
                assert(trimmed_item_of(d, prev[x]));
                let j = choose|j: int|
                    0 <= j < d.len() && trim(d[j].0).len() > 0 && #[trigger] trimmed_pair(d[j]) == prev[x];
                assert(d[j] == items[j]);
                assert(trimmed_pair(items[j]) == u[x]);
            } else {
                let j = items.len() - 1;
                assert(items[j] == items.last());
                assert(u[x] == t);
                assert(trimmed_pair(items[j]) == u[x]);
            }
        }
    }
}

proof fn lemma_flat_pairs_members(
    analyses: Seq<SegmentAnalysis>,
    f: spec_fn(SegmentAnalysis) -> Seq<(Seq<char>, Seq<char>)>,
)
    ensures
        forall|i: int, k: int|
            #![trigger f(analyses[i])[k]]
            0 <= i < analyses.len() && 0 <= k < f(analyses[i]).len() ==> flat_pairs(
                analyses,
                f,
            ).contains(f(analyses[i])[k]),
        forall|x: int|
            0 <= x < flat_pairs(analyses, f).len() ==> pair_picked_from(
                analyses,
                f,
                #[trigger] flat_pairs(analyses, f)[x],
            ),
    decreases analyses.len(),
{
    if analyses.len() > 0 {
        let d = analyses.drop_last();
        lemma_flat_pairs_members(d, f);
        let prev = flat_pairs(d, f);
        let last = f(analyses.last());
        let all = flat_pairs(analyses, f);
        assert(all == prev + last);
        assert forall|i: int, k: int|
            #![trigger f(analyses[i])[k]]
            0 <= i < analyses.len() && 0 <= k < f(analyses[i]).len() implies all.contains(
                f(analyses[i])[k],
            ) by {
            if i < analyses.len() - 1 {
                assert(d[i] == analyses[i]);
                assert(prev.contains(f(d[i])[k]));
                let x = choose|x: int| 0 <= x < prev.len() && prev[x] == f(d[i])[k];
                assert(all[x] == prev[x]);
            } else {
                assert(analyses[i] == analyses.last());
                assert(all[prev.len() + k] == last[k]);
            }
        }
        assert forall|x: int| 0 <= x < all.len() implies pair_picked_from(
            analyses,
            f,
            #[trigger] all[x],
        ) by {
            if x < prev.len() {
                assert(all[x] == prev[x]);
                assert(pair_picked_from(d, f, prev[x]));
                let (i, k) = choose|i: int, k: int|
                    0 <= i < d.len() && 0 <= k < f(d[i]).len() && #[trigger] f(d[i])[k] == prev[x];
                assert(d[i] == analyses[i]);
                assert(f(analyses[i])[k] == all[x]);
            } else {
                let i = analyses.len() - 1;
                let k = x - prev.len();
                assert(analyses[i] == analyses.last());
                assert(f(analyses[i])[k] == all[x]);
            }
        }
    }
}

/// `p` is item `k` of what `f` picks from analysis `i`, for some `i` and `k`.
pub open spec fn pair_picked_from(
    analyses: Seq<SegmentAnalysis>,
    f: spec_fn(SegmentAnalysis) -> Seq<(Seq<char>, Seq<char>)>,
    p: (Seq<char>, Seq<char>),
) -> bool {
    exists|i: int, k: int|
        0 <= i < analyses.len() && 0 <= k < f(analyses[i]).len() && #[trigger] f(analyses[i])[k]
            == p
}

/// Some concept of `v` is written `<term>::<note>` as `key`.
pub open spec fn has_concept_text(v: Seq<ConceptItem>, key: Seq<char>) -> bool {
    exists|x: int| 0 <= x < v.len() && (#[trigger] v[x]).term@ + "::"@ + v[x].note@ == key
}

/// `c` has the trimmed term and note of a key concept of some analysis, whose term is not
/// blank.
pub open spec fn concept_of_some_analysis(analyses: Seq<SegmentAnalysis>, c: ConceptItem) -> bool {
    exists|i: int, k: int|
        0 <= i < analyses.len() && 0 <= k < analyses[i].key_concepts@.len() && trim(
            (#[trigger] analyses[i].key_concepts@[k]).term@,
        ).len() > 0 && c.term@ == trim(analyses[i].key_concepts@[k].term@) && c.note@ == trim(
            analyses[i].key_concepts@[k].note@,
        )
}

/// Law: the core concepts of the document are the key concepts of the analyses, trimmed:
/// every key concept whose term is not blank is there (as one with the same term and note,
/// told apart as `<term>::<note>`), and every core concept is a trimmed key concept of some
/// analysis.
pub proof fn concepts_come_from_every_analysis(
    doc: CourseDocument,
    video: SourceVideo,
    analyses: Seq<SegmentAnalysis>,
    now: Timestamp,
)
    requires
        aggregation_ok(doc, video, analyses, now),
    ensures
        forall|i: int, k: int|
            0 <= i < analyses.len() && 0 <= k < analyses[i].key_concepts@.len() && trim(
                (#[trigger] analyses[i].key_concepts@[k]).term@,
            ).len() > 0 ==> has_concept_text(
                doc.core_concepts@,
                trim(analyses[i].key_concepts@[k].term@) + "::"@ + trim(
                    analyses[i].key_concepts@[k].note@,
                ),
            ),
        forall|x: int|
            0 <= x < doc.core_concepts@.len() ==> concept_of_some_analysis(
                analyses,
                #[trigger] doc.core_concepts@[x],
            ),
{
    let f = |a: SegmentAnalysis| concepts_of(a);
    let items = flat_pairs(analyses, f);
    let u = unique_pairs(items);
    lemma_flat_pairs_members(analyses, f);
    lemma_unique_pairs_props(items);
    assert(concept_pairs(doc.core_concepts@) == u);
    assert forall|i: int, k: int|
        0 <= i < analyses.len() && 0 <= k < analyses[i].key_concepts@.len() && trim(
            (#[trigger] analyses[i].key_concepts@[k]).term@,
        ).len() > 0 implies has_concept_text(
        doc.core_concepts@,
        trim(analyses[i].key_concepts@[k].term@) + "::"@ + trim(analyses[i].key_concepts@[k].note@),
    ) by {
        let c = analyses[i].key_concepts@[k];
        assert(f(analyses[i])[k] == (c.term@, c.note@));
        assert(items.contains(f(analyses[i])[k]));
        let j = choose|j: int| 0 <= j < items.len() && items[j] == f(analyses[i])[k];
        assert(trimmed_pair(items[j]) == (trim(c.term@), trim(c.note@)));
        assert(has_pair_key(u, pair_key(trimmed_pair(items[j]))));
        let x = choose|x: int| 0 <= x < u.len() && #[trigger] pair_key(u[x]) == pair_key(trimmed_pair(items[j]));
        assert(u[x] == (doc.core_concepts@[x].term@, doc.core_concepts@[x].note@));
    }
    assert forall|x: int| 0 <= x < doc.core_concepts@.len() implies concept_of_some_analysis(
        analyses,
        #[trigger] doc.core_concepts@[x],
    ) by {
        assert(u[x] == (doc.core_concepts@[x].term@, doc.core_concepts@[x].note@));
        assert(trimmed_item_of(items, u[x]));
        let j = choose|j: int|
            0 <= j < items.len() && trim(items[j].0).len() > 0 && #[trigger] trimmed_pair(items[j]) == u[x];
        assert(pair_picked_from(analyses, f, items[j]));
        let (i, k) = choose|i: int, k: int|
            0 <= i < analyses.len() && 0 <= k < f(analyses[i]).len() && #[trigger] f(analyses[i])[k]
                == items[j];
        assert(f(analyses[i])[k] == (analyses[i].key_concepts@[k].term@, analyses[i].key_concepts@[k].note@));
    }
}

} // verus!
