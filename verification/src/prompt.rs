use vstd::prelude::*;

use crate::numbers::{decimal, format_i64, format_u64, signed_decimal};
use crate::response::MatchRow;
use crate::text::{join_strings, join_with, string_views};

verus! {

/// One retrieved chunk as the model reads it in the context.
pub open spec fn context_entry_text(
    source: Seq<char>,
    label: Seq<char>,
    number: Seq<char>,
    text: Seq<char>,
) -> Seq<char> {
    "\n--- Source: "@ + source + ", "@ + label + ": "@ + number + " ---\n"@ + text + "\n"@
}

/// One retrieved chunk as the model reads it in the context: its source,
/// its page or chunk number under `label`, and its text.
pub fn context_entry(source: &str, label: &str, number: &str, text: &str) -> (r: String)
    ensures
        r@ == context_entry_text(source@, label@, number@, text@),
{
    let mut r = "\n--- Source: ".to_owned();
    r.append(source);
    r.append(", ");
    r.append(label);
    r.append(": ");
    r.append(number);
    r.append(" ---\n");
    r.append(text);
    r.append("\n");
    r
}

/// The context made of the retrieved chunks, in order.
pub open spec fn matches_context(ms: Seq<MatchRow>, label: Seq<char>) -> Seq<char>
    decreases ms.len(),
{
    if ms.len() == 0 {
        seq![]
    } else {
        matches_context(ms.drop_last(), label) + context_entry_text(
            ms.last().source@,
            label,
            decimal(ms.last().number as nat),
            ms.last().text@,
        )
    }
}

/// The context made of the retrieved chunks, in order, each numbered under
/// `label`.
pub fn build_context(ms: &Vec<MatchRow>, label: &str) -> (r: String)
    ensures
        r@ == matches_context(ms@, label@),
{
    let mut r = String::new();
    let mut i: usize = 0;
    assert(ms@.take(0) =~= seq![]);
    while i < ms.len()
        invariant
            i <= ms@.len(),
            r@ == matches_context(ms@.take(i as int), label@),
        decreases ms.len() - i,
    {
        assert(ms@.take(i + 1).drop_last() =~= ms@.take(i as int));
        let number = format_u64(ms[i].number);
        let entry = context_entry(ms[i].source.as_str(), label, number.as_str(), ms[i].text.as_str());
        r.append(entry.as_str());
        i += 1;
    }
    assert(ms@.take(ms@.len() as int) =~= ms@);
    r
}

/// One chunk in a context that names how it was found.
pub open spec fn tagged_entry_text(tag: Seq<char>, text: Seq<char>) -> Seq<char> {
    "\n["@ + tag + " Context] "@ + text + "\n"@
}

/// The context made of the texts of the chunks, each tagged with how it was
/// found.
pub open spec fn tagged_context(ms: Seq<MatchRow>, tag: Seq<char>) -> Seq<char>
    decreases ms.len(),
{
    if ms.len() == 0 {
        seq![]
    } else {
        tagged_context(ms.drop_last(), tag) + tagged_entry_text(tag, ms.last().text@)
    }
}

fn append_tagged(r: &mut String, ms: &Vec<MatchRow>, tag: &str)
    ensures
        final(r)@ == old(r)@ + tagged_context(ms@, tag@),
{
    let ghost start = r@;
    let mut i: usize = 0;
    assert(ms@.take(0) =~= seq![]);
    assert(r@ =~= start + tagged_context(ms@.take(0), tag@));
    while i < ms.len()
        invariant
            i <= ms@.len(),
            r@ == start + tagged_context(ms@.take(i as int), tag@),
        decreases ms.len() - i,
    {
        assert(ms@.take(i + 1).drop_last() =~= ms@.take(i as int));
        r.append("\n[");
        r.append(tag);
        r.append(" Context] ");
        r.append(ms[i].text.as_str());
        r.append("\n");
        assert(r@ =~= start + tagged_context(ms@.take(i + 1), tag@));
        i += 1;
    }
    assert(ms@.take(ms@.len() as int) =~= ms@);
}

/// The context of a hybrid search: the full-text matches, then the vector
/// matches, each tagged with how it was found.
pub fn hybrid_context(full_text: &Vec<MatchRow>, vector: &Vec<MatchRow>) -> (r: String)
    ensures
        r@ == tagged_context(full_text@, "FTS"@) + tagged_context(vector@, "Vector"@),
{
    let mut r = String::new();
    append_tagged(&mut r, full_text, "FTS");
    append_tagged(&mut r, vector, "Vector");
    r
}

/// The context of no chunks is empty, and adding a chunk adds its entry at
/// the end: its source, the label with its number, and its whole text.
pub proof fn lemma_context_appends_entry(ms: Seq<MatchRow>, m: MatchRow, label: Seq<char>)
    ensures
        matches_context(Seq::<MatchRow>::empty(), label) == Seq::<char>::empty(),
        matches_context(ms.push(m), label) == matches_context(ms, label) + ("\n--- Source: "@
            + m.source@ + ", "@ + label + ": "@ + decimal(m.number as nat) + " ---\n"@ + m.text@
            + "\n"@),
{
    assert(ms.push(m).drop_last() =~= ms);
}

/// The context of two lists of chunks is the context of the first followed
/// by the context of the second.
pub proof fn lemma_context_concat(a: Seq<MatchRow>, b: Seq<MatchRow>, label: Seq<char>)
    ensures
        matches_context(a + b, label) == matches_context(a, label) + matches_context(b, label),
    decreases b.len(),
{
    if b.len() == 0 {
        assert(a + b =~= a);
        assert(matches_context(a, label) + matches_context(b, label) =~= matches_context(a, label));
    } else {
        lemma_context_concat(a, b.drop_last(), label);
        assert((a + b).drop_last() =~= a + b.drop_last());
        assert((a + b).last() == b.last());
    }
}

/// Every chunk's entry stands in the context, at the place its position
/// gives: the context is the context of the chunks before it, its entry, and
/// the context of the chunks after it.
pub proof fn lemma_context_holds_every_entry(ms: Seq<MatchRow>, i: int, label: Seq<char>)
    requires
        0 <= i < ms.len(),
    ensures
        matches_context(ms, label) == matches_context(ms.take(i), label) + context_entry_text(
            ms[i].source@,
            label,
            decimal(ms[i].number as nat),
            ms[i].text@,
        ) + matches_context(ms.skip(i + 1), label),
{
    assert(ms =~= ms.take(i).push(ms[i]) + ms.skip(i + 1));
    lemma_context_concat(ms.take(i).push(ms[i]), ms.skip(i + 1), label);
    lemma_context_appends_entry(ms.take(i), ms[i], label);
}

/// The tagged context of no chunks is empty, adding a chunk adds its tagged
/// whole text at the end, and the tagged context of two lists is that of
/// the first followed by that of the second.
pub proof fn lemma_tagged_context_concat(a: Seq<MatchRow>, b: Seq<MatchRow>, m: MatchRow, tag: Seq<char>)
    ensures
        tagged_context(Seq::<MatchRow>::empty(), tag) == Seq::<char>::empty(),
        tagged_context(a.push(m), tag) == tagged_context(a, tag) + ("\n["@ + tag + " Context] "@
            + m.text@ + "\n"@),
        tagged_context(a + b, tag) == tagged_context(a, tag) + tagged_context(b, tag),
    decreases b.len(),
{
    assert(a.push(m).drop_last() =~= a);
    if b.len() == 0 {
        assert(a + b =~= a);
        assert(tagged_context(a, tag) + tagged_context(b, tag) =~= tagged_context(a, tag));
    } else {
        lemma_tagged_context_concat(a, b.drop_last(), m, tag);
        assert((a + b).drop_last() =~= a + b.drop_last());
        assert((a + b).last() == b.last());
    }
}

/// A row read back from a relational store: its source, its page number as
/// stored there, and its text.
#[derive(Debug)]
pub struct PageRow {
    pub source: String,
    pub page: i64,
    pub text: String,
}

/// The context made of the rows, in order, each numbered by its page.
pub open spec fn page_rows_context_text(rows: Seq<PageRow>) -> Seq<char>
    decreases rows.len(),
{
    if rows.len() == 0 {
        seq![]
    } else {
        page_rows_context_text(rows.drop_last()) + context_entry_text(
            rows.last().source@,
            "Page"@,
            signed_decimal(rows.last().page as int),
            rows.last().text@,
        )
    }
}

/// The context made of the rows, in order, each numbered by its page.
pub fn page_rows_context(rows: &Vec<PageRow>) -> (r: String)
    ensures
        r@ == page_rows_context_text(rows@),
{
    let mut r = String::new();
    let mut i: usize = 0;
    assert(rows@.take(0) =~= seq![]);
    while i < rows.len()
        invariant
            i <= rows@.len(),
            r@ == page_rows_context_text(rows@.take(i as int)),
        decreases rows.len() - i,
    {
        assert(rows@.take(i + 1).drop_last() =~= rows@.take(i as int));
        let number = format_i64(rows[i].page);
        let entry = context_entry(rows[i].source.as_str(), "Page", number.as_str(), rows[i].text.as_str());
        r.append(entry.as_str());
        i += 1;
    }
    assert(rows@.take(rows@.len() as int) =~= rows@);
    r
}

/// The page-row context of no rows is empty, adding a row adds its entry at
/// the end with its page number in decimal, and the context of two lists of
/// rows is that of the first followed by that of the second.
pub proof fn lemma_page_rows_context_concat(a: Seq<PageRow>, b: Seq<PageRow>, row: PageRow)
    ensures
        page_rows_context_text(Seq::<PageRow>::empty()) == Seq::<char>::empty(),
        page_rows_context_text(a.push(row)) == page_rows_context_text(a) + ("\n--- Source: "@
            + row.source@ + ", Page: "@ + signed_decimal(row.page as int) + " ---\n"@ + row.text@
            + "\n"@),
        page_rows_context_text(a + b) == page_rows_context_text(a) + page_rows_context_text(b),
    decreases b.len(),
{
    assert(a.push(row).drop_last() =~= a);
    reveal_strlit(", ");
    reveal_strlit(": ");
    reveal_strlit(", Page: ");
    reveal_strlit("Page");
    assert(", "@ + "Page"@ + ": "@ =~= ", Page: "@);
    let x = "\n--- Source: "@ + row.source@;
    let y = signed_decimal(row.page as int) + " ---\n"@ + row.text@ + "\n"@;
    assert(x + ", "@ + "Page"@ + ": "@ + signed_decimal(row.page as int) + " ---\n"@ + row.text@
        + "\n"@ =~= x + ", Page: "@ + y);
    assert(x + ", Page: "@ + signed_decimal(row.page as int) + " ---\n"@ + row.text@ + "\n"@
        =~= x + ", Page: "@ + y);
    if b.len() == 0 {
        assert(a + b =~= a);
        assert(page_rows_context_text(a) + page_rows_context_text(b) =~= page_rows_context_text(
            a,
        ));
    } else {
        lemma_page_rows_context_concat(a, b.drop_last(), row);
        assert((a + b).drop_last() =~= a + b.drop_last());
        assert((a + b).last() == b.last());
    }
}

/// What to do after a search: report that nothing was found, or ask the
/// model with the context made of what was found.
#[derive(Debug)]
pub enum AnswerPlan {
    NoMatches,
    Generate(String),
}

/// After a search that found `ms`: nothing found when `ms` is empty, else
/// the model is asked with their context.
pub fn plan_for_matches(ms: &Vec<MatchRow>, label: &str) -> (p: AnswerPlan)
    ensures
        match p {
            AnswerPlan::NoMatches => ms@.len() == 0,
            AnswerPlan::Generate(c) => ms@.len() > 0 && c@ == matches_context(ms@, label@),
        },
{
    if ms.len() == 0 {
        AnswerPlan::NoMatches
    } else {
        AnswerPlan::Generate(build_context(ms, label))
    }
}

/// After a search of a relational store that found `rows`: nothing found
/// when there are none, else the model is asked with their context.
pub fn plan_for_page_rows(rows: &Vec<PageRow>) -> (p: AnswerPlan)
    ensures
        match p {
            AnswerPlan::NoMatches => rows@.len() == 0,
            AnswerPlan::Generate(c) => rows@.len() > 0 && c@ == page_rows_context_text(rows@),
        },
{
    if rows.len() == 0 {
        AnswerPlan::NoMatches
    } else {
        AnswerPlan::Generate(page_rows_context(rows))
    }
}

/// A tagged context is empty exactly when it has no chunks.
pub proof fn lemma_tagged_context_empty(ms: Seq<MatchRow>, tag: Seq<char>)
    ensures
        (tagged_context(ms, tag).len() == 0) == (ms.len() == 0),
        tagged_context(ms, tag).len() >= ms.len(),
    decreases ms.len(),
{
    if ms.len() > 0 {
        lemma_tagged_context_empty(ms.drop_last(), tag);
        reveal_strlit("\n[");
        assert(tagged_entry_text(tag, ms.last().text@).len() >= 2);
    }
}

/// After a hybrid search: nothing found when its context is empty, which is
/// when both searches found nothing; else the model is asked with that
/// context.
pub fn plan_for_hybrid(full_text: &Vec<MatchRow>, vector: &Vec<MatchRow>) -> (p: AnswerPlan)
    ensures
        (p is NoMatches) == (full_text@.len() == 0 && vector@.len() == 0),
        match p {
            AnswerPlan::NoMatches => (tagged_context(full_text@, "FTS"@) + tagged_context(
                vector@,
                "Vector"@,
            )).len() == 0,
            AnswerPlan::Generate(c) => c@.len() > 0 && c@ == tagged_context(full_text@, "FTS"@)
                + tagged_context(vector@, "Vector"@),
        },
{
    let context = hybrid_context(full_text, vector);
    proof {
        lemma_tagged_context_empty(full_text@, "FTS"@);
        lemma_tagged_context_empty(vector@, "Vector"@);
    }
    if context.as_str().is_empty() {
        AnswerPlan::NoMatches
    } else {
        AnswerPlan::Generate(context)
    }
}

/// The prompt that asks the model to answer from the context.
pub open spec fn answer_prompt_text(context: Seq<char>, question: Seq<char>) -> Seq<char> {
    "Use the following context to answer the question.\n\nContext:\n"@ + context
        + "\n\nQuestion: "@ + question + "\n\nAnswer:"@
}

/// The prompt that asks the model to answer `question` from `context`.
pub fn answer_prompt(context: &str, question: &str) -> (r: String)
    ensures
        r@ == answer_prompt_text(context@, question@),
{
    let mut r = "Use the following context to answer the question.\n\nContext:\n".to_owned();
    r.append(context);
    r.append("\n\nQuestion: ");
    r.append(question);
    r.append("\n\nAnswer:");
    r
}

/// The prompt that asks for a joke on the keywords, listed with `, `.
pub fn joke_prompt(keywords: &Vec<String>) -> (r: String)
    ensures
        r@ == "Create a funny joke using these keywords: "@ + join_with(
            string_views(keywords@),
            ", "@,
        ),
{
    let mut r = "Create a funny joke using these keywords: ".to_owned();
    let list = join_strings(keywords, ", ");
    r.append(list.as_str());
    r
}

} // verus!
