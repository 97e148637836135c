use vstd::prelude::*;

use crate::chunking::{
    chunk_text_fixed, lemma_fixed_chunk_count, lemma_fixed_chunk_lengths,
    lemma_fixed_chunk_positions, lemma_fixed_chunks_overlap, chunk_text_paragraphs, fixed_chunks, nonempty_trimmed, paragraph_chunks,
};
use crate::text::{
    join_strings, join_with, lemma_split_join_pages, plain_pages, string_views, trim, trim_str,
};

verus! {

/// Characters per chunk of the fixed-size strategy.
pub const CHUNK_SIZE: usize = 1000;

/// Characters that neighbouring chunks of the fixed-size strategy share.
pub const CHUNK_OVERLAP: usize = 200;

/// How a document is cut into chunks.
#[derive(Clone, Copy, Debug, PartialEq, Eq)]
pub enum ChunkStrategy {
    /// Windows of `CHUNK_SIZE` characters sharing `CHUNK_OVERLAP`.
    Fixed,
    /// Pieces between empty lines.
    Paragraph,
}

/// The strategy a name selects: `paragraph`, or else the fixed-size one.
pub fn strategy_named(name: &str) -> (s: ChunkStrategy)
    ensures
        s == if name@ == "paragraph"@ {
            ChunkStrategy::Paragraph
        } else {
            ChunkStrategy::Fixed
        },
{
    let given = name.to_owned();
    let paragraph = "paragraph".to_owned();
    if given == paragraph {
        ChunkStrategy::Paragraph
    } else {
        ChunkStrategy::Fixed
    }
}

/// The chunks of a document under a strategy.
pub open spec fn document_chunks(text: Seq<char>, strategy: ChunkStrategy) -> Seq<Seq<char>> {
    match strategy {
        ChunkStrategy::Fixed => fixed_chunks(text, CHUNK_SIZE as nat, CHUNK_OVERLAP as nat),
        ChunkStrategy::Paragraph => paragraph_chunks(text),
    }
}

/// Cuts a document into chunks under a strategy.
pub fn chunk_document(text: &str, strategy: ChunkStrategy) -> (chunks: Vec<String>)
    ensures
        string_views(chunks@) == document_chunks(text@, strategy),
{
    match strategy {
        ChunkStrategy::Fixed => chunk_text_fixed(text, CHUNK_SIZE, CHUNK_OVERLAP),
        ChunkStrategy::Paragraph => chunk_text_paragraphs(text),
    }
}

/// The text of a whole document: its pages, an empty line between each two.
pub fn join_pages(pages: &Vec<String>) -> (r: String)
    ensures
        r@ == join_with(string_views(pages@), "\n\n"@),
{
    join_strings(pages, "\n\n")
}

/// With the fixed strategy, a document of `n` characters gives no chunk when
/// empty, one up to 1000 characters, and one more for every further 800
/// characters or part of them; chunk `i` is the window of 1000 characters
/// (cut at the end) starting at character `800 * i`, and neighbouring chunks
/// share exactly 200 characters.
pub proof fn lemma_fixed_strategy_windows(text: Seq<char>, i: int)
    requires
        0 <= i < document_chunks(text, ChunkStrategy::Fixed).len(),
    ensures
        document_chunks(text, ChunkStrategy::Fixed).len() == if text.len() == 0 {
            0
        } else if text.len() <= 1000 {
            1
        } else {
            1 + (text.len() - 201) / 800
        },
        800 * i < text.len(),
        document_chunks(text, ChunkStrategy::Fixed)[i] == text.subrange(
            800 * i,
            if 800 * i + 1000 < text.len() {
                800 * i + 1000
            } else {
                text.len() as int
            },
        ),
        i + 1 < document_chunks(text, ChunkStrategy::Fixed).len() ==> {
            &&& document_chunks(text, ChunkStrategy::Fixed)[i].len() == 1000
            &&& document_chunks(text, ChunkStrategy::Fixed)[i].skip(800) == document_chunks(
                text,
                ChunkStrategy::Fixed,
            )[i + 1].take(200)
        },
{
    lemma_fixed_chunk_count(text, 1000, 200);
    lemma_fixed_chunk_positions(text, 1000, 200, i);
    lemma_fixed_chunk_lengths(text, 1000, 200, i);
    if i + 1 < document_chunks(text, ChunkStrategy::Fixed).len() {
        lemma_fixed_chunks_overlap(text, 1000, 200, i);
    }
    assert(i * (1000 - 200) == 800 * i);
}

/// With the paragraph strategy, a document whose pages hold no empty line
/// and do not end with a line feed is cut at its page boundaries: its chunks
/// are its pages, trimmed, without the blank ones.
pub proof fn lemma_paragraphs_follow_pages(pages: Seq<Seq<char>>)
    requires
        pages.len() > 0,
        plain_pages(pages),
    ensures
        document_chunks(join_with(pages, "\n\n"@), ChunkStrategy::Paragraph) == nonempty_trimmed(
            pages,
        ),
{
    reveal_strlit("\n\n");
    assert("\n\n"@ =~= seq!['\n', '\n']);
    lemma_split_join_pages(pages);
}

/// A text to store, with its page or chunk number.
#[derive(Debug)]
pub struct NumberedText {
    pub number: usize,
    pub text: String,
}

/// The texts, each trimmed and numbered by its position plus `first`,
/// without those that trim to nothing.
pub open spec fn numbered_nonempty(texts: Seq<Seq<char>>, first: nat) -> Seq<(nat, Seq<char>)>
    decreases texts.len(),
{
    if texts.len() == 0 {
        seq![]
    } else {
        let rest = numbered_nonempty(texts.drop_last(), first);
        let t = trim(texts.last());
        if t.len() > 0 {
            rest.push(((first + texts.len() - 1) as nat, t))
        } else {
            rest
        }
    }
}

/// Numbered texts as pairs of number and characters.
pub open spec fn numbered_views(v: Seq<NumberedText>) -> Seq<(nat, Seq<char>)> {
    v.map_values(|t: NumberedText| (t.number as nat, t.text@))
}

/// The texts, each trimmed and numbered by its position plus `first`,
/// without those that trim to nothing.
pub fn numbered_texts(texts: &Vec<String>, first: usize) -> (r: Vec<NumberedText>)
    requires
        first + texts@.len() <= usize::MAX,
    ensures
        numbered_views(r@) == numbered_nonempty(string_views(texts@), first as nat),
{
    let ghost views = string_views(texts@);
    let mut r: Vec<NumberedText> = Vec::new();
    let mut i: usize = 0;
    assert(views.take(0) =~= seq![]);
    while i < texts.len()
        invariant
            i <= texts@.len(),
            first + texts@.len() <= usize::MAX,
            views == string_views(texts@),
            numbered_views(r@) == numbered_nonempty(views.take(i as int), first as nat),
        decreases texts.len() - i,
    {
        let t = trim_str(texts[i].as_str());
        let ghost before = numbered_views(r@);
        assert(views.take(i + 1).drop_last() =~= views.take(i as int));
        assert(views.take(i + 1).last() == texts@[i as int]@);
        if !t.as_str().is_empty() {
            r.push(NumberedText { number: first + i, text: t });
            assert(numbered_views(r@) =~= before.push(((first + i) as nat, trim(texts@[i as int]@))));
        }
        i += 1;
    }
    assert(views.take(texts@.len() as int) =~= views);
    r
}

/// Every text kept for storing is the trimmed text at the position its
/// number names, and it is not empty; the numbers rise strictly, so no
/// position is stored twice.
pub proof fn lemma_numbered_texts_origin(texts: Seq<Seq<char>>, first: nat, i: int)
    requires
        0 <= i < numbered_nonempty(texts, first).len(),
    ensures
        first <= numbered_nonempty(texts, first)[i].0 < first + texts.len(),
        numbered_nonempty(texts, first)[i].1 == trim(
            texts[numbered_nonempty(texts, first)[i].0 - first],
        ),
        numbered_nonempty(texts, first)[i].1.len() > 0,
        i + 1 < numbered_nonempty(texts, first).len() ==> numbered_nonempty(texts, first)[i].0
            < numbered_nonempty(texts, first)[i + 1].0,
    decreases texts.len(),
{
    let t = texts.drop_last();
    let rest = numbered_nonempty(t, first);
    if i < rest.len() {
        lemma_numbered_texts_origin(t, first, i);
        if i + 1 < rest.len() {
            lemma_numbered_texts_origin(t, first, i + 1);
        }
        assert(texts[rest[i].0 - first] == t[rest[i].0 - first]);
    }
}

/// Every text that does not trim to nothing is kept, numbered by its
/// position plus `first`, as its trimmed text.
pub proof fn lemma_numbered_texts_complete(texts: Seq<Seq<char>>, first: nat, k: int) -> (i: int)
    requires
        0 <= k < texts.len(),
        trim(texts[k]).len() > 0,
    ensures
        0 <= i < numbered_nonempty(texts, first).len(),
        numbered_nonempty(texts, first)[i] == ((first + k) as nat, trim(texts[k])),
    decreases texts.len(),
{
    let t = texts.drop_last();
    let rest = numbered_nonempty(t, first);
    let all = numbered_nonempty(texts, first);
    if k < texts.len() - 1 {
        assert(texts[k] == t[k]);
        let i = lemma_numbered_texts_complete(t, first, k);
        assert(all[i] == rest[i]);
        i
    } else {
        rest.len() as int
    }
}

/// As many texts are kept as there are texts that do not trim to nothing.
pub proof fn lemma_numbered_texts_count(texts: Seq<Seq<char>>, first: nat)
    ensures
        numbered_nonempty(texts, first).len() == texts.filter(|t: Seq<char>| trim(t).len() > 0).len(),
    decreases texts.len(),
{
    reveal_with_fuel(Seq::<_>::filter, 1);
    if texts.len() > 0 {
        lemma_numbered_texts_count(texts.drop_last(), first);
    } else {
        assert(texts.filter(|t: Seq<char>| trim(t).len() > 0) =~= Seq::<Seq<char>>::empty());
    }
}

/// Whether loading reports progress after the text at `index` of `total`:
/// after every fifth and after the last.
pub fn report_progress(index: usize, total: usize) -> (b: bool)
    requires
        index < total,
    ensures
        b == ((index + 1) % 5 == 0 || index + 1 == total),
{
    (index + 1) % 5 == 0 || index + 1 == total
}

} // verus!
