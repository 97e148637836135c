use vstd::prelude::*;

use crate::text::{
    chars_of, contains_seq, is_white_space, lemma_split_joined_pair,
    lemma_split_pieces_free_of_separator, lemma_split_scan_prefix, lemma_trim_append_white_space,
    lemma_trim_idempotent, lemma_trim_prepend_white_space, lemma_trim_shape, occurs_at,
    ranges_view, ranges_within, split_on, split_ranges, split_scan, string_of_range, string_views,
    trim, trim_bounds,
};

verus! {

/// Fixed-size chunks of `s` with `overlap` characters shared between
/// neighbours: the first chunk is the first `size` characters, and the
/// rest is the chunking of `s` after its first `size - overlap` characters.
/// The last chunk is the one that reaches the end of `s`.
/// (With `overlap >= size` and `s` longer than `size` the chunking never ends;
/// those inputs have no chunks here.)
pub open spec fn fixed_chunks(s: Seq<char>, size: nat, overlap: nat) -> Seq<Seq<char>>
    decreases s.len(),
{
    if s.len() == 0 {
        seq![]
    } else if s.len() <= size {
        seq![s]
    } else if overlap < size {
        seq![s.take(size as int)] + fixed_chunks(s.skip(size - overlap), size, overlap)
    } else {
        seq![]
    }
}

/// Splits `text` into chunks of `size` characters, each starting
/// `size - overlap` characters after the previous one, the last one ending
/// at the end of `text`.
pub fn chunk_text_fixed(text: &str, size: usize, overlap: usize) -> (chunks: Vec<String>)
    requires
        text@.len() <= size || overlap < size,
    ensures
        string_views(chunks@) == fixed_chunks(text@, size as nat, overlap as nat),
{
    let chars = chars_of(text);
    let mut chunks: Vec<String> = Vec::new();
    if chars.len() == 0 {
        assert(string_views(chunks@) =~= seq![]);
        return chunks;
    }
    let ghost s = chars@;
    let mut start: usize = 0;
    assert(s.skip(0) =~= s);
    loop
        invariant
            s == chars@,
            s == text@,
            s.len() <= size || overlap < size,
            start < s.len(),
            string_views(chunks@) + fixed_chunks(s.skip(start as int), size as nat, overlap as nat)
                == fixed_chunks(s, size as nat, overlap as nat),
        decreases s.len() - start,
    {
        let rest = chars.len() - start;
        let end = if size < rest {
            start + size
        } else {
            chars.len()
        };
        let chunk = string_of_range(&chars, start, end);
        let ghost tail = s.skip(start as int);
        let ghost before = string_views(chunks@);
        chunks.push(chunk);
        assert(string_views(chunks@) =~= before.push(s.subrange(start as int, end as int)));
        if end == chars.len() {
            assert(tail =~= s.subrange(start as int, end as int));
            assert(fixed_chunks(tail, size as nat, overlap as nat) == seq![tail]);
            assert(string_views(chunks@) =~= before + seq![tail]);
            return chunks;
        }
        assert(tail.take(size as int) =~= s.subrange(start as int, end as int));
        assert(tail.skip(size - overlap) =~= s.skip(start + size - overlap));
        assert(before.push(s.subrange(start as int, end as int)) + fixed_chunks(
            s.skip(start + size - overlap),
            size as nat,
            overlap as nat,
        ) =~= before + fixed_chunks(tail, size as nat, overlap as nat));
        start = start + (size - overlap);
    }
}

/// How many chunks a text of `n` characters gives: none for an empty text,
/// one up to `size` characters, and one more for every further
/// `size - overlap` characters or part of them.
pub open spec fn fixed_chunk_count(n: nat, size: nat, overlap: nat) -> nat {
    if n == 0 {
        0
    } else if n <= size {
        1
    } else {
        (1 + (n - size + (size - overlap) - 1) / ((size - overlap) as int)) as nat
    }
}

/// The number of fixed-size chunks of a text.
pub proof fn lemma_fixed_chunk_count(s: Seq<char>, size: nat, overlap: nat)
    requires
        s.len() <= size || overlap < size,
    ensures
        fixed_chunks(s, size, overlap).len() == fixed_chunk_count(s.len(), size, overlap),
    decreases s.len(),
{
    if s.len() > size {
        lemma_fixed_chunks_unfold(s, size, overlap);
        let t = s.skip(size - overlap);
        lemma_fixed_chunk_count(t, size, overlap);
        let n = s.len() as int;
        let step = (size - overlap) as int;
        let sz = size as int;
        assert(fixed_chunks(s, size, overlap).len() == 1 + fixed_chunks(t, size, overlap).len());
        if t.len() <= size {
            assert((n - sz + step - 1) / step == 1) by (nonlinear_arith)
                requires
                    step > 0,
                    0 < n - sz <= step,
            ;
        } else {
            let x = n - sz - 1;
            assert((x + step) / step == x / step + 1) by (nonlinear_arith)
                requires
                    step > 0,
                    x >= 0,
            ;
            assert(t.len() - sz + step - 1 == x);
        }
    }
}

/// Joins chunks that share `overlap` characters with their successor: every
/// chunk but the last gives the part before the shared characters.
pub open spec fn overlap_join(cs: Seq<Seq<char>>, overlap: nat) -> Seq<char>
    decreases cs.len(),
{
    if cs.len() == 0 {
        seq![]
    } else if cs.len() == 1 {
        cs[0]
    } else {
        cs[0].take(cs[0].len() - overlap) + overlap_join(cs.drop_first(), overlap)
    }
}

proof fn lemma_fixed_chunks_unfold(s: Seq<char>, size: nat, overlap: nat)
    requires
        s.len() > size,
        overlap < size,
    ensures
        fixed_chunks(s, size, overlap).len() >= 2,
        fixed_chunks(s, size, overlap)[0] == s.take(size as int),
        fixed_chunks(s, size, overlap).drop_first() == fixed_chunks(
            s.skip(size - overlap),
            size,
            overlap,
        ),
        s.skip(size - overlap).len() > overlap,
{
    let t = s.skip(size - overlap);
    assert(t.len() > 0);
    assert(fixed_chunks(s, size, overlap).drop_first() =~= fixed_chunks(t, size, overlap));
}

/// Every chunk holds between one and `size` characters, and every chunk but
/// the last holds exactly `size`.
pub proof fn lemma_fixed_chunk_lengths(s: Seq<char>, size: nat, overlap: nat, i: int)
    requires
        s.len() <= size || overlap < size,
        0 <= i < fixed_chunks(s, size, overlap).len(),
    ensures
        0 < fixed_chunks(s, size, overlap)[i].len() <= size,
        i + 1 < fixed_chunks(s, size, overlap).len() ==> fixed_chunks(s, size, overlap)[i].len()
            == size,
    decreases s.len(),
{
    if s.len() > size {
        lemma_fixed_chunks_unfold(s, size, overlap);
        if i > 0 {
            let t = s.skip(size - overlap);
            assert(fixed_chunks(s, size, overlap)[i] == fixed_chunks(t, size, overlap)[i - 1]);
            lemma_fixed_chunk_lengths(t, size, overlap, i - 1);
        }
    }
}

/// The first chunk starts the text and the last chunk ends it.
pub proof fn lemma_fixed_chunks_ends(s: Seq<char>, size: nat, overlap: nat)
    requires
        s.len() <= size || overlap < size,
        s.len() > 0,
    ensures
        fixed_chunks(s, size, overlap).len() > 0,
        s.take(fixed_chunks(s, size, overlap)[0].len() as int) == fixed_chunks(s, size, overlap)[0],
        s.skip(s.len() - fixed_chunks(s, size, overlap).last().len()) == fixed_chunks(
            s,
            size,
            overlap,
        ).last(),
    decreases s.len(),
{
    if s.len() > size {
        lemma_fixed_chunks_unfold(s, size, overlap);
        let t = s.skip(size - overlap);
        lemma_fixed_chunks_ends(t, size, overlap);
        let cs = fixed_chunks(s, size, overlap);
        assert(cs.last() == fixed_chunks(t, size, overlap).last());
        lemma_fixed_chunk_lengths(t, size, overlap, fixed_chunks(t, size, overlap).len() - 1);
        assert(t.skip(t.len() - cs.last().len()) =~= s.skip(s.len() - cs.last().len()));
    } else {
        assert(s.take(s.len() as int) =~= s);
        assert(s.skip(0) =~= s);
    }
}

/// Neighbouring chunks share exactly `overlap` characters: the last
/// `overlap` characters of one chunk are the first `overlap` of the next.
pub proof fn lemma_fixed_chunks_overlap(s: Seq<char>, size: nat, overlap: nat, i: int)
    requires
        s.len() <= size || overlap < size,
        0 <= i && i + 1 < fixed_chunks(s, size, overlap).len(),
    ensures
        fixed_chunks(s, size, overlap)[i].len() >= overlap,
        fixed_chunks(s, size, overlap)[i + 1].len() >= overlap,
        fixed_chunks(s, size, overlap)[i].skip(fixed_chunks(s, size, overlap)[i].len() - overlap)
            == fixed_chunks(s, size, overlap)[i + 1].take(overlap as int),
    decreases s.len(),
{
    lemma_fixed_chunks_unfold(s, size, overlap);
    let t = s.skip(size - overlap);
    let cs = fixed_chunks(s, size, overlap);
    let ct = fixed_chunks(t, size, overlap);
    assert(cs[i + 1] == ct[i]);
    if i == 0 {
        lemma_fixed_chunks_ends(t, size, overlap);
        lemma_fixed_chunk_lengths(t, size, overlap, 0);
        if t.len() > size {
            lemma_fixed_chunks_unfold(t, size, overlap);
        }
        assert(ct[0].take(overlap as int) =~= t.take(overlap as int));
        assert(cs[0].skip(size - overlap) =~= t.take(overlap as int));
    } else {
        assert(cs[i] == ct[i - 1]);
        lemma_fixed_chunks_overlap(t, size, overlap, i - 1);
    }
}

/// Chunk `i` is the window of `size` characters (cut at the end of the text)
/// that starts `i * (size - overlap)` characters into the text.
pub proof fn lemma_fixed_chunk_positions(s: Seq<char>, size: nat, overlap: nat, i: int)
    requires
        s.len() <= size || overlap < size,
        0 <= i < fixed_chunks(s, size, overlap).len(),
    ensures
        0 <= i * (size - overlap) < s.len(),
        fixed_chunks(s, size, overlap)[i] == s.subrange(
            i * (size - overlap),
            if i * (size - overlap) + size < s.len() {
                i * (size - overlap) + size
            } else {
                s.len() as int
            },
        ),
    decreases s.len(),
{
    if s.len() > size {
        lemma_fixed_chunks_unfold(s, size, overlap);
        let step = size - overlap;
        let t = s.skip(step);
        if i == 0 {
            assert(fixed_chunks(s, size, overlap)[0] =~= s.subrange(0, size as int));
        } else {
            assert(fixed_chunks(s, size, overlap)[i] == fixed_chunks(t, size, overlap)[i - 1]);
            lemma_fixed_chunk_positions(t, size, overlap, i - 1);
            let a = (i - 1) * step;
            assert(i * step == a + step) by (nonlinear_arith)
                requires
                    a == (i - 1) * step,
            ;
            let end = if a + size < t.len() {
                a + size
            } else {
                t.len() as int
            };
            assert(t.subrange(a, end) =~= s.subrange(a + step, end + step));
        }
    } else {
        assert(i == 0);
        assert(s.len() > 0);
        assert(fixed_chunks(s, size, overlap)[0] =~= s.subrange(0, s.len() as int));
    }
}

/// Dropping from every chunk but the last the characters it shares with its
/// successor, and concatenating, gives back the text.
pub proof fn lemma_fixed_chunks_reassemble(s: Seq<char>, size: nat, overlap: nat)
    requires
        s.len() <= size || overlap < size,
    ensures
        overlap_join(fixed_chunks(s, size, overlap), overlap) == s,
    decreases s.len(),
{
    if s.len() > size {
        lemma_fixed_chunks_unfold(s, size, overlap);
        let t = s.skip(size - overlap);
        lemma_fixed_chunks_reassemble(t, size, overlap);
        let cs = fixed_chunks(s, size, overlap);
        assert(cs[0].take(cs[0].len() - overlap) =~= s.take(size - overlap));
        assert(s.take(size - overlap) + t =~= s);
    } else if s.len() == 0 {
        assert(fixed_chunks(s, size, overlap) =~= seq![]);
        assert(s =~= seq![]);
    }
}

/// The paragraph separator, an empty line.
pub open spec fn paragraph_separator() -> Seq<char> {
    seq!['\n', '\n']
}

/// The pieces, each trimmed, without those that trim to nothing.
pub open spec fn nonempty_trimmed(pieces: Seq<Seq<char>>) -> Seq<Seq<char>>
    decreases pieces.len(),
{
    if pieces.len() == 0 {
        seq![]
    } else {
        let rest = nonempty_trimmed(pieces.drop_last());
        if trim(pieces.last()).len() > 0 {
            rest.push(trim(pieces.last()))
        } else {
            rest
        }
    }
}

/// The paragraphs of `s`: its pieces between empty lines, trimmed, without
/// the empty ones.
pub open spec fn paragraph_chunks(s: Seq<char>) -> Seq<Seq<char>> {
    nonempty_trimmed(split_on(s, paragraph_separator()))
}

/// Splits `text` at empty lines (`"\n\n"`) and keeps the trimmed pieces that
/// are not empty.
pub fn chunk_text_paragraphs(text: &str) -> (chunks: Vec<String>)
    ensures
        string_views(chunks@) == paragraph_chunks(text@),
{
    let cs = chars_of(text);
    let sep = vec!['\n', '\n'];
    assert(sep@ =~= paragraph_separator());
    let rs = split_ranges(&cs, &sep);
    let ghost pieces = split_on(cs@, paragraph_separator());
    let mut chunks: Vec<String> = Vec::new();
    let mut k: usize = 0;
    assert(pieces.take(0) =~= seq![]);
    while k < rs.len()
        invariant
            k <= rs@.len(),
            cs@ == text@,
            pieces == split_on(cs@, paragraph_separator()),
            ranges_within(rs@, cs@.len()),
            ranges_view(cs@, rs@) == pieces,
            string_views(chunks@) == nonempty_trimmed(pieces.take(k as int)),
        decreases rs.len() - k,
    {
        let (a, b) = rs[k];
        assert(pieces[k as int] == cs@.subrange(a as int, b as int));
        let (x, y) = trim_bounds(&cs, a, b);
        let ghost before = string_views(chunks@);
        assert(pieces.take(k + 1).drop_last() =~= pieces.take(k as int));
        assert(pieces.take(k + 1).last() == pieces[k as int]);
        if x < y {
            chunks.push(string_of_range(&cs, x, y));
            assert(string_views(chunks@) =~= before.push(cs@.subrange(x as int, y as int)));
        }
        k += 1;
    }
    assert(pieces.take(rs@.len() as int) =~= pieces);
    chunks
}

proof fn lemma_nonempty_trimmed_origin(pieces: Seq<Seq<char>>, i: int) -> (j: int)
    requires
        0 <= i < nonempty_trimmed(pieces).len(),
    ensures
        0 <= j < pieces.len(),
        nonempty_trimmed(pieces)[i] == trim(pieces[j]),
        trim(pieces[j]).len() > 0,
    decreases pieces.len(),
{
    let rest = nonempty_trimmed(pieces.drop_last());
    if i < rest.len() {
        let j = lemma_nonempty_trimmed_origin(pieces.drop_last(), i);
        j
    } else {
        pieces.len() - 1
    }
}

/// Every paragraph chunk is non-empty, neither starts nor ends with white
/// space (trimming it changes nothing), and holds no empty line.
pub proof fn lemma_paragraph_chunk_shape(s: Seq<char>, i: int)
    requires
        0 <= i < paragraph_chunks(s).len(),
    ensures
        paragraph_chunks(s)[i].len() > 0,
        trim(paragraph_chunks(s)[i]) == paragraph_chunks(s)[i],
        !contains_seq(paragraph_chunks(s)[i], paragraph_separator()),
{
    let sep = paragraph_separator();
    let pieces = split_on(s, sep);
    let j = lemma_nonempty_trimmed_origin(pieces, i);
    let p = pieces[j];
    lemma_trim_idempotent(p);
    lemma_split_pieces_free_of_separator(s, sep, j);
    let (a, b) = lemma_trim_shape(p);
    let c = trim(p);
    assert forall|k: int| !occurs_at(c, sep, k) by {
        if occurs_at(c, sep, k) {
            assert(c.subrange(k, k + 2) =~= p.subrange(a + k, a + k + 2));
            assert(occurs_at(p, sep, a + k));
        }
    }
}

/// Keeping the non-blank trimmed pieces of two lists, one after the other,
/// is keeping those of each list.
pub proof fn lemma_nonempty_trimmed_concat(x: Seq<Seq<char>>, y: Seq<Seq<char>>)
    ensures
        nonempty_trimmed(x + y) == nonempty_trimmed(x) + nonempty_trimmed(y),
    decreases y.len(),
{
    if y.len() == 0 {
        assert(x + y =~= x);
        assert(nonempty_trimmed(x) + nonempty_trimmed(y) =~= nonempty_trimmed(x));
    } else {
        assert((x + y).drop_last() =~= x + y.drop_last());
        assert((x + y).last() == y.last());
        lemma_nonempty_trimmed_concat(x, y.drop_last());
        let t = trim(y.last());
        if t.len() > 0 {
            assert((nonempty_trimmed(x) + nonempty_trimmed(y.drop_last())).push(t) =~= nonempty_trimmed(
                x,
            ) + nonempty_trimmed(y.drop_last()).push(t));
        }
    }
}

proof fn lemma_nonempty_trimmed_single(p: Seq<char>)
    ensures
        nonempty_trimmed(seq![p]) == if trim(p).len() > 0 {
            seq![trim(p)]
        } else {
            seq![]
        },
{
    assert(seq![p].drop_last() =~= Seq::<Seq<char>>::empty());
    assert(nonempty_trimmed(Seq::<Seq<char>>::empty()) == Seq::<Seq<char>>::empty());
    if trim(p).len() > 0 {
        assert(Seq::<Seq<char>>::empty().push(trim(p)) =~= seq![trim(p)]);
    }
}

proof fn lemma_split_scan_push_line_feed(s: Seq<char>, start: int, pos: int)
    requires
        0 <= start <= pos <= s.len(),
    ensures
        nonempty_trimmed(split_scan(s.push('\n'), paragraph_separator(), start, pos))
            == nonempty_trimmed(split_scan(s, paragraph_separator(), start, pos)),
    decreases s.len() - pos,
{
    let sep = paragraph_separator();
    let t = s.push('\n');
    let n = s.len() as int;
    if pos + 2 <= n {
        assert(t.subrange(pos, pos + 2) =~= s.subrange(pos, pos + 2));
        if occurs_at(s, sep, pos) {
            lemma_split_scan_push_line_feed(s, pos + 2, pos + 2);
            let p = s.subrange(start, pos);
            assert(t.subrange(start, pos) =~= p);
            assert(split_scan(t, sep, start, pos) == seq![p] + split_scan(t, sep, pos + 2, pos + 2));
            lemma_nonempty_trimmed_concat(seq![p], split_scan(t, sep, pos + 2, pos + 2));
            lemma_nonempty_trimmed_concat(seq![p], split_scan(s, sep, pos + 2, pos + 2));
        } else {
            lemma_split_scan_push_line_feed(s, start, pos + 1);
        }
    } else {
        let whole = s.subrange(start, n);
        assert(split_scan(s, sep, start, pos) == seq![whole]);
        lemma_nonempty_trimmed_single(whole);
        assert(t.subrange(start, n + 1) =~= whole.push('\n'));
        assert(is_white_space('\n'));
        lemma_trim_append_white_space(whole, '\n');
        lemma_nonempty_trimmed_single(whole.push('\n'));
        if pos + 1 == n && s[pos] == '\n' {
            assert(t.subrange(pos, pos + 2) =~= sep);
            let p = t.subrange(start, pos);
            let e = t.subrange(n + 1, n + 1);
            assert(e =~= Seq::<char>::empty());
            assert(whole =~= p.push('\n'));
            lemma_trim_append_white_space(p, '\n');
            assert(split_scan(t, sep, pos + 2, pos + 2) == seq![e]);
            assert(split_scan(t, sep, start, pos) == seq![p] + seq![e]);
            lemma_nonempty_trimmed_concat(seq![p], seq![e]);
            lemma_nonempty_trimmed_single(p);
            lemma_nonempty_trimmed_single(e);
            assert(trim(e).len() == 0);
            assert(nonempty_trimmed(seq![p]) + nonempty_trimmed(seq![e]) =~= nonempty_trimmed(
                seq![p],
            ));
        } else if pos + 1 == n {
            assert(t.subrange(pos, pos + 2)[0] == s[pos]);
            assert(!occurs_at(t, sep, pos));
            assert(split_scan(t, sep, start, pos) == split_scan(t, sep, start, n));
            assert(split_scan(t, sep, start, n) == seq![t.subrange(start, n + 1)]);
        } else {
            assert(split_scan(t, sep, start, pos) == seq![t.subrange(start, n + 1)]);
        }
    }
}

/// A line feed at the end of a text changes none of its paragraphs.
pub proof fn lemma_paragraphs_append_line_feed(s: Seq<char>)
    ensures
        paragraph_chunks(s.push('\n')) == paragraph_chunks(s),
{
    lemma_split_scan_push_line_feed(s, 0, 0);
}

/// A line feed at the start of a text changes none of its paragraphs.
pub proof fn lemma_paragraphs_prepend_line_feed(s: Seq<char>)
    ensures
        paragraph_chunks(seq!['\n'] + s) == paragraph_chunks(s),
    decreases s.len(),
{
    let sep = paragraph_separator();
    let e = Seq::<char>::empty();
    let t = seq!['\n'] + s;
    assert(is_white_space('\n'));
    assert(e.subrange(0, 0) =~= e);
    assert(split_on(e, sep) == seq![e]);
    lemma_nonempty_trimmed_single(e);
    assert(trim(e).len() == 0);
    if s.len() > 0 && s[0] == '\n' {
        let s2 = s.drop_first();
        assert(t =~= e + sep + s2);
        lemma_split_joined_pair(e, s2);
        lemma_nonempty_trimmed_concat(seq![e], split_on(s2, sep));
        assert(nonempty_trimmed(seq![e]) + paragraph_chunks(s2) =~= paragraph_chunks(s2));
        assert(s =~= seq!['\n'] + s2);
        lemma_paragraphs_prepend_line_feed(s2);
        assert(paragraph_chunks(t) == paragraph_chunks(s2));
    } else if s.len() == 0 {
        assert(s =~= e);
        assert(t =~= seq!['\n']);
        assert(split_on(t, sep) == seq![t.subrange(0, 1)]);
        assert(t.subrange(0, 1) =~= seq!['\n'] + e);
        lemma_trim_prepend_white_space('\n', e);
        lemma_nonempty_trimmed_single(t.subrange(0, 1));
        assert(paragraph_chunks(t) =~= Seq::<Seq<char>>::empty());
    } else {
        assert(t.subrange(0, 2)[1] == s[0]);
        assert(!occurs_at(t, sep, 0));
        assert(split_scan(t, sep, 0, 0) == split_scan(t, sep, 0, 1));
        lemma_split_scan_prefix(seq!['\n'], s, sep, 0);
        let r = split_on(s, sep);
        let first = seq!['\n'] + r[0];
        assert(r =~= seq![r[0]] + r.drop_first());
        assert(r.update(0, first) =~= seq![first] + r.drop_first());
        lemma_nonempty_trimmed_concat(seq![first], r.drop_first());
        lemma_nonempty_trimmed_concat(seq![r[0]], r.drop_first());
        lemma_nonempty_trimmed_single(first);
        lemma_nonempty_trimmed_single(r[0]);
        lemma_trim_prepend_white_space('\n', r[0]);
        assert(split_on(t, sep) == r.update(0, first));
        assert(nonempty_trimmed(seq![first]) == nonempty_trimmed(seq![r[0]]));
    }
}

/// The paragraphs of two texts joined by an empty line are the paragraphs
/// of the first followed by those of the second.
pub proof fn lemma_paragraphs_of_joined(a: Seq<char>, b: Seq<char>)
    ensures
        paragraph_chunks(a + paragraph_separator() + b) == paragraph_chunks(a) + paragraph_chunks(
            b,
        ),
    decreases a.len(),
{
    let sep = paragraph_separator();
    if a.len() == 0 || a.last() != '\n' {
        lemma_split_joined_pair(a, b);
        lemma_nonempty_trimmed_concat(split_on(a, sep), split_on(b, sep));
    } else {
        let a2 = a.drop_last();
        assert(a + sep + b =~= a2 + sep + (seq!['\n'] + b));
        lemma_paragraphs_of_joined(a2, seq!['\n'] + b);
        lemma_paragraphs_prepend_line_feed(b);
        assert(a =~= a2.push('\n'));
        lemma_paragraphs_append_line_feed(a2);
    }
}

} // verus!
