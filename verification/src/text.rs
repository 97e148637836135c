use vstd::prelude::*;

verus! {

broadcast use vstd::string::group_string_axioms;

/// Unicode `White_Space` property, the set of characters that
/// `char::is_whitespace` accepts.
pub open spec fn is_white_space(c: char) -> bool {
    let u = c as u32;
    ||| 0x9 <= u <= 0xd
    ||| u == 0x20
    ||| u == 0x85
    ||| u == 0xa0
    ||| u == 0x1680
    ||| 0x2000 <= u <= 0x200a
    ||| u == 0x2028
    ||| u == 0x2029
    ||| u == 0x202f
    ||| u == 0x205f
    ||| u == 0x3000
}

/// `s` without its leading white space.
pub open spec fn trim_start(s: Seq<char>) -> Seq<char>
    decreases s.len(),
{
    if s.len() > 0 && is_white_space(s[0]) {
        trim_start(s.drop_first())
    } else {
        s
    }
}

/// `s` without its trailing white space.
pub open spec fn trim_end(s: Seq<char>) -> Seq<char>
    decreases s.len(),
{
    if s.len() > 0 && is_white_space(s.last()) {
        trim_end(s.drop_last())
    } else {
        s
    }
}

/// `s` without leading and trailing white space, as `str::trim` gives it.
pub open spec fn trim(s: Seq<char>) -> Seq<char> {
    trim_end(trim_start(s))
}

/// The character sequences of a list of strings.
pub open spec fn string_views(v: Seq<String>) -> Seq<Seq<char>> {
    v.map_values(|s: String| s@)
}

/// Whether `c` is white space.
pub fn is_whitespace(c: char) -> (b: bool)
    ensures
        b == is_white_space(c),
{
    let u = c as u32;
    (0x9 <= u && u <= 0xd) || u == 0x20 || u == 0x85 || u == 0xa0 || u == 0x1680 || (0x2000 <= u
        && u <= 0x200a) || u == 0x2028 || u == 0x2029 || u == 0x202f || u == 0x205f || u == 0x3000
}

/// Appends one character to `s` through `String::push`; the contract
/// claims that afterwards `s` holds its former characters followed by `c`.
#[verifier::external_body]
pub(crate) fn push_char(s: &mut String, c: char)
    ensures
        final(s)@ == old(s)@.push(c),
{
    s.push(c);
}

/// The characters of `s`, in order.
pub fn chars_of(s: &str) -> (out: Vec<char>)
    ensures
        out@ == s@,
{
    let mut out: Vec<char> = Vec::new();
    for c in it: s.chars()
        invariant
            out@ == it.seq().take(it.index() as int),
            it.seq() == s@,
    {
        out.push(c);
    }
    out
}

/// The string made of `cs[lo..hi]`.
pub fn string_of_range(cs: &Vec<char>, lo: usize, hi: usize) -> (s: String)
    requires
        lo <= hi <= cs@.len(),
    ensures
        s@ == cs@.subrange(lo as int, hi as int),
{
    let mut s = String::new();
    let mut i = lo;
    while i < hi
        invariant
            lo <= i <= hi <= cs@.len(),
            s@ == cs@.subrange(lo as int, i as int),
        decreases hi - i,
    {
        push_char(&mut s, cs[i]);
        i += 1;
        assert(s@ =~= cs@.subrange(lo as int, i as int));
    }
    s
}

proof fn lemma_trim_start_range(s: Seq<char>, i: int, hi: int)
    requires
        0 <= i < hi <= s.len(),
        is_white_space(s[i]),
    ensures
        trim_start(s.subrange(i, hi)) == trim_start(s.subrange(i + 1, hi)),
{
    assert(s.subrange(i, hi).drop_first() =~= s.subrange(i + 1, hi));
}

proof fn lemma_trim_end_range(s: Seq<char>, lo: int, j: int)
    requires
        0 <= lo < j <= s.len(),
        is_white_space(s[j - 1]),
    ensures
        trim_end(s.subrange(lo, j)) == trim_end(s.subrange(lo, j - 1)),
{
    assert(s.subrange(lo, j).drop_last() =~= s.subrange(lo, j - 1));
}

/// The bounds of `cs[lo..hi]` with leading and trailing white space removed.
pub fn trim_bounds(cs: &Vec<char>, lo: usize, hi: usize) -> (r: (usize, usize))
    requires
        lo <= hi <= cs@.len(),
    ensures
        lo <= r.0 <= r.1 <= hi,
        cs@.subrange(r.0 as int, r.1 as int) == trim(cs@.subrange(lo as int, hi as int)),
{
    let mut i = lo;
    while i < hi && is_whitespace(cs[i])
        invariant
            lo <= i <= hi <= cs@.len(),
            trim_start(cs@.subrange(lo as int, hi as int)) == trim_start(
                cs@.subrange(i as int, hi as int),
            ),
        decreases hi - i,
    {
        proof {
            lemma_trim_start_range(cs@, i as int, hi as int);
        }
        i += 1;
    }
    assert(trim_start(cs@.subrange(i as int, hi as int)) == cs@.subrange(i as int, hi as int));
    let mut j = hi;
    while j > i && is_whitespace(cs[j - 1])
        invariant
            lo <= i <= j <= hi <= cs@.len(),
            trim_end(cs@.subrange(i as int, hi as int)) == trim_end(
                cs@.subrange(i as int, j as int),
            ),
        decreases j - i,
    {
        proof {
            lemma_trim_end_range(cs@, i as int, j as int);
        }
        j -= 1;
    }
    (i, j)
}

/// `s` with leading and trailing white space removed (`str::trim`).
pub fn trim_str(s: &str) -> (t: String)
    ensures
        t@ == trim(s@),
{
    let cs = chars_of(s);
    let (a, b) = trim_bounds(&cs, 0, cs.len());
    assert(cs@.subrange(0, cs@.len() as int) =~= s@);
    string_of_range(&cs, a, b)
}

/// `trim_start` removes a prefix made only of white space and stops at a
/// character that is not white space.
pub proof fn lemma_trim_start_shape(s: Seq<char>) -> (k: int)
    ensures
        0 <= k <= s.len(),
        trim_start(s) == s.skip(k),
        forall|i: int| 0 <= i < k ==> is_white_space(#[trigger] s[i]),
        k < s.len() ==> !is_white_space(s[k]),
    decreases s.len(),
{
    if s.len() > 0 && is_white_space(s[0]) {
        let k1 = lemma_trim_start_shape(s.drop_first());
        assert(s.drop_first().skip(k1) =~= s.skip(k1 + 1));
        assert forall|i: int| 0 <= i < k1 + 1 implies is_white_space(#[trigger] s[i]) by {
            if i > 0 {
                assert(s[i] == s.drop_first()[i - 1]);
            }
        }
        k1 + 1
    } else {
        assert(s.skip(0) =~= s);
        0
    }
}

/// `trim_end` removes a suffix made only of white space and stops at a
/// character that is not white space.
pub proof fn lemma_trim_end_shape(s: Seq<char>) -> (k: int)
    ensures
        0 <= k <= s.len(),
        trim_end(s) == s.take(k),
        forall|i: int| k <= i < s.len() ==> is_white_space(#[trigger] s[i]),
        k > 0 ==> !is_white_space(s[k - 1]),
    decreases s.len(),
{
    if s.len() > 0 && is_white_space(s.last()) {
        let k1 = lemma_trim_end_shape(s.drop_last());
        assert(s.drop_last().take(k1) =~= s.take(k1));
        assert forall|i: int| k1 <= i < s.len() implies is_white_space(#[trigger] s[i]) by {
            if i < s.len() - 1 {
                assert(s[i] == s.drop_last()[i]);
            }
        }
        k1
    } else {
        assert(s.take(s.len() as int) =~= s);
        s.len() as int
    }
}

/// Trimming keeps a contiguous part of the text, removes only white space
/// around it, and the part it keeps, when not empty, neither starts nor ends
/// with white space.
pub proof fn lemma_trim_shape(s: Seq<char>) -> (r: (int, int))
    ensures
        0 <= r.0 <= r.1 <= s.len(),
        trim(s) == s.subrange(r.0, r.1),
        forall|i: int| 0 <= i < r.0 ==> is_white_space(#[trigger] s[i]),
        forall|i: int| r.1 <= i < s.len() ==> is_white_space(#[trigger] s[i]),
        r.0 < r.1 ==> !is_white_space(s[r.0]) && !is_white_space(s[r.1 - 1]),
{
    let a = lemma_trim_start_shape(s);
    let t = s.skip(a);
    let k = lemma_trim_end_shape(t);
    assert(t.take(k) =~= s.subrange(a, a + k));
    assert forall|i: int| a + k <= i < s.len() implies is_white_space(#[trigger] s[i]) by {
        assert(s[i] == t[i - a]);
    }
    if k > 0 {
        assert(s[a + k - 1] == t[k - 1]);
    }
    (a, a + k)
}

/// Trimming twice is trimming once.
pub proof fn lemma_trim_idempotent(s: Seq<char>)
    ensures
        trim(trim(s)) == trim(s),
{
    let (a, b) = lemma_trim_shape(s);
    let t = trim(s);
    let (c, d) = lemma_trim_shape(t);
    if a < b {
        assert(t[0] == s[a]);
        assert(t[t.len() - 1] == s[b - 1]);
        if c > 0 {
            assert(is_white_space(t[0]));
        }
        if d < t.len() {
            assert(is_white_space(t[t.len() - 1]));
        }
        assert(t.subrange(c, d) =~= t);
    } else {
        assert(t =~= seq![]);
    }
}

/// Whether `sep` occurs in `s` starting at position `i`.
pub open spec fn occurs_at(s: Seq<char>, sep: Seq<char>, i: int) -> bool {
    0 <= i && i + sep.len() <= s.len() && s.subrange(i, i + sep.len()) == sep
}

/// Whether `sep` occurs anywhere in `s`.
pub open spec fn contains_seq(s: Seq<char>, sep: Seq<char>) -> bool {
    exists|i: int| occurs_at(s, sep, i)
}

/// Pieces of `s[start..]` between occurrences of `sep`, scanning for the
/// next occurrence from `pos` on; occurrences are taken from left to right
/// and do not overlap.
pub open spec fn split_scan(s: Seq<char>, sep: Seq<char>, start: int, pos: int) -> Seq<Seq<char>>
    decreases s.len() - pos,
{
    if sep.len() == 0 || pos < 0 || pos + sep.len() > s.len() {
        seq![s.subrange(start, s.len() as int)]
    } else if occurs_at(s, sep, pos) {
        seq![s.subrange(start, pos)] + split_scan(s, sep, pos + sep.len(), pos + sep.len())
    } else {
        split_scan(s, sep, start, pos + 1)
    }
}

/// The pieces of `s` between the occurrences of `sep`, as `str::split` gives
/// them for a non-empty pattern.
pub open spec fn split_on(s: Seq<char>, sep: Seq<char>) -> Seq<Seq<char>> {
    split_scan(s, sep, 0, 0)
}

/// The pieces joined with `sep` between each two neighbours.
pub open spec fn join_with(pieces: Seq<Seq<char>>, sep: Seq<char>) -> Seq<char>
    decreases pieces.len(),
{
    if pieces.len() == 0 {
        seq![]
    } else if pieces.len() == 1 {
        pieces[0]
    } else {
        pieces[0] + sep + join_with(pieces.drop_first(), sep)
    }
}

pub(crate) proof fn lemma_split_scan_join(s: Seq<char>, sep: Seq<char>, start: int, pos: int)
    requires
        sep.len() > 0,
        0 <= start <= pos <= s.len(),
    ensures
        split_scan(s, sep, start, pos).len() > 0,
        join_with(split_scan(s, sep, start, pos), sep) == s.subrange(start, s.len() as int),
    decreases s.len() - pos,
{
    if pos + sep.len() > s.len() {
    } else if occurs_at(s, sep, pos) {
        let next = pos + sep.len();
        lemma_split_scan_join(s, sep, next, next);
        let rest = split_scan(s, sep, next, next);
        let all = split_scan(s, sep, start, pos);
        assert(all.drop_first() =~= rest);
        assert(all[0] == s.subrange(start, pos));
        assert(s.subrange(start, pos) + sep + s.subrange(next, s.len() as int) =~= s.subrange(
            start,
            s.len() as int,
        ));
    } else {
        lemma_split_scan_join(s, sep, start, pos + 1);
    }
}

/// Joining the pieces of a split with the separator gives back the text.
pub proof fn lemma_split_join(s: Seq<char>, sep: Seq<char>)
    requires
        sep.len() > 0,
    ensures
        split_on(s, sep).len() > 0,
        join_with(split_on(s, sep), sep) == s,
{
    lemma_split_scan_join(s, sep, 0, 0);
    assert(s.subrange(0, s.len() as int) =~= s);
}

proof fn lemma_no_occurrence_in_range(s: Seq<char>, sep: Seq<char>, start: int, end: int)
    requires
        0 <= start <= end <= s.len(),
        forall|j: int| start <= j && j + sep.len() <= end ==> !occurs_at(s, sep, j),
    ensures
        !contains_seq(s.subrange(start, end), sep),
{
    let p = s.subrange(start, end);
    assert forall|i: int| !occurs_at(p, sep, i) by {
        if occurs_at(p, sep, i) {
            assert(p.subrange(i, i + sep.len()) =~= s.subrange(start + i, start + i + sep.len()));
            assert(occurs_at(s, sep, start + i));
        }
    }
}

proof fn lemma_split_scan_pieces(s: Seq<char>, sep: Seq<char>, start: int, pos: int, k: int)
    requires
        sep.len() > 0,
        0 <= start <= pos <= s.len(),
        forall|j: int| start <= j < pos ==> !occurs_at(s, sep, j),
        0 <= k < split_scan(s, sep, start, pos).len(),
    ensures
        !contains_seq(split_scan(s, sep, start, pos)[k], sep),
    decreases s.len() - pos,
{
    if pos + sep.len() > s.len() {
        lemma_no_occurrence_in_range(s, sep, start, s.len() as int);
    } else if occurs_at(s, sep, pos) {
        let next = pos + sep.len();
        if k == 0 {
            lemma_no_occurrence_in_range(s, sep, start, pos);
        } else {
            lemma_split_scan_pieces(s, sep, next, next, k - 1);
        }
    } else {
        lemma_split_scan_pieces(s, sep, start, pos + 1, k);
    }
}

pub(crate) proof fn lemma_split_scan_shift(pre: Seq<char>, t: Seq<char>, sep: Seq<char>, i: int, j: int)
    requires
        sep.len() > 0,
        0 <= i <= j <= t.len(),
    ensures
        split_scan(pre + t, sep, pre.len() + i, pre.len() + j) == split_scan(t, sep, i, j),
    decreases t.len() - j,
{
    let s = pre + t;
    let k = pre.len() as int;
    if j + sep.len() > t.len() {
        assert(s.subrange(k + i, s.len() as int) =~= t.subrange(i, t.len() as int));
    } else {
        assert(s.subrange(k + j, k + j + sep.len()) =~= t.subrange(j, j + sep.len()));
        if occurs_at(t, sep, j) {
            lemma_split_scan_shift(pre, t, sep, j + sep.len(), j + sep.len());
            assert(s.subrange(k + i, k + j) =~= t.subrange(i, j));
        } else {
            lemma_split_scan_shift(pre, t, sep, i, j + 1);
        }
    }
}

proof fn lemma_split_scan_skip(s: Seq<char>, sep: Seq<char>, start: int, pos: int, m: int)
    requires
        sep.len() > 0,
        0 <= start <= pos <= m <= s.len(),
        forall|j: int| pos <= j < m ==> !occurs_at(s, sep, j),
    ensures
        split_scan(s, sep, start, pos) == split_scan(s, sep, start, m),
    decreases m - pos,
{
    if pos < m {
        if pos + sep.len() > s.len() {
            // both scans have run out of room
            assert(m + sep.len() > s.len());
        } else {
            lemma_split_scan_skip(s, sep, start, pos + 1, m);
        }
    }
}

/// Splitting `pre + t` from just after `pre` gives the split of `t`, with
/// `pre` put before its first piece.
pub(crate) proof fn lemma_split_scan_prefix(pre: Seq<char>, t: Seq<char>, sep: Seq<char>, j: int)
    requires
        sep.len() > 0,
        0 <= j <= t.len(),
    ensures
        split_scan(t, sep, 0, j).len() > 0,
        split_scan(pre + t, sep, 0, pre.len() + j) == split_scan(t, sep, 0, j).update(
            0,
            pre + split_scan(t, sep, 0, j)[0],
        ),
    decreases t.len() - j,
{
    let s = pre + t;
    let k = pre.len() as int;
    lemma_split_scan_join(t, sep, 0, j);
    if j + sep.len() > t.len() {
        assert(s.subrange(0, s.len() as int) =~= pre + t.subrange(0, t.len() as int));
        assert(split_scan(s, sep, 0, k + j) =~= split_scan(t, sep, 0, j).update(
            0,
            pre + split_scan(t, sep, 0, j)[0],
        ));
    } else {
        assert(s.subrange(k + j, k + j + sep.len()) =~= t.subrange(j, j + sep.len()));
        if occurs_at(t, sep, j) {
            lemma_split_scan_shift(pre, t, sep, j + sep.len(), j + sep.len());
            assert(s.subrange(0, k + j) =~= pre + t.subrange(0, j));
            assert(split_scan(s, sep, 0, k + j) =~= split_scan(t, sep, 0, j).update(
                0,
                pre + split_scan(t, sep, 0, j)[0],
            ));
        } else {
            lemma_split_scan_prefix(pre, t, sep, j + 1);
        }
    }
}

proof fn lemma_split_scan_join_at(a: Seq<char>, b: Seq<char>, start: int, pos: int)
    requires
        0 <= start <= pos <= a.len(),
        a.len() == 0 || a.last() != '\n',
    ensures
        split_scan(a + seq!['\n', '\n'] + b, seq!['\n', '\n'], start, pos) == split_scan(
            a,
            seq!['\n', '\n'],
            start,
            pos,
        ) + split_on(b, seq!['\n', '\n']),
    decreases a.len() - pos,
{
    let sep = seq!['\n', '\n'];
    let s = a + sep + b;
    let n = a.len() as int;
    if pos + 2 <= n {
        assert(s.subrange(pos, pos + 2) =~= a.subrange(pos, pos + 2));
        if occurs_at(a, sep, pos) {
            lemma_split_scan_join_at(a, b, pos + 2, pos + 2);
            assert(s.subrange(start, pos) =~= a.subrange(start, pos));
            assert(split_scan(s, sep, start, pos) =~= split_scan(a, sep, start, pos) + split_on(
                b,
                sep,
            ));
        } else {
            lemma_split_scan_join_at(a, b, start, pos + 1);
        }
    } else {
        if pos == n - 1 {
            assert(s.subrange(pos, pos + 2)[0] == a.last());
            assert(!occurs_at(s, sep, pos));
            assert(split_scan(s, sep, start, pos) == split_scan(s, sep, start, n));
        }
        assert(s.subrange(n, n + 2) =~= sep);
        assert(occurs_at(s, sep, n));
        assert(s =~= (a + sep) + b);
        lemma_split_scan_shift(a + sep, b, sep, 0, 0);
        assert(s.subrange(start, n) =~= a.subrange(start, n));
        assert(split_scan(s, sep, start, n) =~= split_scan(a, sep, start, pos) + split_on(b, sep));
    }
}

/// Splitting two texts joined by an empty line gives the pieces of the
/// first, then those of the second, when the first does not end with a
/// line feed.
pub proof fn lemma_split_joined_pair(a: Seq<char>, b: Seq<char>)
    requires
        a.len() == 0 || a.last() != '\n',
    ensures
        split_on(a + seq!['\n', '\n'] + b, seq!['\n', '\n']) == split_on(a, seq!['\n', '\n'])
            + split_on(b, seq!['\n', '\n']),
{
    lemma_split_scan_join_at(a, b, 0, 0);
}

/// Trimming ignores white space put before the text.
pub proof fn lemma_trim_prepend_white_space(c: char, x: Seq<char>)
    requires
        is_white_space(c),
    ensures
        trim(seq![c] + x) == trim(x),
{
    assert((seq![c] + x).drop_first() =~= x);
}

proof fn lemma_trim_start_push_white_space(x: Seq<char>, c: char)
    requires
        is_white_space(c),
    ensures
        trim_start(x.push(c)) == if trim_start(x).len() > 0 {
            trim_start(x).push(c)
        } else {
            seq![]
        },
    decreases x.len(),
{
    if x.len() == 0 {
        assert(x.push(c).drop_first() =~= Seq::<char>::empty());
        assert(trim_start(Seq::<char>::empty()) == Seq::<char>::empty());
        assert(trim_start(x) == x);
    } else if is_white_space(x[0]) {
        assert(x.push(c)[0] == x[0]);
        assert(x.push(c).drop_first() =~= x.drop_first().push(c));
        lemma_trim_start_push_white_space(x.drop_first(), c);
    } else {
        assert(x.push(c)[0] == x[0]);
    }
}

/// Trimming ignores white space put after the text.
pub proof fn lemma_trim_append_white_space(x: Seq<char>, c: char)
    requires
        is_white_space(c),
    ensures
        trim(x.push(c)) == trim(x),
{
    lemma_trim_start_push_white_space(x, c);
    let ts = trim_start(x);
    if ts.len() > 0 {
        assert(ts.push(c).drop_last() =~= ts);
    } else {
        assert(ts =~= Seq::<char>::empty());
    }
}

/// Whether no page holds an empty line or ends with a line feed.
pub open spec fn plain_pages(pages: Seq<Seq<char>>) -> bool {
    forall|k: int|
        0 <= k < pages.len() ==> !contains_seq(#[trigger] pages[k], seq!['\n', '\n']) && (
        pages[k].len() > 0 ==> pages[k].last() != '\n')
}

/// Joining pages with an empty line and splitting at empty lines gives the
/// pages back, when no page holds an empty line or ends with a line feed.
pub proof fn lemma_split_join_pages(pages: Seq<Seq<char>>)
    requires
        pages.len() > 0,
        plain_pages(pages),
    ensures
        split_on(join_with(pages, seq!['\n', '\n']), seq!['\n', '\n']) == pages,
    decreases pages.len(),
{
    let sep = seq!['\n', '\n'];
    let p = pages[0];
    let s = join_with(pages, sep);
    assert(!contains_seq(p, sep));
    if pages.len() == 1 {
        assert(s == p);
        assert forall|j: int| 0 <= j < p.len() implies !occurs_at(p, sep, j) by {
            assert(!occurs_at(p, sep, j));
        }
        lemma_split_scan_skip(p, sep, 0, 0, p.len() as int);
        assert(p.subrange(0, p.len() as int) =~= p);
        assert(split_scan(p, sep, 0, p.len() as int) =~= seq![p]);
    } else {
        let rest = pages.drop_first();
        assert forall|k: int| 0 <= k < rest.len() implies !contains_seq(#[trigger] rest[k], sep) && (
        rest[k].len() > 0 ==> rest[k].last() != '\n') by {
            assert(rest[k] == pages[k + 1]);
        }
        lemma_split_join_pages(rest);
        let r = join_with(rest, sep);
        assert(s == p + sep + r);
        let n = p.len() as int;
        assert forall|j: int| 0 <= j < n implies !occurs_at(s, sep, j) by {
            if occurs_at(s, sep, j) {
                if j + 2 <= n {
                    assert(s.subrange(j, j + 2) =~= p.subrange(j, j + 2));
                    assert(occurs_at(p, sep, j));
                } else {
                    assert(j == n - 1);
                    assert(s.subrange(j, j + 2)[0] == s[j]);
                    assert(s[j] == p.last());
                }
            }
        }
        lemma_split_scan_skip(s, sep, 0, 0, n);
        assert(s.subrange(n, n + 2) =~= sep);
        assert(occurs_at(s, sep, n));
        assert(s.subrange(0, n) =~= p);
        lemma_split_scan_shift(p + sep, r, sep, 0, 0);
        assert((p + sep).len() == n + 2);
        assert(split_scan(s, sep, 0, n) =~= seq![p] + split_scan(r, sep, 0, 0));
        assert(seq![p] + rest =~= pages);
    }
}

/// No piece of a split holds the separator.
pub proof fn lemma_split_pieces_free_of_separator(s: Seq<char>, sep: Seq<char>, k: int)
    requires
        sep.len() > 0,
        0 <= k < split_on(s, sep).len(),
    ensures
        !contains_seq(split_on(s, sep)[k], sep),
{
    lemma_split_scan_pieces(s, sep, 0, 0, k);
}

/// Joining one more piece adds the separator and the piece at the end.
pub proof fn lemma_join_push(pieces: Seq<Seq<char>>, sep: Seq<char>, x: Seq<char>)
    requires
        pieces.len() > 0,
    ensures
        join_with(pieces.push(x), sep) == join_with(pieces, sep) + sep + x,
    decreases pieces.len(),
{
    if pieces.len() == 1 {
        assert(pieces.push(x).drop_first() =~= seq![x]);
        assert(join_with(seq![x], sep) == x);
    } else {
        lemma_join_push(pieces.drop_first(), sep, x);
        assert(pieces.push(x).drop_first() =~= pieces.drop_first().push(x));
        assert(pieces[0] + sep + (join_with(pieces.drop_first(), sep) + sep + x) =~= pieces[0] + sep
            + join_with(pieces.drop_first(), sep) + sep + x);
    }
}

/// The strings of `list` joined with `sep` between each two neighbours
/// (`[String]::join`).
pub fn join_strings(list: &Vec<String>, sep: &str) -> (r: String)
    ensures
        r@ == join_with(string_views(list@), sep@),
{
    let mut r = String::new();
    let ghost views = string_views(list@);
    let mut i: usize = 0;
    assert(views.take(0) =~= seq![]);
    while i < list.len()
        invariant
            i <= list@.len(),
            views == string_views(list@),
            r@ == join_with(views.take(i as int), sep@),
        decreases list.len() - i,
    {
        assert(views.take(i + 1) =~= views.take(i as int).push(list@[i as int]@));
        if i == 0 {
            assert(views.take(1) =~= seq![list@[0]@]);
            r.append(list[i].as_str());
            assert(r@ =~= list@[0]@);
        } else {
            proof {
                lemma_join_push(views.take(i as int), sep@, list@[i as int]@);
            }
            r.append(sep);
            r.append(list[i].as_str());
        }
        i += 1;
    }
    assert(views.take(list@.len() as int) =~= views);
    r
}

/// Every range lies within `0..n` and does not run backwards.
pub open spec fn ranges_within(rs: Seq<(usize, usize)>, n: nat) -> bool {
    forall|k: int| 0 <= k < rs.len() ==> #[trigger] rs[k].0 <= rs[k].1 <= n
}

/// The parts of `s` that a list of ranges selects.
pub open spec fn ranges_view(s: Seq<char>, rs: Seq<(usize, usize)>) -> Seq<Seq<char>> {
    rs.map_values(|r: (usize, usize)| s.subrange(r.0 as int, r.1 as int))
}

/// Whether `sep` occurs in `cs` at `pos`.
fn occurs_at_pos(cs: &Vec<char>, sep: &Vec<char>, pos: usize) -> (b: bool)
    requires
        pos + sep@.len() <= cs@.len(),
    ensures
        b == occurs_at(cs@, sep@, pos as int),
{
    let n = cs.len();
    let mut j: usize = 0;
    while j < sep.len()
        invariant
            j <= sep@.len(),
            pos + sep@.len() <= cs@.len(),
            n == cs@.len(),
            forall|k: int| 0 <= k < j ==> cs@[pos + k] == sep@[k],
        decreases sep.len() - j,
    {
        if cs[pos + j] != sep[j] {
            assert(cs@.subrange(pos as int, pos + sep@.len())[j as int] == cs@[pos + j]);
            return false;
        }
        j += 1;
    }
    assert(cs@.subrange(pos as int, pos + sep@.len()) =~= sep@);
    true
}

/// The ranges of the pieces of `cs` between the occurrences of `sep`.
pub fn split_ranges(cs: &Vec<char>, sep: &Vec<char>) -> (rs: Vec<(usize, usize)>)
    requires
        sep@.len() > 0,
    ensures
        ranges_within(rs@, cs@.len()),
        ranges_view(cs@, rs@) == split_on(cs@, sep@),
{
    let ghost s = cs@;
    let n = cs.len();
    let m = sep.len();
    let mut rs: Vec<(usize, usize)> = Vec::new();
    let mut start: usize = 0;
    let mut pos: usize = 0;
    while n - pos >= m
        invariant
            s == cs@,
            n == s.len(),
            m == sep@.len(),
            m > 0,
            start <= pos <= n,
            ranges_within(rs@, n as nat),
            ranges_view(s, rs@) + split_scan(s, sep@, start as int, pos as int) == split_on(
                s,
                sep@,
            ),
        decreases n - pos,
    {
        let ghost before = ranges_view(s, rs@);
        if occurs_at_pos(cs, sep, pos) {
            let ghost old_rs = rs@;
            rs.push((start, pos));
            assert forall|k: int| 0 <= k < rs@.len() implies #[trigger] rs@[k].0 <= rs@[k].1
                <= n by {
                if k < old_rs.len() {
                    assert(rs@[k] == old_rs[k]);
                }
            }
            assert(ranges_view(s, rs@) =~= before.push(s.subrange(start as int, pos as int)));
            assert(before.push(s.subrange(start as int, pos as int)) + split_scan(
                s,
                sep@,
                pos + m,
                pos + m,
            ) =~= before + split_scan(s, sep@, start as int, pos as int));
            pos = pos + m;
            start = pos;
        } else {
            pos = pos + 1;
        }
    }
    let ghost before = ranges_view(s, rs@);
    let ghost old_rs = rs@;
    rs.push((start, n));
    assert forall|k: int| 0 <= k < rs@.len() implies #[trigger] rs@[k].0 <= rs@[k].1 <= n by {
        if k < old_rs.len() {
            assert(rs@[k] == old_rs[k]);
        }
    }
    assert(ranges_within(rs@, cs@.len()));
    assert(ranges_view(s, rs@) =~= before.push(s.subrange(start as int, n as int)));
    assert(split_scan(s, sep@, start as int, pos as int) == seq![s.subrange(start as int, n as int)]);
    assert(before.push(s.subrange(start as int, n as int)) =~= before + split_scan(
        s,
        sep@,
        start as int,
        pos as int,
    ));
    assert(ranges_view(s, rs@) == split_on(s, sep@));
    rs
}

/// The first `n` items of `s`, or all of them where there are fewer.
pub open spec fn prefix<A>(s: Seq<A>, n: int) -> Seq<A> {
    if n < s.len() {
        s.take(n)
    } else {
        s
    }
}

/// The first `n` items are as many as `n` or as the sequence has, whichever
/// is fewer, and they are the sequence's own first items.
pub proof fn lemma_prefix_shape<A>(s: Seq<A>, n: int)
    requires
        n >= 0,
    ensures
        prefix(s, n).len() == if n < s.len() {
            n
        } else {
            s.len() as int
        },
        forall|i: int| 0 <= i < prefix(s, n).len() ==> #[trigger] prefix(s, n)[i] == s[i],
{
}

/// A line without the carriage return that ends it, if any.
pub open spec fn strip_cr(p: Seq<char>) -> Seq<char> {
    if p.len() > 0 && p.last() == '\r' {
        p.drop_last()
    } else {
        p
    }
}

/// The lines of `s` as `str::lines` gives them: pieces between `\n`, each
/// ended one without a `\r` before its `\n`, and no empty last line after a
/// final `\n`.
pub open spec fn lines_of(s: Seq<char>) -> Seq<Seq<char>> {
    let pieces = split_on(s, seq!['\n']);
    let ended = pieces.drop_last().map_values(|p: Seq<char>| strip_cr(p));
    if pieces.last().len() == 0 {
        ended
    } else {
        ended.push(pieces.last())
    }
}

/// No line holds a line feed.
pub proof fn lemma_lines_free_of_line_feeds(s: Seq<char>, k: int)
    requires
        0 <= k < lines_of(s).len(),
    ensures
        !lines_of(s)[k].contains('\n'),
{
    let sep = seq!['\n'];
    let pieces = split_on(s, sep);
    lemma_split_join(s, sep);
    let j = k;
    lemma_split_pieces_free_of_separator(s, sep, j);
    let p = pieces[j];
    let line = lines_of(s)[k];
    if k < pieces.len() - 1 {
        assert(line == strip_cr(p));
    } else {
        assert(line == p);
    }
    assert(line.len() <= p.len());
    assert forall|i: int| 0 <= i < line.len() implies line[i] != '\n' by {
        assert(line[i] == p[i]);
        if p[i] == '\n' {
            assert(p.subrange(i, i + 1) =~= sep);
            assert(occurs_at(p, sep, i));
        }
    }
}

/// The lines of `text` (`str::lines`).
pub fn lines(text: &str) -> (out: Vec<String>)
    ensures
        string_views(out@) == lines_of(text@),
{
    let cs = chars_of(text);
    let sep = vec!['\n'];
    let rs = split_ranges(&cs, &sep);
    proof {
        assert(sep@ =~= seq!['\n']);
        lemma_split_join(cs@, sep@);
    }
    let ghost pieces = split_on(cs@, seq!['\n']);
    let ghost ended = pieces.drop_last().map_values(|p: Seq<char>| strip_cr(p));
    let count = rs.len();
    let mut out: Vec<String> = Vec::new();
    let mut i: usize = 0;
    assert(ended.take(0) =~= seq![]);
    while i < count - 1
        invariant
            count == rs@.len(),
            count == pieces.len(),
            count > 0,
            i <= count - 1,
            pieces == split_on(cs@, seq!['\n']),
            ended == pieces.drop_last().map_values(|p: Seq<char>| strip_cr(p)),
            ranges_within(rs@, cs@.len()),
            ranges_view(cs@, rs@) == pieces,
            string_views(out@) == ended.take(i as int),
        decreases count - 1 - i,
    {
        let (a, b) = rs[i];
        assert(pieces[i as int] == cs@.subrange(a as int, b as int));
        let end = if b > a && cs[b - 1] == '\r' {
            b - 1
        } else {
            b
        };
        assert(cs@.subrange(a as int, end as int) =~= strip_cr(pieces[i as int]));
        let ghost before = string_views(out@);
        out.push(string_of_range(&cs, a, end));
        assert(string_views(out@) =~= before.push(ended[i as int]));
        assert(ended.take(i + 1) =~= ended.take(i as int).push(ended[i as int]));
        i += 1;
    }
    assert(ended.take(i as int) =~= ended);
    let (a, b) = rs[count - 1];
    assert(pieces.last() == cs@.subrange(a as int, b as int));
    if a < b {
        let ghost before = string_views(out@);
        out.push(string_of_range(&cs, a, b));
        assert(string_views(out@) =~= before.push(pieces.last()));
    }
    assert(cs@ == text@);
    out
}

/// The first `n` characters of `s` (`s.chars().take(n)`).
pub fn take_chars(s: &str, n: usize) -> (r: String)
    ensures
        r@ == prefix(s@, n as int),
{
    let cs = chars_of(s);
    let end = if n < cs.len() {
        n
    } else {
        cs.len()
    };
    assert(cs@.subrange(0, end as int) =~= prefix(s@, n as int));
    string_of_range(&cs, 0, end)
}

/// A preview of `s`: its first `max_lines` lines joined with spaces, cut to
/// `max_chars` characters.
pub open spec fn line_preview(s: Seq<char>, max_lines: int, max_chars: int) -> Seq<char> {
    prefix(join_with(prefix(lines_of(s), max_lines), " "@), max_chars)
}

/// A preview of `text`: its first `max_lines` lines joined with spaces, cut
/// to `max_chars` characters.
pub fn preview_lines(text: &str, max_lines: usize, max_chars: usize) -> (r: String)
    ensures
        r@ == line_preview(text@, max_lines as int, max_chars as int),
{
    let all = lines(text);
    let k = if max_lines < all.len() {
        max_lines
    } else {
        all.len()
    };
    let mut first: Vec<String> = Vec::new();
    let mut i: usize = 0;
    while i < k
        invariant
            k <= all@.len(),
            i <= k,
            string_views(first@) == string_views(all@).take(i as int),
        decreases k - i,
    {
        let ghost before = string_views(first@);
        let line = all[i].clone();
        assert(line@ == all@[i as int]@);
        first.push(line);
        assert(string_views(first@) =~= before.push(all@[i as int]@));
        assert(string_views(all@).take(i + 1) =~= string_views(all@).take(i as int).push(
            all@[i as int]@,
        ));
        i += 1;
    }
    assert(string_views(first@) =~= prefix(lines_of(text@), max_lines as int));
    let joined = join_strings(&first, " ");
    take_chars(joined.as_str(), max_chars)
}

/// `s` with every line feed replaced by a space.
pub open spec fn newlines_to_spaces(s: Seq<char>) -> Seq<char> {
    s.map_values(|c: char| if c == '\n' { ' ' } else { c })
}

/// The first `max_chars` characters of `text`, on one line.
pub fn flat_preview(text: &str, max_chars: usize) -> (r: String)
    ensures
        r@ == newlines_to_spaces(prefix(text@, max_chars as int)),
{
    let cs = chars_of(text);
    let end = if max_chars < cs.len() {
        max_chars
    } else {
        cs.len()
    };
    let mut r = String::new();
    let mut i: usize = 0;
    while i < end
        invariant
            end <= cs@.len(),
            i <= end,
            r@ == newlines_to_spaces(cs@.take(i as int)),
        decreases end - i,
    {
        let c = cs[i];
        if c == '\n' {
            push_char(&mut r, ' ');
        } else {
            push_char(&mut r, c);
        }
        assert(r@ =~= newlines_to_spaces(cs@.take(i + 1)));
        i += 1;
    }
    assert(cs@.take(end as int) =~= prefix(text@, max_chars as int));
    r
}

} // verus!
