//! Taking text apart: lines, words, fields, and where one text occurs in another.

use vstd::prelude::*;

verus! {

/// Texts held as characters.
pub open spec fn rows(v: Seq<Vec<char>>) -> Seq<Seq<char>> {
    v.map_values(|r: Vec<char>| r@)
}

// ── occurrences ──────────────────────────────────────────────────────────────
/// `pat` stands in `s` at position `i`.
pub open spec fn stands_at(s: Seq<char>, pat: Seq<char>, i: int) -> bool {
    0 <= i && i + pat.len() <= s.len() && s.subrange(i, i + pat.len()) == pat
}

/// `pat` stands somewhere in `s`.
pub open spec fn occurs(s: Seq<char>, pat: Seq<char>) -> bool {
    exists|i: int| #[trigger] stands_at(s, pat, i)
}

/// `i` is the first position of `pat` in `s`.
pub open spec fn first_at(s: Seq<char>, pat: Seq<char>, i: int) -> bool {
    stands_at(s, pat, i) && forall|j: int| 0 <= j < i ==> !#[trigger] stands_at(s, pat, j)
}

fn is_at(s: &[char], pat: &[char], i: usize) -> (r: bool)
    requires
        i <= s.len(),
    ensures
        r == stands_at(s@, pat@, i as int),
{
    if pat.len() > s.len() - i {
        return false;
    }
    let mut k: usize = 0;
    while k < pat.len()
        invariant
            k <= pat.len(),
            i + pat.len() <= s.len(),
            forall|j: int| 0 <= j < k ==> s@[i + j] == pat@[j],
        decreases pat.len() - k,
    {
        if s[i + k] != pat[k] {
            assert(s@.subrange(i as int, i + pat@.len())[k as int] != pat@[k as int]);
            return false;
        }
        k += 1;
    }
    assert(s@.subrange(i as int, i + pat@.len()) =~= pat@);
    true
}

/// The first position of `pat` in `s`, if it stands there at all.
pub fn find(s: &[char], pat: &[char]) -> (r: Option<usize>)
    ensures
        match r {
            Some(i) => first_at(s@, pat@, i as int),
            None => !occurs(s@, pat@),
        },
{
    let mut i: usize = 0;
    loop
        invariant
            i <= s.len(),
            forall|j: int| 0 <= j < i ==> !#[trigger] stands_at(s@, pat@, j),
        decreases s.len() - i,
    {
        if is_at(s, pat, i) {
            return Some(i);
        }
        if i == s.len() {
            return None;
        }
        i += 1;
    }
}

/// Whether `pat` stands in `s`.
pub fn contains(s: &[char], pat: &[char]) -> (r: bool)
    ensures
        r == occurs(s@, pat@),
{
    match find(s, pat) {
        Some(i) => {
            assert(stands_at(s@, pat@, i as int));
            true
        },
        None => false,
    }
}

/// The first position is one of a kind.
pub proof fn lemma_first_unique(s: Seq<char>, pat: Seq<char>, i: int, j: int)
    requires
        first_at(s, pat, i),
        first_at(s, pat, j),
    ensures
        i == j,
{
    if i < j {
        assert(stands_at(s, pat, i));
    } else if j < i {
        assert(stands_at(s, pat, j));
    }
}

/// What stands before and after the first `pat`.
pub open spec fn cut_at(s: Seq<char>, pat: Seq<char>) -> Option<(Seq<char>, Seq<char>)> {
    if occurs(s, pat) {
        let i = choose|i: int| first_at(s, pat, i);
        Some((s.take(i), s.skip(i + pat.len())))
    } else {
        None
    }
}

/// Where the first occurrence stands, what `cut_at` gives.
pub proof fn lemma_cut(s: Seq<char>, pat: Seq<char>, i: int)
    requires
        first_at(s, pat, i),
    ensures
        cut_at(s, pat) == Some((s.take(i), s.skip(i + pat.len()))),
{
    assert(stands_at(s, pat, i));
    let c = choose|c: int| first_at(s, pat, c);
    lemma_first_unique(s, pat, i, c);
}

/// What stands before and after the first `pat`, if it stands in `s`.
pub fn split_once(s: &[char], pat: &[char]) -> (r: Option<(Vec<char>, Vec<char>)>)
    ensures
        match r {
            Some(p) => cut_at(s@, pat@) == Some((p.0@, p.1@)),
            None => cut_at(s@, pat@) is None,
        },
{
    match find(s, pat) {
        Some(i) => {
            proof {
                lemma_cut(s@, pat@, i as int);
            }
            let n = s.len();
            Some((slice(s, 0, i), slice(s, i + pat.len(), n)))
        },
        None => None,
    }
}

/// A stretch of `s`.
pub fn slice(s: &[char], from: usize, to: usize) -> (r: Vec<char>)
    requires
        from <= to <= s.len(),
    ensures
        r@ == s@.subrange(from as int, to as int),
{
    let mut r: Vec<char> = Vec::new();
    let mut i: usize = from;
    while i < to
        invariant
            from <= i <= to <= s.len(),
            r@ == s@.subrange(from as int, i as int),
        decreases to - i,
    {
        r.push(s[i]);
        assert(s@.subrange(from as int, i + 1) =~= s@.subrange(from as int, i as int).push(
            s@[i as int],
        ));
        i += 1;
    }
    r
}

/// `s` with every `pat` in it, read from the left, made `to`. `pat` is not empty.
pub open spec fn replaced(s: Seq<char>, pat: Seq<char>, to: Seq<char>) -> Seq<char>
    decreases s.len(),
{
    match cut_at(s, pat) {
        Some(p) => if p.1.len() < s.len() {
            p.0 + to + replaced(p.1, pat, to)
        } else {
            s
        },
        None => s,
    }
}

/// Where `pat` stands at the front, it is replaced there and the reading goes on behind it.
pub proof fn lemma_replaced_here(s: Seq<char>, pat: Seq<char>, to: Seq<char>)
    requires
        pat.len() > 0,
        stands_at(s, pat, 0),
    ensures
        replaced(s, pat, to) == to + replaced(s.skip(pat.len() as int), pat, to),
{
    assert(first_at(s, pat, 0));
    lemma_cut(s, pat, 0);
    assert(s.take(0) + to =~= to);
}

/// Where it does not, the first character stays.
pub proof fn lemma_replaced_later(s: Seq<char>, pat: Seq<char>, to: Seq<char>)
    requires
        pat.len() > 0,
        s.len() > 0,
        !stands_at(s, pat, 0),
    ensures
        replaced(s, pat, to) == seq![s[0]] + replaced(s.drop_first(), pat, to),
{
    let r = s.drop_first();
    assert forall|i: int| 1 <= i implies #[trigger] stands_at(s, pat, i) == stands_at(
        r,
        pat,
        i - 1,
    ) by {
        if i + pat.len() <= s.len() {
            assert(s.subrange(i, i + pat.len()) =~= r.subrange(i - 1, i - 1 + pat.len()));
        }
    }
    if occurs(r, pat) {
        let j = choose|j: int| #[trigger] stands_at(r, pat, j);
        assert(stands_at(s, pat, j + 1));
        lemma_first_exists(r, pat, j);
        let i = choose|i: int| first_at(r, pat, i);
        assert forall|k: int| 0 <= k < i + 1 implies !#[trigger] stands_at(s, pat, k) by {
            if k > 0 {
                assert(stands_at(s, pat, k) == stands_at(r, pat, k - 1));
            }
        }
        assert(stands_at(s, pat, i + 1));
        assert(first_at(s, pat, i + 1));
        lemma_cut(s, pat, i + 1);
        lemma_cut(r, pat, i);
        assert(s.take(i + 1) =~= seq![s[0]] + r.take(i));
        assert(s.skip(i + 1 + pat.len()) =~= r.skip(i + pat.len()));
        let behind = replaced(r.skip(i + pat.len()), pat, to);
        assert(s.take(i + 1) + to + behind =~= seq![s[0]] + (r.take(i) + to + behind));
    } else {
        assert forall|k: int| !#[trigger] stands_at(s, pat, k) by {
            if k > 0 && stands_at(s, pat, k) {
                assert(stands_at(r, pat, k - 1));
            }
        }
        assert(seq![s[0]] + r =~= s);
    }
}

/// What stands somewhere has a first place.
pub proof fn lemma_first_exists(s: Seq<char>, pat: Seq<char>, j: int)
    requires
        stands_at(s, pat, j),
    ensures
        exists|i: int| first_at(s, pat, i),
    decreases j,
{
    if exists|k: int| 0 <= k < j && #[trigger] stands_at(s, pat, k) {
        let k = choose|k: int| 0 <= k < j && #[trigger] stands_at(s, pat, k);
        lemma_first_exists(s, pat, k);
    } else {
        assert(first_at(s, pat, j));
    }
}

/// Makes every `pat` into `to`, read from the left.
pub fn replace(s: &[char], pat: &[char], to: &[char]) -> (r: Vec<char>)
    requires
        pat.len() > 0,
    ensures
        r@ == replaced(s@, pat@, to@),
{
    let mut r: Vec<char> = Vec::new();
    let mut rest: Vec<char> = slice(s, 0, s.len());
    assert(rest@ =~= s@);
    loop
        invariant
            pat.len() > 0,
            replaced(s@, pat@, to@) == r@ + replaced(rest@, pat@, to@),
        decreases rest.len(),
    {
        match find(rest.as_slice(), pat) {
            Some(i) => {
                let ghost before = rest@;
                proof {
                    lemma_cut(before, pat@, i as int);
                }
                let head = slice(rest.as_slice(), 0, i);
                let tail = slice(rest.as_slice(), i + pat.len(), rest.len());
                let ghost r0 = r@;
                extend(&mut r, &head);
                extend_slice(&mut r, to);
                assert(head@ =~= before.take(i as int));
                assert(tail@ =~= before.skip(i + pat@.len()));
                assert(r0 + (head@ + to@ + replaced(tail@, pat@, to@)) =~= r@ + replaced(
                    tail@,
                    pat@,
                    to@,
                ));
                rest = tail;
            },
            None => {
                extend(&mut r, &rest);
                return r;
            },
        }
    }
}

/// Adds what `more` holds.
pub fn extend(r: &mut Vec<char>, more: &Vec<char>)
    ensures
        final(r)@ == old(r)@ + more@,
{
    extend_slice(r, more.as_slice())
}

fn extend_slice(r: &mut Vec<char>, more: &[char])
    ensures
        final(r)@ == old(r)@ + more@,
{
    let mut i: usize = 0;
    let ghost before = r@;
    assert(before + more@.take(0) =~= before);
    while i < more.len()
        invariant
            i <= more.len(),
            r@ == before + more@.take(i as int),
        decreases more.len() - i,
    {
        r.push(more[i]);
        assert(before + more@.take(i + 1) =~= (before + more@.take(i as int)).push(
            more@[i as int],
        ));
        i += 1;
    }
    assert(more@.take(i as int) =~= more@);
}

// ── white space ──────────────────────────────────────────────────────────────
/// The characters that Unicode counts as white space.
pub open spec fn is_space(c: char) -> bool {
    ||| '\u{9}' <= c <= '\u{d}'
    ||| c == ' '
    ||| c == '\u{85}'
    ||| c == '\u{a0}'
    ||| c == '\u{1680}'
    ||| '\u{2000}' <= c <= '\u{200a}'
    ||| c == '\u{2028}'
    ||| c == '\u{2029}'
    ||| c == '\u{202f}'
    ||| c == '\u{205f}'
    ||| c == '\u{3000}'
}

/// Whether `c` is white space.
pub fn whitespace(c: char) -> (r: bool)
    ensures
        r == is_space(c),
{
    ('\u{9}' <= c && c <= '\u{d}') || c == ' ' || c == '\u{85}' || c == '\u{a0}' || c
        == '\u{1680}' || ('\u{2000}' <= c && c <= '\u{200a}') || c == '\u{2028}' || c == '\u{2029}'
        || c == '\u{202f}' || c == '\u{205f}' || c == '\u{3000}'
}

/// Nothing but white space.
pub open spec fn blank(s: Seq<char>) -> bool {
    forall|i: int| 0 <= i < s.len() ==> is_space(#[trigger] s[i])
}

/// Whether there is nothing but white space.
pub fn is_blank(s: &[char]) -> (r: bool)
    ensures
        r == blank(s@),
{
    let mut i: usize = 0;
    while i < s.len()
        invariant
            i <= s.len(),
            forall|k: int| 0 <= k < i ==> is_space(#[trigger] s@[k]),
        decreases s.len() - i,
    {
        if !whitespace(s[i]) {
            assert(!is_space(s@[i as int]));
            return false;
        }
        i += 1;
    }
    true
}

/// `s` without the white space before it.
pub open spec fn trimmed_start(s: Seq<char>) -> Seq<char>
    decreases s.len(),
{
    if s.len() > 0 && is_space(s[0]) {
        trimmed_start(s.drop_first())
    } else {
        s
    }
}

/// `s` without the white space behind it.
pub open spec fn trimmed_end(s: Seq<char>) -> Seq<char>
    decreases s.len(),
{
    if s.len() > 0 && is_space(s.last()) {
        trimmed_end(s.drop_last())
    } else {
        s
    }
}

/// `s` without the white space around it.
pub open spec fn trimmed(s: Seq<char>) -> Seq<char> {
    trimmed_end(trimmed_start(s))
}

/// Takes the white space around `s` away.
pub fn trim(s: &[char]) -> (r: Vec<char>)
    ensures
        r@ == trimmed(s@),
{
    let mut from: usize = 0;
    assert(s@.skip(0) =~= s@);
    while from < s.len() && whitespace(s[from])
        invariant
            from <= s.len(),
            trimmed_start(s@) == trimmed_start(s@.skip(from as int)),
        decreases s.len() - from,
    {
        assert(s@.skip(from as int).drop_first() =~= s@.skip(from + 1));
        from += 1;
    }
    let ghost start = s@.skip(from as int);
    assert(trimmed_start(s@) == start);
    let mut to: usize = s.len();
    assert(s@.subrange(from as int, to as int) =~= start);
    while to > from && whitespace(s[to - 1])
        invariant
            from <= to <= s.len(),
            trimmed_end(start) == trimmed_end(s@.subrange(from as int, to as int)),
        decreases to,
    {
        assert(s@.subrange(from as int, to as int).drop_last() =~= s@.subrange(
            from as int,
            to - 1,
        ));
        to -= 1;
    }
    slice(s, from, to)
}

// ── words and lines ──────────────────────────────────────────────────────────
/// How many characters stand before the first white space.
pub open spec fn word_len(s: Seq<char>) -> int
    decreases s.len(),
{
    if s.len() == 0 || is_space(s[0]) {
        0
    } else {
        1 + word_len(s.drop_first())
    }
}

proof fn lemma_word_len(s: Seq<char>)
    ensures
        0 <= word_len(s) <= s.len(),
    decreases s.len(),
{
    if s.len() > 0 {
        lemma_word_len(s.drop_first());
    }
}

/// The words of `s`: what white space separates.
pub open spec fn words(s: Seq<char>) -> Seq<Seq<char>>
    decreases s.len(),
{
    if s.len() == 0 {
        Seq::empty()
    } else if is_space(s[0]) {
        words(s.drop_first())
    } else if 0 < word_len(s) <= s.len() {
        seq![s.take(word_len(s))] + words(s.skip(word_len(s)))
    } else {
        Seq::empty()
    }
}

/// Splits at white space.
pub fn split_whitespace(s: &[char]) -> (r: Vec<Vec<char>>)
    ensures
        rows(r@) == words(s@),
{
    let mut r: Vec<Vec<char>> = Vec::new();
    let mut i: usize = 0;
    assert(s@.skip(0) =~= s@);
    assert(rows(r@) + words(s@) =~= words(s@));
    while i < s.len()
        invariant
            i <= s.len(),
            words(s@) == rows(r@) + words(s@.skip(i as int)),
        decreases s.len() - i,
    {
        let ghost rest = s@.skip(i as int);
        if whitespace(s[i]) {
            assert(rest.drop_first() =~= s@.skip(i + 1));
            i += 1;
        } else {
            let mut j: usize = i;
            while j < s.len() && !whitespace(s[j])
                invariant
                    i <= j <= s.len(),
                    rest == s@.skip(i as int),
                    word_len(rest) == (j - i) + word_len(s@.skip(j as int)),
                decreases s.len() - j,
            {
                assert(s@.skip(j as int).drop_first() =~= s@.skip(j + 1));
                j += 1;
            }
            assert(word_len(rest) == j - i);
            proof {
                lemma_word_len(rest);
            }
            let w = slice(s, i, j);
            assert(w@ =~= rest.take(word_len(rest)));
            assert(s@.skip(j as int) =~= rest.skip(word_len(rest)));
            let ghost r0 = rows(r@);
            r.push(w);
            assert(rows(r@) =~= r0.push(w@));
            assert(r0 + (seq![w@] + words(s@.skip(j as int))) =~= rows(r@) + words(
                s@.skip(j as int),
            ));
            i = j;
        }
    }
    assert(rows(r@) + words(s@.skip(i as int)) =~= rows(r@));
    r
}

/// The `n`-th word of `s`, counted from none.
pub open spec fn word(s: Seq<char>, n: int) -> Option<Seq<char>> {
    if 0 <= n < words(s).len() {
        Some(words(s)[n])
    } else {
        None
    }
}

/// How many characters stand before the first line feed.
pub open spec fn line_len(s: Seq<char>) -> int
    decreases s.len(),
{
    if s.len() == 0 || s[0] == '\n' {
        0
    } else {
        1 + line_len(s.drop_first())
    }
}

proof fn lemma_line_len(s: Seq<char>)
    ensures
        0 <= line_len(s) <= s.len(),
    decreases s.len(),
{
    if s.len() > 0 {
        lemma_line_len(s.drop_first());
    }
}

/// A line that a line feed ended: a carriage return before it belongs to the ending.
pub open spec fn ended(s: Seq<char>) -> Seq<char> {
    if s.len() > 0 && s.last() == '\r' {
        s.drop_last()
    } else {
        s
    }
}

/// The lines of `s`. The last may lack its ending.
pub open spec fn lines(s: Seq<char>) -> Seq<Seq<char>>
    decreases s.len(),
{
    if s.len() == 0 {
        Seq::empty()
    } else if 0 <= line_len(s) < s.len() {
        seq![ended(s.take(line_len(s)))] + lines(s.skip(line_len(s) + 1))
    } else {
        seq![s]
    }
}

/// Splits into lines.
pub fn lines_of(s: &[char]) -> (r: Vec<Vec<char>>)
    ensures
        rows(r@) == lines(s@),
{
    let mut r: Vec<Vec<char>> = Vec::new();
    let mut i: usize = 0;
    assert(s@.skip(0) =~= s@);
    assert(rows(r@) + lines(s@) =~= lines(s@));
    while i < s.len()
        invariant
            i <= s.len(),
            lines(s@) == rows(r@) + lines(s@.skip(i as int)),
        decreases s.len() - i,
    {
        let ghost rest = s@.skip(i as int);
        let mut j: usize = i;
        while j < s.len() && s[j] != '\n'
            invariant
                i <= j <= s.len(),
                rest == s@.skip(i as int),
                line_len(rest) == (j - i) + line_len(s@.skip(j as int)),
            decreases s.len() - j,
        {
            assert(s@.skip(j as int).drop_first() =~= s@.skip(j + 1));
            j += 1;
        }
        assert(line_len(rest) == j - i);
        let ghost r0 = rows(r@);
        if j < s.len() {
            let end: usize = if j > i && s[j - 1] == '\r' {
                j - 1
            } else {
                j
            };
            let w = slice(s, i, end);
            assert(rest.take(line_len(rest)) =~= s@.subrange(i as int, j as int));
            assert(w@ =~= ended(rest.take(line_len(rest))));
            assert(s@.skip(j + 1) =~= rest.skip(line_len(rest) + 1));
            r.push(w);
            assert(rows(r@) =~= r0.push(w@));
            assert(r0 + (seq![w@] + lines(s@.skip(j + 1))) =~= rows(r@) + lines(s@.skip(j + 1)));
            i = j + 1;
        } else {
            let w = slice(s, i, j);
            assert(w@ =~= rest);
            r.push(w);
            assert(rows(r@) =~= r0.push(w@));
            assert(r0 + seq![rest] =~= rows(r@));
            i = j;
            assert(s@.skip(i as int) =~= Seq::empty());
            assert(rows(r@) + lines(s@.skip(i as int)) =~= rows(r@));
        }
    }
    assert(rows(r@) + lines(s@.skip(i as int)) =~= rows(r@));
    r
}

} // verus!
