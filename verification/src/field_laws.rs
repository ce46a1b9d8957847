//! What taking a text apart gives back of it.

use crate::fields;
use vstd::prelude::*;

verus! {

/// White space is what Unicode counts as such, by its numbers.
pub proof fn law_what_counts_as_white_space(c: char)
    ensures
        fields::is_space(c) <==> {
            let n = c as u32;
            ||| 9 <= n <= 13
            ||| n == 32
            ||| n == 0x85
            ||| n == 0xa0
            ||| n == 0x1680
            ||| 0x2000 <= n <= 0x200a
            ||| 0x2028 <= n <= 0x2029
            ||| n == 0x202f
            ||| n == 0x205f
            ||| n == 0x3000
        },
{
}

/// Trimming takes away white space at both ends, all of it, and nothing else; nothing is left
/// exactly where there was nothing but white space.
pub proof fn law_what_trimming_leaves(s: Seq<char>) -> (ends: (int, int))
    ensures
        0 <= ends.0 <= ends.1 <= s.len(),
        fields::trimmed(s) == s.subrange(ends.0, ends.1),
        forall|i: int| 0 <= i < ends.0 || ends.1 <= i < s.len() ==> fields::is_space(
            #[trigger] s[i],
        ),
        ends.0 < ends.1 ==> !fields::is_space(s[ends.0]) && !fields::is_space(s[ends.1 - 1]),
        fields::blank(s) <==> fields::trimmed(s).len() == 0,
{
    let a = lemma_start(s);
    let t = s.skip(a);
    let b = lemma_end(t);
    assert(t.take(b) =~= s.subrange(a, a + b));
    assert forall|i: int| 0 <= i < a || a + b <= i < s.len() implies fields::is_space(
        #[trigger] s[i],
    ) by {
        if i >= a {
            assert(t[i - a] == s[i]);
        }
    }
    if b > 0 {
        assert(t[0] == s[a] && t[b - 1] == s[a + b - 1]);
        assert(!fields::is_space(s[a]));
    }
    (a, a + b)
}

proof fn lemma_start(s: Seq<char>) -> (n: int)
    ensures
        0 <= n <= s.len(),
        fields::trimmed_start(s) == s.skip(n),
        forall|i: int| 0 <= i < n ==> fields::is_space(#[trigger] s[i]),
        n < s.len() ==> !fields::is_space(s[n]),
    decreases s.len(),
{
    if s.len() > 0 && fields::is_space(s[0]) {
        let r = s.drop_first();
        let n = lemma_start(r);
        assert(r.skip(n) =~= s.skip(n + 1));
        assert forall|i: int| 0 <= i < n + 1 implies fields::is_space(#[trigger] s[i]) by {
            if i > 0 {
                assert(r[i - 1] == s[i]);
            }
        }
        n + 1
    } else {
        assert(s.skip(0) =~= s);
        0
    }
}

proof fn lemma_end(s: Seq<char>) -> (n: int)
    ensures
        0 <= n <= s.len(),
        fields::trimmed_end(s) == s.take(n),
        forall|i: int| n <= i < s.len() ==> fields::is_space(#[trigger] s[i]),
        n > 0 ==> !fields::is_space(s[n - 1]),
    decreases s.len(),
{
    if s.len() > 0 && fields::is_space(s.last()) {
        let r = s.drop_last();
        let n = lemma_end(r);
        assert(r.take(n) =~= s.take(n));
        assert forall|i: int| n <= i < s.len() implies fields::is_space(#[trigger] s[i]) by {
            if i < r.len() {
                assert(r[i] == s[i]);
            }
        }
        n
    } else {
        assert(s.take(s.len() as int) =~= s);
        s.len() as int
    }
}

// ── words ────────────────────────────────────────────────────────────────────
/// A word: something, and no white space in it.
pub open spec fn is_word(w: Seq<char>) -> bool {
    w.len() > 0 && forall|i: int| 0 <= i < w.len() ==> !fields::is_space(#[trigger] w[i])
}

/// Words come out one by one, as they stand: one that white space or the end follows is the
/// first, and the rest gives the others; white space in front counts for nothing.
pub proof fn law_how_words_come_out(w: Seq<char>, gap: char, rest: Seq<char>)
    requires
        is_word(w),
        fields::is_space(gap),
    ensures
        fields::words(w + seq![gap] + rest) == seq![w] + fields::words(rest),
        fields::words(w) == seq![w],
        fields::words(seq![gap] + rest) == fields::words(rest),
        fields::words(Seq::empty()).len() == 0,
{
    reveal_with_fuel(fields::words, 2);
    let s = w + seq![gap] + rest;
    lemma_word(w, seq![gap] + rest);
    lemma_word(w, Seq::empty());
    assert(w + (seq![gap] + rest) =~= s);
    assert(w + Seq::<char>::empty() =~= w);
    assert(s.take(w.len() as int) =~= w);
    assert(s.skip(w.len() as int) =~= seq![gap] + rest);
    assert((seq![gap] + rest).drop_first() =~= rest);
    assert(w.take(w.len() as int) =~= w);
    assert(w.skip(w.len() as int) =~= Seq::empty());
    assert(!fields::is_space(w[0]));
    assert(s[0] == w[0]);
    assert(fields::words(seq![gap] + rest) == fields::words(rest));
    assert(fields::words(Seq::empty()) =~= Seq::empty());
    assert(seq![w] + Seq::<Seq<char>>::empty() =~= seq![w]);
}

proof fn lemma_word(w: Seq<char>, rest: Seq<char>)
    requires
        forall|i: int| 0 <= i < w.len() ==> !fields::is_space(#[trigger] w[i]),
        rest.len() > 0 ==> fields::is_space(rest[0]),
    ensures
        fields::word_len(w + rest) == w.len(),
    decreases w.len(),
{
    let s = w + rest;
    if w.len() > 0 {
        let v = w.drop_first();
        assert forall|i: int| 0 <= i < v.len() implies !fields::is_space(#[trigger] v[i]) by {
            assert(v[i] == w[i + 1]);
        }
        lemma_word(v, rest);
        assert(s.drop_first() =~= v + rest);
        assert(!fields::is_space(w[0]));
        assert(s[0] == w[0]);
    } else if rest.len() > 0 {
        assert(s[0] == rest[0]);
    }
}

// ── lines ────────────────────────────────────────────────────────────────────
/// Lines come out one by one without their endings, be these a line feed or a carriage return
/// and a line feed. The last one needs no ending, and an ending at the very end begins no line.
pub proof fn law_how_lines_come_out(l: Seq<char>, rest: Seq<char>)
    requires
        !l.contains('\n'),
    ensures
        l.len() == 0 || l.last() != '\r' ==> fields::lines(l + seq!['\n'] + rest) == seq![l]
            + fields::lines(rest),
        fields::lines(l + seq!['\r', '\n'] + rest) == seq![l] + fields::lines(rest),
        l.len() > 0 ==> fields::lines(l) == seq![l],
        fields::lines(Seq::empty()).len() == 0,
{
    lemma_a_line(l, rest);
    let r = l.push('\r');
    assert(!r.contains('\n')) by {
        if r.contains('\n') {
            let i = choose|i: int| 0 <= i < r.len() && r[i] == '\n';
            assert(l[i] == '\n');
        }
    }
    lemma_a_line(r, rest);
    assert(r + seq!['\n'] + rest =~= l + seq!['\r', '\n'] + rest);
    assert(r.drop_last() =~= l);
    lemma_line(l, Seq::empty());
    assert(l + Seq::<char>::empty() =~= l);
}

proof fn lemma_a_line(l: Seq<char>, rest: Seq<char>)
    requires
        !l.contains('\n'),
    ensures
        fields::lines(l + seq!['\n'] + rest) == seq![fields::ended(l)] + fields::lines(rest),
{
    let s = l + seq!['\n'] + rest;
    lemma_line(l, seq!['\n'] + rest);
    assert(l + (seq!['\n'] + rest) =~= s);
    assert(s.take(l.len() as int) =~= l);
    assert(s.skip(l.len() as int + 1) =~= rest);
}

proof fn lemma_line(l: Seq<char>, rest: Seq<char>)
    requires
        !l.contains('\n'),
        rest.len() > 0 ==> rest[0] == '\n',
    ensures
        fields::line_len(l + rest) == l.len(),
    decreases l.len(),
{
    let s = l + rest;
    if l.len() > 0 {
        let v = l.drop_first();
        assert(!v.contains('\n')) by {
            if v.contains('\n') {
                let i = choose|i: int| 0 <= i < v.len() && v[i] == '\n';
                assert(l[i + 1] == '\n');
            }
        }
        lemma_line(v, rest);
        assert(s.drop_first() =~= v + rest);
        assert(l[0] != '\n');
        assert(s[0] == l[0]);
    } else if rest.len() > 0 {
        assert(s[0] == rest[0]);
    }
}

// ── where one text stands in another ─────────────────────────────────────────
/// One text stands in another exactly where it does character by character.
pub proof fn law_what_standing_at_a_place_means(s: Seq<char>, pat: Seq<char>, i: int)
    ensures
        fields::stands_at(s, pat, i) <==> 0 <= i <= s.len() - pat.len() && forall|k: int|
            0 <= k < pat.len() ==> s[i + k] == #[trigger] pat[k],
        0 <= i <= s.len() ==> fields::occurs(s.take(i) + pat + s.skip(i), pat),
{
    if fields::stands_at(s, pat, i) {
        assert forall|k: int| 0 <= k < pat.len() implies s[i + k] == #[trigger] pat[k] by {
            assert(s.subrange(i, i + pat.len())[k] == pat[k]);
        }
    } else if 0 <= i <= s.len() - pat.len() {
        if forall|k: int| 0 <= k < pat.len() ==> s[i + k] == #[trigger] pat[k] {
            assert(s.subrange(i, i + pat.len()) =~= pat);
        }
    }
    if 0 <= i <= s.len() {
        let t = s.take(i) + pat + s.skip(i);
        assert(t.subrange(i, i + pat.len()) =~= pat);
        assert(fields::stands_at(t, pat, i));
    }
}

/// A text is cut at the first place where the other stands: put together again it is the same,
/// and the part in front does not hold the other. It is left whole exactly where the other does
/// not stand in it.
pub proof fn law_where_a_text_is_cut(s: Seq<char>, pat: Seq<char>)
    ensures
        fields::cut_at(s, pat) is None <==> !fields::occurs(s, pat),
        fields::cut_at(s, pat) matches Some(p) ==> p.0 + pat + p.1 == s && (pat.len() > 0
            ==> !fields::occurs(p.0, pat)),
{
    if fields::occurs(s, pat) {
        let j = choose|j: int| #[trigger] fields::stands_at(s, pat, j);
        fields::lemma_first_exists(s, pat, j);
        let i = choose|i: int| fields::first_at(s, pat, i);
        fields::lemma_cut(s, pat, i);
        assert(s.take(i) + pat + s.skip(i + pat.len()) =~= s) by {
            assert(s.subrange(i, i + pat.len()) == pat);
            assert(s =~= s.take(i) + s.subrange(i, i + pat.len()) + s.skip(i + pat.len()));
        }
        if pat.len() > 0 {
            assert forall|k: int| !#[trigger] fields::stands_at(s.take(i), pat, k) by {
                if fields::stands_at(s.take(i), pat, k) {
                    assert(s.take(i).subrange(k, k + pat.len()) =~= s.subrange(k, k + pat.len()));
                    assert(fields::stands_at(s, pat, k));
                }
            }
        }
    }
}

/// Replacing changes a text from the left, at each place where the other stands, and nowhere
/// else.
pub proof fn law_what_replacing_changes(a: Seq<char>, pat: Seq<char>, b: Seq<char>, to: Seq<char>)
    requires
        pat.len() > 0,
    ensures
        !fields::occurs(a, pat) ==> fields::replaced(a, pat, to) == a,
        fields::first_at(a + pat + b, pat, a.len() as int) ==> fields::replaced(
            a + pat + b,
            pat,
            to,
        ) == a + to + fields::replaced(b, pat, to),
{
    let s = a + pat + b;
    if fields::first_at(s, pat, a.len() as int) {
        fields::lemma_cut(s, pat, a.len() as int);
        assert(s.take(a.len() as int) =~= a);
        assert(s.skip(a.len() as int + pat.len()) =~= b);
    }
}

} // verus!
