//! Word windows for map-reduce over long transcripts.

use vstd::prelude::*;
use crate::chars::{words, join, words_of, append_joined, string_of, lemma_words_of_join, lemma_runs_are_clean, CharClass};

verus! {

/// Window size actually used: at least one word.
pub open spec fn clamp_words(max_words: usize) -> int {
    if max_words < 1 { 1 } else { max_words as int }
}

/// The `i`-th window: words `i*m .. min((i+1)*m, n)` joined with single spaces.
pub open spec fn window_text(ws: Seq<Seq<char>>, m: int, i: int) -> Seq<char> {
    let lo = i * m;
    let hi = if lo + m < ws.len() { lo + m } else { ws.len() as int };
    join(ws.subrange(lo, hi), seq![' '])
}

/// `r` holds the windows of the words `ws`, `m` words each (the last one may be
/// shorter): as many as it takes to hold every word, and no empty one.
pub open spec fn is_windowing(r: Seq<Seq<char>>, ws: Seq<Seq<char>>, m: int) -> bool {
    &&& r.len() == (ws.len() + m - 1) / m
    &&& forall|i: int| 0 <= i < r.len() ==> #[trigger] r[i] == window_text(ws, m, i)
}

/// Split `text` into windows of at most `max_words` words (at least one) each,
/// words separated by single spaces. Empty or white-space-only text gives no
/// window.
pub fn split_into_windows(text: &str, max_words: usize) -> (r: Vec<String>)
    ensures
        is_windowing(r.deep_view(), words(text@), clamp_words(max_words)),
{
    let m: usize = if max_words < 1 { 1 } else { max_words };
    let ws = words_of(text);
    let n = ws.len();
    let ghost wsv = ws.deep_view();
    let sep: Vec<char> = vec![' '];
    let mut out: Vec<String> = Vec::new();
    let mut start: usize = 0;
    let mut k: usize = 0;
    while start < n
        invariant
            m == clamp_words(max_words),
            m >= 1,
            n == ws.len(),
            wsv == ws.deep_view(),
            wsv == words(text@),
            sep@ == seq![' '],
            start == k * m,
            k <= start,
            start < n || n == 0,
            start <= n,
            out.len() == k,
            forall|i: int| 0 <= i < k ==> #[trigger] out.deep_view()[i] == window_text(wsv, m as int, i),
        decreases n + m - start,
    {
        let end: usize = if n - start <= m { n } else { start + m };
        let mut w: Vec<char> = Vec::new();
        append_joined(&mut w, &ws, start, end, &sep);
        let s = string_of(&w);
        let ghost before = out.deep_view();
        out.push(s);
        assert(out.deep_view() =~= before.push(s@));
        assert(out.deep_view()[k as int] == window_text(wsv, m as int, k as int));
        if n - start <= m {
            start = n;
            proof {
                assert((k + 1) * m >= n) by (nonlinear_arith)
                    requires start == n, k * m + m >= n, m >= 1;
                assert(((n + m - 1) / (m as int)) == k + 1) by (nonlinear_arith)
                    requires k * m < n, (k + 1) * m >= n, m >= 1;
            }
            k = k + 1;
            assert(out.len() == (n + m - 1) / (m as int));
            return out;
        }
        start = start + m;
        assert(k < start);
        k = k + 1;
        assert(start == k * m) by (nonlinear_arith)
            requires start == (k - 1) * m + m;
    }
    proof {
        assert(n == 0 && k == 0);
        assert(((n + m - 1) / (m as int)) == k) by (nonlinear_arith)
            requires n == 0, k == 0, m >= 1;
    }
    out
}

/// Bounds of window `i`.
proof fn lemma_window_bounds(n: int, m: int, i: int)
    requires
        m >= 1,
        0 <= i < (n + m - 1) / m,
    ensures
        0 <= i * m < n,
        i < (n + m - 1) / m - 1 ==> i * m + m < n,
        i * m + m >= n ==> i == (n + m - 1) / m - 1,
{
    assert(0 <= i * m) by (nonlinear_arith) requires 0 <= i, m >= 1;
    assert(i * m < n) by (nonlinear_arith) requires 0 <= i < (n + m - 1) / m, m >= 1;
    if i < (n + m - 1) / m - 1 {
        assert(i * m + m < n) by (nonlinear_arith) requires i + 1 < (n + m - 1) / m, m >= 1;
    }
    if i * m + m >= n {
        assert(i >= (n + m - 1) / m - 1) by (nonlinear_arith) requires i * m + m >= n, m >= 1;
    }
}

proof fn lemma_word_in_window(r: Seq<Seq<char>>, text: Seq<char>, m: int, j: int)
    requires
        m >= 1,
        is_windowing(r, words(text), m),
        0 <= j < words(text).len(),
    ensures
        j / m < r.len(),
        words(text)[j] == words(r[j / m])[j % m],
{
    let ws = words(text);
    let n = ws.len() as int;
    lemma_runs_are_clean(text, CharClass::Whitespace);
    let i = j / m;
    assert(0 <= i < (n + m - 1) / m && i * m <= j < i * m + m && j % m == j - i * m) by (nonlinear_arith)
        requires 0 <= j < n, m >= 1, i == j / m;
    lemma_window_bounds(n, m, i);
    let lo = i * m;
    let hi = if lo + m < n { lo + m } else { n };
    let sub = ws.subrange(lo, hi);
    assert forall|q: int| 0 <= q < sub.len() implies (#[trigger] sub[q]).len() > 0 && crate::chars::free_of(sub[q], CharClass::Whitespace) by {
        assert(sub[q] == ws[lo + q]);
    }
    lemma_words_of_join(sub);
    assert(r[i] == window_text(ws, m, i));
    assert(words(r[i]) == sub);
    assert(sub[j - lo] == ws[j]);
}

/// What windowing guarantees: re-splitting window `i` gives exactly words
/// `i*m ..` of the text, at least one and at most `m` of them, exactly `m`
/// for every window but the last; so word `j` of the text is word `j % m` of
/// window `j / m`, and every word lands in exactly one window, in order.
pub proof fn lemma_windowing_laws(r: Seq<Seq<char>>, text: Seq<char>, m: int)
    requires
        m >= 1,
        is_windowing(r, words(text), m),
    ensures
        words(text).len() == 0 <==> r.len() == 0,
        forall|i: int| 0 <= i < r.len() ==> {
            &&& 1 <= #[trigger] words(r[i]).len() <= m
            &&& words(r[i]) == words(text).subrange(i * m, i * m + words(r[i]).len())
            &&& i < r.len() - 1 ==> words(r[i]).len() == m
        },
        forall|j: int| 0 <= j < words(text).len() ==> #[trigger] (j / m) < r.len(),
        forall|j: int| #![trigger words(text)[j]] 0 <= j < words(text).len() ==> words(text)[j] == words(r[j / m])[j % m],
{
    let ws = words(text);
    let n = ws.len() as int;
    lemma_runs_are_clean(text, CharClass::Whitespace);
    assert forall|i: int| 0 <= i < r.len() implies {
        &&& 1 <= #[trigger] words(r[i]).len() <= m
        &&& words(r[i]) == words(text).subrange(i * m, i * m + words(r[i]).len())
        &&& i < r.len() - 1 ==> words(r[i]).len() == m
    } by {
        lemma_window_bounds(n, m, i);
        let lo = i * m;
        let hi = if lo + m < n { lo + m } else { n };
        let sub = ws.subrange(lo, hi);
        assert forall|q: int| 0 <= q < sub.len() implies (#[trigger] sub[q]).len() > 0 && crate::chars::free_of(sub[q], CharClass::Whitespace) by {
            assert(sub[q] == ws[lo + q]);
        }
        lemma_words_of_join(sub);
        assert(r[i] == window_text(ws, m, i));
    }
    if n > 0 {
        assert((n + m - 1) / m >= 1) by (nonlinear_arith) requires n >= 1, m >= 1;
    } else {
        assert((n + m - 1) / m == 0) by (nonlinear_arith) requires n == 0, m >= 1;
    }
    assert forall|j: int| #![trigger words(text)[j]] 0 <= j < words(text).len() implies words(text)[j] == words(r[j / m])[j % m] by {
        lemma_word_in_window(r, text, m, j);
    }
    assert forall|j: int| 0 <= j < words(text).len() implies #[trigger] (j / m) < r.len() by {
        lemma_word_in_window(r, text, m, j);
    }
}

} // verus!
