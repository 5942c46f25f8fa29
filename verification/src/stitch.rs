//! Joining overlapping chunk transcripts.
//!
//! Audio chunks overlap, so consecutive transcripts share words at the
//! boundary; `stitch` joins them and drops the repeated words.

use vstd::prelude::*;
use crate::chars::{CharClass, words, join, free_of, lemma_words_of_join, lemma_runs_are_clean, lowercase, trim_class, trim_class_of, string_of, to_lowercase, words_of, append_joined, lemma_chars_deep_view};

verus! {

/// Largest number of boundary words compared when looking for an overlap.
pub const MAX_OVERLAP_WORDS: usize = 40;

/// A word as compared across a boundary: non-alphanumeric characters trimmed
/// from both ends, then lowercased.
pub open spec fn norm_word(w: Seq<char>) -> Seq<char> {
    lowercase(trim_class(w, CharClass::NotAlphanumeric))
}

/// The last `len` words of `prev` equal the first `len` words of `next`, word
/// for word after normalization.
pub open spec fn boundary_matches(prev: Seq<Seq<char>>, next: Seq<Seq<char>>, len: int) -> bool {
    forall|t: int| 0 <= t < len ==> #[trigger] norm_word(prev[prev.len() - len + t]) == norm_word(next[t])
}

/// The largest `l` in `1..=len` at which the boundary matches, or 0.
pub open spec fn best_overlap(prev: Seq<Seq<char>>, next: Seq<Seq<char>>, len: int) -> int
    decreases len,
{
    if len <= 0 {
        0
    } else if boundary_matches(prev, next, len) {
        len
    } else {
        best_overlap(prev, next, len - 1)
    }
}

/// Number of words compared at most at a boundary.
pub open spec fn overlap_cap(prev_len: int, next_len: int) -> int {
    let a = if MAX_OVERLAP_WORDS < prev_len { MAX_OVERLAP_WORDS as int } else { prev_len };
    if a < next_len { a } else { next_len }
}

/// Length of the longest suffix of `prev` equal to a prefix of `next`
/// (normalized, at most `MAX_OVERLAP_WORDS` words).
pub open spec fn overlap_len(prev: Seq<Seq<char>>, next: Seq<Seq<char>>) -> int {
    best_overlap(prev, next, overlap_cap(prev.len() as int, next.len() as int))
}

/// The stitched word list: each transcript's words are appended, without the
/// words its start shares with the end of what came before; transcripts
/// without words are skipped.
pub open spec fn stitch_words(ts: Seq<Seq<char>>) -> Seq<Seq<char>>
    decreases ts.len(),
{
    if ts.len() == 0 {
        seq![]
    } else {
        let acc = stitch_words(ts.drop_last());
        let ws = words(ts.last());
        if ws.len() == 0 {
            acc
        } else if acc.len() == 0 {
            ws
        } else {
            acc + ws.subrange(overlap_len(acc, ws), ws.len() as int)
        }
    }
}

/// The stitched transcript: the stitched words joined by single spaces.
pub open spec fn spec_stitch(ts: Seq<Seq<char>>) -> Seq<char> {
    join(stitch_words(ts), seq![' '])
}

fn norm(w: &Vec<char>) -> (r: String)
    ensures
        r@ == norm_word(w@),
{
    let t = trim_class_of(w, CharClass::NotAlphanumeric);
    let s = string_of(&t);
    to_lowercase(s.as_str())
}

fn boundary_matches_at(prev: &Vec<Vec<char>>, next: &Vec<Vec<char>>, len: usize) -> (r: bool)
    requires
        1 <= len <= prev.len(),
        len <= next.len(),
    ensures
        r == boundary_matches(prev.deep_view(), next.deep_view(), len as int),
{
    let pl = prev.len();
    let mut t: usize = 0;
    while t < len
        invariant
            t <= len <= pl == prev.len(),
            len <= next.len(),
            forall|q: int| 0 <= q < t ==> #[trigger] norm_word(prev.deep_view()[pl - len + q]) == norm_word(next.deep_view()[q]),
        decreases len - t,
    {
        let a = norm(&prev[pl - len + t]);
        let b = norm(&next[t]);
        proof {
            lemma_chars_deep_view(&prev@[pl - len + t]);
            lemma_chars_deep_view(&next@[t as int]);
        }
        if a != b {
            let ghost p = prev.deep_view();
            assert(norm_word(p[p.len() - len + t]) != norm_word(next.deep_view()[t as int]));
            return false;
        }
        t = t + 1;
    }
    true
}

/// Length (in words) of the longest suffix of `prev` that equals a prefix of
/// `next`, at most `MAX_OVERLAP_WORDS`; compared case-insensitively with
/// punctuation trimmed.
fn longest_overlap(prev: &Vec<Vec<char>>, next: &Vec<Vec<char>>) -> (r: usize)
    ensures
        r == overlap_len(prev.deep_view(), next.deep_view()),
        r <= prev.len(),
        r <= next.len(),
{
    let a: usize = if MAX_OVERLAP_WORDS < prev.len() { MAX_OVERLAP_WORDS } else { prev.len() };
    let max: usize = if a < next.len() { a } else { next.len() };
    let ghost p = prev.deep_view();
    let ghost q = next.deep_view();
    let mut len: usize = max;
    while len >= 1
        invariant
            len <= max,
            max == overlap_cap(prev.len() as int, next.len() as int),
            max <= prev.len(),
            max <= next.len(),
            p == prev.deep_view(),
            q == next.deep_view(),
            best_overlap(p, q, max as int) == best_overlap(p, q, len as int),
        decreases len,
    {
        if boundary_matches_at(prev, next, len) {
            return len;
        }
        len = len - 1;
    }
    0
}

/// Join transcripts, de-duplicating the overlapping words between each
/// consecutive pair. Transcripts without words are skipped.
pub fn stitch(transcripts: &[String]) -> (r: String)
    ensures
        r@ == spec_stitch(transcripts@.map_values(|t: String| t@)),
{
    let ghost ts = transcripts@.map_values(|t: String| t@);
    let mut result: Vec<Vec<char>> = Vec::new();
    let mut i: usize = 0;
    while i < transcripts.len()
        invariant
            i <= transcripts.len(),
            ts == transcripts@.map_values(|t: String| t@),
            result.deep_view() == stitch_words(ts.take(i as int)),
        decreases transcripts.len() - i,
    {
        assert(ts.take(i + 1).drop_last() == ts.take(i as int));
        assert(ts.take(i + 1).last() == transcripts@[i as int]@);
        let ws = words_of(transcripts[i].as_str());
        if ws.len() == 0 {
        } else if result.len() == 0 {
            result = ws;
        } else {
            let ov = longest_overlap(&result, &ws);
            let ghost before = result.deep_view();
            let mut j = ov;
            while j < ws.len()
                invariant
                    ov <= j <= ws.len(),
                    result.deep_view() == before + ws.deep_view().subrange(ov as int, j as int),
                decreases ws.len() - j,
            {
                let w = ws[j].clone();
                proof {
                    lemma_chars_deep_view(&w);
                    lemma_chars_deep_view(&ws@[j as int]);
                }
                let ghost mid = result.deep_view();
                result.push(w);
                assert(result.deep_view() =~= mid.push(w@));
                j = j + 1;
                assert(result.deep_view() =~= before + ws.deep_view().subrange(ov as int, j as int));
            }
        }
        i = i + 1;
    }
    assert(ts.take(transcripts.len() as int) == ts);
    assert(result.deep_view() == stitch_words(ts));
    let mut out: Vec<char> = Vec::new();
    let sep: Vec<char> = vec![' '];
    append_joined(&mut out, &result, 0, result.len(), &sep);
    assert(result.deep_view().subrange(0, result.len() as int) == result.deep_view());
    assert(sep@ == seq![' ']);
    assert(out@ == spec_stitch(ts));
    string_of(&out)
}

/// The overlap search finds the longest matching boundary within its bound.
proof fn lemma_best_overlap(prev: Seq<Seq<char>>, next: Seq<Seq<char>>, len: int)
    ensures
        0 <= best_overlap(prev, next, len),
        len >= 0 ==> best_overlap(prev, next, len) <= len,
        best_overlap(prev, next, len) > 0 ==> boundary_matches(prev, next, best_overlap(prev, next, len)),
        forall|l: int| best_overlap(prev, next, len) < l <= len ==> !#[trigger] boundary_matches(prev, next, l),
    decreases len,
{
    if len > 0 && !boundary_matches(prev, next, len) {
        lemma_best_overlap(prev, next, len - 1);
    }
}

/// Every stitched word is a non-empty run of non-white-space characters.
proof fn lemma_stitch_words_clean(ts: Seq<Seq<char>>)
    ensures
        forall|i: int| 0 <= i < stitch_words(ts).len() ==> (#[trigger] stitch_words(ts)[i]).len() > 0
            && free_of(stitch_words(ts)[i], CharClass::Whitespace),
    decreases ts.len(),
{
    if ts.len() > 0 {
        lemma_stitch_words_clean(ts.drop_last());
        lemma_runs_are_clean(ts.last(), CharClass::Whitespace);
        let acc = stitch_words(ts.drop_last());
        let ws = words(ts.last());
        if ws.len() > 0 && acc.len() > 0 {
            lemma_best_overlap(acc, ws, overlap_cap(acc.len() as int, ws.len() as int));
            let tail = ws.subrange(overlap_len(acc, ws), ws.len() as int);
            assert forall|i: int| 0 <= i < (acc + tail).len() implies (#[trigger] (acc + tail)[i]).len() > 0
                && free_of((acc + tail)[i], CharClass::Whitespace) by {
                if i >= acc.len() {
                    assert((acc + tail)[i] == ws[overlap_len(acc, ws) + i - acc.len()]);
                }
            }
        }
    }
}

/// The stitched text splits back into exactly the stitched word list.
pub proof fn lemma_stitch_resplits(ts: Seq<Seq<char>>)
    ensures
        words(spec_stitch(ts)) == stitch_words(ts),
{
    lemma_stitch_words_clean(ts);
    lemma_words_of_join(stitch_words(ts));
}

/// A single transcript passes through as its own words, space-joined.
pub proof fn lemma_stitch_single(t: Seq<char>)
    ensures
        stitch_words(seq![t]) == words(t),
        spec_stitch(seq![t]) == join(words(t), seq![' ']),
{
    assert(seq![t].drop_last() == Seq::<Seq<char>>::empty());
    assert(seq![t].last() == t);
    assert(stitch_words(Seq::<Seq<char>>::empty()) == Seq::<Seq<char>>::empty());
    if words(t).len() == 0 {
        assert(words(t) == Seq::<Seq<char>>::empty());
    }
}

/// Stitching never rewrites what came before: adding a transcript appends its
/// words, minus at most `MAX_OVERLAP_WORDS` leading words that repeat the end
/// of the text so far (normalized); of the boundaries that repeat, the longest
/// within that bound is the one dropped.
pub proof fn lemma_stitch_appends(ts: Seq<Seq<char>>, t: Seq<char>)
    ensures
        ({
            let acc = stitch_words(ts);
            let ws = words(t);
            let d = if acc.len() == 0 { 0 } else { overlap_len(acc, ws) };
            &&& 0 <= d <= MAX_OVERLAP_WORDS
            &&& d <= ws.len()
            &&& d <= acc.len()
            &&& stitch_words(ts.push(t)) == acc + ws.subrange(d, ws.len() as int)
            &&& d > 0 ==> boundary_matches(acc, ws, d)
            &&& forall|l: int| d < l <= overlap_cap(acc.len() as int, ws.len() as int) && acc.len() > 0
                ==> !#[trigger] boundary_matches(acc, ws, l)
        }),
{
    let acc = stitch_words(ts);
    let ws = words(t);
    assert(ts.push(t).drop_last() == ts);
    assert(ts.push(t).last() == t);
    lemma_best_overlap(acc, ws, overlap_cap(acc.len() as int, ws.len() as int));
    if ws.len() == 0 {
        assert(ws.subrange(0, 0) == Seq::<Seq<char>>::empty());
        assert(acc + ws.subrange(0, 0) == acc);
        if acc.len() > 0 {
            assert(overlap_len(acc, ws) == 0);
        }
    } else if acc.len() == 0 {
        assert(acc + ws.subrange(0, ws.len() as int) == ws);
    }
}

/// A transcript without words, wherever it stands, changes nothing.
pub proof fn lemma_stitch_skips_blank(a: Seq<Seq<char>>, e: Seq<char>, b: Seq<Seq<char>>)
    requires
        words(e).len() == 0,
    ensures
        stitch_words(a + seq![e] + b) == stitch_words(a + b),
    decreases b.len(),
{
    if b.len() == 0 {
        assert(a + seq![e] + b == a.push(e));
        assert(a + b == a);
        assert(a.push(e).drop_last() == a);
        assert(a.push(e).last() == e);
    } else {
        let b0 = b.drop_last();
        lemma_stitch_skips_blank(a, e, b0);
        assert((a + seq![e] + b).drop_last() == a + seq![e] + b0);
        assert((a + seq![e] + b).last() == b.last());
        assert((a + b).drop_last() == a + b0);
        assert((a + b).last() == b.last());
    }
}


/// Stitching is incremental: stitching the text stitched so far with one
/// more transcript gives what stitching all of them gives, so stitched
/// output is only ever extended.
pub proof fn lemma_restitch(ts: Seq<Seq<char>>, t: Seq<char>)
    ensures
        stitch_words(seq![spec_stitch(ts), t]) == stitch_words(ts.push(t)),
        spec_stitch(seq![spec_stitch(ts), t]) == spec_stitch(ts.push(t)),
{
    let st = spec_stitch(ts);
    lemma_stitch_resplits(ts);
    lemma_stitch_single(st);
    let two = seq![st, t];
    assert(two.drop_last() == seq![st]);
    assert(two.last() == t);
    assert(ts.push(t).drop_last() == ts);
    assert(ts.push(t).last() == t);
    assert(stitch_words(seq![st]) == stitch_words(ts));
}


/// Every repeated boundary of up to 40 words (`MAX_OVERLAP_WORDS`) is
/// dropped: when the last `l` words of the text so far equal (normalized)
/// the first `l` words of the next transcript, with `l` at most 40 and
/// at most either side's length, stitching drops at least `l` of that
/// transcript's leading words and keeps the rest as they are.
pub proof fn lemma_overlap_is_dropped(ts: Seq<Seq<char>>, t: Seq<char>, l: int)
    requires
        stitch_words(ts).len() > 0,
        1 <= l <= 40,
        l <= stitch_words(ts).len(),
        l <= words(t).len(),
        boundary_matches(stitch_words(ts), words(t), l),
    ensures
        exists|d: int| l <= d <= words(t).len()
            && #[trigger] stitch_words(ts.push(t)) == stitch_words(ts) + words(t).subrange(d, words(t).len() as int),
{
    let acc = stitch_words(ts);
    let ws = words(t);
    lemma_stitch_appends(ts, t);
    let d = overlap_len(acc, ws);
    assert(l <= overlap_cap(acc.len() as int, ws.len() as int));
    if d < l {
        assert(!boundary_matches(acc, ws, l));
    }
    assert(stitch_words(ts.push(t)) == acc + ws.subrange(d, ws.len() as int));
}


/// Stitching never drops more than 40 leading words of a transcript, and
/// keeps everything before it: the text so far is a prefix of the result.
pub proof fn lemma_overlap_at_most_40(ts: Seq<Seq<char>>, t: Seq<char>)
    ensures
        exists|d: int| 0 <= d <= 40 && d <= words(t).len()
            && #[trigger] stitch_words(ts.push(t)) == stitch_words(ts) + words(t).subrange(d, words(t).len() as int),
{
    lemma_stitch_appends(ts, t);
    let acc = stitch_words(ts);
    let ws = words(t);
    let d = if acc.len() == 0 { 0 } else { overlap_len(acc, ws) };
    assert(stitch_words(ts.push(t)) == acc + ws.subrange(d, ws.len() as int));
}

} // verus!
