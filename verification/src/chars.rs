use vstd::prelude::*;

verus! {

/// Unicode `White_Space` (the property `char::is_whitespace` and `str::trim`
/// use).
pub open spec fn is_ws(c: char) -> bool {
    let u = c as u32;
    ||| 0x09 <= u <= 0x0d
    ||| u == 0x20
    ||| u == 0x85
    ||| u == 0xa0
    ||| u == 0x1680
    ||| 0x2000 <= u <= 0x200a
    ||| u == 0x2028
    ||| u == 0x2029
    ||| u == 0x202f
    ||| u == 0x205f
    ||| u == 0x3000
}

/// Whether `c` is Unicode white space.
pub fn is_whitespace(c: char) -> (r: bool)
    ensures
        r == is_ws(c),
{
    let u = c as u32;
    (0x09 <= u && u <= 0x0d) || u == 0x20 || u == 0x85 || u == 0xa0 || u == 0x1680
        || (0x2000 <= u && u <= 0x200a) || u == 0x2028 || u == 0x2029 || u == 0x202f
        || u == 0x205f || u == 0x3000
}

/// An ASCII character.
pub open spec fn is_ascii(c: char) -> bool {
    (c as u32) < 128
}

/// An ASCII letter or digit.
pub open spec fn ascii_alphanumeric(c: char) -> bool {
    ('a' <= c && c <= 'z') || ('A' <= c && c <= 'Z') || ('0' <= c && c <= '9')
}

/// What `char::is_alphanumeric` returns for a non-ASCII `c` (Unicode
/// `Alphabetic` or `Numeric`).
pub uninterp spec fn unicode_alphanumeric(c: char) -> bool;

/// Whether `c` is alphabetic or numeric in Unicode: among ASCII characters
/// exactly the letters and digits.
pub open spec fn alphanumeric(c: char) -> bool {
    if is_ascii(c) { ascii_alphanumeric(c) } else { unicode_alphanumeric(c) }
}

/// `char::is_alphanumeric`: whether `c` is alphabetic or numeric in Unicode.
/// On ASCII the result is stated (letters and digits, nothing else); beyond
/// ASCII it is named, the Unicode tables are not restated.
#[verifier::external_body]
pub(crate) fn is_alphanumeric(c: char) -> (r: bool)
    ensures
        is_ascii(c) ==> r == ascii_alphanumeric(c),
        !is_ascii(c) ==> r == unicode_alphanumeric(c),
{
    c.is_alphanumeric()
}

/// Every character of `s` is ASCII.
pub open spec fn all_ascii(s: Seq<char>) -> bool {
    forall|i: int| 0 <= i < s.len() ==> is_ascii(#[trigger] s[i])
}

/// What `str::to_lowercase` returns for a string that is not all ASCII: its
/// Unicode lowercase form.
pub uninterp spec fn unicode_lowercase(s: Seq<char>) -> Seq<char>;

/// The Unicode lowercase form of `s`: on ASCII text, `A`..`Z` become
/// `a`..`z` and everything else stays.
pub open spec fn lowercase(s: Seq<char>) -> Seq<char> {
    if all_ascii(s) { s.map_values(|c: char| ascii_lower(c)) } else { unicode_lowercase(s) }
}

/// `str::to_lowercase`. On ASCII text the result is stated (ASCII letters
/// lowercased, everything else kept); beyond ASCII it is named, the Unicode
/// case tables are not restated.
#[verifier::external_body]
pub(crate) fn to_lowercase(s: &str) -> (r: String)
    ensures
        all_ascii(s@) ==> r@ == s@.map_values(|c: char| ascii_lower(c)),
        !all_ascii(s@) ==> r@ == unicode_lowercase(s@),
{
    s.to_lowercase()
}

/// ASCII lowercase of one character (`char::to_ascii_lowercase`).
pub open spec fn ascii_lower(c: char) -> char {
    if 'A' <= c && c <= 'Z' {
        ((c as u32) + 32) as char
    } else {
        c
    }
}

pub fn to_ascii_lowercase(c: char) -> (r: char)
    ensures
        r == ascii_lower(c),
{
    if 'A' <= c && c <= 'Z' {
        let b: u8 = (c as u32 + 32) as u8;
        b as char
    } else {
        c
    }
}

/// The classes of characters the library splits or trims on.
#[derive(Clone, Copy, PartialEq, Eq, Structural)]
pub enum CharClass {
    /// Unicode white space.
    Whitespace,
    /// The ASCII hyphen `-`.
    Dash,
    /// Anything that is not alphanumeric.
    NotAlphanumeric,
    /// The line feed `\n`.
    Newline,
}

pub open spec fn in_class(k: CharClass, c: char) -> bool {
    match k {
        CharClass::Whitespace => is_ws(c),
        CharClass::Dash => c == '-',
        CharClass::NotAlphanumeric => !alphanumeric(c),
        CharClass::Newline => c == '\n',
    }
}

pub fn is_in_class(k: CharClass, c: char) -> (r: bool)
    ensures
        r == in_class(k, c),
{
    match k {
        CharClass::Whitespace => is_whitespace(c),
        CharClass::Dash => c == '-',
        CharClass::NotAlphanumeric => !is_alphanumeric(c),
        CharClass::Newline => c == '\n',
    }
}

/// Scanning `s` left to right: the finished runs of non-separator characters
/// and the run in progress.
pub open spec fn run_state(s: Seq<char>, k: CharClass) -> (Seq<Seq<char>>, Seq<char>)
    decreases s.len(),
{
    if s.len() == 0 {
        (seq![], seq![])
    } else {
        let prev = run_state(s.drop_last(), k);
        let c = s.last();
        if in_class(k, c) {
            if prev.1.len() > 0 {
                (prev.0.push(prev.1), seq![])
            } else {
                (prev.0, seq![])
            }
        } else {
            (prev.0, prev.1.push(c))
        }
    }
}

/// The maximal runs of characters outside class `k`, in order; separators are
/// dropped and so are empty runs (`str::split(..).filter(non-empty)`).
pub open spec fn runs(s: Seq<char>, k: CharClass) -> Seq<Seq<char>> {
    let st = run_state(s, k);
    if st.1.len() > 0 {
        st.0.push(st.1)
    } else {
        st.0
    }
}

/// The words of `s`, as `str::split_whitespace` yields them.
pub open spec fn words(s: Seq<char>) -> Seq<Seq<char>> {
    runs(s, CharClass::Whitespace)
}

/// The runs of characters outside class `k` in `s`.
pub fn runs_of(s: &Vec<char>, k: CharClass) -> (r: Vec<Vec<char>>)
    ensures
        r.deep_view() == runs(s@, k),
{
    let mut done: Vec<Vec<char>> = Vec::new();
    let mut cur: Vec<char> = Vec::new();
    let n = s.len();
    let mut i: usize = 0;
    while i < n
        invariant
            n == s.len(),
            i <= n,
            run_state(s@.take(i as int), k) == (done.deep_view(), cur@),
        decreases n - i,
    {
        let c = s[i];
        assert(s@.take(i + 1).drop_last() == s@.take(i as int));
        if is_in_class(k, c) {
            if cur.len() > 0 {
                let ghost d = done.deep_view();
                let finished = cur;
                proof { lemma_chars_deep_view(&finished); }
                done.push(finished);
                assert(done.deep_view() =~= d.push(finished@));
                cur = Vec::new();
            } else {
                cur = Vec::new();
            }
        } else {
            cur.push(c);
        }
        i = i + 1;
    }
    assert(s@.take(n as int) == s@);
    if cur.len() > 0 {
        let ghost d = done.deep_view();
        let last = cur;
        proof { lemma_chars_deep_view(&last); }
        done.push(last);
        assert(done.deep_view() =~= d.push(last@));
    }
    done
}

/// A vector of characters is deeply viewed as its sequence.
pub proof fn lemma_chars_deep_view(v: &Vec<char>)
    ensures
        v.deep_view() == v@,
{
    assert(v.deep_view() =~= v@);
}

/// The words of `s`.
pub fn words_of(s: &str) -> (r: Vec<Vec<char>>)
    ensures
        r.deep_view() == words(s@),
{
    let cs = chars_of(s);
    runs_of(&cs, CharClass::Whitespace)
}

/// `ws` joined with `sep` between consecutive items (`[..].join(sep)`).
pub open spec fn join(ws: Seq<Seq<char>>, sep: Seq<char>) -> Seq<char>
    decreases ws.len(),
{
    if ws.len() == 0 {
        seq![]
    } else if ws.len() == 1 {
        ws[0]
    } else {
        join(ws.drop_last(), sep) + sep + ws.last()
    }
}

/// Joins `ws[from..to]` with `sep` and appends the result to `out`.
pub fn append_joined(out: &mut Vec<char>, ws: &Vec<Vec<char>>, from: usize, to: usize, sep: &Vec<char>)
    requires
        from <= to <= ws.len(),
    ensures
        final(out)@ == old(out)@ + join(ws.deep_view().subrange(from as int, to as int), sep@),
{
    let ghost start = out@;
    let mut i = from;
    while i < to
        invariant
            from <= i <= to <= ws.len(),
            out@ == start + join(ws.deep_view().subrange(from as int, i as int), sep@),
        decreases to - i,
    {
        let ghost sub = ws.deep_view().subrange(from as int, i + 1);
        assert(sub.drop_last() == ws.deep_view().subrange(from as int, i as int));
        if i > from {
            append_chars(out, sep);
        } else {
            assert(ws.deep_view().subrange(from as int, i as int).len() == 0);
        }
        append_chars(out, &ws[i]);
        i = i + 1;
    }
}

/// Appends all of `more` to `out`.
pub fn append_chars(out: &mut Vec<char>, more: &Vec<char>)
    ensures
        final(out)@ == old(out)@ + more@,
{
    let ghost start = out@;
    let mut i: usize = 0;
    while i < more.len()
        invariant
            i <= more.len(),
            out@ == start + more@.take(i as int),
        decreases more.len() - i,
    {
        out.push(more[i]);
        i = i + 1;
        assert(more@.take(i as int) == more@.take(i - 1).push(more@[i - 1]));
    }
    assert(more@.take(more.len() as int) == more@);
}

/// Appends the characters of `s` to `out`.
pub fn append_str(out: &mut Vec<char>, s: &str)
    ensures
        final(out)@ == old(out)@ + s@,
{
    let cs = chars_of(s);
    append_chars(out, &cs);
}

/// The characters of a string slice, in order.
pub fn chars_of(s: &str) -> (r: Vec<char>)
    ensures
        r@ == s@,
{
    let mut out: Vec<char> = Vec::new();
    for c in it: s.chars()
        invariant
            out@ == it.seq().take(it.index() as int),
    {
        out.push(c);
    }
    out
}

/// A string holding exactly the characters `v`.
pub fn string_of(v: &Vec<char>) -> (r: String)
    ensures
        r@ == v@,
{
    let mut s = String::new();
    let mut i: usize = 0;
    while i < v.len()
        invariant
            i <= v.len(),
            s@ == v@.take(i as int),
        decreases v.len() - i,
    {
        push_char(&mut s, v[i]);
        i = i + 1;
        assert(v@.take(i as int) == v@.take(i - 1).push(v@[i - 1]));
    }
    assert(v@.take(v.len() as int) == v@);
    s
}

/// `String::push`: appends one character.
#[verifier::external_body]
pub(crate) fn push_char(s: &mut String, c: char)
    ensures
        final(s)@ == old(s)@.push(c),
{
    s.push(c);
}


/// `s` with leading characters of class `k` removed.
pub open spec fn trim_start_class(s: Seq<char>, k: CharClass) -> Seq<char>
    decreases s.len(),
{
    if s.len() > 0 && in_class(k, s[0]) {
        trim_start_class(s.drop_first(), k)
    } else {
        s
    }
}

/// `s` with trailing characters of class `k` removed.
pub open spec fn trim_end_class(s: Seq<char>, k: CharClass) -> Seq<char>
    decreases s.len(),
{
    if s.len() > 0 && in_class(k, s.last()) {
        trim_end_class(s.drop_last(), k)
    } else {
        s
    }
}

/// `s` with leading and trailing characters of class `k` removed
/// (`str::trim_matches`; with white space, `str::trim`).
pub open spec fn trim_class(s: Seq<char>, k: CharClass) -> Seq<char> {
    trim_end_class(trim_start_class(s, k), k)
}

/// `str::trim`.
pub open spec fn trim(s: Seq<char>) -> Seq<char> {
    trim_class(s, CharClass::Whitespace)
}

proof fn lemma_trim_start_skip(s: Seq<char>, k: CharClass, i: int)
    requires
        0 <= i <= s.len(),
        forall|p: int| 0 <= p < i ==> in_class(k, #[trigger] s[p]),
    ensures
        trim_start_class(s, k) == trim_start_class(s.subrange(i, s.len() as int), k),
    decreases i,
{
    if i > 0 {
        assert(in_class(k, s[0]));
        let t = s.drop_first();
        assert forall|p: int| 0 <= p < i - 1 implies in_class(k, #[trigger] t[p]) by {
            assert(t[p] == s[p + 1]);
        }
        lemma_trim_start_skip(t, k, i - 1);
        assert(t.subrange(i - 1, t.len() as int) == s.subrange(i, s.len() as int));
    } else {
        assert(s.subrange(0, s.len() as int) == s);
    }
}

proof fn lemma_trim_end_skip(s: Seq<char>, k: CharClass, j: int)
    requires
        0 <= j <= s.len(),
        forall|p: int| j <= p < s.len() ==> in_class(k, #[trigger] s[p]),
    ensures
        trim_end_class(s, k) == trim_end_class(s.subrange(0, j), k),
    decreases s.len() - j,
{
    if j < s.len() {
        assert(in_class(k, s.last()));
        let t = s.drop_last();
        lemma_trim_end_skip(t, k, j);
        assert(t.subrange(0, j) == s.subrange(0, j));
    } else {
        assert(s.subrange(0, j) == s);
    }
}

/// `s` with leading and trailing characters of class `k` removed.
pub fn trim_class_of(s: &Vec<char>, k: CharClass) -> (r: Vec<char>)
    ensures
        r@ == trim_class(s@, k),
{
    let n = s.len();
    let mut i: usize = 0;
    while i < n && is_in_class(k, s[i])
        invariant
            i <= n == s.len(),
            forall|p: int| 0 <= p < i ==> in_class(k, #[trigger] s@[p]),
        decreases n - i,
    {
        i = i + 1;
    }
    proof {
        lemma_trim_start_skip(s@, k, i as int);
    }
    let ghost t = s@.subrange(i as int, n as int);
    let mut j: usize = n;
    while j > i && is_in_class(k, s[j - 1])
        invariant
            i <= j <= n == s.len(),
            t == s@.subrange(i as int, n as int),
            forall|p: int| j <= p < n ==> in_class(k, #[trigger] s@[p]),
        decreases j,
    {
        j = j - 1;
    }
    proof {
        assert forall|p: int| j - i <= p < t.len() implies in_class(k, #[trigger] t[p]) by {
            assert(t[p] == s@[p + i]);
        }
        lemma_trim_end_skip(t, k, j - i);
        if j - i > 0 {
            assert(!in_class(k, t[j - i - 1]));
        }
        assert(t.subrange(0, j - i) == s@.subrange(i as int, j as int));
        if i < n {
            assert(!in_class(k, s@[i as int]));
            assert(s@.subrange(i as int, n as int)[0] == s@[i as int]);
        } else {
            assert(t.len() == 0);
        }
    }
    let mut out: Vec<char> = Vec::new();
    let mut p: usize = i;
    while p < j
        invariant
            i <= p <= j <= n == s.len(),
            out@ == s@.subrange(i as int, p as int),
        decreases j - p,
    {
        out.push(s[p]);
        p = p + 1;
        assert(out@ == s@.subrange(i as int, p as int));
    }
    out
}

/// `str::trim`.
pub fn trim_of(s: &str) -> (r: Vec<char>)
    ensures
        r@ == trim(s@),
{
    let cs = chars_of(s);
    trim_class_of(&cs, CharClass::Whitespace)
}

/// No character of `w` belongs to class `k`.
pub open spec fn free_of(w: Seq<char>, k: CharClass) -> bool {
    forall|i: int| 0 <= i < w.len() ==> !in_class(k, #[trigger] w[i])
}

/// Appending characters outside the class extends the run in progress.
pub proof fn lemma_run_state_extend(a: Seq<char>, w: Seq<char>, k: CharClass)
    requires
        free_of(w, k),
    ensures
        run_state(a + w, k) == (run_state(a, k).0, run_state(a, k).1 + w),
    decreases w.len(),
{
    if w.len() == 0 {
        assert(a + w == a);
        assert(run_state(a, k).1 + w == run_state(a, k).1);
    } else {
        let w0 = w.drop_last();
        assert((a + w).drop_last() == a + w0);
        assert((a + w).last() == w.last());
        assert(!in_class(k, w[w.len() - 1]));
        lemma_run_state_extend(a, w0, k);
        assert(run_state(a, k).1 + w0 + seq![w.last()] == run_state(a, k).1 + w);
        assert((run_state(a, k).1 + w0).push(w.last()) == run_state(a, k).1 + w0 + seq![w.last()]);
    }
}

/// Splitting a join back up gives the pieces, when the pieces are non-empty,
/// free of the class and joined by one character of it.
pub proof fn lemma_runs_of_join(ws: Seq<Seq<char>>, sep: char, k: CharClass)
    requires
        in_class(k, sep),
        forall|i: int| 0 <= i < ws.len() ==> (#[trigger] ws[i]).len() > 0 && free_of(ws[i], k),
    ensures
        runs(join(ws, seq![sep]), k) == ws,
    decreases ws.len(),
{
    if ws.len() == 0 {
        assert(run_state(seq![], k) == (Seq::<Seq<char>>::empty(), Seq::<char>::empty()));
    } else if ws.len() == 1 {
        lemma_run_state_extend(seq![], ws[0], k);
        assert(Seq::<char>::empty() + ws[0] == ws[0]);
        assert(run_state(seq![], k) == (Seq::<Seq<char>>::empty(), Seq::<char>::empty()));
        assert(seq![ws[0]] == ws);
    } else {
        let init = ws.drop_last();
        assert forall|i: int| 0 <= i < init.len() implies (#[trigger] init[i]).len() > 0 && free_of(init[i], k) by {
            assert(init[i] == ws[i]);
        }
        lemma_runs_of_join(init, sep, k);
        let a = join(init, seq![sep]);
        let b = a + seq![sep];
        assert(b.drop_last() == a);
        assert(b.last() == sep);
        assert(run_state(b, k) == (runs(a, k), Seq::<char>::empty()));
        assert(ws.last() == ws[ws.len() - 1]);
        lemma_run_state_extend(b, ws.last(), k);
        assert(Seq::<char>::empty() + ws.last() == ws.last());
        assert(init.push(ws.last()) == ws);
    }
}

/// The words of a space-joined list of words are that list.
pub proof fn lemma_words_of_join(ws: Seq<Seq<char>>)
    requires
        forall|i: int| 0 <= i < ws.len() ==> (#[trigger] ws[i]).len() > 0 && free_of(ws[i], CharClass::Whitespace),
    ensures
        words(join(ws, seq![' '])) == ws,
{
    lemma_runs_of_join(ws, ' ', CharClass::Whitespace);
}

/// Every run is non-empty and free of the class.
pub proof fn lemma_runs_are_clean(s: Seq<char>, k: CharClass)
    ensures
        forall|i: int| 0 <= i < runs(s, k).len() ==> (#[trigger] runs(s, k)[i]).len() > 0 && free_of(runs(s, k)[i], k),
{
    lemma_run_state_clean(s, k);
}

proof fn lemma_run_state_clean(s: Seq<char>, k: CharClass)
    ensures
        forall|i: int| 0 <= i < run_state(s, k).0.len() ==> (#[trigger] run_state(s, k).0[i]).len() > 0 && free_of(run_state(s, k).0[i], k),
        free_of(run_state(s, k).1, k),
    decreases s.len(),
{
    if s.len() > 0 {
        lemma_run_state_clean(s.drop_last(), k);
        let p = run_state(s.drop_last(), k);
        if !in_class(k, s.last()) {
            assert forall|i: int| 0 <= i < p.1.push(s.last()).len() implies !in_class(k, #[trigger] p.1.push(s.last())[i]) by {
                if i < p.1.len() {
                    assert(p.1.push(s.last())[i] == p.1[i]);
                }
            }
        }
    }
}

/// Every character of every run comes from the scanned text.
pub proof fn lemma_runs_cover(s: Seq<char>, k: CharClass)
    ensures
        forall|i: int, j: int| 0 <= i < runs(s, k).len() && 0 <= j < runs(s, k)[i].len() ==> s.contains(#[trigger] runs(s, k)[i][j]),
{
    lemma_run_state_cover(s, k);
    let st = run_state(s, k);
    if st.1.len() > 0 {
        assert forall|i: int, j: int| 0 <= i < runs(s, k).len() && 0 <= j < runs(s, k)[i].len() implies s.contains(#[trigger] runs(s, k)[i][j]) by {
            if i < st.0.len() {
                assert(runs(s, k)[i] == st.0[i]);
            } else {
                assert(runs(s, k)[i] == st.1);
            }
        }
    }
}

proof fn lemma_run_state_cover(s: Seq<char>, k: CharClass)
    ensures
        forall|i: int, j: int| 0 <= i < run_state(s, k).0.len() && 0 <= j < run_state(s, k).0[i].len() ==> s.contains(#[trigger] run_state(s, k).0[i][j]),
        forall|j: int| 0 <= j < run_state(s, k).1.len() ==> s.contains(#[trigger] run_state(s, k).1[j]),
    decreases s.len(),
{
    if s.len() > 0 {
        let t = s.drop_last();
        lemma_run_state_cover(t, k);
        let p = run_state(t, k);
        assert forall|c: char| t.contains(c) implies s.contains(c) by {
            let i = choose|i: int| 0 <= i < t.len() && t[i] == c;
            assert(s[i] == c);
        }
        assert(s.contains(s.last())) by {
            assert(s[s.len() - 1] == s.last());
        }
        let st = run_state(s, k);
        assert forall|i: int, j: int| 0 <= i < st.0.len() && 0 <= j < st.0[i].len() implies s.contains(#[trigger] st.0[i][j]) by {
            if i < p.0.len() {
                assert(st.0[i] == p.0[i]);
                assert(t.contains(p.0[i][j]));
            } else {
                assert(st.0[i] == p.1);
                assert(t.contains(p.1[j]));
            }
        }
        assert forall|j: int| 0 <= j < st.1.len() implies s.contains(#[trigger] st.1[j]) by {
            if j < p.1.len() {
                assert(st.1[j] == p.1[j]);
                assert(t.contains(p.1[j]));
            }
        }
    }
}

/// The ASCII digit for `d` (0..=9).
pub open spec fn digit_char(d: int) -> char {
    ((48 + d) as u8) as char
}

/// Decimal representation of `n`, without sign or leading zeros.
pub open spec fn dec(n: nat) -> Seq<char>
    decreases n,
{
    if n < 10 {
        seq![digit_char(n as int)]
    } else {
        dec(n / 10).push(digit_char((n % 10) as int))
    }
}

/// `s` left-padded with `'0'` to at least `width` characters (`{:0width}`).
pub open spec fn zero_pad(s: Seq<char>, width: nat) -> Seq<char> {
    if s.len() >= width {
        s
    } else {
        Seq::new((width - s.len()) as nat, |i: int| '0') + s
    }
}

/// Decimal representation of `n` (`n.to_string()`).
pub fn dec_of(n: u64) -> (r: Vec<char>)
    ensures
        r@ == dec(n as nat),
    decreases n,
{
    if n < 10 {
        let d: u8 = n as u8;
        let c = (48u8 + d) as char;
        let mut v: Vec<char> = Vec::new();
        v.push(c);
        assert(v@ == seq![c]);
        v
    } else {
        let mut v = dec_of(n / 10);
        let d: u8 = (n % 10) as u8;
        v.push((48u8 + d) as char);
        v
    }
}

/// Decimal representation of `n`, zero-padded to `width` characters.
pub fn dec_padded(n: u64, width: usize) -> (r: Vec<char>)
    ensures
        r@ == zero_pad(dec(n as nat), width as nat),
{
    let d = dec_of(n);
    if d.len() >= width {
        return d;
    }
    let mut out: Vec<char> = Vec::new();
    let pad = width - d.len();
    let mut i: usize = 0;
    while i < pad
        invariant
            i <= pad,
            out@ == Seq::new(i as nat, |k: int| '0'),
        decreases pad - i,
    {
        out.push('0');
        i = i + 1;
        assert(out@ =~= Seq::new(i as nat, |k: int| '0'));
    }
    append_chars(&mut out, &d);
    out
}

/// Whether the two character sequences are equal.
pub fn chars_eq(a: &Vec<char>, b: &Vec<char>) -> (r: bool)
    ensures
        r == (a@ == b@),
{
    if a.len() != b.len() {
        return false;
    }
    let mut i: usize = 0;
    while i < a.len()
        invariant
            i <= a.len() == b.len(),
            forall|k: int| 0 <= k < i ==> a@[k] == b@[k],
        decreases a.len() - i,
    {
        if a[i] != b[i] {
            return false;
        }
        i = i + 1;
    }
    assert(a@ =~= b@);
    true
}

/// `s` begins with `p`.
pub open spec fn starts_with(s: Seq<char>, p: Seq<char>) -> bool {
    p.len() <= s.len() && s.subrange(0, p.len() as int) == p
}

/// Whether `s` begins with `p`.
pub fn starts_with_chars(s: &Vec<char>, p: &Vec<char>) -> (r: bool)
    ensures
        r == starts_with(s@, p@),
{
    if p.len() > s.len() {
        return false;
    }
    let mut i: usize = 0;
    while i < p.len()
        invariant
            i <= p.len() <= s.len(),
            forall|k: int| 0 <= k < i ==> s@[k] == p@[k],
        decreases p.len() - i,
    {
        if s[i] != p[i] {
            assert(s@.subrange(0, p.len() as int)[i as int] != p@[i as int]);
            return false;
        }
        i = i + 1;
    }
    assert(s@.subrange(0, p.len() as int) =~= p@);
    true
}

/// The characters of `s` from index `from` on.
pub fn skip_chars(s: &Vec<char>, from: usize) -> (r: Vec<char>)
    requires
        from <= s.len(),
    ensures
        r@ == s@.subrange(from as int, s.len() as int),
{
    let mut out: Vec<char> = Vec::new();
    let mut i = from;
    while i < s.len()
        invariant
            from <= i <= s.len(),
            out@ == s@.subrange(from as int, i as int),
        decreases s.len() - i,
    {
        out.push(s[i]);
        i = i + 1;
        assert(out@ =~= s@.subrange(from as int, i as int));
    }
    out
}

/// Scanning `s` left to right: the pieces already ended by a line feed and
/// the piece in progress.
pub open spec fn split_state(s: Seq<char>) -> (Seq<Seq<char>>, Seq<char>)
    decreases s.len(),
{
    if s.len() == 0 {
        (seq![], seq![])
    } else {
        let p = split_state(s.drop_last());
        if s.last() == '\n' {
            (p.0.push(p.1), seq![])
        } else {
            (p.0, p.1.push(s.last()))
        }
    }
}

/// A line without its carriage return, if it ended in one.
pub open spec fn strip_cr(l: Seq<char>) -> Seq<char> {
    if l.len() > 0 && l.last() == '\r' { l.drop_last() } else { l }
}

/// The lines of `s` as `str::lines` yields them: split at `\n`, a `\r` before
/// the `\n` dropped, and no empty last line after a final line feed.
pub open spec fn lines(s: Seq<char>) -> Seq<Seq<char>> {
    let st = split_state(s);
    let done = st.0.map_values(|l: Seq<char>| strip_cr(l));
    if st.1.len() > 0 { done.push(st.1) } else { done }
}

/// The lines of `s`.
pub fn lines_of(s: &Vec<char>) -> (r: Vec<Vec<char>>)
    ensures
        r.deep_view() == lines(s@),
{
    let mut done: Vec<Vec<char>> = Vec::new();
    let mut cur: Vec<char> = Vec::new();
    let ghost raw: Seq<Seq<char>> = seq![];
    let n = s.len();
    let mut i: usize = 0;
    while i < n
        invariant
            n == s.len(),
            i <= n,
            split_state(s@.take(i as int)) == (raw, cur@),
            done.deep_view() == raw.map_values(|l: Seq<char>| strip_cr(l)),
        decreases n - i,
    {
        let c = s[i];
        assert(s@.take(i + 1).drop_last() == s@.take(i as int));
        if c == '\n' {
            let ghost cv = cur@;
            let mut line = cur;
            if line.len() > 0 && line[line.len() - 1] == '\r' {
                line.pop();
                assert(line@ == cv.drop_last());
            }
            assert(line@ == strip_cr(cv));
            let ghost d = done.deep_view();
            proof {
                lemma_chars_deep_view(&line);
                raw = raw.push(cv);
            }
            done.push(line);
            assert(done.deep_view() =~= d.push(line@));
            assert(done.deep_view() =~= raw.map_values(|l: Seq<char>| strip_cr(l)));
            cur = Vec::new();
        } else {
            cur.push(c);
        }
        i = i + 1;
    }
    assert(s@.take(n as int) == s@);
    if cur.len() > 0 {
        let ghost d = done.deep_view();
        let last = cur;
        proof { lemma_chars_deep_view(&last); }
        done.push(last);
        assert(done.deep_view() =~= d.push(last@));
    }
    done
}

/// `ls` with a line feed after each line, concatenated.
pub open spec fn concat_lf(ls: Seq<Seq<char>>) -> Seq<char>
    decreases ls.len(),
{
    if ls.len() == 0 {
        seq![]
    } else {
        concat_lf(ls.drop_last()) + ls.last() + seq!['\n']
    }
}

/// `s` is empty or ends with a line feed.
pub open spec fn ends_line(s: Seq<char>) -> bool {
    s.len() == 0 || s.last() == '\n'
}

/// No carriage return in `s` stands right before a line feed.
pub open spec fn no_crlf(s: Seq<char>) -> bool {
    forall|i: int| 0 <= i < s.len() - 1 ==> !(#[trigger] s[i] == '\r' && s[i + 1] == '\n')
}

proof fn lemma_split_state_ended(a: Seq<char>)
    requires
        ends_line(a),
    ensures
        split_state(a).1.len() == 0,
{
}

proof fn lemma_split_state_concat(a: Seq<char>, b: Seq<char>)
    requires
        split_state(a).1.len() == 0,
    ensures
        split_state(a + b) == (split_state(a).0 + split_state(b).0, split_state(b).1),
    decreases b.len(),
{
    if b.len() == 0 {
        assert(a + b == a);
        assert(split_state(a).0 + Seq::<Seq<char>>::empty() == split_state(a).0);
        assert(split_state(a).1 == Seq::<char>::empty());
    } else {
        lemma_split_state_concat(a, b.drop_last());
        assert((a + b).drop_last() == a + b.drop_last());
        assert((a + b).last() == b.last());
        let p = split_state(b.drop_last());
        if b.last() == '\n' {
            assert(split_state(a).0 + p.0.push(p.1) == (split_state(a).0 + p.0).push(p.1));
        }
    }
}

/// The lines of a concatenation whose first part ends a line are the lines of
/// the parts.
pub proof fn lemma_lines_concat(a: Seq<char>, b: Seq<char>)
    requires
        ends_line(a),
    ensures
        lines(a + b) == lines(a) + lines(b),
{
    lemma_split_state_ended(a);
    lemma_split_state_concat(a, b);
    let sa = split_state(a);
    let sb = split_state(b);
    let f = |l: Seq<char>| strip_cr(l);
    assert((sa.0 + sb.0).map_values(f) =~= sa.0.map_values(f) + sb.0.map_values(f));
    assert(lines(a) == sa.0.map_values(f));
    if sb.1.len() > 0 {
        assert(sa.0.map_values(f) + sb.0.map_values(f).push(sb.1) == (sa.0.map_values(f) + sb.0.map_values(f)).push(sb.1));
    }
}

proof fn lemma_split_state_no_lf(x: Seq<char>)
    requires
        !x.contains('\n'),
    ensures
        split_state(x) == (Seq::<Seq<char>>::empty(), x),
    decreases x.len(),
{
    if x.len() > 0 {
        assert(!x.drop_last().contains('\n')) by {
            if x.drop_last().contains('\n') {
                let i = choose|i: int| 0 <= i < x.drop_last().len() && x.drop_last()[i] == '\n';
                assert(x[i] == '\n');
            }
        }
        lemma_split_state_no_lf(x.drop_last());
        assert(x.last() != '\n') by {
            assert(x[x.len() - 1] == x.last());
        }
        assert(x.drop_last().push(x.last()) == x);
    } else {
        assert(x == Seq::<char>::empty());
    }
}

/// A piece without line feeds, ended by one, is a single line.
pub proof fn lemma_lines_one(x: Seq<char>)
    requires
        !x.contains('\n'),
    ensures
        lines(x + seq!['\n']) == seq![strip_cr(x)],
{
    lemma_split_state_no_lf(x);
    let y = x + seq!['\n'];
    assert(y.drop_last() == x);
    assert(y.last() == '\n');
    let f = |l: Seq<char>| strip_cr(l);
    assert(seq![x].map_values(f) =~= seq![strip_cr(x)]);
}

proof fn lemma_split_state_rebuilds(s: Seq<char>)
    ensures
        concat_lf(split_state(s).0) + split_state(s).1 == s,
        no_crlf(s) ==> forall|i: int| 0 <= i < split_state(s).0.len() ==> strip_cr(#[trigger] split_state(s).0[i]) == split_state(s).0[i],
        no_crlf(s) && s.len() > 0 && s.last() == '\r' ==> split_state(s).1.len() > 0 && split_state(s).1.last() == '\r',
    decreases s.len(),
{
    if s.len() > 0 {
        let t = s.drop_last();
        assert(no_crlf(s) ==> no_crlf(t)) by {
            if no_crlf(s) {
                assert forall|i: int| 0 <= i < t.len() - 1 implies !(#[trigger] t[i] == '\r' && t[i + 1] == '\n') by {
                    assert(t[i] == s[i] && t[i + 1] == s[i + 1]);
                }
            }
        }
        lemma_split_state_rebuilds(t);
        let p = split_state(t);
        if s.last() == '\n' {
            assert(concat_lf(p.0.push(p.1)) == concat_lf(p.0) + p.1 + seq!['\n']) by {
                assert(p.0.push(p.1).drop_last() == p.0);
            }
            assert(t + seq!['\n'] == s);
            if no_crlf(s) {
                assert forall|i: int| 0 <= i < p.0.push(p.1).len() implies strip_cr(#[trigger] p.0.push(p.1)[i]) == p.0.push(p.1)[i] by {
                    if i == p.0.len() {
                        if p.1.len() > 0 && p.1.last() == '\r' {
                            assert(t.len() > 0);
                            assert(t.last() == '\r') by {
                                assert(concat_lf(p.0) + p.1 == t);
                                assert(t[t.len() - 1] == p.1[p.1.len() - 1]);
                            }
                            assert(s[s.len() - 2] == '\r' && s[s.len() - 1] == '\n');
                        }
                    }
                }
            }
        } else {
            assert(concat_lf(p.0) + p.1.push(s.last()) == t + seq![s.last()]);
            assert(t + seq![s.last()] == s);
            if no_crlf(s) && s.last() == '\r' {
                assert(p.1.push(s.last()).last() == '\r');
            }
        }
    }
}

/// Re-joining the lines of line-ended text gives it back, when no carriage
/// return stands before a line feed.
pub proof fn lemma_concat_lf_lines(x: Seq<char>)
    requires
        ends_line(x),
        no_crlf(x),
    ensures
        concat_lf(lines(x)) == x,
{
    lemma_split_state_ended(x);
    lemma_split_state_rebuilds(x);
    let st = split_state(x);
    let f = |l: Seq<char>| strip_cr(l);
    assert(st.0.map_values(f) =~= st.0);
    assert(st.1 == Seq::<char>::empty());
    assert(concat_lf(st.0) + st.1 == concat_lf(st.0));
}

/// Trimmed text neither starts nor ends with white space.
pub proof fn lemma_trim_shape(x: Seq<char>)
    ensures
        trim(x).len() > 0 ==> !is_ws(trim(x)[0]) && !is_ws(trim(x).last()),
{
    lemma_trim_start_shape(x, CharClass::Whitespace);
    lemma_trim_end_shape(trim_start_class(x, CharClass::Whitespace), CharClass::Whitespace);
    let a = trim_start_class(x, CharClass::Whitespace);
    lemma_trim_end_prefix(a, CharClass::Whitespace);
    if trim(x).len() > 0 {
        assert(trim(x)[0] == a[0]);
    }
}

proof fn lemma_trim_start_shape(s: Seq<char>, k: CharClass)
    ensures
        trim_start_class(s, k).len() > 0 ==> !in_class(k, trim_start_class(s, k)[0]),
    decreases s.len(),
{
    if s.len() > 0 && in_class(k, s[0]) {
        lemma_trim_start_shape(s.drop_first(), k);
    }
}

proof fn lemma_trim_end_shape(s: Seq<char>, k: CharClass)
    ensures
        trim_end_class(s, k).len() > 0 ==> !in_class(k, trim_end_class(s, k).last()),
    decreases s.len(),
{
    if s.len() > 0 && in_class(k, s.last()) {
        lemma_trim_end_shape(s.drop_last(), k);
    }
}

proof fn lemma_trim_end_prefix(s: Seq<char>, k: CharClass)
    ensures
        trim_end_class(s, k).len() <= s.len(),
        trim_end_class(s, k) == s.subrange(0, trim_end_class(s, k).len() as int),
    decreases s.len(),
{
    if s.len() > 0 && in_class(k, s.last()) {
        lemma_trim_end_prefix(s.drop_last(), k);
    } else {
        assert(s.subrange(0, s.len() as int) == s);
    }
}

/// Trimming white space around already-trimmed text, padded with white space
/// only, gives the text back.
pub proof fn lemma_trim_padded(p: Seq<char>, t: Seq<char>, q: Seq<char>)
    requires
        forall|i: int| 0 <= i < p.len() ==> is_ws(#[trigger] p[i]),
        forall|i: int| 0 <= i < q.len() ==> is_ws(#[trigger] q[i]),
        t.len() > 0 ==> !is_ws(t[0]) && !is_ws(t.last()),
    ensures
        trim(p + t + q) == t,
{
    let k = CharClass::Whitespace;
    let s = p + t + q;
    if t.len() > 0 {
        assert forall|i: int| 0 <= i < p.len() implies in_class(k, #[trigger] s[i]) by {
            assert(s[i] == p[i]);
        }
        lemma_trim_start_skip(s, k, p.len() as int);
        let u = s.subrange(p.len() as int, s.len() as int);
        assert(u == t + q);
        assert(u[0] == t[0]);
        assert(trim_start_class(u, k) == u);
        assert forall|i: int| t.len() <= i < u.len() implies in_class(k, #[trigger] u[i]) by {
            assert(u[i] == q[i - t.len()]);
        }
        lemma_trim_end_skip(u, k, t.len() as int);
        assert(u.subrange(0, t.len() as int) == t);
        assert(t.last() == t[t.len() - 1]);
        assert(trim_end_class(t, k) == t);
    } else {
        assert(s == p + q);
        assert forall|i: int| 0 <= i < s.len() implies in_class(k, #[trigger] s[i]) by {
            if i < p.len() {
                assert(s[i] == p[i]);
            } else {
                assert(s[i] == q[i - p.len()]);
            }
        }
        lemma_trim_start_skip(s, k, s.len() as int);
        assert(s.subrange(s.len() as int, s.len() as int) == Seq::<char>::empty());
        assert(trim_start_class(Seq::<char>::empty(), k) == Seq::<char>::empty());
        assert(t == Seq::<char>::empty());
    }
}

proof fn lemma_trim_start_suffix(s: Seq<char>, k: CharClass)
    ensures
        trim_start_class(s, k).len() <= s.len(),
        trim_start_class(s, k) == s.subrange(s.len() - trim_start_class(s, k).len(), s.len() as int),
        forall|i: int| 0 <= i < s.len() - trim_start_class(s, k).len() ==> in_class(k, #[trigger] s[i]),
    decreases s.len(),
{
    if s.len() > 0 && in_class(k, s[0]) {
        let t = s.drop_first();
        lemma_trim_start_suffix(t, k);
        assert forall|i: int| 0 <= i < s.len() - trim_start_class(s, k).len() implies in_class(k, #[trigger] s[i]) by {
            if i > 0 {
                assert(s[i] == t[i - 1]);
            }
        }
        assert(t.subrange(t.len() - trim_start_class(t, k).len(), t.len() as int)
            == s.subrange(s.len() - trim_start_class(s, k).len(), s.len() as int));
    } else {
        assert(s.subrange(0, s.len() as int) == s);
    }
}

proof fn lemma_trim_end_dropped(s: Seq<char>, k: CharClass)
    ensures
        forall|i: int| trim_end_class(s, k).len() <= i < s.len() ==> in_class(k, #[trigger] s[i]),
    decreases s.len(),
{
    if s.len() > 0 && in_class(k, s.last()) {
        lemma_trim_end_dropped(s.drop_last(), k);
        lemma_trim_end_prefix(s.drop_last(), k);
        assert forall|i: int| trim_end_class(s, k).len() <= i < s.len() implies in_class(k, #[trigger] s[i]) by {
            if i < s.len() - 1 {
                assert(s[i] == s.drop_last()[i]);
            }
        }
    }
}

/// Text is its trimmed core with white space before and after.
pub proof fn lemma_trim_decompose(t: Seq<char>) -> (pq: (Seq<char>, Seq<char>))
    ensures
        t == pq.0 + trim(t) + pq.1,
        forall|i: int| 0 <= i < pq.0.len() ==> is_ws(#[trigger] pq.0[i]),
        forall|i: int| 0 <= i < pq.1.len() ==> is_ws(#[trigger] pq.1[i]),
{
    let k = CharClass::Whitespace;
    lemma_trim_start_suffix(t, k);
    let a = trim_start_class(t, k);
    let plen = t.len() - a.len();
    lemma_trim_end_prefix(a, k);
    lemma_trim_end_dropped(a, k);
    let c = trim(t);
    let p = t.subrange(0, plen);
    let q = a.subrange(c.len() as int, a.len() as int);
    assert forall|i: int| 0 <= i < p.len() implies is_ws(#[trigger] p[i]) by {
        assert(p[i] == t[i]);
        assert(in_class(k, t[i]));
    }
    assert forall|i: int| 0 <= i < q.len() implies is_ws(#[trigger] q[i]) by {
        assert(q[i] == a[i + c.len()]);
        assert(in_class(k, a[i + c.len()]));
    }
    assert(a == c + q);
    assert(t == p + a);
    assert(t == p + c + q);
    (p, q)
}

/// Dropping trailing white space does not change the trim.
pub proof fn lemma_trim_drop_last_ws(t: Seq<char>)
    requires
        t.len() > 0,
        is_ws(t.last()),
    ensures
        trim(t.drop_last()) == trim(t),
{
    let (p, q) = lemma_trim_decompose(t);
    let c = trim(t);
    lemma_trim_shape(t);
    if q.len() == 0 {
        assert(t == p + c);
        if c.len() > 0 {
            assert(t.last() == c.last());
            assert(false);
        } else {
            assert(t == p);
            assert(t.drop_last() == p.drop_last() + c + Seq::<char>::empty());
            assert forall|i: int| 0 <= i < p.drop_last().len() implies is_ws(#[trigger] p.drop_last()[i]) by {
                assert(p.drop_last()[i] == p[i]);
            }
            lemma_trim_padded(p.drop_last(), c, seq![]);
        }
    } else {
        assert(t.drop_last() == p + c + q.drop_last());
        assert forall|i: int| 0 <= i < q.drop_last().len() implies is_ws(#[trigger] q.drop_last()[i]) by {
            assert(q.drop_last()[i] == q[i]);
        }
        lemma_trim_padded(p, c, q.drop_last());
    }
}

/// `c` is an ASCII digit.
pub open spec fn is_digit(c: char) -> bool {
    48 <= (c as u32) <= 57
}

/// The number the ASCII digits `s` spell.
pub open spec fn digits_value(s: Seq<char>) -> nat
    decreases s.len(),
{
    if s.len() == 0 {
        0
    } else {
        digits_value(s.drop_last()) * 10 + ((s.last() as u32) - 48) as nat
    }
}

/// What `str::parse` gives for an unsigned integer type whose largest value is
/// `max`: an optional `+`, then one or more ASCII digits, the value at most
/// `max`; anything else (including white space) is an error.
pub open spec fn spec_parse_uint(s: Seq<char>, max: nat) -> Option<nat> {
    let d = unsigned_digits(s);
    if d.len() > 0 && all_digits(d) && digits_value(d) <= max {
        Some(digits_value(d))
    } else {
        None
    }
}

/// `s` without its leading `+`, if any.
pub open spec fn unsigned_digits(s: Seq<char>) -> Seq<char> {
    if s.len() > 0 && s[0] == '+' { s.drop_first() } else { s }
}

/// Every character of `d` is an ASCII digit.
pub open spec fn all_digits(d: Seq<char>) -> bool {
    forall|i: int| 0 <= i < d.len() ==> is_digit(#[trigger] d[i])
}

proof fn lemma_digits_value_grows(s: Seq<char>, i: int)
    requires
        0 <= i <= s.len(),
        forall|k: int| 0 <= k < s.len() ==> is_digit(#[trigger] s[k]),
    ensures
        digits_value(s.take(i)) <= digits_value(s),
    decreases s.len() - i,
{
    if i < s.len() {
        lemma_digits_value_grows(s, i + 1);
        assert(s.take(i + 1).drop_last() == s.take(i));
        assert(s.take(i + 1).last() == s[i]);
    } else {
        assert(s.take(i) == s);
    }
}

/// Parses `s` as an unsigned integer of at most `max` (`str::parse`).
fn parse_uint(s: &str, max: u64) -> (r: Option<u64>)
    requires
        max >= 9,
    ensures
        match spec_parse_uint(s@, max as nat) {
            Some(v) => r == Some(v as u64),
            None => r is None,
        },
{
    let cs = chars_of(s);
    let start: usize = if cs.len() > 0 && cs[0] == '+' { 1 } else { 0 };
    let ghost d = unsigned_digits(s@);
    assert(d == cs@.subrange(start as int, cs.len() as int));
    if start >= cs.len() {
        return None;
    }
    let mut acc: u64 = 0;
    let mut i: usize = start;
    while i < cs.len()
        invariant
            start <= i <= cs.len(),
            start < cs.len(),
            max >= 9,
            cs@ == s@,
            d == unsigned_digits(s@),
            d == cs@.subrange(start as int, cs.len() as int),
            forall|k: int| 0 <= k < i - start ==> is_digit(#[trigger] d[k]),
            acc == digits_value(d.take(i - start)),
            acc <= max,
        decreases cs.len() - i,
    {
        let c = cs[i];
        let u = c as u32;
        assert(d[i - start] == c);
        if !(48 <= u && u <= 57) {
            assert(!is_digit(d[i - start]));
            return None;
        }
        let digit: u64 = (u - 48) as u64;
        assert(d.take(i - start + 1).drop_last() == d.take(i - start));
        assert(d.take(i - start + 1).last() == c);
        if acc > (max - digit) / 10 {
            proof {
                assert(acc * 10 + digit > max) by (nonlinear_arith)
                    requires acc > (max - digit) / 10, digit <= max;
                if all_digits(d) {
                    lemma_digits_value_grows(d, i - start + 1);
                }
            }
            return None;
        }
        assert(acc * 10 + digit <= max) by (nonlinear_arith)
            requires acc <= (max - digit) / 10, digit <= max;
        acc = acc * 10 + digit;
        i = i + 1;
    }
    assert(d.take(cs.len() - start) == d);
    Some(acc)
}

/// Parses `s` as a `u64` (`str::parse::<u64>`).
pub fn parse_u64(s: &str) -> (r: Option<u64>)
    ensures
        match spec_parse_uint(s@, u64::MAX as nat) {
            Some(v) => r == Some(v as u64),
            None => r is None,
        },
{
    parse_uint(s, u64::MAX)
}

/// Parses `s` as a `u32` (`str::parse::<u32>`).
pub fn parse_u32(s: &str) -> (r: Option<u32>)
    ensures
        match spec_parse_uint(s@, u32::MAX as nat) {
            Some(v) => r == Some(v as u32),
            None => r is None,
        },
{
    match parse_uint(s, u32::MAX as u64) {
        Some(v) => Some(v as u32),
        None => None,
    }
}

} // verus!
