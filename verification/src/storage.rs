//! Markdown notes: rendering, parsing back, file names and history labels.

use vstd::prelude::*;
use crate::Notes;
use crate::chars::{CharClass, alphanumeric, ascii_lower, runs, join, trim, append_str, append_chars, chars_of, string_of, trim_of, is_alphanumeric, to_ascii_lowercase, runs_of, append_joined, dec, zero_pad, dec_padded, lines, lines_of, starts_with, starts_with_chars, skip_chars, trim_class_of, chars_eq, concat_lf, ends_line, no_crlf, strip_cr, is_ws, lemma_lines_concat, lemma_lines_one, lemma_concat_lf_lines, lemma_trim_shape, lemma_trim_padded, lemma_trim_drop_last_ws, lemma_runs_are_clean, free_of, in_class, spec_parse_uint, parse_u64, dec_of, lemma_chars_deep_view, lemma_runs_cover};
use crate::paths::{joined_path, path_join, data_dir};

verus! {

/// The text a section of the note shows for an optional translation.
pub open spec fn translation_block(translation: Option<String>) -> Seq<char> {
    match translation {
        Some(tr) => "## Çeviri\n\n"@ + trim(tr@) + "\n\n"@,
        None => seq![],
    }
}

/// The source-language line's value: the language, or a placeholder when it is
/// unknown.
pub open spec fn language_shown(language: Seq<char>) -> Seq<char> {
    if language.len() == 0 { "(bilinmiyor)"@ } else { language }
}

/// The markdown document for `notes` under `title`.
pub open spec fn spec_render(notes: Notes, title: Seq<char>) -> Seq<char> {
    "# "@ + title + "\n\n"@
        + "- Kaynak dil: "@ + language_shown(notes.language@) + "\n- Çıktı dili: "@ + notes.output_lang@ + "\n\n"@
        + "## Özet\n\n"@ + trim(notes.summary@) + "\n\n"@
        + translation_block(notes.translation)
        + "## Transkript\n\n"@ + trim(notes.transcript@) + "\n"@
}

/// Render notes to markdown.
pub fn render(notes: &Notes, title: &str) -> (r: String)
    ensures
        r@ == spec_render(*notes, title@),
{
    let mut s: Vec<char> = Vec::new();
    append_str(&mut s, "# ");
    append_str(&mut s, title);
    append_str(&mut s, "\n\n");
    append_str(&mut s, "- Kaynak dil: ");
    if notes.language.as_str().is_empty() {
        append_str(&mut s, "(bilinmiyor)");
    } else {
        append_str(&mut s, notes.language.as_str());
    }
    append_str(&mut s, "\n- Çıktı dili: ");
    append_str(&mut s, notes.output_lang.as_str());
    append_str(&mut s, "\n\n");
    append_str(&mut s, "## Özet\n\n");
    let summary = trim_of(notes.summary.as_str());
    append_chars(&mut s, &summary);
    append_str(&mut s, "\n\n");
    match &notes.translation {
        Some(tr) => {
            append_str(&mut s, "## Çeviri\n\n");
            let t = trim_of(tr.as_str());
            append_chars(&mut s, &t);
            append_str(&mut s, "\n\n");
        },
        None => {},
    }
    append_str(&mut s, "## Transkript\n\n");
    let transcript = trim_of(notes.transcript.as_str());
    append_chars(&mut s, &transcript);
    append_str(&mut s, "\n");
    assert(s@ =~= spec_render(*notes, title@));
    string_of(&s)
}

/// A title's characters as used in a file name: alphanumerics lowercased
/// (ASCII), everything else a hyphen.
pub open spec fn slug_chars(title: Seq<char>) -> Seq<char> {
    title.map_values(|c: char| if alphanumeric(c) { ascii_lower(c) } else { '-' })
}

/// A file-name-safe slug of `title`: the hyphen-separated pieces of
/// `slug_chars(title)` joined by single hyphens, or `not` when none is left.
pub open spec fn spec_slug(title: Seq<char>) -> Seq<char> {
    let parts = runs(slug_chars(title), CharClass::Dash);
    if parts.len() == 0 { "not"@ } else { join(parts, seq!['-']) }
}

/// A file-name-safe slug of `title`.
pub fn slug(title: &str) -> (r: String)
    ensures
        r@ == spec_slug(title@),
{
    let cs = chars_of(title);
    let mut mapped: Vec<char> = Vec::new();
    let mut i: usize = 0;
    while i < cs.len()
        invariant
            i <= cs.len(),
            cs@ == title@,
            mapped@ == slug_chars(cs@.take(i as int)),
        decreases cs.len() - i,
    {
        let c = cs[i];
        let m = if is_alphanumeric(c) { to_ascii_lowercase(c) } else { '-' };
        mapped.push(m);
        i = i + 1;
        assert(mapped@ =~= slug_chars(cs@.take(i as int)));
    }
    assert(cs@.take(cs.len() as int) == cs@);
    assert(mapped@ == slug_chars(title@));
    let parts = runs_of(&mapped, CharClass::Dash);
    if parts.len() == 0 {
        return string_of(&chars_of("not"));
    }
    let mut out: Vec<char> = Vec::new();
    let sep: Vec<char> = vec!['-'];
    append_joined(&mut out, &parts, 0, parts.len(), &sep);
    assert(parts.deep_view().subrange(0, parts.len() as int) == parts.deep_view());
    assert(sep@ == seq!['-']);
    assert(out@ == spec_slug(title@));
    string_of(&out)
}

/// Day-of-epoch to civil date (proleptic Gregorian, UTC), by the days-from-
/// civil inversion over 400-year eras whose years start in March.
pub open spec fn spec_civil_from_days(z: int) -> (int, int, int) {
    let z2 = z + 719468;
    let era = z2 / 146097;
    let doe = z2 - era * 146097;
    let yoe = (doe - doe / 1460 + doe / 36524 - doe / 146096) / 365;
    let y = yoe + era * 400;
    let doy = doe - (365 * yoe + yoe / 4 - yoe / 100);
    let mp = (5 * doy + 2) / 153;
    let d = doy - (153 * mp + 2) / 5 + 1;
    let m = if mp < 10 { mp + 3 } else { mp - 9 };
    (if m <= 2 { y + 1 } else { y }, m, d)
}

/// Days since 1970-01-01 to `(year, month, day)`, UTC.
fn civil_from_days(z: i64) -> (r: (i64, u32, u32))
    requires
        0 <= z <= 0xffff_ffff_ffff,
    ensures
        r.0 == spec_civil_from_days(z as int).0,
        r.1 == spec_civil_from_days(z as int).1,
        r.2 == spec_civil_from_days(z as int).2,
        r.0 >= 1970,
        1 <= r.1 <= 12,
        1 <= r.2 <= 31,
{
    let z2: i64 = z + 719_468;
    let era: i64 = z2 / 146_097;
    let doe: u64 = (z2 - era * 146_097) as u64;
    assert(0 <= doe < 146097);
    let yoe: u64 = (doe - doe / 1460 + doe / 36_524 - doe / 146_096) / 365;
    assert(yoe <= 399);
    let y: i64 = yoe as i64 + era * 400;
    let doy: u64 = doe - (365 * yoe + yoe / 4 - yoe / 100);
    assert(doy <= 365) by (nonlinear_arith)
        requires
            0 <= doe < 146097,
            yoe == (doe - doe / 1460 + doe / 36524 - doe / 146096) / 365,
            doy == doe - (365 * yoe + yoe / 4 - yoe / 100);
    let mp: u64 = (5 * doy + 2) / 153;
    let d: u32 = (doy - (153 * mp + 2) / 5 + 1) as u32;
    let m: u32 = if mp < 10 { (mp + 3) as u32 } else { (mp - 9) as u32 };
    let year: i64 = if m <= 2 { y + 1 } else { y };
    (year, m, d)
}

/// `secs` (a Unix timestamp) as "YYYY-MM-DD HH:MM", UTC.
pub open spec fn spec_fmt_stamp(secs: u64) -> Seq<char> {
    let c = spec_civil_from_days((secs / 86400) as int);
    let rem = secs % 86400;
    zero_pad(dec(c.0 as nat), 4) + "-"@ + zero_pad(dec(c.1 as nat), 2) + "-"@ + zero_pad(dec(c.2 as nat), 2)
        + " "@ + zero_pad(dec((rem / 3600) as nat), 2) + ":"@ + zero_pad(dec(((rem % 3600) / 60) as nat), 2)
}

/// Format a Unix timestamp (seconds) as "YYYY-MM-DD HH:MM" in UTC.
pub fn fmt_stamp(secs: u64) -> (r: String)
    ensures
        r@ == spec_fmt_stamp(secs),
{
    let days: i64 = (secs / 86_400) as i64;
    let rem: u64 = secs % 86_400;
    let (y, m, d) = civil_from_days(days);
    let mut out = dec_padded(y as u64, 4);
    append_str(&mut out, "-");
    let mm = dec_padded(m as u64, 2);
    append_chars(&mut out, &mm);
    append_str(&mut out, "-");
    let dd = dec_padded(d as u64, 2);
    append_chars(&mut out, &dd);
    append_str(&mut out, " ");
    let hh = dec_padded(rem / 3600, 2);
    append_chars(&mut out, &hh);
    append_str(&mut out, ":");
    let mi = dec_padded((rem % 3600) / 60, 2);
    append_chars(&mut out, &mi);
    assert(out@ =~= spec_fmt_stamp(secs));
    string_of(&out)
}

/// A note parsed back from its markdown.
#[derive(Debug, Clone)]
pub struct LoadedNote {
    pub title: String,
    pub summary: String,
    pub translation: Option<String>,
    pub transcript: String,
}

impl Default for LoadedNote {
    fn default() -> (r: LoadedNote)
        ensures
            r.title@.len() == 0,
            r.summary@.len() == 0,
            r.translation is None,
            r.transcript@.len() == 0,
    {
        LoadedNote { title: String::new(), summary: String::new(), translation: None, transcript: String::new() }
    }
}

/// The section of a note a line belongs to.
#[derive(Clone, Copy, PartialEq, Eq, Structural)]
pub enum Section {
    Unknown,
    Summary,
    Translation,
    Transcript,
}

/// The section a `## ` heading opens.
pub open spec fn heading_section(h: Seq<char>) -> Section {
    if h == "Özet"@ {
        Section::Summary
    } else if h == "Çeviri"@ {
        Section::Translation
    } else if h == "Transkript"@ {
        Section::Transcript
    } else {
        Section::Unknown
    }
}

/// What parsing has gathered so far: the title, the current section, and the
/// summary, translation and transcript text (each line followed by `\n`).
pub type NoteScan = (Seq<char>, Section, Seq<char>, Seq<char>, Seq<char>);

/// Parsing state before the first line.
pub open spec fn scan_start() -> NoteScan {
    (seq![], Section::Unknown, seq![], seq![], seq![])
}

/// One line of parsing: a `## ` heading switches section; the first `# `
/// heading gives the title (later ones are ignored); any other line is added
/// to the current section.
pub open spec fn scan_line(st: NoteScan, line: Seq<char>) -> NoteScan {
    if starts_with(line, "## "@) {
        (st.0, heading_section(trim(line.subrange(3, line.len() as int))), st.2, st.3, st.4)
    } else if starts_with(line, "# "@) {
        if st.0.len() == 0 {
            (trim(line.subrange(2, line.len() as int)), st.1, st.2, st.3, st.4)
        } else {
            st
        }
    } else {
        match st.1 {
            Section::Summary => (st.0, st.1, st.2 + line + seq!['\n'], st.3, st.4),
            Section::Translation => (st.0, st.1, st.2, st.3 + line + seq!['\n'], st.4),
            Section::Transcript => (st.0, st.1, st.2, st.3, st.4 + line + seq!['\n']),
            Section::Unknown => st,
        }
    }
}

/// Parsing the lines `ls` from state `st`.
pub open spec fn scan_lines(st: NoteScan, ls: Seq<Seq<char>>) -> NoteScan
    decreases ls.len(),
{
    if ls.len() == 0 {
        st
    } else {
        scan_line(scan_lines(st, ls.drop_last()), ls.last())
    }
}

/// `n` holds what a parse ended with: the title, and each section's text
/// trimmed (a blank translation counts as none).
pub open spec fn note_from_scan(n: LoadedNote, st: NoteScan) -> bool {
    &&& n.title@ == st.0
    &&& n.summary@ == trim(st.2)
    &&& (n.translation is Some <==> trim(st.3).len() > 0)
    &&& (n.translation matches Some(t) ==> t@ == trim(st.3))
    &&& n.transcript@ == trim(st.4)
}

/// `n` is the note that `content` parses to.
pub open spec fn parses_to(content: Seq<char>, n: LoadedNote) -> bool {
    note_from_scan(n, scan_lines(scan_start(), lines(content)))
}

/// Parse a markdown note back into its title and sections.
pub fn parse_note(content: &str) -> (r: LoadedNote)
    ensures
        parses_to(content@, r),
{
    proof {
        reveal_strlit("## ");
        reveal_strlit("# ");
    }
    let cs = chars_of(content);
    let ls = lines_of(&cs);
    let h2 = chars_of("## ");
    let h1 = chars_of("# ");
    let summary_h = chars_of("Özet");
    let translation_h = chars_of("Çeviri");
    let transcript_h = chars_of("Transkript");
    let mut title: Vec<char> = Vec::new();
    let mut sec = Section::Unknown;
    let mut summary: Vec<char> = Vec::new();
    let mut translation: Vec<char> = Vec::new();
    let mut transcript: Vec<char> = Vec::new();
    let ghost lsv = ls.deep_view();
    let mut i: usize = 0;
    while i < ls.len()
        invariant
            i <= ls.len(),
            lsv == ls.deep_view(),
            lsv == lines(content@),
            h2@ == "## "@,
            h1@ == "# "@,
            summary_h@ == "Özet"@,
            translation_h@ == "Çeviri"@,
            transcript_h@ == "Transkript"@,
            scan_lines(scan_start(), lsv.take(i as int)) == (title@, sec, summary@, translation@, transcript@),
        decreases ls.len() - i,
    {
        let line = &ls[i];
        proof {
            crate::chars::lemma_chars_deep_view(line);
            reveal_strlit("## ");
            reveal_strlit("# ");
        }
        assert(lsv.take(i + 1).drop_last() == lsv.take(i as int));
        assert(lsv.take(i + 1).last() == line@);
        if starts_with_chars(line, &h2) {
            let rest = skip_chars(line, 3);
            let h = trim_class_of(&rest, CharClass::Whitespace);
            sec = if chars_eq(&h, &summary_h) {
                Section::Summary
            } else if chars_eq(&h, &translation_h) {
                Section::Translation
            } else if chars_eq(&h, &transcript_h) {
                Section::Transcript
            } else {
                Section::Unknown
            };
        } else if starts_with_chars(line, &h1) {
            if title.len() == 0 {
                let rest = skip_chars(line, 2);
                title = trim_class_of(&rest, CharClass::Whitespace);
            }
        } else {
            match sec {
                Section::Summary => {
                    append_chars(&mut summary, line);
                    summary.push('\n');
                },
                Section::Translation => {
                    append_chars(&mut translation, line);
                    translation.push('\n');
                },
                Section::Transcript => {
                    append_chars(&mut transcript, line);
                    transcript.push('\n');
                },
                Section::Unknown => {},
            }
        }
        i = i + 1;
    }
    assert(lsv.take(ls.len() as int) == lsv);
    let s = trim_class_of(&summary, CharClass::Whitespace);
    let t = trim_class_of(&translation, CharClass::Whitespace);
    let x = trim_class_of(&transcript, CharClass::Whitespace);
    LoadedNote {
        title: string_of(&title),
        summary: string_of(&s),
        translation: if t.len() == 0 { None } else { Some(string_of(&t)) },
        transcript: string_of(&x),
    }
}

/// A line that parsing treats as a heading.
pub open spec fn is_heading_line(l: Seq<char>) -> bool {
    starts_with(l, "# "@) || starts_with(l, "## "@)
}

/// No line of `x` is a heading.
pub open spec fn no_heading_lines(x: Seq<char>) -> bool {
    forall|i: int| 0 <= i < lines(x).len() ==> !is_heading_line(#[trigger] lines(x)[i])
}

/// Text that survives a section of the note unchanged: no heading line, and
/// no carriage return before a line feed.
pub open spec fn section_safe(x: Seq<char>) -> bool {
    no_heading_lines(x + "\n"@) && no_crlf(x + "\n"@)
}

proof fn lemma_scan_concat(st: NoteScan, a: Seq<Seq<char>>, b: Seq<Seq<char>>)
    ensures
        scan_lines(st, a + b) == scan_lines(scan_lines(st, a), b),
    decreases b.len(),
{
    if b.len() == 0 {
        assert(a + b == a);
    } else {
        lemma_scan_concat(st, a, b.drop_last());
        assert((a + b).drop_last() == a + b.drop_last());
        assert((a + b).last() == b.last());
    }
}

/// Parsing line-ended text `a` followed by `b` is parsing `a`, then `b`.
proof fn lemma_scan_text_concat(st: NoteScan, a: Seq<char>, b: Seq<char>)
    requires
        ends_line(a),
    ensures
        scan_lines(st, lines(a + b)) == scan_lines(scan_lines(st, lines(a)), lines(b)),
{
    lemma_lines_concat(a, b);
    lemma_scan_concat(st, lines(a), lines(b));
}

/// Lines that are not headings, outside any known section, change nothing.
proof fn lemma_scan_ignores(st: NoteScan, ls: Seq<Seq<char>>)
    requires
        st.1 == Section::Unknown,
        forall|i: int| 0 <= i < ls.len() ==> !is_heading_line(#[trigger] ls[i]),
    ensures
        scan_lines(st, ls) == st,
    decreases ls.len(),
{
    if ls.len() > 0 {
        lemma_scan_ignores(st, ls.drop_last());
        assert(!is_heading_line(ls[ls.len() - 1]));
    }
}

/// Lines that are not headings, inside a section, are added to it.
proof fn lemma_scan_appends(st: NoteScan, ls: Seq<Seq<char>>)
    requires
        st.1 != Section::Unknown,
        forall|i: int| 0 <= i < ls.len() ==> !is_heading_line(#[trigger] ls[i]),
    ensures
        scan_lines(st, ls) == (match st.1 {
            Section::Summary => (st.0, st.1, st.2 + concat_lf(ls), st.3, st.4),
            Section::Translation => (st.0, st.1, st.2, st.3 + concat_lf(ls), st.4),
            _ => (st.0, st.1, st.2, st.3, st.4 + concat_lf(ls)),
        }),
    decreases ls.len(),
{
    if ls.len() == 0 {
        assert(st.2 + concat_lf(ls) == st.2);
        assert(st.3 + concat_lf(ls) == st.3);
        assert(st.4 + concat_lf(ls) == st.4);
    } else {
        lemma_scan_appends(st, ls.drop_last());
        assert(!is_heading_line(ls[ls.len() - 1]));
        let l = ls.last();
        assert(st.2 + concat_lf(ls.drop_last()) + l + seq!['\n'] == st.2 + concat_lf(ls));
        assert(st.3 + concat_lf(ls.drop_last()) + l + seq!['\n'] == st.3 + concat_lf(ls));
        assert(st.4 + concat_lf(ls.drop_last()) + l + seq!['\n'] == st.4 + concat_lf(ls));
    }
}

/// A heading line on its own, ended by a line feed.
proof fn lemma_heading_line(st: NoteScan, name: Seq<char>, sec: Section)
    requires
        heading_section(name) == sec,
        !name.contains('\n'),
        name.len() > 0 && !is_ws(name[0]) && !is_ws(name.last()),
        name.last() != '\r',
    ensures
        scan_lines(st, lines("## "@ + name + "\n"@)) == (st.0, sec, st.2, st.3, st.4),
{
    reveal_strlit("## ");
    reveal_strlit("\n");
    let l = "## "@ + name;
    assert(!l.contains('\n')) by {
        if l.contains('\n') {
            let i = choose|i: int| 0 <= i < l.len() && l[i] == '\n';
            if i >= 3 {
                assert(name[i - 3] == '\n');
            }
        }
    }
    assert("## "@ + name + "\n"@ == l + seq!['\n']);
    lemma_lines_one(l);
    assert(l.last() == name.last());
    assert(strip_cr(l) == l);
    assert(seq![l].drop_last() == Seq::<Seq<char>>::empty());
    assert(starts_with(l, "## "@)) by {
        assert(l.subrange(0, 3) =~= "## "@);
    }
    assert(l.subrange(3, l.len() as int) == name);
    lemma_trim_padded(seq![], name, seq![]);
    assert(Seq::<char>::empty() + name + Seq::<char>::empty() == name);
    assert(trim(name) == name);
    assert(scan_lines(st, Seq::<Seq<char>>::empty()) == st);
    assert(seq![l].last() == l);
    assert(scan_lines(st, seq![l]) == scan_line(st, l));
}

/// A line-ended block of non-heading lines outside any section changes nothing.
proof fn lemma_block_ignored(st: NoteScan, b: Seq<char>)
    requires
        st.1 == Section::Unknown,
        no_heading_lines(b),
    ensures
        scan_lines(st, lines(b)) == st,
{
    lemma_scan_ignores(st, lines(b));
}

/// A line-ended block of non-heading lines inside a section is added to it.
proof fn lemma_block_appended(st: NoteScan, b: Seq<char>)
    requires
        st.1 != Section::Unknown,
        no_heading_lines(b),
        ends_line(b),
        no_crlf(b),
    ensures
        scan_lines(st, lines(b)) == (match st.1 {
            Section::Summary => (st.0, st.1, st.2 + b, st.3, st.4),
            Section::Translation => (st.0, st.1, st.2, st.3 + b, st.4),
            _ => (st.0, st.1, st.2, st.3, st.4 + b),
        }),
{
    lemma_scan_appends(st, lines(b));
    lemma_concat_lf_lines(b);
}

/// The blank line.
proof fn lemma_blank_line()
    ensures
        lines("\n"@) == seq![Seq::<char>::empty()],
        no_heading_lines("\n"@),
        ends_line("\n"@),
        no_crlf("\n"@),
{
    reveal_strlit("\n");
    reveal_strlit("# ");
    reveal_strlit("## ");
    lemma_lines_one(seq![]);
    assert(Seq::<char>::empty() + seq!['\n'] == "\n"@);
    assert(strip_cr(Seq::<char>::empty()) == Seq::<char>::empty());
}

/// Section text ended by a line feed, as rendered.
proof fn lemma_section_block(x: Seq<char>)
    requires
        section_safe(x),
    ensures
        no_heading_lines(x + "\n"@),
        ends_line(x + "\n"@),
        no_crlf(x + "\n"@),
{
    reveal_strlit("\n");
    assert((x + "\n"@).last() == '\n');
}

/// A section as rendered: its heading, a blank line, the trimmed text and a
/// blank line (the last section has no closing blank line).
proof fn lemma_scan_section(st: NoteScan, name: Seq<char>, sec: Section, x: Seq<char>, closing: bool)
    requires
        heading_section(name) == sec,
        sec != Section::Unknown,
        !name.contains('\n'),
        name.len() > 0 && !is_ws(name[0]) && !is_ws(name.last()),
        name.last() != '\r',
        section_safe(x),
    ensures
        ({
            let block = "## "@ + name + "\n"@ + "\n"@ + x + "\n"@ + (if closing { "\n"@ } else { seq![] });
            let added = "\n"@ + x + "\n"@ + (if closing { "\n"@ } else { seq![] });
            scan_lines(st, lines(block)) == (match sec {
                Section::Summary => (st.0, sec, st.2 + added, st.3, st.4),
                Section::Translation => (st.0, sec, st.2, st.3 + added, st.4),
                _ => (st.0, sec, st.2, st.3, st.4 + added),
            })
        }),
{
    reveal_strlit("\n");
    let h = "## "@ + name + "\n"@;
    let nl = "\n"@;
    let tail: Seq<char> = if closing { nl } else { seq![] };
    let block = h + nl + x + nl + tail;
    lemma_heading_line(st, name, sec);
    let st1 = (st.0, sec, st.2, st.3, st.4);
    assert(h.last() == '\n');
    assert(block == h + (nl + (x + nl + tail)));
    lemma_scan_text_concat(st, h, nl + (x + nl + tail));
    lemma_blank_line();
    lemma_scan_text_concat(st1, nl, x + nl + tail);
    lemma_block_appended(st1, nl);
    let st2 = scan_lines(st1, lines(nl));
    lemma_section_block(x);
    assert((x + nl).last() == '\n');
    lemma_scan_text_concat(st2, x + nl, tail);
    lemma_block_appended(st2, x + nl);
    let st3 = scan_lines(st2, lines(x + nl));
    if closing {
        lemma_block_appended(st3, nl);
    } else {
        assert(lines(tail) == Seq::<Seq<char>>::empty()) by {
            assert(tail == Seq::<char>::empty());
        }
    }
    let added = nl + x + nl + tail;
    assert(st.2 + nl + (x + nl) + tail == st.2 + added);
    assert(st.3 + nl + (x + nl) + tail == st.3 + added);
    assert(st.4 + nl + (x + nl) + tail == st.4 + added);
}

/// The note's header: title line, blank line, the two language lines and a
/// blank line.
proof fn lemma_scan_header(title: Seq<char>, lang_line: Seq<char>, out_line: Seq<char>)
    requires
        !title.contains('\n'),
        no_heading_lines(lang_line),
        no_heading_lines(out_line),
        ends_line(lang_line),
        ends_line(out_line),
    ensures
        scan_lines(scan_start(), lines("# "@ + title + "\n"@ + "\n"@ + lang_line + out_line + "\n"@))
            == (trim(title), Section::Unknown, Seq::<char>::empty(), Seq::<char>::empty(), Seq::<char>::empty()),
{
    reveal_strlit("# ");
    reveal_strlit("## ");
    reveal_strlit("\n");
    let nl = "\n"@;
    let l = "# "@ + title;
    assert(!l.contains('\n')) by {
        if l.contains('\n') {
            let i = choose|i: int| 0 <= i < l.len() && l[i] == '\n';
            if i >= 2 {
                assert(title[i - 2] == '\n');
            }
        }
    }
    let b1 = l + nl;
    assert(nl == seq!['\n']);
    lemma_lines_one(l);
    let sl = strip_cr(l);
    assert(sl.len() >= 2 && sl[0] == '#' && sl[1] == ' ');
    assert(!starts_with(sl, "## "@)) by {
        if starts_with(sl, "## "@) {
            assert(sl.subrange(0, 3)[1] == '#');
        }
    }
    assert(starts_with(sl, "# "@)) by {
        assert(sl.subrange(0, 2) =~= "# "@);
    }
    let ttl = trim(sl.subrange(2, sl.len() as int));
    assert(ttl == trim(title)) by {
        if title.len() > 0 && title.last() == '\r' {
            assert(l.last() == '\r');
            assert(sl.subrange(2, sl.len() as int) == title.drop_last());
            lemma_trim_drop_last_ws(title);
        } else {
            if title.len() > 0 {
                assert(l.last() == title.last());
            }
            assert(sl == l);
            assert(sl.subrange(2, sl.len() as int) == title);
        }
    }
    let st0 = scan_start();
    assert(l + seq!['\n'] == b1);
    assert(lines(b1) == seq![sl]);
    assert(scan_lines(st0, lines(b1)) == scan_line(st0, sl)) by {
        assert(scan_lines(st0, Seq::<Seq<char>>::empty()) == st0);
        assert(seq![sl].drop_last() == Seq::<Seq<char>>::empty());
        assert(seq![sl].last() == sl);
    }
    let st1 = (trim(title), Section::Unknown, Seq::<char>::empty(), Seq::<char>::empty(), Seq::<char>::empty());
    assert(scan_lines(st0, lines(b1)) == st1);
    let doc = b1 + (nl + (lang_line + (out_line + nl)));
    assert("# "@ + title + "\n"@ + "\n"@ + lang_line + out_line + "\n"@ == doc);
    assert(b1.last() == '\n');
    lemma_scan_text_concat(st0, b1, nl + (lang_line + (out_line + nl)));
    lemma_blank_line();
    lemma_scan_text_concat(st1, nl, lang_line + (out_line + nl));
    lemma_block_ignored(st1, nl);
    lemma_scan_text_concat(st1, lang_line, out_line + nl);
    lemma_block_ignored(st1, lang_line);
    lemma_scan_text_concat(st1, out_line, nl);
    lemma_block_ignored(st1, out_line);
    lemma_block_ignored(st1, nl);
}

/// Rendering then parsing gives the note back: the title trimmed, the summary
/// and transcript trimmed, and the translation trimmed (none when absent or
/// blank) — provided the title is one line, the language lines hold no
/// heading line, and no section text holds a heading line or a carriage
/// return before a line feed.
#[verifier::rlimit(40)]
#[verifier::spinoff_prover]
pub proof fn lemma_render_parse_round_trip(notes: Notes, title: Seq<char>, loaded: LoadedNote)
    requires
        !title.contains('\n'),
        no_heading_lines("- Kaynak dil: "@ + language_shown(notes.language@) + "\n"@),
        no_heading_lines("- Çıktı dili: "@ + notes.output_lang@ + "\n"@),
        section_safe(trim(notes.summary@)),
        section_safe(trim(notes.transcript@)),
        notes.translation matches Some(tr) ==> section_safe(trim(tr@)),
        parses_to(spec_render(notes, title), loaded),
    ensures
        loaded.title@ == trim(title),
        loaded.summary@ == trim(notes.summary@),
        loaded.transcript@ == trim(notes.transcript@),
        loaded.translation matches Some(t) ==> (notes.translation matches Some(tr) && t@ == trim(tr@)),
        loaded.translation is None <==> (notes.translation matches Some(tr) ==> trim(tr@).len() == 0),
{
    reveal_strlit("\n");
    reveal_strlit("\n\n");
    reveal_strlit("# ");
    reveal_strlit("## ");
    reveal_strlit("- Kaynak dil: ");
    reveal_strlit("\n- Çıktı dili: ");
    reveal_strlit("- Çıktı dili: ");
    reveal_strlit("## Özet\n\n");
    reveal_strlit("## Çeviri\n\n");
    reveal_strlit("## Transkript\n\n");
    reveal_strlit("Özet");
    reveal_strlit("Çeviri");
    reveal_strlit("Transkript");
    let nl = "\n"@;
    let lang_line = "- Kaynak dil: "@ + language_shown(notes.language@) + nl;
    let out_line = "- Çıktı dili: "@ + notes.output_lang@ + nl;
    let head = "# "@ + title + nl + nl + lang_line + out_line + nl;
    let sm = trim(notes.summary@);
    let tx = trim(notes.transcript@);
    let sum_block = "## "@ + "Özet"@ + nl + nl + sm + nl + nl;
    let tr_block: Seq<char> = match notes.translation {
        Some(tr) => "## "@ + "Çeviri"@ + nl + nl + trim(tr@) + nl + nl,
        None => seq![],
    };
    let tx_block = "## "@ + "Transkript"@ + nl + nl + tx + nl;
    let doc = spec_render(notes, title);
    assert(doc =~= head + (sum_block + (tr_block + tx_block)));
    assert(lang_line.last() == '\n');
    assert(out_line.last() == '\n');
    lemma_scan_header(title, lang_line, out_line);
    let st0 = scan_start();
    let st1 = (trim(title), Section::Unknown, Seq::<char>::empty(), Seq::<char>::empty(), Seq::<char>::empty());
    assert(head.last() == '\n');
    lemma_scan_text_concat(st0, head, sum_block + (tr_block + tx_block));
    assert("Özet"@.last() == 't');
    lemma_scan_section(st1, "Özet"@, Section::Summary, sm, true);
    assert(sum_block == "## "@ + "Özet"@ + "\n"@ + "\n"@ + sm + "\n"@ + "\n"@);
    let sum_added = nl + sm + nl + nl;
    let st2 = (trim(title), Section::Summary, sum_added, Seq::<char>::empty(), Seq::<char>::empty());
    assert(Seq::<char>::empty() + sum_added == sum_added);
    assert(scan_lines(st1, lines(sum_block)) == st2) by {
        assert(sum_added == "\n"@ + sm + "\n"@ + "\n"@);
    }
    assert(sum_block.last() == '\n');
    lemma_scan_text_concat(st1, sum_block, tr_block + tx_block);
    let st3 = scan_lines(st2, lines(tr_block));
    match notes.translation {
        Some(tr) => {
            lemma_scan_section(st2, "Çeviri"@, Section::Translation, trim(tr@), true);
            assert(tr_block == "## "@ + "Çeviri"@ + "\n"@ + "\n"@ + trim(tr@) + "\n"@ + "\n"@);
            assert(tr_block.last() == '\n');
            assert(Seq::<char>::empty() + (nl + trim(tr@) + nl + nl) == nl + trim(tr@) + nl + nl);
        },
        None => {
            assert(tr_block == Seq::<char>::empty());
            assert(lines(tr_block) == Seq::<Seq<char>>::empty()) by {
                assert(crate::chars::split_state(tr_block) == (Seq::<Seq<char>>::empty(), Seq::<char>::empty()));
            }
            assert(tr_block + tx_block == tx_block);
        },
    }
    lemma_scan_text_concat(st2, tr_block, tx_block);
    lemma_scan_section(st3, "Transkript"@, Section::Transcript, tx, false);
    assert(tx_block == "## "@ + "Transkript"@ + "\n"@ + "\n"@ + tx + "\n"@ + Seq::<char>::empty());
    let fin = scan_lines(st0, lines(doc));
    assert(fin.0 == trim(title));
    assert(fin.2 == sum_added);
    assert(fin.4 == st3.4 + (nl + tx + nl));
    assert(st3.4 == Seq::<char>::empty());
    assert(Seq::<char>::empty() + (nl + tx + nl) == nl + tx + nl);
    lemma_trim_shape(notes.summary@);
    lemma_trim_shape(notes.transcript@);
    assert(sum_added == nl + sm + (nl + nl));
    lemma_trim_padded(nl, sm, nl + nl);
    assert(nl + tx + nl == nl + tx + nl);
    lemma_trim_padded(nl, tx, nl);
    match notes.translation {
        Some(tr) => {
            let t = trim(tr@);
            assert(fin.3 == nl + t + nl + nl);
            lemma_trim_shape(tr@);
            assert(nl + t + nl + nl == nl + t + (nl + nl));
            lemma_trim_padded(nl, t, nl + nl);
        },
        None => {
            assert(fin.3 == Seq::<char>::empty());
            lemma_trim_padded(seq![], seq![], seq![]);
            assert(Seq::<char>::empty() + Seq::<char>::empty() + Seq::<char>::empty() == Seq::<char>::empty());
        },
    }
}


/// `s` has no hyphen at either end and no two hyphens in a row, and is not
/// empty.
pub open spec fn hyphen_clean(s: Seq<char>) -> bool {
    &&& s.len() > 0
    &&& s[0] != '-'
    &&& s.last() != '-'
    &&& forall|i: int, j: int| 0 <= i && j == i + 1 && j < s.len() ==> !(#[trigger] s[i] == '-' && #[trigger] s[j] == '-')
}

proof fn lemma_join_hyphen_clean(ws: Seq<Seq<char>>)
    requires
        ws.len() > 0,
        forall|i: int| 0 <= i < ws.len() ==> (#[trigger] ws[i]).len() > 0 && free_of(ws[i], CharClass::Dash),
    ensures
        hyphen_clean(join(ws, seq!['-'])),
        forall|k: int| 0 <= k < join(ws, seq!['-']).len() ==> {
            let c = #[trigger] join(ws, seq!['-'])[k];
            c == '-' || exists|i: int, j: int| 0 <= i < ws.len() && 0 <= j < ws[i].len() && c == #[trigger] ws[i][j]
        },
    decreases ws.len(),
{
    if ws.len() == 1 {
        let w = ws[0];
        assert(join(ws, seq!['-']) == w);
        assert(!in_class(CharClass::Dash, w[0]));
        assert(!in_class(CharClass::Dash, w[w.len() - 1]));
        assert forall|i: int, j: int| 0 <= i && j == i + 1 && j < w.len() implies !(#[trigger] w[i] == '-' && #[trigger] w[j] == '-') by {
            assert(!in_class(CharClass::Dash, w[i]));
        }
        assert forall|k: int| 0 <= k < w.len() implies {
            let c = #[trigger] w[k];
            c == '-' || exists|i: int, j: int| 0 <= i < ws.len() && 0 <= j < ws[i].len() && c == #[trigger] ws[i][j]
        } by {
            assert(w[k] == ws[0][k]);
        }
    } else {
        let init = ws.drop_last();
        assert forall|i: int| 0 <= i < init.len() implies (#[trigger] init[i]).len() > 0 && free_of(init[i], CharClass::Dash) by {
            assert(init[i] == ws[i]);
        }
        lemma_join_hyphen_clean(init);
        let a = join(init, seq!['-']);
        let w = ws.last();
        assert(w == ws[ws.len() - 1]);
        let b = a + seq!['-'] + w;
        assert(join(ws, seq!['-']) == b);
        assert(!in_class(CharClass::Dash, w[0]));
        assert(!in_class(CharClass::Dash, w[w.len() - 1]));
        assert(b[0] == a[0]);
        assert(b.last() == w[w.len() - 1]);
        assert forall|i: int, j: int| 0 <= i && j == i + 1 && j < b.len() implies !(#[trigger] b[i] == '-' && #[trigger] b[j] == '-') by {
            if j < a.len() {
                assert(b[i] == a[i] && b[j] == a[j]);
            } else if j == a.len() {
                assert(b[i] == a.last());
            } else if j == a.len() + 1 {
                assert(b[j] == w[0]);
            } else {
                assert(b[j] == w[j - a.len() - 1]);
                assert(!in_class(CharClass::Dash, w[j - a.len() - 1]));
            }
        }
        assert forall|k: int| 0 <= k < b.len() implies {
            let c = #[trigger] b[k];
            c == '-' || exists|i: int, j: int| 0 <= i < ws.len() && 0 <= j < ws[i].len() && c == #[trigger] ws[i][j]
        } by {
            if k < a.len() {
                assert(b[k] == a[k]);
                let c = a[k];
                if c != '-' {
                    let (i, j) = choose|i: int, j: int| 0 <= i < init.len() && 0 <= j < init[i].len() && c == #[trigger] init[i][j];
                    assert(init[i] == ws[i]);
                    assert(c == ws[i][j]);
                }
            } else if k > a.len() {
                assert(b[k] == w[k - a.len() - 1]);
                assert(b[k] == ws[ws.len() - 1][k - a.len() - 1]);
            }
        }
    }
}

/// A slug is never empty and has no hyphen at either end and no two hyphens
/// in a row; it is `not` when the title has no alphanumeric character, and
/// otherwise made of hyphens and the title's alphanumerics (ASCII-lowercased).
pub proof fn lemma_slug_shape(title: Seq<char>)
    ensures
        hyphen_clean(spec_slug(title)),
        runs(slug_chars(title), CharClass::Dash).len() == 0 ==> spec_slug(title) == "not"@,
        runs(slug_chars(title), CharClass::Dash).len() > 0 ==> forall|k: int| 0 <= k < spec_slug(title).len() ==> {
            let c = #[trigger] spec_slug(title)[k];
            c == '-' || slug_chars(title).contains(c)
        },
{
    let m = slug_chars(title);
    let parts = runs(m, CharClass::Dash);
    lemma_runs_are_clean(m, CharClass::Dash);
    if parts.len() == 0 {
        reveal_strlit("not");
        let n = spec_slug(title);
        assert(n == "not"@);
        assert(n[0] == 'n' && n[1] == 'o' && n[2] == 't');
        assert(n.len() == 3);
        assert forall|i: int, j: int| 0 <= i && j == i + 1 && j < n.len() implies !(#[trigger] n[i] == '-' && #[trigger] n[j] == '-') by {}
    } else {
        lemma_runs_cover(m, CharClass::Dash);
        lemma_join_hyphen_clean(parts);
        let j = join(parts, seq!['-']);
        assert forall|k: int| 0 <= k < j.len() implies {
            let c = #[trigger] j[k];
            c == '-' || m.contains(c)
        } by {
            let c = j[k];
            if c != '-' {
                let (a, b) = choose|a: int, b: int| 0 <= a < parts.len() && 0 <= b < parts[a].len() && c == #[trigger] parts[a][b];
                assert(m.contains(parts[a][b]));
            }
        }
    }
}


/// The title of a note: the trimmed text after `# ` on the first line that
/// starts with it.
pub open spec fn first_heading(ls: Seq<Seq<char>>) -> Option<Seq<char>>
    decreases ls.len(),
{
    if ls.len() == 0 {
        None
    } else if starts_with(ls[0], "# "@) {
        Some(trim(ls[0].subrange(2, ls[0].len() as int)))
    } else {
        first_heading(ls.drop_first())
    }
}

/// The title of the markdown note `content`, if it has a `# ` heading.
pub fn first_heading_of(content: &str) -> (r: Option<String>)
    ensures
        match first_heading(lines(content@)) {
            Some(h) => r matches Some(t) && t@ == h,
            None => r is None,
        },
{
    let cs = chars_of(content);
    let ls = lines_of(&cs);
    let prefix = chars_of("# ");
    let ghost all = ls.deep_view();
    assert(all.subrange(0, all.len() as int) =~= all);
    let mut i: usize = 0;
    while i < ls.len()
        invariant
            i <= ls.len(),
            all == ls.deep_view(),
            all == lines(content@),
            prefix@ == "# "@,
            first_heading(all) == first_heading(all.subrange(i as int, all.len() as int)),
        decreases ls.len() - i,
    {
        let ghost rest = all.subrange(i as int, all.len() as int);
        assert(rest[0] == all[i as int]);
        assert(rest.drop_first() =~= all.subrange(i + 1, all.len() as int));
        proof { lemma_chars_deep_view(&ls[i as int]); }
        if starts_with_chars(&ls[i], &prefix) {
            proof { reveal_strlit("# "); }
            let after = skip_chars(&ls[i], 2);
            let t = trim_class_of(&after, CharClass::Whitespace);
            return Some(string_of(&t));
        }
        i = i + 1;
    }
    None
}

/// The part of a file stem before its first hyphen (all of it when it has
/// none).
pub open spec fn leading_part(s: Seq<char>) -> Seq<char>
    decreases s.len(),
{
    if s.len() == 0 {
        s
    } else if s[0] == '-' {
        seq![]
    } else {
        seq![s[0]] + leading_part(s.drop_first())
    }
}

/// The timestamp a note's file stem starts with (`<stamp>-<slug>`), or 0 when
/// it does not start with a number.
pub open spec fn spec_stamp_of(stem: Seq<char>) -> u64 {
    match spec_parse_uint(leading_part(stem), u64::MAX as nat) {
        Some(v) => v as u64,
        None => 0,
    }
}

proof fn lemma_leading_part_step(s: Seq<char>, i: int)
    requires
        0 <= i < s.len(),
        forall|k: int| 0 <= k < i ==> s[k] != '-',
    ensures
        leading_part(s) == s.subrange(0, i) + leading_part(s.subrange(i, s.len() as int)),
    decreases i,
{
    if i > 0 {
        let t = s.drop_first();
        assert forall|k: int| 0 <= k < i - 1 implies t[k] != '-' by {
            assert(t[k] == s[k + 1]);
        }
        lemma_leading_part_step(t, i - 1);
        assert(t.subrange(i - 1, t.len() as int) =~= s.subrange(i, s.len() as int));
        assert(seq![s[0]] + t.subrange(0, i - 1) =~= s.subrange(0, i));
    } else {
        assert(s.subrange(0, 0) + leading_part(s) =~= leading_part(s));
        assert(s.subrange(0, s.len() as int) =~= s);
    }
}

pub fn stamp_of(stem: &str) -> (r: u64)
    ensures
        r == spec_stamp_of(stem@),
{
    let cs = chars_of(stem);
    let mut i: usize = 0;
    while i < cs.len() && cs[i] != '-'
        invariant
            i <= cs.len(),
            cs@ == stem@,
            forall|k: int| 0 <= k < i ==> cs@[k] != '-',
        decreases cs.len() - i,
    {
        i = i + 1;
    }
    let mut head: Vec<char> = Vec::new();
    let mut j: usize = 0;
    while j < i
        invariant
            j <= i <= cs.len(),
            head@ == cs@.subrange(0, j as int),
        decreases i - j,
    {
        head.push(cs[j]);
        j = j + 1;
        assert(head@ =~= cs@.subrange(0, j as int));
    }
    proof {
        if i < cs.len() {
            lemma_leading_part_step(cs@, i as int);
            assert(cs@.subrange(i as int, cs.len() as int)[0] == '-');
            assert(leading_part(cs@.subrange(i as int, cs.len() as int)) == Seq::<char>::empty());
            assert(head@ + Seq::<char>::empty() == head@);
        } else {
            lemma_leading_part_all(cs@);
            assert(cs@.subrange(0, cs.len() as int) =~= cs@);
        }
    }
    let h = string_of(&head);
    match parse_u64(h.as_str()) {
        Some(v) => v,
        None => 0,
    }
}

proof fn lemma_leading_part_all(s: Seq<char>)
    requires
        forall|k: int| 0 <= k < s.len() ==> s[k] != '-',
    ensures
        leading_part(s) == s,
    decreases s.len(),
{
    if s.len() > 0 {
        let t = s.drop_first();
        assert forall|k: int| 0 <= k < t.len() implies t[k] != '-' by {
            assert(t[k] == s[k + 1]);
        }
        lemma_leading_part_all(t);
        assert(seq![s[0]] + t =~= s);
    }
}

/// The history label of a note: "YYYY-MM-DD HH:MM — <heading>", with a
/// placeholder for a note without a heading.
pub open spec fn spec_note_label(stamp: u64, heading: Option<Seq<char>>) -> Seq<char> {
    spec_fmt_stamp(stamp) + " — "@ + match heading {
        Some(h) => h,
        None => "(başlıksız)"@,
    }
}

/// The view of an optional string.
pub open spec fn opt_view(o: Option<String>) -> Option<Seq<char>> {
    match o {
        Some(s) => Some(s@),
        None => None,
    }
}

pub fn note_label(stamp: u64, heading: &Option<String>) -> (r: String)
    ensures
        r@ == spec_note_label(stamp, opt_view(*heading)),
{
    let f = fmt_stamp(stamp);
    let mut s = chars_of(f.as_str());
    append_str(&mut s, " — ");
    match heading {
        Some(h) => append_str(&mut s, h.as_str()),
        None => append_str(&mut s, "(başlıksız)"),
    }
    string_of(&s)
}

/// A saved note in the history list.
#[derive(Debug, Clone)]
pub struct NoteEntry {
    pub path: String,
    /// Display label: "YYYY-MM-DD HH:MM — <heading>".
    pub label: String,
    pub stamp: u64,
}

/// The history entry of the note at `path` with file stem `stem`, whose text
/// is `content` when it could be read.
pub fn note_entry(path: String, stem: &str, content: &Option<String>) -> (r: NoteEntry)
    ensures
        r.path == path,
        r.stamp == spec_stamp_of(stem@),
        r.label@ == spec_note_label(r.stamp, match content {
            Some(c) => first_heading(lines(c@)),
            None => None,
        }),
{
    let stamp = stamp_of(stem);
    let heading = match content {
        Some(c) => first_heading_of(c.as_str()),
        None => None,
    };
    let label = note_label(stamp, &heading);
    NoteEntry { path, label, stamp }
}

/// Newest first: stamps never increase along the list.
pub open spec fn newest_first(s: Seq<NoteEntry>) -> bool {
    forall|i: int, j: int| 0 <= i < j < s.len() ==> #[trigger] s[i].stamp >= #[trigger] s[j].stamp
}

/// Whether a note has stamp `k`.
pub open spec fn stamp_is(k: u64) -> spec_fn(NoteEntry) -> bool {
    |e: NoteEntry| e.stamp == k
}

proof fn lemma_single_filter(e: NoteEntry, k: u64)
    ensures
        seq![e].filter(stamp_is(k)) == (if e.stamp == k { seq![e] } else { Seq::<NoteEntry>::empty() }),
{
    reveal_with_fuel(Seq::filter, 2);
    assert(seq![e].drop_last() =~= Seq::<NoteEntry>::empty());
    assert(seq![e].last() == e);
}

proof fn lemma_insert_keeps_order(old_out: Seq<NoteEntry>, p: int, old_rest: Seq<NoteEntry>, k: u64)
    requires
        0 <= p <= old_out.len(),
        old_rest.len() > 0,
        forall|i: int| p <= i < old_out.len() ==> (#[trigger] old_out[i]).stamp < old_rest[0].stamp,
    ensures
        old_out.insert(p, old_rest[0]).filter(stamp_is(k)) + old_rest.drop_first().filter(stamp_is(k))
            == old_out.filter(stamp_is(k)) + old_rest.filter(stamp_is(k)),
{
    let e = old_rest[0];
    let f = stamp_is(k);
    let a = old_out.subrange(0, p);
    let b = old_out.subrange(p, old_out.len() as int);
    let t = old_rest.drop_first();
    assert(old_out == a + b);
    assert(old_out.insert(p, e) =~= a + seq![e] + b);
    assert(old_rest =~= seq![e] + t);
    Seq::filter_distributes_over_add(a, b, f);
    Seq::filter_distributes_over_add(a + seq![e], b, f);
    Seq::filter_distributes_over_add(a, seq![e], f);
    Seq::filter_distributes_over_add(seq![e], t, f);
    lemma_single_filter(e, k);
    if e.stamp == k {
        assert(b.all(|x: NoteEntry| !f(x))) by {
            assert forall|i: int| 0 <= i < b.len() implies !f(#[trigger] b[i]) by {
                assert(b[i] == old_out[p + i]);
            }
        }
        b.lemma_all_neg_filter_empty(f);
        assert(b.filter(f) =~= Seq::<NoteEntry>::empty());
        assert(a.filter(f) + seq![e] + b.filter(f) + t.filter(f) =~= a.filter(f) + b.filter(f) + (seq![e] + t.filter(f)));
    } else {
        assert(a.filter(f) + Seq::<NoteEntry>::empty() + b.filter(f) + t.filter(f) =~= a.filter(f) + b.filter(f) + (Seq::<NoteEntry>::empty() + t.filter(f)));
    }
}

/// The notes ordered newest first; notes with equal stamps keep their order.
pub fn sort_newest_first(v: Vec<NoteEntry>) -> (r: Vec<NoteEntry>)
    ensures
        newest_first(r@),
        r@.to_multiset() == v@.to_multiset(),
        forall|k: u64| #[trigger] r@.filter(stamp_is(k)) == v@.filter(stamp_is(k)),
{
    broadcast use vstd::seq_lib::group_to_multiset_ensures;
    let ghost orig = v@;
    let mut rest = v;
    let mut out: Vec<NoteEntry> = Vec::new();
    assert(out@.to_multiset() =~= vstd::multiset::Multiset::<NoteEntry>::empty());
    assert(out@.to_multiset().add(rest@.to_multiset()) =~= orig.to_multiset());
    assert forall|k: u64| #[trigger] out@.filter(stamp_is(k)) + rest@.filter(stamp_is(k)) == orig.filter(stamp_is(k)) by {
        reveal_with_fuel(Seq::filter, 1);
        assert(out@.filter(stamp_is(k)) =~= Seq::<NoteEntry>::empty());
        assert(Seq::<NoteEntry>::empty() + rest@.filter(stamp_is(k)) =~= rest@.filter(stamp_is(k)));
    }
    while rest.len() > 0
        invariant
            newest_first(out@),
            out@.to_multiset().add(rest@.to_multiset()) == orig.to_multiset(),
            forall|k: u64| #[trigger] out@.filter(stamp_is(k)) + rest@.filter(stamp_is(k)) == orig.filter(stamp_is(k)),
        decreases rest.len(),
    {
        let ghost old_rest = rest@;
        let ghost old_out = out@;
        let e = rest.remove(0);
        let mut p: usize = 0;
        while p < out.len() && out[p].stamp >= e.stamp
            invariant
                p <= out.len(),
                out@ == old_out,
                newest_first(out@),
                forall|k: int| 0 <= k < p ==> (#[trigger] out@[k]).stamp >= e.stamp,
            decreases out.len() - p,
        {
            p = p + 1;
        }
        proof {
            assert forall|k: int| p <= k < out.len() implies (#[trigger] out@[k]).stamp < e.stamp by {
                assert(out@[p as int].stamp < e.stamp);
                if k > p {
                    assert(out@[p as int].stamp >= out@[k].stamp);
                }
            }
        }
        out.insert(p, e);
        proof {
            let n = out@;
            assert forall|i: int, j: int| 0 <= i < j < n.len() implies #[trigger] n[i].stamp >= #[trigger] n[j].stamp by {
                if j < p {
                    assert(n[i] == old_out[i] && n[j] == old_out[j]);
                } else if j == p {
                    assert(n[i] == old_out[i]);
                } else if i < p {
                    assert(n[i] == old_out[i] && n[j] == old_out[j - 1]);
                } else if i == p {
                    assert(n[j] == old_out[j - 1]);
                } else {
                    assert(n[i] == old_out[i - 1] && n[j] == old_out[j - 1]);
                }
            }
            vstd::seq_lib::to_multiset_remove(old_rest, 0);
            vstd::seq_lib::to_multiset_insert(old_out, p as int, old_rest[0]);
            vstd::seq_lib::to_multiset_contains(old_rest, old_rest[0]);
            assert(old_rest.contains(old_rest[0]));
            assert(rest@ =~= old_rest.drop_first());
            assert forall|k: u64| #[trigger] out@.filter(stamp_is(k)) + rest@.filter(stamp_is(k)) == orig.filter(stamp_is(k)) by {
                lemma_insert_keeps_order(old_out, p as int, old_rest, k);
                assert(old_out.filter(stamp_is(k)) + old_rest.filter(stamp_is(k)) == orig.filter(stamp_is(k)));
            }
            assert(out@.to_multiset().add(rest@.to_multiset()) =~= orig.to_multiset());
        }
    }
    assert(rest@.to_multiset() =~= vstd::multiset::Multiset::<NoteEntry>::empty());
    assert(out@.to_multiset().add(rest@.to_multiset()) =~= out@.to_multiset());
    assert forall|k: u64| #[trigger] out@.filter(stamp_is(k)) == orig.filter(stamp_is(k)) by {
        reveal_with_fuel(Seq::filter, 1);
        assert(rest@.filter(stamp_is(k)) =~= Seq::<NoteEntry>::empty());
        assert(out@.filter(stamp_is(k)) + rest@.filter(stamp_is(k)) =~= out@.filter(stamp_is(k)));
    }
    out
}

/// The notes directory under the data directory `base`: `<base>/tutanak`.
pub fn notes_dir_in(base: &str) -> (r: String)
    ensures
        r@ == joined_path(base@, "tutanak"@),
{
    path_join(base, "tutanak")
}

/// Directory where notes are stored (`~/.local/share/tutanak/`), or none
/// when there is no data directory.
pub fn notes_dir() -> (r: Option<String>)
    ensures
        r matches Some(p) ==> exists|base: Seq<char>| p@ == joined_path(base, "tutanak"@),
{
    match data_dir() {
        None => None,
        Some(base) => {
            let p = notes_dir_in(&base);
            assert(p@ == joined_path(base@, "tutanak"@));
            Some(p)
        },
    }
}

/// The file name a note saved at `stamp` (Unix seconds) under `title` gets:
/// `<stamp>-<slug>.md`.
pub open spec fn spec_note_file_name(stamp: u64, title: Seq<char>) -> Seq<char> {
    dec(stamp as nat) + "-"@ + spec_slug(title) + ".md"@
}

pub fn note_file_name(stamp: u64, title: &str) -> (r: String)
    ensures
        r@ == spec_note_file_name(stamp, title@),
{
    let mut s = dec_of(stamp);
    append_str(&mut s, "-");
    let sl = slug(title);
    append_str(&mut s, sl.as_str());
    append_str(&mut s, ".md");
    string_of(&s)
}


/// A rendered note shows its source language right after the title: the
/// line after the title's blank line is `- Kaynak dil: ` and the language
/// itself when it is known, and a placeholder only when it is empty.
pub proof fn lemma_render_shows_language(notes: Notes, title: Seq<char>)
    ensures
        notes.language@.len() > 0 ==> spec_render(notes, title).subrange(title.len() + 4 as int, title.len() + 18 + notes.language@.len() as int)
            == "- Kaynak dil: "@ + notes.language@,
        notes.language@.len() == 0 ==> spec_render(notes, title).subrange(title.len() + 4 as int, title.len() + 30 as int)
            == "- Kaynak dil: (bilinmiyor)"@,
{
    reveal_strlit("# ");
    reveal_strlit("\n\n");
    reveal_strlit("- Kaynak dil: ");
    reveal_strlit("(bilinmiyor)");
    reveal_strlit("- Kaynak dil: (bilinmiyor)");
    let head = "# "@ + title + "\n\n"@;
    assert(head.len() == title.len() + 4);
    let shown = language_shown(notes.language@);
    let doc = spec_render(notes, title);
    let rest = "\n- Çıktı dili: "@ + notes.output_lang@ + "\n\n"@
        + "## Özet\n\n"@ + trim(notes.summary@) + "\n\n"@
        + translation_block(notes.translation)
        + "## Transkript\n\n"@ + trim(notes.transcript@) + "\n"@;
    assert(doc =~= head + ("- Kaynak dil: "@ + shown) + rest);
    assert(doc.subrange(head.len() as int, head.len() + 14 + shown.len() as int) =~= "- Kaynak dil: "@ + shown);
}

} // verus!
