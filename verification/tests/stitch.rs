use tutanak::stitch::stitch;

fn s(x: &str) -> String {
    x.to_string()
}

#[test]
fn single_transcript_passthrough() {
    assert_eq!(stitch(&[s("hello world")]), "hello world");
}

#[test]
fn empty_inputs_dropped() {
    assert_eq!(stitch(&[s(""), s("a b"), s("")]), "a b");
    assert_eq!(stitch(&[]), "");
}

#[test]
fn overlap_is_deduped() {
    let a = s("we should ship the release today");
    let b = s("ship the release today and then review");
    assert_eq!(stitch(&[a, b]), "we should ship the release today and then review");
}

#[test]
fn overlap_is_case_and_punctuation_insensitive() {
    let a = s("the meeting is over.");
    let b = s("Over, we agreed on the plan");
    assert_eq!(stitch(&[a, b]), "the meeting is over. we agreed on the plan");
}

#[test]
fn no_overlap_just_concatenates() {
    assert_eq!(stitch(&[s("alpha beta"), s("gamma delta")]), "alpha beta gamma delta");
}

#[test]
fn three_chunks_each_overlap() {
    let a = s("one two three four");
    let b = s("three four five six");
    let c = s("five six seven eight");
    assert_eq!(stitch(&[a, b, c]), "one two three four five six seven eight");
}

#[test]
fn whitespace_only_chunks_are_skipped() {
    assert_eq!(stitch(&[s("a  b"), s("  \n "), s("b c")]), "a b c");
}

#[test]
fn stitched_words_are_single_spaced() {
    assert_eq!(stitch(&[s("  one\ttwo  "), s("three")]), "one two three");
}

#[test]
fn longest_overlap_wins() {
    // "a b a b" ends with "a b a b" and "a b"; the longest match is taken.
    assert_eq!(stitch(&[s("x a b a b"), s("a b a b y")]), "x a b a b y");
}

#[test]
fn overlap_ignoring_only_punctuation_words_matches() {
    // A word made only of punctuation normalizes to nothing and still matches.
    assert_eq!(stitch(&[s("end -"), s("... next")]), "end - next");
}

#[test]
fn restitching_the_stitched_text_changes_nothing() {
    let ts = [s("one two three"), s("three four"), s("Four, five")];
    let all = stitch(&ts);
    let two = stitch(&ts[..2]);
    assert_eq!(stitch(&[two, ts[2].clone()]), all);
    assert_eq!(all, "one two three four five");
}
