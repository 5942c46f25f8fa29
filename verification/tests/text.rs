use tutanak::text::split_into_windows;

#[test]
fn empty_text_no_windows() {
    assert!(split_into_windows("", 10).is_empty());
    assert!(split_into_windows("   \n  ", 10).is_empty());
}

#[test]
fn fits_in_one_window() {
    assert_eq!(split_into_windows("a b c", 10), vec!["a b c"]);
}

#[test]
fn splits_on_word_boundary() {
    let w = split_into_windows("one two three four five", 2);
    assert_eq!(w, vec!["one two", "three four", "five"]);
}

#[test]
fn zero_max_is_clamped_to_one() {
    let w = split_into_windows("a b", 0);
    assert_eq!(w, vec!["a", "b"]);
}

#[test]
fn windows_collapse_whitespace_runs() {
    let w = split_into_windows("  a\t\tb \n c  d ", 3);
    assert_eq!(w, vec!["a b c", "d"]);
}

#[test]
fn windows_rejoin_to_the_words() {
    let text = "the quick  brown fox\njumps over the lazy dog";
    let w = split_into_windows(text, 4);
    assert_eq!(w.len(), 3);
    assert!(w.iter().all(|x| x.split(' ').count() <= 4));
    let rejoined = w.join(" ");
    let words: Vec<&str> = text.split_whitespace().collect();
    assert_eq!(rejoined, words.join(" "));
}
