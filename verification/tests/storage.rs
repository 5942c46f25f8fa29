use tutanak::storage::{
    first_heading_of, fmt_stamp, note_entry, note_file_name, note_label, parse_note, render, slug,
    sort_newest_first, stamp_of, NoteEntry,
};
use tutanak::Notes;

fn notes() -> Notes {
    Notes {
        language: "en".into(),
        output_lang: "tr".into(),
        transcript: "hello world".into(),
        translation: Some("merhaba dünya".into()),
        summary: "- karar: ship".into(),
    }
}

#[test]
fn render_contains_all_sections() {
    let md = render(&notes(), "Toplantı");
    assert!(md.contains("# Toplantı"));
    assert!(md.contains("## Özet"));
    assert!(md.contains("## Çeviri"));
    assert!(md.contains("## Transkript"));
    assert!(md.contains("hello world"));
}

#[test]
fn render_omits_translation_when_none() {
    let mut n = notes();
    n.translation = None;
    let md = render(&n, "x");
    assert!(!md.contains("## Çeviri"));
}

#[test]
fn slug_is_filesystem_safe() {
    assert_eq!(slug("Hello, World!"), "hello-world");
    assert_eq!(slug("  ??? "), "not");
}

#[test]
fn render_then_load_note_round_trips() {
    let md = render(&notes(), "Sprint");
    let loaded = parse_note(&md);
    assert_eq!(loaded.title, "Sprint");
    assert_eq!(loaded.summary, "- karar: ship");
    assert_eq!(loaded.transcript, "hello world");
    assert_eq!(loaded.translation.as_deref(), Some("merhaba dünya"));
}

#[test]
fn fmt_stamp_known_value() {
    assert_eq!(fmt_stamp(1_609_459_200), "2021-01-01 00:00");
}

#[test]
fn render_exact_document() {
    let mut n = notes();
    n.language = String::new();
    n.summary = "  s  ".into();
    let md = render(&n, "T");
    assert_eq!(
        md,
        "# T\n\n- Kaynak dil: (bilinmiyor)\n- Çıktı dili: tr\n\n## Özet\n\ns\n\n## Çeviri\n\nmerhaba dünya\n\n## Transkript\n\nhello world\n"
    );
}

#[test]
fn round_trip_without_translation() {
    let mut n = notes();
    n.translation = None;
    let loaded = parse_note(&render(&n, "  Weekly  "));
    assert_eq!(loaded.title, "Weekly");
    assert_eq!(loaded.translation, None);
    assert_eq!(loaded.summary, "- karar: ship");
}

#[test]
fn parse_note_ignores_unknown_sections_and_keeps_first_title() {
    let md = "# First\n# Second\n## Notlar\nignored\n## Özet\n line one\nline two \n## Transkript\r\ntext\r\n";
    let loaded = parse_note(md);
    assert_eq!(loaded.title, "First");
    assert_eq!(loaded.summary, "line one\nline two");
    assert_eq!(loaded.transcript, "text");
    assert_eq!(loaded.translation, None);
}

#[test]
fn slug_collapses_and_lowercases() {
    assert_eq!(slug("--Sprint  Review--2024"), "sprint-review-2024");
    assert_eq!(slug(""), "not");
    assert_eq!(slug("Çalıştay"), "Çalıştay".chars().map(|c| c.to_ascii_lowercase()).collect::<String>());
}

#[test]
fn fmt_stamp_more_values() {
    assert_eq!(fmt_stamp(0), "1970-01-01 00:00");
    assert_eq!(fmt_stamp(951_782_400), "2000-02-29 00:00");
    assert_eq!(fmt_stamp(1_700_000_000), "2023-11-14 22:13");
}

#[test]
fn file_name_and_stamp_agree() {
    let name = note_file_name(1_700_000_000, "Sprint Review");
    assert_eq!(name, "1700000000-sprint-review.md");
    assert_eq!(stamp_of("1700000000-sprint-review"), 1_700_000_000);
    assert_eq!(stamp_of("notes"), 0);
    assert_eq!(stamp_of("+12-x"), 12);
    assert_eq!(stamp_of(""), 0);
}

#[test]
fn first_heading_is_trimmed() {
    assert_eq!(first_heading_of("intro\n#  Plan  \n# Later\n").as_deref(), Some("Plan"));
    assert_eq!(first_heading_of("## Özet\nno title\n"), None);
}

#[test]
fn labels_show_date_and_heading() {
    assert_eq!(note_label(1_609_459_200, &Some("Plan".into())), "2021-01-01 00:00 — Plan");
    assert_eq!(note_label(0, &None), "1970-01-01 00:00 — (başlıksız)");
    let e = note_entry("/n/1609459200-plan.md".into(), "1609459200-plan", &Some("# Plan\n".into()));
    assert_eq!(e.path, "/n/1609459200-plan.md");
    assert_eq!(e.stamp, 1_609_459_200);
    assert_eq!(e.label, "2021-01-01 00:00 — Plan");
    let unread = note_entry("x.md".into(), "x", &None);
    assert_eq!(unread.label, "1970-01-01 00:00 — (başlıksız)");
}

#[test]
fn history_is_newest_first_and_stable() {
    let e = |p: &str, s: u64| NoteEntry { path: p.into(), label: String::new(), stamp: s };
    let v = vec![e("a", 5), e("b", 9), e("c", 5), e("d", 1), e("e", 9)];
    let sorted = sort_newest_first(v);
    let paths: Vec<&str> = sorted.iter().map(|x| x.path.as_str()).collect();
    assert_eq!(paths, vec!["b", "e", "a", "c", "d"]);
    assert!(sort_newest_first(Vec::new()).is_empty());
}
