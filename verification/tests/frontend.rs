use tutanak::config::Config;
use tutanak::frontend::{
    apply_settings, done_status, nonempty, notes_body, recording_status, settings_form, stage_message, ProfileFields,
};
use tutanak::Stage;

fn fields(b: &str, m: &str, k: &str) -> ProfileFields {
    ProfileFields { base_url: b.into(), model: m.into(), key_env: k.into() }
}

#[test]
fn settings_form_shows_selected_profiles() {
    let c = Config::default();
    let f = settings_form(&c, "groq", "ollama");
    let stt = f.stt.unwrap();
    assert_eq!(stt.base_url, "https://api.groq.com/openai/v1");
    assert_eq!(stt.model, "whisper-large-v3-turbo");
    assert_eq!(stt.key_env, "GROQ_API_KEY");
    let sum = f.summary.unwrap();
    assert_eq!(sum.model, "llama3.1");
    assert_eq!(sum.key_env, "");
    assert_eq!(f.chunk_mb, "24");
    assert!(settings_form(&c, "nope", "groq").stt.is_none());
}

#[test]
fn saving_settings_edits_the_profiles() {
    let mut c = Config::default();
    apply_settings(
        &mut c,
        "fastflowlm",
        "ollama",
        &fields(" http://npu:1/v1 ", "whisper", ""),
        &fields("http://o/v1", "  ", "OLLAMA_KEY"),
        " 10 ",
        "en",
    );
    let f = c.providers.get("fastflowlm").unwrap();
    assert_eq!(f.base_url.as_deref(), Some("http://npu:1/v1"));
    assert_eq!(f.stt_model.as_deref(), Some("whisper"));
    assert_eq!(f.api_key_env, None);
    assert_eq!(f.llm_model.as_deref(), Some("gemma4-it:e2b"));
    let o = c.providers.get("ollama").unwrap();
    assert_eq!(o.llm_model, None);
    assert_eq!(o.api_key_env.as_deref(), Some("OLLAMA_KEY"));
    assert_eq!(c.chunk_threshold_bytes, 10 * 1024 * 1024);
    assert_eq!((c.stt_provider.as_str(), c.summary_provider.as_str(), c.output_lang.as_str()), ("fastflowlm", "ollama", "en"));
    assert_eq!(c.providers.get("groq").unwrap().base_url.as_deref(), Some("https://api.groq.com/openai/v1"));
}

#[test]
fn same_profile_takes_both_field_sets() {
    let mut c = Config::default();
    apply_settings(&mut c, "groq", "groq", &fields("a", "stt-m", "K1"), &fields("b", "llm-m", "K2"), "x", "tr");
    let g = c.providers.get("groq").unwrap();
    assert_eq!(g.base_url.as_deref(), Some("b"));
    assert_eq!(g.stt_model.as_deref(), Some("stt-m"));
    assert_eq!(g.llm_model.as_deref(), Some("llm-m"));
    assert_eq!(g.api_key_env.as_deref(), Some("K2"));
    // A chunk size that is no number keeps the threshold; zero becomes one MiB.
    assert_eq!(c.chunk_threshold_bytes, 24 * 1024 * 1024);
    apply_settings(&mut c, "groq", "groq", &fields("a", "", ""), &fields("b", "", ""), "0", "tr");
    assert_eq!(c.chunk_threshold_bytes, 1024 * 1024);
}

#[test]
fn unknown_profiles_are_left_alone() {
    let mut c = Config::default();
    apply_settings(&mut c, "nope", "groq", &fields("a", "b", "c"), &fields("", "", ""), "", "tr");
    assert!(c.providers.get("nope").is_none());
    assert_eq!(c.stt_provider, "nope");
    assert_eq!(c.providers.get("groq").unwrap().base_url, None);
}

#[test]
fn form_fields_trim_to_settings() {
    assert_eq!(nonempty("  x y "), Some("x y".to_string()));
    assert_eq!(nonempty(" \t"), None);
}

#[test]
fn transcript_tab_and_status_lines() {
    assert_eq!(notes_body(&Some("çeviri".into()), "text"), "== Çeviri ==\nçeviri\n\n== Transkript ==\ntext");
    assert_eq!(notes_body(&None, "text"), "text");
    assert_eq!(done_status("en"), "Tamam (kaynak dil: en).");
    assert_eq!(done_status(""), "Tamam (kaynak dil: ?).");
    assert_eq!(recording_status(true), "● Kaydediliyor (mic + sistem)… Durdur'a basınca işlenecek.");
    assert_eq!(recording_status(false), "● Kaydediliyor (sadece sistem)… Durdur'a basınca işlenecek.");
    assert_eq!(stage_message(Stage::Transcribing), "Transkript çıkarılıyor…");
    assert_eq!(stage_message(Stage::Translating), "Çeviriliyor…");
    assert_eq!(stage_message(Stage::Summarizing), "Özetleniyor…");
}
