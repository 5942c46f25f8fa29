use std::time::Duration;

use tutanak::audio::{ChunkSpec, WavInfo};
use tutanak::config::{Config, Provider};
use tutanak::engine::{
    assemble_transcript, backoff, bearer_key, build_llm, build_stt, chat_reply, chunk_file_name, chunk_reply,
    failure_message, finish_summary, join_halves, join_strings, label, lang_name, majority_lang, normalize_lang,
    parse_retry_after, plan_transcription, retry_wait, split_chunk, summary_map_prompt, summary_reduce_prompt,
    translate_prompt, EngineError, RetryWait, SummaryStep, TranscribeError, TranscriptionJob, MAX_BACKOFF_MS,
};

fn s(x: &str) -> String {
    x.to_string()
}

#[test]
fn normalize_lang_maps_names_and_codes() {
    assert_eq!(normalize_lang("English"), "en");
    assert_eq!(normalize_lang("turkish"), "tr");
    assert_eq!(normalize_lang("klingon"), "klingon");
}

#[test]
fn backoff_grows_and_caps() {
    assert_eq!(Duration::from_millis(backoff(100, 0)), Duration::from_millis(100));
    assert_eq!(Duration::from_millis(backoff(100, 1)), Duration::from_millis(200));
    assert!(Duration::from_millis(backoff(100, 20)) <= Duration::from_millis(MAX_BACKOFF_MS));
}

#[test]
fn majority_lang_picks_most_common() {
    let v = vec!["en".to_string(), "en".to_string(), "tr".to_string()];
    assert_eq!(majority_lang(&v), "en");
    assert_eq!(majority_lang(&[]), "");
}

#[test]
fn majority_lang_ties_go_to_the_first() {
    assert_eq!(majority_lang(&[s("tr"), s("en"), s("en"), s("tr")]), "tr");
    assert_eq!(majority_lang(&[s("de")]), "de");
}

#[test]
fn normalize_lang_trims_and_lowercases() {
    assert_eq!(normalize_lang("  GERMAN "), "de");
    assert_eq!(normalize_lang("Arabic"), "ar");
    assert_eq!(normalize_lang(" Pt-BR "), "pt-br");
    assert_eq!(lang_name("turkish"), "Turkish");
    assert_eq!(lang_name("xx"), "the target language");
}

#[test]
fn backoff_exact_values() {
    assert_eq!(backoff(800, 0), 800);
    assert_eq!(backoff(800, 3), 6_400);
    assert_eq!(backoff(100, 6), 6_400);
    // The exponent stops at 6 and the wait at 30 s.
    assert_eq!(backoff(100, 7), 6_400);
    assert_eq!(backoff(1_000, 6), 30_000);
    assert_eq!(backoff(u64::MAX, 2), 30_000);
}

#[test]
fn retries_on_rate_limit_and_server_errors_only() {
    assert_eq!(retry_wait(429, 0, None, 100), Some(RetryWait::Millis(100)));
    assert_eq!(retry_wait(503, 2, Some(7), 100), Some(RetryWait::Seconds(7)));
    assert_eq!(retry_wait(500, 4, None, 100), Some(RetryWait::Millis(1_600)));
    assert_eq!(retry_wait(500, 5, None, 100), None);
    assert_eq!(retry_wait(404, 0, None, 100), None);
    assert_eq!(retry_wait(200, 0, None, 100), None);
    assert_eq!(retry_wait(600, 0, None, 100), None);
}

#[test]
fn retry_after_is_whole_seconds() {
    assert_eq!(parse_retry_after(" 12 "), Some(12));
    assert_eq!(parse_retry_after("Wed, 21 Oct 2015 07:28:00 GMT"), None);
    assert_eq!(parse_retry_after(""), None);
}

#[test]
fn auth_error_is_helpful() {
    let msg = failure_message("groq", "transkripsiyon", 401, " unauthorized\n");
    assert_eq!(
        msg,
        "groq transkripsiyon başarısız: HTTP 401 (API anahtarı geçersiz/yetkisiz — provider'ın api_key_env'ini kontrol et): unauthorized"
    );
    assert!(failure_message("p", "w", 429, "").contains("kota/oran sınırı"));
    assert_eq!(failure_message("p", "w", 500, "boom"), "p w başarısız: HTTP 500: boom");
}

#[test]
fn engine_labels() {
    assert_eq!(label("groq", "whisper-large-v3-turbo"), "groq (whisper-large-v3-turbo)");
}

#[test]
fn builds_engines_from_profiles() {
    let c = Config::default();
    let st = build_stt(&c).unwrap();
    assert_eq!(st.provider, "groq");
    assert_eq!(st.base_url, "https://api.groq.com/openai/v1");
    assert_eq!(st.api_key_env.as_deref(), Some("GROQ_API_KEY"));
    assert_eq!(st.model, "whisper-large-v3-turbo");
    assert_eq!(st.chunk_overlap_secs, 3);
    let llm = build_llm(&c).unwrap();
    assert_eq!(llm.model, "llama-3.3-70b-versatile");
    assert_eq!(llm.backoff_base_ms, 800);
}

#[test]
fn engine_errors() {
    let mut c = Config::default();
    c.stt_provider = s("whispercpp");
    let e = build_stt(&c).unwrap_err();
    assert!(matches!(e, EngineError::WhisperCppStt));
    assert!(e.message().contains("v1'de gelecek"));
    c.summary_provider = s("whispercpp");
    let e = build_llm(&c).unwrap_err();
    assert_eq!(
        e.message(),
        "whisper-cpp bir özet/LLM transport'u değil. summary.provider = \"groq\" veya \"ollama\"."
    );
    let mut c = Config::default();
    let mut bare = Provider::openai("http://x/v1", None);
    bare.base_url = None;
    c.providers.insert("bare", bare);
    c.summary_provider = s("bare");
    let e = build_llm(&c).unwrap_err();
    assert_eq!(e.message(), "'bare' provider'ında base_url eksik");
    c.stt_provider = s("missing");
    assert!(matches!(build_stt(&c), Err(EngineError::Config(_))));
}

#[test]
fn prompts_name_the_language() {
    let t = translate_prompt("tr");
    assert_eq!(
        t,
        "You are a professional translator. Translate the user's text into Turkish. Output only the translation, preserving meaning and tone. Do not add commentary."
    );
    assert!(summary_map_prompt("english").contains("Summarize the transcript section in English."));
    assert!(summary_reduce_prompt("de").ends_with("Output only the final summary in German."));
}

#[test]
fn summary_map_reduce_steps() {
    assert!(matches!(finish_summary(&[]), SummaryStep::Done(t) if t.is_empty()));
    assert!(matches!(finish_summary(&[s("only")]), SummaryStep::Done(t) if t == "only"));
    match finish_summary(&[s("a"), s("b")]) {
        SummaryStep::Reduce(t) => assert_eq!(t, "a\n\n---\n\nb"),
        other => panic!("unexpected {:?}", other),
    }
    assert_eq!(join_strings(&[s("x"), s("y"), s("z")], "\n\n"), "x\n\ny\n\nz");
}

#[test]
fn transcription_plan_and_empty_recording() {
    let empty = WavInfo { sample_rate: 16_000, channels: 1, bits_per_sample: 16, total_frames: 0 };
    let e = plan_transcription(&empty, 1_000_000, 3).unwrap_err();
    assert_eq!(e, TranscribeError::EmptyRecording);
    assert_eq!(e.message(), "Kayıt boş (sıfır-uzunluk) — yakalama başarısız olmuş olabilir");
    let info = WavInfo { sample_rate: 16_000, channels: 1, bits_per_sample: 16, total_frames: 100_000 };
    // (101_024 - 1024) / 2 = 50_000 frames per chunk, overlap 3 s = 48_000 frames capped at 25_000.
    let plan = plan_transcription(&info, 101_024, 3).unwrap();
    assert_eq!(plan[0], ChunkSpec { start_frame: 0, end_frame: 50_000 });
    assert_eq!(plan[1], ChunkSpec { start_frame: 25_000, end_frame: 75_000 });
    assert_eq!(plan.last().unwrap().end_frame, 100_000);
}

#[test]
fn payload_too_large_at_min_chunk_errors() {
    assert_eq!(split_chunk(ChunkSpec { start_frame: 0, end_frame: 16_000 }), None);
    assert_eq!(
        split_chunk(ChunkSpec { start_frame: 10, end_frame: 16_011 }),
        Some((ChunkSpec { start_frame: 10, end_frame: 8_010 }, ChunkSpec { start_frame: 8_010, end_frame: 16_011 }))
    );
    assert_eq!(join_halves("left part", "right part"), "left part right part");
}

#[test]
fn resume_files_and_replies() {
    assert_eq!(chunk_file_name(3, "txt"), "chunk_0003.txt");
    assert_eq!(chunk_file_name(12_345, "lang"), "chunk_12345.lang");
    let (t, l) = chunk_reply("  hello world \n", &Some(s("english")));
    assert_eq!(t, "hello world");
    assert_eq!(l.as_deref(), Some("en"));
    assert_eq!(chunk_reply("x", &None).1, None);
    assert_eq!(chat_reply(&[s("  - karar: gönder \n"), s("second")]).as_deref(), Some("- karar: gönder"));
    assert_eq!(chat_reply(&[]), None);
}

#[test]
fn happy_transcribe_then_summarize() {
    // The decisions of one transcription: one chunk, its reply, the result.
    let info = WavInfo { sample_rate: 16_000, channels: 1, bits_per_sample: 16, total_frames: 16_000 };
    let plan = plan_transcription(&info, 24 * 1024 * 1024, 3).unwrap();
    let mut job = TranscriptionJob::new(plan);
    let (i, spec) = job.next_chunk().unwrap();
    assert_eq!((i, spec), (0, ChunkSpec { start_frame: 0, end_frame: 16_000 }));
    let (text, lang) = chunk_reply("hello world", &Some(s("english")));
    job.record(text, lang);
    assert_eq!(job.next_chunk(), None);
    let out = job.finish();
    assert_eq!(out.transcript, "hello world");
    assert_eq!(out.language, "en");
    match finish_summary(&[chat_reply(&[s("- karar: gönder")]).unwrap()]) {
        SummaryStep::Done(t) => assert!(t.contains("karar")),
        other => panic!("unexpected {:?}", other),
    }
}

#[test]
fn resume_skips_network_on_second_run() {
    let info = WavInfo { sample_rate: 16_000, channels: 1, bits_per_sample: 16, total_frames: 16_000 };
    let mut job = TranscriptionJob::new(plan_transcription(&info, 24 * 1024 * 1024, 3).unwrap());
    job.record_resumed(s("resumed text"), Some(s("tr\n")));
    let out = job.finish();
    assert_eq!(out.transcript, "resumed text");
    assert_eq!(out.language, "tr");
    let mut job = TranscriptionJob::new(vec![ChunkSpec { start_frame: 0, end_frame: 5 }, ChunkSpec { start_frame: 3, end_frame: 9 }]);
    job.record_resumed(s("one two three"), None);
    assert_eq!(job.next_chunk(), Some((1, ChunkSpec { start_frame: 3, end_frame: 9 })));
    job.record(s("two three four"), Some(s("en")));
    let out = job.finish();
    assert_eq!(out.transcript, "one two three four");
    assert_eq!(out.language, "en");
}

#[test]
fn assembled_transcript_stitches_and_votes() {
    let out = assemble_transcript(&[s("a b c"), s("b c d")], &[s("en"), s("tr"), s("tr")]);
    assert_eq!(out.transcript, "a b c d");
    assert_eq!(out.language, "tr");
}

#[test]
fn bearer_key_skips_empty() {
    assert_eq!(bearer_key(&Some(s("k"))), Some(s("k")));
    assert_eq!(bearer_key(&Some(String::new())), None);
    assert_eq!(bearer_key(&None), None);
}

#[test]
fn completed_chunks_are_resumed_without_sending() {
    let a = ChunkSpec { start_frame: 0, end_frame: 5 };
    let b = ChunkSpec { start_frame: 3, end_frame: 9 };
    let mut job = TranscriptionJob::new(vec![a, b]);
    assert_eq!(job.resume_or_send(Some((s("saved words"), Some(s(" de\n"))))), None);
    assert_eq!(job.resume_or_send(None), Some(b));
    assert_eq!(job.texts.len(), 1);
    job.record(s("words more"), None);
    let out = job.finish();
    assert_eq!(out.transcript, "saved words more");
    assert_eq!(out.language, "de");
}

#[test]
fn normalizing_twice_changes_nothing() {
    for raw in ["  English ", "TR", "Klingon", "pt-BR", "", " ARABIC\n"] {
        let once = normalize_lang(raw);
        assert_eq!(normalize_lang(&once), once);
    }
}

#[test]
fn a_fully_saved_job_sends_nothing() {
    let a = ChunkSpec { start_frame: 0, end_frame: 5 };
    let b = ChunkSpec { start_frame: 3, end_frame: 9 };
    let mut job = TranscriptionJob::new(vec![a, b]);
    assert_eq!(job.resume_or_send(Some((s("one two"), Some(s("tr"))))), None);
    assert_eq!(job.resume_or_send(Some((s("two three"), None))), None);
    assert_eq!(job.next_chunk(), None);
    let out = job.finish();
    assert_eq!(out.transcript, "one two three");
    assert_eq!(out.language, "tr");
}
