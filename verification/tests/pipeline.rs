use tutanak::config::{Config, ConfigError};
use tutanak::engine::TranscribeOutput;
use tutanak::{
    assemble_notes, job_dir_in, job_id, job_id_at, run_pipeline, run_pipeline_staged, sanitize, wants_translation,
    LlmEngine, PipelineError, RunOptions, Stage, StageRecord, StageSink, SttEngine,
};

struct Recorder(Vec<Stage>);

impl StageSink for Recorder {
    fn enter(&mut self, stage: Stage) {
        self.0.push(stage);
    }
}

struct FakeStt {
    language: String,
}

impl SttEngine for FakeStt {
    fn transcribe(&self, _wav_path: &str, job_dir: &str) -> Result<TranscribeOutput, String> {
        assert!(job_dir.ends_with("tutanak/job_1"), "job dir: {job_dir}");
        Ok(TranscribeOutput { transcript: "hello world".to_string(), language: self.language.clone() })
    }
    fn label(&self) -> String {
        "fake".to_string()
    }
}

struct FailingStt;

impl SttEngine for FailingStt {
    fn transcribe(&self, _wav_path: &str, _job_dir: &str) -> Result<TranscribeOutput, String> {
        Err("down".to_string())
    }
    fn label(&self) -> String {
        "failing".to_string()
    }
}

struct FakeLlm;

impl LlmEngine for FakeLlm {
    fn summarize(&self, transcript: &str, target_lang: &str) -> Result<String, String> {
        Ok(format!("summary[{target_lang}] {transcript}"))
    }
    fn translate(&self, text: &str, target_lang: &str) -> Result<String, String> {
        Ok(format!("translation[{target_lang}] {text}"))
    }
    fn label(&self) -> String {
        "fake".to_string()
    }
}

fn opts(translate: bool) -> RunOptions {
    RunOptions { translate, job_id: "job/1".to_string() }
}

#[test]
fn run_options_default() {
    let o = RunOptions::default();
    assert!(!o.translate);
    assert_eq!(o.job_id, "default");
}

#[test]
fn pipeline_translates_when_languages_differ() {
    let cfg = Config::default();
    let notes = run_pipeline(&cfg, &FakeStt { language: "en".into() }, &FakeLlm, "in.wav", &opts(true));
    let Ok(n) = notes else {
        // Without a cache directory the run stops before transcribing.
        assert!(matches!(notes, Err(PipelineError::NoCacheDir)));
        return;
    };
    assert_eq!(n.language, "en");
    assert_eq!(n.output_lang, "tr");
    assert_eq!(n.transcript, "hello world");
    assert_eq!(n.translation.as_deref(), Some("translation[tr] hello world"));
    assert_eq!(n.summary, "summary[tr] hello world");
}

#[test]
fn pipeline_skips_translation_in_the_output_language() {
    let cfg = Config::default();
    if let Ok(n) = run_pipeline(&cfg, &FakeStt { language: "tr".into() }, &FakeLlm, "in.wav", &opts(true)) {
        assert_eq!(n.translation, None);
    }
    if let Ok(n) = run_pipeline(&cfg, &FakeStt { language: "en".into() }, &FakeLlm, "in.wav", &opts(false)) {
        assert_eq!(n.translation, None);
    }
}

#[test]
fn pipeline_stops_on_bad_config_and_engine_failure() {
    let mut cfg = Config::default();
    cfg.stt_provider = "whispercpp".into();
    let r = run_pipeline(&cfg, &FailingStt, &FakeLlm, "in.wav", &opts(false));
    assert!(matches!(r, Err(PipelineError::Config(ConfigError::WhisperCppStt))));
    let cfg = Config::default();
    match run_pipeline(&cfg, &FailingStt, &FakeLlm, "in.wav", &opts(false)) {
        Err(PipelineError::Transcription(m)) => assert_eq!(m, "down"),
        Err(PipelineError::NoCacheDir) => {}
        other => panic!("unexpected {:?}", other.map(|n| n.summary)),
    }
}

#[test]
fn translation_decision() {
    assert!(wants_translation(true, "en", "tr"));
    assert!(!wants_translation(true, "tr", "tr"));
    assert!(!wants_translation(false, "en", "tr"));
}

#[test]
fn notes_keep_their_parts() {
    let n = assemble_notes(
        TranscribeOutput { transcript: "t".into(), language: "en".into() },
        "tr",
        Some("ç".into()),
        "s".into(),
    );
    assert_eq!((n.language.as_str(), n.output_lang.as_str(), n.transcript.as_str()), ("en", "tr", "t"));
    assert_eq!(n.translation.as_deref(), Some("ç"));
    assert_eq!(n.summary, "s");
}

#[test]
fn job_ids_are_directory_safe() {
    assert_eq!(sanitize("job/1"), "job_1");
    assert_eq!(sanitize("a-b_c 9"), "a-b_c_9");
    assert_eq!(sanitize(""), "default");
    assert_eq!(sanitize("ünïcode"), "ünïcode");
    assert_eq!(job_dir_in("/cache", "../x"), "/cache/tutanak/___x");
    assert_eq!(job_id_at(None, 1_700_000_000_123), "run-1700000000123");
    assert_eq!(job_id_at(Some("mine".into()), 5), "mine");
    assert_eq!(job_id(Some("again".into())), "again");
    assert!(job_id(None).starts_with("run-"));
}

#[test]
fn stages_are_reported_in_order() {
    let cfg = Config::default();
    let mut rec = Recorder(Vec::new());
    let r = run_pipeline_staged(&cfg, &FakeStt { language: "en".into() }, &FakeLlm, "in.wav", &opts(true), &mut rec);
    if r.is_ok() {
        assert_eq!(rec.0, vec![Stage::Transcribing, Stage::Translating, Stage::Summarizing]);
    }
    let mut rec = StageRecord { seen: Vec::new() };
    let r = run_pipeline_staged(&cfg, &FakeStt { language: "tr".into() }, &FakeLlm, "in.wav", &opts(true), &mut rec);
    if r.is_ok() {
        assert_eq!(rec.seen, vec![Stage::Transcribing, Stage::Summarizing]);
    }
    let mut bad = Config::default();
    bad.summary_provider = "nope".into();
    let mut rec = Recorder(Vec::new());
    let r = run_pipeline_staged(&bad, &FakeStt { language: "tr".into() }, &FakeLlm, "in.wav", &opts(true), &mut rec);
    assert!(matches!(r, Err(PipelineError::Config(ConfigError::UnknownSummaryProvider(_)))));
    assert!(rec.0.is_empty());
}

struct NoSummaryLlm;

impl LlmEngine for NoSummaryLlm {
    fn summarize(&self, _transcript: &str, _target_lang: &str) -> Result<String, String> {
        Err("quota".to_string())
    }
    fn translate(&self, text: &str, _target_lang: &str) -> Result<String, String> {
        Ok(text.to_string())
    }
    fn label(&self) -> String {
        "no-summary".to_string()
    }
}

#[test]
fn stages_up_to_a_failed_summary() {
    let cfg = Config::default();
    let mut rec = StageRecord { seen: Vec::new() };
    let r = run_pipeline_staged(&cfg, &FakeStt { language: "en".into() }, &NoSummaryLlm, "in.wav", &opts(true), &mut rec);
    match r {
        Err(PipelineError::Summary(m)) => {
            assert_eq!(m, "quota");
            assert_eq!(rec.seen, vec![Stage::Transcribing, Stage::Translating, Stage::Summarizing]);
        }
        Err(PipelineError::NoCacheDir) => assert!(rec.seen.is_empty()),
        other => panic!("unexpected {:?}", other.map(|n| n.summary)),
    }
}
