//! Meeting-notes pipeline core: record → transcribe → translate → summarize
//! → markdown notes.
//!
//!   capture ─► WAV ─► speech-to-text engine ─► transcript
//!                                                  │
//!          summary (output language, map-reduce) ◄─┤
//!          translation (optional, source ≠ output) ◄┘
//!                          │
//!                    markdown notes
//!
//! The library holds the decisions: chunk planning for long recordings,
//! transcript stitching, text windowing for map-reduce summaries, retry and
//! split rules, the provider registry and layered configuration, capture
//! device choice, and markdown note rendering and parsing. Engines are
//! reached through the `SttEngine` and `LlmEngine` traits.

use vstd::prelude::*;
use crate::chars::{alphanumeric, is_alphanumeric, chars_of, string_of, append_str, append_chars, dec, dec_of};
use crate::config::{Config, ConfigError, owned};
use crate::engine::TranscribeOutput;
use crate::paths::{joined_path, path_join, cache_dir};

pub mod audio;
pub mod capture;
pub mod chars;
pub mod config;
pub mod engine;
pub mod frontend;
pub mod paths;
pub mod stitch;
pub mod storage;
pub mod text;

verus! {

/// The product of the pipeline: a meeting's notes.
#[derive(Debug, Clone)]
pub struct Notes {
    /// Detected source language (normalized 2-letter, best-effort).
    pub language: String,
    /// Output language for summary and translation.
    pub output_lang: String,
    pub transcript: String,
    /// Full translation of the transcript into `output_lang`, if produced.
    pub translation: Option<String>,
    /// Summary in `output_lang`.
    pub summary: String,
}

/// Options controlling the pipeline run.
#[derive(Debug, Clone)]
pub struct RunOptions {
    /// Also produce a full transcript translation (cost-heavy on long
    /// meetings). Skipped when the source language already equals the output
    /// language.
    pub translate: bool,
    /// Stable id for the resume directory; reuse it to resume a failed run.
    pub job_id: String,
}

impl Default for RunOptions {
    fn default() -> (r: RunOptions)
        ensures
            !r.translate,
            r.job_id@ == "default"@,
    {
        RunOptions { translate: false, job_id: owned("default") }
    }
}

/// Coarse pipeline stage, reported to a frontend.
#[derive(Debug, Clone, Copy, PartialEq, Eq, Structural)]
pub enum Stage {
    Transcribing,
    Translating,
    Summarizing,
}

/// A speech-to-text backend.
pub trait SttEngine {
    /// `out` is a transcription this engine gives for the recording at `wav`,
    /// with its resumable per-chunk results under `dir`. An engine that does
    /// not define it promises nothing of its results: every one qualifies.
    closed spec fn transcribed(&self, wav: Seq<char>, dir: Seq<char>, out: TranscribeOutput) -> bool {
        true
    }

    /// The transcript and detected language of the recording at `wav_path`,
    /// keeping resumable per-chunk results under `job_dir`; an error message
    /// when the backend fails.
    fn transcribe(&self, wav_path: &str, job_dir: &str) -> (r: Result<TranscribeOutput, String>)
        ensures
            r matches Ok(t) ==> self.transcribed(wav_path@, job_dir@, t),
    ;

    /// Human-readable label, e.g. "groq (whisper-large-v3-turbo)".
    fn label(&self) -> String;
}

/// A translate and summarize backend.
pub trait LlmEngine {
    /// `summary` is a summary this engine gives of `transcript` in
    /// `target_lang` (every summary qualifies for an engine that does not
    /// define it).
    closed spec fn summarized(&self, transcript: Seq<char>, target_lang: Seq<char>, summary: String) -> bool {
        true
    }

    /// `translation` is a translation this engine gives of `text` into
    /// `target_lang` (every translation qualifies for an engine that does not
    /// define it).
    closed spec fn translated(&self, text: Seq<char>, target_lang: Seq<char>, translation: String) -> bool {
        true
    }

    /// A summary of `transcript` in `target_lang`.
    fn summarize(&self, transcript: &str, target_lang: &str) -> (r: Result<String, String>)
        ensures
            r matches Ok(s) ==> self.summarized(transcript@, target_lang@, s),
    ;

    /// `text` translated into `target_lang`.
    fn translate(&self, text: &str, target_lang: &str) -> (r: Result<String, String>)
        ensures
            r matches Ok(x) ==> self.translated(text@, target_lang@, x),
    ;

    fn label(&self) -> String;
}

/// Why the pipeline stopped.
#[derive(Debug, Clone)]
pub enum PipelineError {
    /// The configuration cannot run (see [`Config::ensure_v0_supported`]).
    Config(ConfigError),
    /// No per-user cache directory for the resume files.
    NoCacheDir,
    /// The speech-to-text engine failed.
    Transcription(String),
    /// The translation failed.
    Translation(String),
    /// The summary failed.
    Summary(String),
}

impl PipelineError {
    /// The message shown for this error.
    pub fn message(&self) -> (r: String)
        ensures
            (match self {
                PipelineError::Config(e) => r@ == e.spec_message(),
                PipelineError::NoCacheDir => r@ == "XDG cache dizini bulunamadı"@,
                PipelineError::Transcription(m) => r@ == m@,
                PipelineError::Translation(m) => r@ == m@,
                PipelineError::Summary(m) => r@ == m@,
            }),
    {
        match self {
            PipelineError::Config(e) => e.message(),
            PipelineError::NoCacheDir => owned("XDG cache dizini bulunamadı"),
            PipelineError::Transcription(m) => m.clone(),
            PipelineError::Translation(m) => m.clone(),
            PipelineError::Summary(m) => m.clone(),
        }
    }
}

/// A translation is made when asked for and the detected language differs
/// from the output language.
pub open spec fn translation_wanted(translate: bool, language: Seq<char>, output_lang: Seq<char>) -> bool {
    translate && language != output_lang
}

pub fn wants_translation(translate: bool, language: &str, output_lang: &str) -> (r: bool)
    ensures
        r == translation_wanted(translate, language@, output_lang@),
{
    if !translate {
        return false;
    }
    let a = chars_of(language);
    let b = chars_of(output_lang);
    !crate::chars::chars_eq(&a, &b)
}

/// The notes of a run from the transcription, the output language, the
/// translation if one was made, and the summary.
pub fn assemble_notes(t: TranscribeOutput, output_lang: &str, translation: Option<String>, summary: String) -> (r: Notes)
    ensures
        r.language == t.language,
        r.transcript == t.transcript,
        r.output_lang@ == output_lang@,
        r.translation == translation,
        r.summary == summary,
{
    Notes { language: t.language, output_lang: owned(output_lang), transcript: t.transcript, translation, summary }
}

/// A character of a job id as it appears in a directory name: letters,
/// digits, `-` and `_` stay, anything else becomes `_`.
pub open spec fn sanitized_char(c: char) -> char {
    if alphanumeric(c) || c == '-' || c == '_' { c } else { '_' }
}

/// A job id made safe for a directory name; an empty id becomes `default`.
pub open spec fn spec_sanitize(s: Seq<char>) -> Seq<char> {
    if s.len() == 0 { "default"@ } else { Seq::new(s.len(), |i: int| sanitized_char(s[i])) }
}

pub fn sanitize(s: &str) -> (r: String)
    ensures
        r@ == spec_sanitize(s@),
{
    let cs = chars_of(s);
    if cs.len() == 0 {
        return owned("default");
    }
    let mut out: Vec<char> = Vec::new();
    let mut i: usize = 0;
    while i < cs.len()
        invariant
            i <= cs.len(),
            cs@ == s@,
            out@ == Seq::new(i as nat, |j: int| sanitized_char(cs@[j])),
        decreases cs.len() - i,
    {
        let c = cs[i];
        let keep = is_alphanumeric(c) || c == '-' || c == '_';
        out.push(if keep { c } else { '_' });
        i = i + 1;
        assert(out@ =~= Seq::new(i as nat, |j: int| sanitized_char(cs@[j])));
    }
    assert(out@ =~= spec_sanitize(s@));
    string_of(&out)
}

/// The resume directory of a job under the cache directory `base`:
/// `<base>/tutanak/<sanitized job id>`.
pub open spec fn spec_job_dir(base: Seq<char>, job_id: Seq<char>) -> Seq<char> {
    joined_path(joined_path(base, "tutanak"@), spec_sanitize(job_id))
}

pub fn job_dir_in(base: &str, job_id: &str) -> (r: String)
    ensures
        r@ == spec_job_dir(base@, job_id@),
{
    let app = path_join(base, "tutanak");
    let id = sanitize(job_id);
    path_join(&app, &id)
}

/// The resume directory of a job under the user's cache directory, or none
/// when there is no cache directory.
pub fn job_dir(job_id: &str) -> (r: Option<String>)
    ensures
        r matches Some(p) ==> exists|base: Seq<char>| p@ == spec_job_dir(base, job_id@),
{
    match cache_dir() {
        None => None,
        Some(base) => {
            let p = job_dir_in(&base, job_id);
            assert(p@ == spec_job_dir(base@, job_id@));
            Some(p)
        },
    }
}

/// The job id of a run started at `ms` milliseconds since the epoch: the
/// given id, else `run-<ms>`.
pub open spec fn spec_job_id(job: Option<Seq<char>>, ms: u64) -> Seq<char> {
    match job {
        Some(j) => j,
        None => "run-"@ + dec(ms as nat),
    }
}

pub fn job_id_at(job: Option<String>, ms: u64) -> (r: String)
    ensures
        r@ == spec_job_id(match job { Some(j) => Some(j@), None => None }, ms),
{
    match job {
        Some(j) => j,
        None => {
            let mut s: Vec<char> = Vec::new();
            append_str(&mut s, "run-");
            let d = dec_of(ms);
            append_chars(&mut s, &d);
            string_of(&s)
        },
    }
}

/// Milliseconds since the Unix epoch by the system clock (0 before the
/// epoch). It depends on the time, so nothing is stated of it.
#[verifier::external_body]
fn unix_millis() -> (r: u64) {
    std::time::SystemTime::now().duration_since(std::time::UNIX_EPOCH).map(|d| d.as_millis() as u64).unwrap_or(0)
}

/// The resume id of a run: an explicit id resumes that job; without one a
/// fresh `run-<ms>` id keeps a new recording from reusing an old run's
/// cached transcript.
pub fn job_id(job: Option<String>) -> (r: String)
    ensures
        job matches Some(j) ==> r@ == j@,
        job is None ==> exists|ms: u64| r@ == spec_job_id(None, ms),
{
    let ms = unix_millis();
    job_id_at(job, ms)
}

/// Told which coarse stage the pipeline enters, e.g. to show a status line.
pub trait StageSink {
    /// Whether this sink keeps the stages it is told (`stages`). A sink that
    /// does not define it keeps none that a proof can see.
    closed spec fn records(&self) -> bool {
        false
    }

    /// The stages this sink was told so far, in order, when it `records`.
    closed spec fn stages(&self) -> Seq<Stage> {
        Seq::empty()
    }

    fn enter(&mut self, stage: Stage)
        ensures
            old(self).records() ==> final(self).records() && final(self).stages() == old(self).stages().push(stage),
    ;
}

/// The stages a run that gets through reports: transcribing, translating
/// when a translation is made, and summarizing.
pub open spec fn run_stages(translated: bool) -> Seq<Stage> {
    if translated {
        seq![Stage::Transcribing, Stage::Translating, Stage::Summarizing]
    } else {
        seq![Stage::Transcribing, Stage::Summarizing]
    }
}

/// A sink that keeps the stages it is told, in order.
#[derive(Debug)]
pub struct StageRecord {
    pub seen: Vec<Stage>,
}

impl StageSink for StageRecord {
    open spec fn records(&self) -> bool {
        true
    }

    open spec fn stages(&self) -> Seq<Stage> {
        self.seen@
    }

    fn enter(&mut self, stage: Stage) {
        self.seen.push(stage);
    }
}

/// A sink that reports nowhere.
struct NoStages;

impl StageSink for NoStages {
    fn enter(&mut self, stage: Stage) {
    }
}

/// `n` is what a run with resume directory `dir` gives: the speech engine
/// transcribed the recording to `t`, the summary engine summarized `t`'s
/// transcript in the output language, and translated it when a translation
/// is wanted; the notes hold exactly those results.
pub open spec fn ran<S: SttEngine, L: LlmEngine>(
    cfg: Config,
    stt: S,
    llm: L,
    wav: Seq<char>,
    dir: Seq<char>,
    translate: bool,
    n: Notes,
) -> bool {
    exists|t: TranscribeOutput| {
        &&& #[trigger] stt.transcribed(wav, dir, t)
        &&& n.language == t.language
        &&& n.transcript == t.transcript
        &&& n.output_lang@ == cfg.output_lang@
        &&& llm.summarized(t.transcript@, cfg.output_lang@, n.summary)
        &&& (translation_wanted(translate, t.language@, cfg.output_lang@) ==>
                (n.translation matches Some(x) && llm.translated(t.transcript@, cfg.output_lang@, x)))
        &&& (!translation_wanted(translate, t.language@, cfg.output_lang@) ==> n.translation is None)
    }
}

/// Run the pipeline on the 16 kHz mono WAV at `wav_path`: check the
/// configuration, transcribe (resumable under the job's cache directory),
/// translate when asked and the languages differ, and summarize in the
/// output language.
pub fn run_pipeline<S: SttEngine, L: LlmEngine>(cfg: &Config, stt: &S, llm: &L, wav_path: &str, opts: &RunOptions) -> (r: Result<Notes, PipelineError>)
    ensures
        !cfg.v0_supported() <==> r matches Err(PipelineError::Config(_)),
        r matches Err(PipelineError::NoCacheDir) ==> cfg.v0_supported(),
        r matches Ok(n) ==> exists|dir: Seq<char>| {
            &&& (exists|base: Seq<char>| dir == spec_job_dir(base, opts.job_id@))
            &&& #[trigger] ran(*cfg, *stt, *llm, wav_path@, dir, opts.translate, n)
        },
{
    let mut quiet = NoStages;
    run_pipeline_staged(cfg, stt, llm, wav_path, opts, &mut quiet)
}

/// Like [`run_pipeline`], telling `on_stage` each stage it enters.
pub fn run_pipeline_staged<S: SttEngine, L: LlmEngine, K: StageSink>(
    cfg: &Config,
    stt: &S,
    llm: &L,
    wav_path: &str,
    opts: &RunOptions,
    on_stage: &mut K,
) -> (r: Result<Notes, PipelineError>)
    ensures
        !cfg.v0_supported() <==> r matches Err(PipelineError::Config(_)),
        r matches Err(PipelineError::NoCacheDir) ==> cfg.v0_supported(),
        r matches Ok(n) ==> exists|dir: Seq<char>| {
            &&& (exists|base: Seq<char>| dir == spec_job_dir(base, opts.job_id@))
            &&& #[trigger] ran(*cfg, *stt, *llm, wav_path@, dir, opts.translate, n)
        },
        old(on_stage).records() ==> final(on_stage).records(),
        (old(on_stage).records() && r is Err && (r->Err_0 is Config || r->Err_0 is NoCacheDir))
            ==> final(on_stage).stages() == old(on_stage).stages(),
        (old(on_stage).records() && r is Err && r->Err_0 is Transcription)
            ==> final(on_stage).stages() == old(on_stage).stages().push(Stage::Transcribing),
        (old(on_stage).records() && r is Err && r->Err_0 is Translation)
            ==> final(on_stage).stages() == old(on_stage).stages().push(Stage::Transcribing).push(Stage::Translating),
        (old(on_stage).records() && r is Err && r->Err_0 is Summary)
            ==> exists|dir: Seq<char>, t: TranscribeOutput| {
                &&& #[trigger] stt.transcribed(wav_path@, dir, t)
                &&& (exists|base: Seq<char>| dir == spec_job_dir(base, opts.job_id@))
                &&& final(on_stage).stages() == old(on_stage).stages()
                    + run_stages(translation_wanted(opts.translate, t.language@, cfg.output_lang@))
            },
        (old(on_stage).records() && r is Ok)
            ==> final(on_stage).stages() == old(on_stage).stages() + run_stages(r->Ok_0.translation is Some),
{
    let ghost before = on_stage.stages();
    let ghost rec = on_stage.records();
    match cfg.ensure_v0_supported() {
        Ok(()) => {},
        Err(e) => return Err(PipelineError::Config(e)),
    }
    let dir = match job_dir(&opts.job_id) {
        Some(d) => d,
        None => return Err(PipelineError::NoCacheDir),
    };
    on_stage.enter(Stage::Transcribing);
    let t = match stt.transcribe(wav_path, &dir) {
        Ok(t) => t,
        Err(m) => return Err(PipelineError::Transcription(m)),
    };
    let ghost tv = t;
    let wanted = wants_translation(opts.translate, &t.language, &cfg.output_lang);
    let translation = if wanted {
        on_stage.enter(Stage::Translating);
        match llm.translate(&t.transcript, &cfg.output_lang) {
            Ok(x) => Some(x),
            Err(m) => return Err(PipelineError::Translation(m)),
        }
    } else {
        None
    };
    on_stage.enter(Stage::Summarizing);
    let summary = match llm.summarize(&t.transcript, &cfg.output_lang) {
        Ok(x) => x,
        Err(m) => {
            proof {
                assert(stt.transcribed(wav_path@, dir@, tv));
                if rec {
                    if wanted {
                        assert(on_stage.stages() =~= before + run_stages(true));
                    } else {
                        assert(on_stage.stages() =~= before + run_stages(false));
                    }
                }
            }
            return Err(PipelineError::Summary(m));
        },
    };
    let n = assemble_notes(t, &cfg.output_lang, translation, summary);
    proof {
        assert(stt.transcribed(wav_path@, dir@, tv));
        assert(ran(*cfg, *stt, *llm, wav_path@, dir@, opts.translate, n));
        if rec {
            if wanted {
                assert(on_stage.stages() =~= before + run_stages(true));
            } else {
                assert(on_stage.stages() =~= before + run_stages(false));
            }
        }
    }
    Ok(n)
}

} // verus!
