//! Engine selection and the decisions of the OpenAI-compatible engines:
//! which profile and model to use, how to plan and split audio chunks,
//! when and how long to wait before retrying, how to read language codes,
//! and which prompts to send.

use vstd::prelude::*;
use crate::audio::{ChunkSpec, WavInfo, plan_chunks, max_frames_for_threshold, is_chunk_plan, spec_max_frames};
use crate::chars::{chars_of, string_of, append_str, append_chars, to_lowercase, lowercase, trim, trim_of, dec, dec_of, dec_padded, zero_pad, parse_u64, spec_parse_uint};
use crate::config::{Config, ConfigError, Transport, owned, copy_opt};
use crate::chars::{join, all_ascii, ascii_lower, is_ws, lemma_trim_decompose, lemma_trim_shape, lemma_trim_padded};
use crate::stitch::{stitch, spec_stitch};

verus! {

/// Result of transcribing audio.
#[derive(Debug, Clone)]
pub struct TranscribeOutput {
    pub transcript: String,
    /// Normalized 2-letter source language (best-effort), e.g. "en".
    pub language: String,
}

/// What a speech-to-text engine is built from.
#[derive(Debug, Clone)]
pub struct SttSettings {
    pub provider: String,
    pub base_url: String,
    /// Environment variable holding the API key, if the profile names one.
    pub api_key_env: Option<String>,
    pub model: String,
    pub chunk_threshold_bytes: u64,
    pub chunk_overlap_secs: u32,
    pub backoff_base_ms: u64,
}

/// What a translate-and-summarize engine is built from.
#[derive(Debug, Clone)]
pub struct LlmSettings {
    pub provider: String,
    pub base_url: String,
    /// Environment variable holding the API key, if the profile names one.
    pub api_key_env: Option<String>,
    pub model: String,
    pub backoff_base_ms: u64,
}

/// Why no engine can be built.
#[derive(Debug, Clone)]
pub enum EngineError {
    /// The selected profile does not exist.
    Config(ConfigError),
    /// The selected OpenAI profile has no base URL.
    MissingBaseUrl(String),
    /// Speech-to-text through whisper.cpp is not available yet.
    WhisperCppStt,
    /// whisper.cpp cannot summarize.
    WhisperCppSummary,
}

impl EngineError {
    pub open spec fn spec_message(&self) -> Seq<char> {
        match self {
            EngineError::Config(e) => e.spec_message(),
            EngineError::MissingBaseUrl(p) => "'"@ + p@ + "' provider'ında base_url eksik"@,
            EngineError::WhisperCppStt =>
                "In-process whisper.cpp STT v1'de gelecek. NPU için provider = \"fastflowlm\", bulut için \"groq\"."@,
            EngineError::WhisperCppSummary =>
                "whisper-cpp bir özet/LLM transport'u değil. summary.provider = \"groq\" veya \"ollama\"."@,
        }
    }

    /// The message shown for this error.
    pub fn message(&self) -> (r: String)
        ensures
            r@ == self.spec_message(),
    {
        match self {
            EngineError::Config(e) => e.message(),
            EngineError::MissingBaseUrl(p) => {
                let mut s: Vec<char> = Vec::new();
                append_str(&mut s, "'");
                append_str(&mut s, p.as_str());
                append_str(&mut s, "' provider'ında base_url eksik");
                string_of(&s)
            },
            EngineError::WhisperCppStt =>
                owned("In-process whisper.cpp STT v1'de gelecek. NPU için provider = \"fastflowlm\", bulut için \"groq\"."),
            EngineError::WhisperCppSummary =>
                owned("whisper-cpp bir özet/LLM transport'u değil. summary.provider = \"groq\" veya \"ollama\"."),
        }
    }
}

/// The speech-to-text engine `cfg` selects: its profile must exist, use the
/// OpenAI transport and have a base URL.
pub fn build_stt(cfg: &Config) -> (r: Result<SttSettings, EngineError>)
    ensures
        match cfg.providers.lookup(cfg.stt_provider@) {
            None => r matches Err(EngineError::Config(ConfigError::UnknownSttProvider(n))) && n@ == cfg.stt_provider@,
            Some(p) => match p.kind {
                Transport::WhisperCpp => r matches Err(EngineError::WhisperCppStt),
                Transport::OpenAi => match p.base_url {
                    None => r matches Err(EngineError::MissingBaseUrl(n)) && n@ == cfg.stt_provider@,
                    Some(u) => r matches Ok(st) && {
                        &&& st.provider@ == cfg.stt_provider@
                        &&& st.base_url@ == u@
                        &&& st.api_key_env == p.api_key_env
                        &&& st.model@ == cfg.spec_stt_model()
                        &&& st.chunk_threshold_bytes == cfg.chunk_threshold_bytes
                        &&& st.chunk_overlap_secs == cfg.chunk_overlap_secs
                        &&& st.backoff_base_ms == cfg.backoff_base_ms
                    },
                },
            },
        },
{
    let p = match cfg.stt_profile() {
        Ok(p) => p,
        Err(e) => return Err(EngineError::Config(e)),
    };
    match p.kind {
        Transport::OpenAi => {
            let base = match &p.base_url {
                Some(u) => u.clone(),
                None => return Err(EngineError::MissingBaseUrl(cfg.stt_provider.clone())),
            };
            Ok(SttSettings {
                provider: cfg.stt_provider.clone(),
                base_url: base,
                api_key_env: copy_opt(&p.api_key_env),
                model: cfg.effective_stt_model(),
                chunk_threshold_bytes: cfg.chunk_threshold_bytes,
                chunk_overlap_secs: cfg.chunk_overlap_secs,
                backoff_base_ms: cfg.backoff_base_ms,
            })
        },
        Transport::WhisperCpp => Err(EngineError::WhisperCppStt),
    }
}

/// The translate-and-summarize engine `cfg` selects: its profile must exist,
/// use the OpenAI transport and have a base URL.
pub fn build_llm(cfg: &Config) -> (r: Result<LlmSettings, EngineError>)
    ensures
        match cfg.providers.lookup(cfg.summary_provider@) {
            None => r matches Err(EngineError::Config(ConfigError::UnknownSummaryProvider(n))) && n@ == cfg.summary_provider@,
            Some(p) => match p.kind {
                Transport::WhisperCpp => r matches Err(EngineError::WhisperCppSummary),
                Transport::OpenAi => match p.base_url {
                    None => r matches Err(EngineError::MissingBaseUrl(n)) && n@ == cfg.summary_provider@,
                    Some(u) => r matches Ok(st) && {
                        &&& st.provider@ == cfg.summary_provider@
                        &&& st.base_url@ == u@
                        &&& st.api_key_env == p.api_key_env
                        &&& st.model@ == cfg.spec_summary_model()
                        &&& st.backoff_base_ms == cfg.backoff_base_ms
                    },
                },
            },
        },
{
    let p = match cfg.summary_profile() {
        Ok(p) => p,
        Err(e) => return Err(EngineError::Config(e)),
    };
    match p.kind {
        Transport::OpenAi => {
            let base = match &p.base_url {
                Some(u) => u.clone(),
                None => return Err(EngineError::MissingBaseUrl(cfg.summary_provider.clone())),
            };
            Ok(LlmSettings {
                provider: cfg.summary_provider.clone(),
                base_url: base,
                api_key_env: copy_opt(&p.api_key_env),
                model: cfg.effective_summary_model(),
                backoff_base_ms: cfg.backoff_base_ms,
            })
        },
        Transport::WhisperCpp => Err(EngineError::WhisperCppSummary),
    }
}

/// Retries after the first attempt, at most.
pub const MAX_RETRIES: u32 = 5;
/// Longest wait between retries, in milliseconds.
pub const MAX_BACKOFF_MS: u64 = 30_000;
/// Words per map-reduce window.
pub const MAP_WINDOW_WORDS: usize = 1800;
/// Shortest chunk (about one second at 16 kHz) split further on "payload too
/// large".
pub const MIN_CHUNK_FRAMES: u32 = 16_000;

/// `2^n`.
pub open spec fn two_pow(n: nat) -> nat
    decreases n,
{
    if n == 0 { 1 } else { 2 * two_pow((n - 1) as nat) }
}

/// Exponential backoff: `base_ms` doubled per attempt (at most 6 times),
/// saturating, capped at `MAX_BACKOFF_MS`.
pub open spec fn spec_backoff(base_ms: u64, attempt: u32) -> nat {
    let k: nat = if attempt < 6 { attempt as nat } else { 6 };
    let ms = base_ms * two_pow(k);
    let sat: nat = if ms > u64::MAX { u64::MAX as nat } else { ms as nat };
    if sat < MAX_BACKOFF_MS { sat } else { MAX_BACKOFF_MS as nat }
}

/// Wait before retry number `attempt`, in milliseconds.
pub fn backoff(base_ms: u64, attempt: u32) -> (r: u64)
    ensures
        r == spec_backoff(base_ms, attempt),
{
    let factor: u64 = if attempt == 0 {
        1
    } else if attempt == 1 {
        2
    } else if attempt == 2 {
        4
    } else if attempt == 3 {
        8
    } else if attempt == 4 {
        16
    } else if attempt == 5 {
        32
    } else {
        64
    };
    proof {
        reveal_with_fuel(two_pow, 7);
    }
    let ms: u64 = match base_ms.checked_mul(factor) {
        Some(v) => v,
        None => u64::MAX,
    };
    if ms < MAX_BACKOFF_MS { ms } else { MAX_BACKOFF_MS }
}

/// The backoff never exceeds its cap and does not shrink from one attempt to
/// the next.
pub proof fn lemma_backoff_grows_and_caps(base_ms: u64, a: u32, b: u32)
    requires
        a <= b,
    ensures
        spec_backoff(base_ms, a) <= spec_backoff(base_ms, b),
        spec_backoff(base_ms, b) <= MAX_BACKOFF_MS,
        spec_backoff(base_ms, 0) == (if base_ms < MAX_BACKOFF_MS { base_ms as nat } else { MAX_BACKOFF_MS as nat }),
{
    let ka: nat = if a < 6 { a as nat } else { 6 };
    let kb: nat = if b < 6 { b as nat } else { 6 };
    lemma_two_pow_monotone(ka, kb);
    assert(base_ms * two_pow(ka) <= base_ms * two_pow(kb)) by (nonlinear_arith)
        requires two_pow(ka) <= two_pow(kb);
    assert(two_pow(0) == 1);
    assert(base_ms * two_pow(0) == base_ms);
}

proof fn lemma_two_pow_monotone(a: nat, b: nat)
    requires
        a <= b,
    ensures
        two_pow(a) <= two_pow(b),
    decreases b,
{
    if a < b {
        lemma_two_pow_monotone(a, (b - 1) as nat);
    }
}

/// How long to wait before the next attempt.
#[derive(Debug, Clone, Copy, PartialEq, Eq, Structural)]
pub enum RetryWait {
    /// As many seconds as the server's `Retry-After` asked for.
    Seconds(u64),
    /// Exponential backoff, in milliseconds.
    Millis(u64),
}

/// A response with `status` is retried (rate limit or server error) while
/// fewer than `MAX_RETRIES` retries were made.
pub open spec fn should_retry(status: u16, attempt: u32) -> bool {
    (status == 429 || (500 <= status <= 599)) && attempt < MAX_RETRIES
}

/// Whether to retry after a response with `status` on attempt `attempt`
/// (counting from 0), and how long to wait: the server's `Retry-After`
/// seconds if it gave them, else the backoff.
pub fn retry_wait(status: u16, attempt: u32, retry_after_secs: Option<u64>, base_ms: u64) -> (r: Option<RetryWait>)
    ensures
        r is Some <==> should_retry(status, attempt),
        r matches Some(w) ==> w == (match retry_after_secs {
            Some(secs) => RetryWait::Seconds(secs),
            None => RetryWait::Millis(spec_backoff(base_ms, attempt) as u64),
        }),
{
    let retriable = status == 429 || (500 <= status && status <= 599);
    if retriable && attempt < MAX_RETRIES {
        match retry_after_secs {
            Some(secs) => Some(RetryWait::Seconds(secs)),
            None => Some(RetryWait::Millis(backoff(base_ms, attempt))),
        }
    } else {
        None
    }
}

/// A `Retry-After` header value as whole seconds: trimmed, then parsed.
pub fn parse_retry_after(value: &str) -> (r: Option<u64>)
    ensures
        match spec_parse_uint(trim(value@), u64::MAX as nat) {
            Some(v) => r == Some(v as u64),
            None => r is None,
        },
{
    let t = string_of(&trim_of(value));
    parse_u64(t.as_str())
}

/// A hint for a failed request's HTTP status.
pub open spec fn spec_status_hint(code: u16) -> Seq<char> {
    if code == 401 || code == 403 {
        " (API anahtarı geçersiz/yetkisiz — provider'ın api_key_env'ini kontrol et)"@
    } else if code == 429 {
        " (kota/oran sınırı — krediler bitmiş ya da hız limiti olabilir)"@
    } else {
        seq![]
    }
}

/// The message for a request that failed with HTTP `code`.
pub open spec fn spec_failure_message(provider: Seq<char>, what: Seq<char>, code: u16, body: Seq<char>) -> Seq<char> {
    provider + " "@ + what + " başarısız: HTTP "@ + dec(code as nat) + spec_status_hint(code) + ": "@ + trim(body)
}

/// The message for a request to `provider` doing `what` that failed with HTTP
/// `code` and response `body`.
pub fn failure_message(provider: &str, what: &str, code: u16, body: &str) -> (r: String)
    ensures
        r@ == spec_failure_message(provider@, what@, code, body@),
{
    let mut s: Vec<char> = Vec::new();
    append_str(&mut s, provider);
    append_str(&mut s, " ");
    append_str(&mut s, what);
    append_str(&mut s, " başarısız: HTTP ");
    let c = dec_of(code as u64);
    append_chars(&mut s, &c);
    if code == 401 || code == 403 {
        append_str(&mut s, " (API anahtarı geçersiz/yetkisiz — provider'ın api_key_env'ini kontrol et)");
    } else if code == 429 {
        append_str(&mut s, " (kota/oran sınırı — krediler bitmiş ya da hız limiti olabilir)");
    }
    append_str(&mut s, ": ");
    let b = trim_of(body);
    append_chars(&mut s, &b);
    assert(s@ =~= spec_failure_message(provider@, what@, code, body@));
    string_of(&s)
}

/// "provider (model)", as engines label themselves.
pub open spec fn spec_label(provider: Seq<char>, model: Seq<char>) -> Seq<char> {
    provider + " ("@ + model + ")"@
}

pub fn label(provider: &str, model: &str) -> (r: String)
    ensures
        r@ == spec_label(provider@, model@),
{
    let mut s: Vec<char> = Vec::new();
    append_str(&mut s, provider);
    append_str(&mut s, " (");
    append_str(&mut s, model);
    append_str(&mut s, ")");
    assert(s@ =~= spec_label(provider@, model@));
    string_of(&s)
}

/// A language name or code as a 2-letter code, for the languages the library
/// knows; anything else lowercased and trimmed.
pub open spec fn spec_normalize_lang(raw: Seq<char>) -> Seq<char> {
    let l = lowercase(trim(raw));
    if l == "en"@ || l == "english"@ {
        "en"@
    } else if l == "tr"@ || l == "turkish"@ {
        "tr"@
    } else if l == "de"@ || l == "german"@ {
        "de"@
    } else if l == "fr"@ || l == "french"@ {
        "fr"@
    } else if l == "es"@ || l == "spanish"@ {
        "es"@
    } else if l == "it"@ || l == "italian"@ {
        "it"@
    } else if l == "ru"@ || l == "russian"@ {
        "ru"@
    } else if l == "ar"@ || l == "arabic"@ {
        "ar"@
    } else {
        l
    }
}

/// Lowercase ASCII text without white space at either end is its own
/// trimmed lowercase form.
proof fn lemma_lower_trimmed_fixed(l: Seq<char>)
    requires
        all_ascii(l),
        l.len() > 0 ==> !is_ws(l[0]) && !is_ws(l.last()),
        l.map_values(|c: char| ascii_lower(c)) == l,
    ensures
        lowercase(trim(l)) == l,
{
    lemma_trim_padded(seq![], l, seq![]);
    assert(Seq::<char>::empty() + l + Seq::<char>::empty() == l);
}

proof fn lemma_code_fixed(c: Seq<char>)
    requires
        c.len() == 2,
        'a' <= c[0] <= 'z',
        'a' <= c[1] <= 'z',
    ensures
        lowercase(trim(c)) == c,
{
    assert(c.map_values(|x: char| ascii_lower(x)) =~= c);
    assert(c.last() == c[1]);
    lemma_lower_trimmed_fixed(c);
}

/// Normalizing an ASCII language name or code twice gives what normalizing
/// it once gives.
pub proof fn lemma_normalize_lang_idempotent(raw: Seq<char>)
    requires
        all_ascii(raw),
    ensures
        spec_normalize_lang(spec_normalize_lang(raw)) == spec_normalize_lang(raw),
{
    let t = trim(raw);
    let pq = lemma_trim_decompose(raw);
    assert forall|i: int| 0 <= i < t.len() implies crate::chars::is_ascii(#[trigger] t[i]) by {
        assert(t[i] == raw[pq.0.len() + i]);
    }
    lemma_trim_shape(raw);
    let l = t.map_values(|c: char| ascii_lower(c));
    assert(lowercase(t) == l);
    assert forall|i: int| 0 <= i < l.len() implies crate::chars::is_ascii(#[trigger] l[i]) by {
        assert(l[i] == ascii_lower(t[i]));
    }
    if l.len() > 0 {
        assert(l[0] == ascii_lower(t[0]));
        assert(l.last() == ascii_lower(t.last()));
    }
    assert(l.map_values(|c: char| ascii_lower(c)) =~= l);
    lemma_lower_trimmed_fixed(l);
    reveal_strlit("en");
    reveal_strlit("english");
    reveal_strlit("tr");
    reveal_strlit("turkish");
    reveal_strlit("de");
    reveal_strlit("german");
    reveal_strlit("fr");
    reveal_strlit("french");
    reveal_strlit("es");
    reveal_strlit("spanish");
    reveal_strlit("it");
    reveal_strlit("italian");
    reveal_strlit("ru");
    reveal_strlit("russian");
    reveal_strlit("ar");
    reveal_strlit("arabic");
    lemma_code_fixed("en"@);
    lemma_code_fixed("tr"@);
    lemma_code_fixed("de"@);
    lemma_code_fixed("fr"@);
    lemma_code_fixed("es"@);
    lemma_code_fixed("it"@);
    lemma_code_fixed("ru"@);
    lemma_code_fixed("ar"@);
}

fn is_one_of(l: &Vec<char>, a: &str, b: &str) -> (r: bool)
    ensures
        r == (l@ == a@ || l@ == b@),
{
    crate::chars::chars_eq(l, &chars_of(a)) || crate::chars::chars_eq(l, &chars_of(b))
}

/// Normalizes a language name or code (`"English"` to `"en"`).
pub fn normalize_lang(raw: &str) -> (r: String)
    ensures
        r@ == spec_normalize_lang(raw@),
{
    let t = string_of(&trim_of(raw));
    let low = to_lowercase(t.as_str());
    let l = chars_of(low.as_str());
    if is_one_of(&l, "en", "english") {
        owned("en")
    } else if is_one_of(&l, "tr", "turkish") {
        owned("tr")
    } else if is_one_of(&l, "de", "german") {
        owned("de")
    } else if is_one_of(&l, "fr", "french") {
        owned("fr")
    } else if is_one_of(&l, "es", "spanish") {
        owned("es")
    } else if is_one_of(&l, "it", "italian") {
        owned("it")
    } else if is_one_of(&l, "ru", "russian") {
        owned("ru")
    } else if is_one_of(&l, "ar", "arabic") {
        owned("ar")
    } else {
        low
    }
}

/// The English name of a language, as prompts use it.
pub open spec fn spec_lang_name(code: Seq<char>) -> Seq<char> {
    let l = spec_normalize_lang(code);
    if l == "en"@ {
        "English"@
    } else if l == "tr"@ {
        "Turkish"@
    } else if l == "de"@ {
        "German"@
    } else if l == "fr"@ {
        "French"@
    } else if l == "es"@ {
        "Spanish"@
    } else if l == "it"@ {
        "Italian"@
    } else if l == "ru"@ {
        "Russian"@
    } else if l == "ar"@ {
        "Arabic"@
    } else {
        "the target language"@
    }
}

pub fn lang_name(code: &str) -> (r: &'static str)
    ensures
        r@ == spec_lang_name(code@),
{
    let n = normalize_lang(code);
    let l = chars_of(n.as_str());
    if crate::chars::chars_eq(&l, &chars_of("en")) {
        "English"
    } else if crate::chars::chars_eq(&l, &chars_of("tr")) {
        "Turkish"
    } else if crate::chars::chars_eq(&l, &chars_of("de")) {
        "German"
    } else if crate::chars::chars_eq(&l, &chars_of("fr")) {
        "French"
    } else if crate::chars::chars_eq(&l, &chars_of("es")) {
        "Spanish"
    } else if crate::chars::chars_eq(&l, &chars_of("it")) {
        "Italian"
    } else if crate::chars::chars_eq(&l, &chars_of("ru")) {
        "Russian"
    } else if crate::chars::chars_eq(&l, &chars_of("ar")) {
        "Arabic"
    } else {
        "the target language"
    }
}

/// How often `l` occurs in `ls`.
pub open spec fn occurrences(ls: Seq<Seq<char>>, l: Seq<char>) -> nat
    decreases ls.len(),
{
    if ls.len() == 0 {
        0
    } else {
        occurrences(ls.drop_last(), l) + (if ls.last() == l { 1nat } else { 0nat })
    }
}

fn count_of(ls: &[String], l: &Vec<char>) -> (r: usize)
    ensures
        r == occurrences(ls@.map_values(|s: String| s@), l@),
{
    let ghost v = ls@.map_values(|s: String| s@);
    let mut n: usize = 0;
    let mut i: usize = 0;
    while i < ls.len()
        invariant
            i <= ls.len(),
            v == ls@.map_values(|s: String| s@),
            n == occurrences(v.take(i as int), l@),
            n <= i,
        decreases ls.len() - i,
    {
        assert(v.take(i + 1).drop_last() == v.take(i as int));
        assert(v.take(i + 1).last() == ls@[i as int]@);
        if crate::chars::chars_eq(&chars_of(ls[i].as_str()), l) {
            n = n + 1;
        }
        i = i + 1;
    }
    assert(v.take(ls.len() as int) == v);
    n
}

/// `r` is the most common entry of `ls` (empty when `ls` is), the first to
/// appear of equally common ones.
pub open spec fn majority_of(ls: Seq<Seq<char>>, r: Seq<char>) -> bool {
    &&& ls.len() == 0 ==> r.len() == 0
    &&& ls.len() > 0 ==> exists|b: int| 0 <= b < ls.len() && r == ls[b]
            && forall|k: int| 0 <= k < b ==> occurrences(ls, #[trigger] ls[k]) < occurrences(ls, r)
    &&& forall|i: int| 0 <= i < ls.len() ==> occurrences(ls, #[trigger] ls[i]) <= occurrences(ls, r)
}

/// The most common language among the chunks' (empty when there are none);
/// of equally common ones, the first to appear.
pub fn majority_lang(langs: &[String]) -> (r: String)
    ensures
        langs@.len() == 0 ==> r@.len() == 0,
        langs@.len() > 0 ==> langs@.map_values(|s: String| s@).contains(r@),
        langs@.len() > 0 ==> forall|i: int| 0 <= i < langs@.len() ==>
            occurrences(langs@.map_values(|s: String| s@), #[trigger] langs@[i]@)
                <= occurrences(langs@.map_values(|s: String| s@), r@),
        langs@.len() > 0 ==> exists|b: int| 0 <= b < langs@.len() && r@ == langs@[b]@
            && forall|k: int| 0 <= k < b ==> occurrences(langs@.map_values(|s: String| s@), #[trigger] langs@[k]@)
                < occurrences(langs@.map_values(|s: String| s@), r@),
        majority_of(langs@.map_values(|s: String| s@), r@),
{
    let ghost v = langs@.map_values(|s: String| s@);
    if langs.len() == 0 {
        return String::new();
    }
    let mut best: usize = 0;
    let mut best_count = count_of(langs, &chars_of(langs[0].as_str()));
    let mut i: usize = 1;
    while i < langs.len()
        invariant
            1 <= i <= langs.len(),
            best < langs.len(),
            v == langs@.map_values(|s: String| s@),
            best_count == occurrences(v, langs@[best as int]@),
            forall|k: int| 0 <= k < i ==> occurrences(v, #[trigger] langs@[k]@) <= best_count,
            forall|k: int| 0 <= k < best ==> occurrences(v, #[trigger] langs@[k]@) < best_count,
        decreases langs.len() - i,
    {
        let c = count_of(langs, &chars_of(langs[i].as_str()));
        if c > best_count {
            best = i;
            best_count = c;
        }
        i = i + 1;
    }
    assert(v[best as int] == langs@[best as int]@);
    let r = langs[best].clone();
    assert(r@ == langs@[best as int]@);
    assert(v[best as int] == r@);
    assert forall|k: int| 0 <= k < best implies occurrences(v, #[trigger] v[k]) < occurrences(v, r@) by {
        assert(v[k] == langs@[k]@);
    }
    assert forall|k: int| 0 <= k < v.len() implies occurrences(v, #[trigger] v[k]) <= occurrences(v, r@) by {
        assert(v[k] == langs@[k]@);
    }
    r
}

/// `parts` joined with `sep` between consecutive ones.
pub fn join_strings(parts: &[String], sep: &str) -> (r: String)
    ensures
        r@ == join(parts@.map_values(|s: String| s@), sep@),
{
    let ghost v = parts@.map_values(|s: String| s@);
    let sepc = chars_of(sep);
    let mut out: Vec<char> = Vec::new();
    let mut i: usize = 0;
    while i < parts.len()
        invariant
            i <= parts.len(),
            v == parts@.map_values(|s: String| s@),
            sepc@ == sep@,
            out@ == join(v.take(i as int), sep@),
        decreases parts.len() - i,
    {
        assert(v.take(i + 1).drop_last() == v.take(i as int));
        assert(v.take(i + 1).last() == parts@[i as int]@);
        if i > 0 {
            append_chars(&mut out, &sepc);
        } else {
            assert(v.take(1) == seq![v[0]]);
        }
        append_str(&mut out, parts[i].as_str());
        i = i + 1;
    }
    assert(v.take(parts.len() as int) == v);
    string_of(&out)
}

/// The system prompt for translating into `target_lang`.
pub open spec fn spec_translate_prompt(target_lang: Seq<char>) -> Seq<char> {
    "You are a professional translator. Translate the user's text into "@ + spec_lang_name(target_lang)
        + ". Output only the translation, preserving meaning and tone. Do not add commentary."@
}

pub fn translate_prompt(target_lang: &str) -> (r: String)
    ensures
        r@ == spec_translate_prompt(target_lang@),
{
    let name = lang_name(target_lang);
    let mut s: Vec<char> = Vec::new();
    append_str(&mut s, "You are a professional translator. Translate the user's text into ");
    append_str(&mut s, name);
    append_str(&mut s, ". Output only the translation, preserving meaning and tone. Do not add commentary.");
    assert(s@ =~= spec_translate_prompt(target_lang@));
    string_of(&s)
}

/// The system prompt for summarizing one window of a transcript.
pub open spec fn spec_summary_map_prompt(target_lang: Seq<char>) -> Seq<char> {
    let n = spec_lang_name(target_lang);
    "You are a meeting-notes assistant. Summarize the transcript section in "@ + n
        + ". Use concise bullet points covering: key decisions, action items (with owners if mentioned), and open questions. Output only the summary in "@
        + n + "."@
}

pub fn summary_map_prompt(target_lang: &str) -> (r: String)
    ensures
        r@ == spec_summary_map_prompt(target_lang@),
{
    let name = lang_name(target_lang);
    let mut s: Vec<char> = Vec::new();
    append_str(&mut s, "You are a meeting-notes assistant. Summarize the transcript section in ");
    append_str(&mut s, name);
    append_str(&mut s, ". Use concise bullet points covering: key decisions, action items (with owners if mentioned), and open questions. Output only the summary in ");
    append_str(&mut s, name);
    append_str(&mut s, ".");
    assert(s@ =~= spec_summary_map_prompt(target_lang@));
    string_of(&s)
}

/// The system prompt for merging partial summaries.
pub open spec fn spec_summary_reduce_prompt(target_lang: Seq<char>) -> Seq<char> {
    let n = spec_lang_name(target_lang);
    "You are a meeting-notes assistant. The user provides several partial summaries of one meeting in "@ + n
        + ". Merge them into a single coherent summary in "@ + n
        + ", deduplicating and grouping: Decisions, Action Items, Open Questions. Output only the final summary in "@
        + n + "."@
}

pub fn summary_reduce_prompt(target_lang: &str) -> (r: String)
    ensures
        r@ == spec_summary_reduce_prompt(target_lang@),
{
    let name = lang_name(target_lang);
    let mut s: Vec<char> = Vec::new();
    append_str(&mut s, "You are a meeting-notes assistant. The user provides several partial summaries of one meeting in ");
    append_str(&mut s, name);
    append_str(&mut s, ". Merge them into a single coherent summary in ");
    append_str(&mut s, name);
    append_str(&mut s, ", deduplicating and grouping: Decisions, Action Items, Open Questions. Output only the final summary in ");
    append_str(&mut s, name);
    append_str(&mut s, ".");
    assert(s@ =~= spec_summary_reduce_prompt(target_lang@));
    string_of(&s)
}

/// What to do with the partial summaries of the windows.
#[derive(Debug, Clone)]
pub enum SummaryStep {
    /// This is the summary.
    Done(String),
    /// Send this text (the partials, separated) for one more merging pass.
    Reduce(String),
}

/// Separator between partial summaries sent for merging.
pub const PARTIAL_SEPARATOR: &'static str = "\n\n---\n\n";

/// No window gives an empty summary, one window's summary is the summary,
/// several are merged in one more pass.
pub fn finish_summary(partials: &[String]) -> (r: SummaryStep)
    ensures
        partials@.len() == 0 ==> (r matches SummaryStep::Done(t) && t@.len() == 0),
        partials@.len() == 1 ==> (r matches SummaryStep::Done(t) && t@ == partials@[0]@),
        partials@.len() > 1 ==> (r matches SummaryStep::Reduce(t)
            && t@ == join(partials@.map_values(|s: String| s@), PARTIAL_SEPARATOR@)),
{
    if partials.len() == 0 {
        SummaryStep::Done(String::new())
    } else if partials.len() == 1 {
        SummaryStep::Done(partials[0].clone())
    } else {
        SummaryStep::Reduce(join_strings(partials, PARTIAL_SEPARATOR))
    }
}

/// Why a recording cannot be transcribed.
#[derive(Debug, Clone, Copy, PartialEq, Eq, Structural)]
pub enum TranscribeError {
    /// The recording holds no frames.
    EmptyRecording,
}

impl TranscribeError {
    /// The message shown for this error.
    pub fn message(&self) -> (r: String)
        ensures
            r@ == "Kayıt boş (sıfır-uzunluk) — yakalama başarısız olmuş olabilir"@,
    {
        owned("Kayıt boş (sıfır-uzunluk) — yakalama başarısız olmuş olabilir")
    }
}

/// The chunk windows for transcribing a recording: sized to stay under the
/// size threshold, overlapping by `overlap_secs` seconds of audio; an empty
/// recording is an error.
pub fn plan_transcription(info: &WavInfo, threshold_bytes: u64, overlap_secs: u32) -> (r: Result<Vec<ChunkSpec>, TranscribeError>)
    requires
        overlap_secs * info.sample_rate <= u32::MAX,
    ensures
        info.total_frames == 0 <==> r is Err,
        r matches Ok(chunks) ==> is_chunk_plan(chunks@, info.total_frames,
            spec_max_frames(*info, threshold_bytes), (overlap_secs * info.sample_rate) as u32),
{
    if info.total_frames == 0 {
        return Err(TranscribeError::EmptyRecording);
    }
    let max_frames = max_frames_for_threshold(info, threshold_bytes);
    let overlap_frames = overlap_secs * info.sample_rate;
    Ok(plan_chunks(info.total_frames, max_frames, overlap_frames))
}

/// The two halves a chunk is split into when the server finds it too large,
/// or none when it is already at the minimum size.
pub fn split_chunk(spec: ChunkSpec) -> (r: Option<(ChunkSpec, ChunkSpec)>)
    requires
        spec.start_frame <= spec.end_frame,
    ensures
        spec.end_frame - spec.start_frame <= MIN_CHUNK_FRAMES <==> r is None,
        r matches Some((a, b)) ==> {
            let mid = spec.start_frame + (spec.end_frame - spec.start_frame) / 2;
            &&& a == ChunkSpec { start_frame: spec.start_frame, end_frame: mid as u32 }
            &&& b == ChunkSpec { start_frame: mid as u32, end_frame: spec.end_frame }
        },
{
    let frames = spec.frames();
    if frames <= MIN_CHUNK_FRAMES {
        return None;
    }
    let mid = spec.start_frame + frames / 2;
    Some((ChunkSpec { start_frame: spec.start_frame, end_frame: mid }, ChunkSpec { start_frame: mid, end_frame: spec.end_frame }))
}

/// The transcripts of the two halves of a split chunk, one after the other.
pub fn join_halves(left: &str, right: &str) -> (r: String)
    ensures
        r@ == left@ + " "@ + right@,
{
    let mut s: Vec<char> = Vec::new();
    append_str(&mut s, left);
    append_str(&mut s, " ");
    append_str(&mut s, right);
    string_of(&s)
}

/// The resume file of chunk `i` with extension `ext`: `chunk_NNNN.ext`.
pub open spec fn spec_chunk_file_name(i: usize, ext: Seq<char>) -> Seq<char> {
    "chunk_"@ + zero_pad(dec(i as nat), 4) + "."@ + ext
}

pub fn chunk_file_name(i: usize, ext: &str) -> (r: String)
    ensures
        r@ == spec_chunk_file_name(i, ext@),
{
    let mut s: Vec<char> = Vec::new();
    append_str(&mut s, "chunk_");
    let d = dec_padded(i as u64, 4);
    append_chars(&mut s, &d);
    append_str(&mut s, ".");
    append_str(&mut s, ext);
    assert(s@ =~= spec_chunk_file_name(i, ext@));
    string_of(&s)
}

/// The transcription of a recording from its chunks' texts and detected
/// languages: the stitched texts, and the most common language.
pub fn assemble_transcript(texts: &[String], langs: &[String]) -> (r: TranscribeOutput)
    ensures
        r.transcript@ == spec_stitch(texts@.map_values(|t: String| t@)),
        majority_of(langs@.map_values(|s: String| s@), r.language@),
{
    TranscribeOutput { transcript: stitch(texts), language: majority_lang(langs) }
}


/// A chunk's reply from the transcription endpoint: its text trimmed, and
/// the language it reports, normalized.
pub fn chunk_reply(text: &str, language: &Option<String>) -> (r: (String, Option<String>))
    ensures
        r.0@ == trim(text@),
        match language {
            Some(l) => r.1 matches Some(n) && n@ == spec_normalize_lang(l@),
            None => r.1 is None,
        },
{
    let t = trim_of(text);
    let l = match language {
        Some(l) => Some(normalize_lang(l.as_str())),
        None => None,
    };
    (string_of(&t), l)
}

/// The answer of a chat completion: the first choice's content, trimmed, or
/// none when there is no choice.
pub fn chat_reply(contents: &[String]) -> (r: Option<String>)
    ensures
        contents@.len() == 0 ==> r is None,
        contents@.len() > 0 ==> (r matches Some(t) && t@ == trim(contents@[0]@)),
{
    if contents.len() == 0 {
        return None;
    }
    let t = trim_of(contents[0].as_str());
    Some(string_of(&t))
}

/// Progress of transcribing a recording chunk by chunk: the planned chunks,
/// and the texts and detected languages gathered so far, in chunk order.
#[derive(Debug)]
pub struct TranscriptionJob {
    pub chunks: Vec<ChunkSpec>,
    pub texts: Vec<String>,
    pub langs: Vec<String>,
}

/// `new` is `old` after its next chunk was resumed from `saved`: the saved
/// text recorded, and the saved language file's content (trimmed) when it
/// could be read.
pub open spec fn resumed_from(old: TranscriptionJob, new: TranscriptionJob, saved: (String, Option<String>)) -> bool {
    &&& new.chunks@ == old.chunks@
    &&& new.texts@ == old.texts@.push(saved.0)
    &&& new.lang_views() == match saved.1 {
        Some(l) => old.lang_views().push(trim(l@)),
        None => old.lang_views(),
    }
}

/// The languages a run of resumed chunks records: each readable language
/// file's content, trimmed, in chunk order.
pub open spec fn saved_langs(saved: Seq<(String, Option<String>)>) -> Seq<Seq<char>>
    decreases saved.len(),
{
    if saved.len() == 0 {
        seq![]
    } else {
        let rest = saved_langs(saved.drop_last());
        match saved.last().1 {
            Some(l) => rest.push(trim(l@)),
            None => rest,
        }
    }
}

proof fn lemma_resumed_prefix(jobs: Seq<TranscriptionJob>, saved: Seq<(String, Option<String>)>, m: int)
    requires
        jobs.len() == saved.len() + 1,
        0 <= m <= saved.len(),
        jobs[0].texts@.len() == 0,
        jobs[0].langs@.len() == 0,
        forall|k: int| 0 <= k < saved.len() ==> resumed_from(jobs[k], jobs[k + 1], #[trigger] saved[k]),
    ensures
        jobs[m].chunks@ == jobs[0].chunks@,
        jobs[m].texts@ == saved.take(m).map_values(|x: (String, Option<String>)| x.0),
        jobs[m].lang_views() == saved_langs(saved.take(m)),
    decreases m,
{
    if m == 0 {
        assert(jobs[0].texts@ =~= saved.take(0).map_values(|x: (String, Option<String>)| x.0));
        assert(jobs[0].lang_views() =~= saved_langs(saved.take(0)));
    } else {
        lemma_resumed_prefix(jobs, saved, m - 1);
        assert(resumed_from(jobs[m - 1], jobs[m], saved[m - 1]));
        assert(saved.take(m).drop_last() =~= saved.take(m - 1));
        assert(saved.take(m).last() == saved[m - 1]);
        assert(saved.take(m).map_values(|x: (String, Option<String>)| x.0)
            =~= saved.take(m - 1).map_values(|x: (String, Option<String>)| x.0).push(saved[m - 1].0));
    }
}

/// A run whose every chunk has a saved result sends nothing (each step is a
/// resume) and ends with all chunks done, holding exactly the saved texts
/// and the saved languages, in chunk order; `finish` then stitches those
/// texts.
pub proof fn lemma_resumed_run(jobs: Seq<TranscriptionJob>, saved: Seq<(String, Option<String>)>)
    requires
        jobs.len() == saved.len() + 1,
        saved.len() == jobs[0].chunks@.len(),
        jobs[0].texts@.len() == 0,
        jobs[0].langs@.len() == 0,
        forall|k: int| 0 <= k < saved.len() ==> resumed_from(jobs[k], jobs[k + 1], #[trigger] saved[k]),
    ensures
        jobs.last().texts@ == saved.map_values(|x: (String, Option<String>)| x.0),
        jobs.last().texts@.len() == jobs.last().chunks@.len(),
        jobs.last().lang_views() == saved_langs(saved),
{
    lemma_resumed_prefix(jobs, saved, saved.len() as int);
    assert(saved.take(saved.len() as int) =~= saved);
    assert(jobs.last() == jobs[saved.len() as int]);
}

impl TranscriptionJob {
    /// No more texts than chunks.
    pub open spec fn wf(&self) -> bool {
        self.texts@.len() <= self.chunks@.len()
    }

    pub open spec fn text_views(&self) -> Seq<Seq<char>> {
        self.texts@.map_values(|t: String| t@)
    }

    pub open spec fn lang_views(&self) -> Seq<Seq<char>> {
        self.langs@.map_values(|l: String| l@)
    }

    /// A job over `chunks` with nothing transcribed yet.
    pub fn new(chunks: Vec<ChunkSpec>) -> (r: TranscriptionJob)
        ensures
            r.wf(),
            r.chunks@ == chunks@,
            r.texts@.len() == 0,
            r.langs@.len() == 0,
    {
        TranscriptionJob { chunks, texts: Vec::new(), langs: Vec::new() }
    }

    /// The next chunk to transcribe, with its index, or none when all are
    /// done.
    pub fn next_chunk(&self) -> (r: Option<(usize, ChunkSpec)>)
        requires
            self.wf(),
        ensures
            r is None <==> self.texts@.len() == self.chunks@.len(),
            r matches Some((i, c)) ==> i == self.texts@.len() && c == self.chunks@[i as int],
    {
        let i = self.texts.len();
        if i < self.chunks.len() {
            Some((i, self.chunks[i]))
        } else {
            None
        }
    }

    /// Record the next chunk's text, and its language when one was detected.
    pub fn record(&mut self, text: String, lang: Option<String>)
        requires
            old(self).wf(),
            old(self).texts@.len() < old(self).chunks@.len(),
        ensures
            final(self).wf(),
            final(self).chunks@ == old(self).chunks@,
            final(self).texts@ == old(self).texts@.push(text),
            final(self).langs@ == (match lang {
                Some(l) => old(self).langs@.push(l),
                None => old(self).langs@,
            }),
    {
        self.texts.push(text);
        match lang {
            Some(l) => self.langs.push(l),
            None => {},
        }
    }

    /// Record a chunk resumed from disk: its saved text, and the saved
    /// language file's content (trimmed) when it could be read.
    pub fn record_resumed(&mut self, text: String, lang_file: Option<String>)
        requires
            old(self).wf(),
            old(self).texts@.len() < old(self).chunks@.len(),
        ensures
            final(self).wf(),
            final(self).chunks@ == old(self).chunks@,
            final(self).texts@ == old(self).texts@.push(text),
            final(self).lang_views() == (match lang_file {
                Some(l) => old(self).lang_views().push(trim(l@)),
                None => old(self).lang_views(),
            }),
    {
        let lang = match &lang_file {
            Some(l) => {
                let t = trim_of(l.as_str());
                Some(string_of(&t))
            },
            None => None,
        };
        let ghost before = self.lang_views();
        let ghost given = lang;
        self.record(text, lang);
        proof {
            match given {
                Some(l) => { assert(self.lang_views() =~= before.push(l@)); },
                None => { assert(self.lang_views() =~= before); },
            }
        }
    }

    /// Resume or send the next chunk: when the job directory holds the
    /// chunk's saved result (`saved`: its text, and its language file's
    /// content when readable), it is recorded and nothing is sent; otherwise
    /// the chunk to transcribe is returned and the job is unchanged.
    pub fn resume_or_send(&mut self, saved: Option<(String, Option<String>)>) -> (r: Option<ChunkSpec>)
        requires
            old(self).wf(),
            old(self).texts@.len() < old(self).chunks@.len(),
        ensures
            final(self).wf(),
            final(self).chunks@ == old(self).chunks@,
            saved is None ==> r == Some(old(self).chunks@[old(self).texts@.len() as int])
                && final(self).texts@ == old(self).texts@ && final(self).langs@ == old(self).langs@,
            saved is Some ==> r is None && resumed_from(*old(self), *final(self), saved.unwrap()),
    {
        match saved {
            Some((text, lang_file)) => {
                self.record_resumed(text, lang_file);
                None
            },
            None => Some(self.chunks[self.texts.len()]),
        }
    }

    /// The transcription: the stitched texts and the most common language.
    pub fn finish(&self) -> (r: TranscribeOutput)
        ensures
            r.transcript@ == spec_stitch(self.text_views()),
            majority_of(self.lang_views(), r.language@),
    {
        assemble_transcript(self.texts.as_slice(), self.langs.as_slice())
    }
}

/// The API key sent as a bearer token: the resolved key, unless it is empty.
pub fn bearer_key(key: &Option<String>) -> (r: Option<String>)
    ensures
        match key {
            Some(k) => if k@.len() > 0 { r == Some(*k) } else { r is None },
            None => r is None,
        },
{
    match key {
        Some(k) => if k.as_str().is_empty() { None } else { Some(k.clone()) },
        None => None,
    }
}


/// Every language the library knows is normalized to its two-letter code,
/// whether it comes as the code or as its English name, in any case and
/// with any white space around it.
pub proof fn lemma_known_languages(raw: Seq<char>)
    ensures
        (lowercase(trim(raw)) == "en"@ || lowercase(trim(raw)) == "english"@) ==> spec_normalize_lang(raw) == "en"@,
        (lowercase(trim(raw)) == "tr"@ || lowercase(trim(raw)) == "turkish"@) ==> spec_normalize_lang(raw) == "tr"@,
        (lowercase(trim(raw)) == "de"@ || lowercase(trim(raw)) == "german"@) ==> spec_normalize_lang(raw) == "de"@,
        (lowercase(trim(raw)) == "fr"@ || lowercase(trim(raw)) == "french"@) ==> spec_normalize_lang(raw) == "fr"@,
        (lowercase(trim(raw)) == "es"@ || lowercase(trim(raw)) == "spanish"@) ==> spec_normalize_lang(raw) == "es"@,
        (lowercase(trim(raw)) == "it"@ || lowercase(trim(raw)) == "italian"@) ==> spec_normalize_lang(raw) == "it"@,
        (lowercase(trim(raw)) == "ru"@ || lowercase(trim(raw)) == "russian"@) ==> spec_normalize_lang(raw) == "ru"@,
        (lowercase(trim(raw)) == "ar"@ || lowercase(trim(raw)) == "arabic"@) ==> spec_normalize_lang(raw) == "ar"@,
{
    reveal_strlit("en");
    reveal_strlit("english");
    reveal_strlit("tr");
    reveal_strlit("turkish");
    reveal_strlit("de");
    reveal_strlit("german");
    reveal_strlit("fr");
    reveal_strlit("french");
    reveal_strlit("es");
    reveal_strlit("spanish");
    reveal_strlit("it");
    reveal_strlit("italian");
    reveal_strlit("ru");
    reveal_strlit("russian");
    reveal_strlit("ar");
    reveal_strlit("arabic");
    let l = lowercase(trim(raw));
    if l == "tr"@ {
        assert("tr"@[0] != "en"@[0]);
        assert("tr"@.len() != "english"@.len());
    }
    if l == "turkish"@ {
        assert("turkish"@.len() != "en"@.len());
        assert("turkish"@[0] != "english"@[0]);
    }
    if l == "de"@ {
        assert("de"@[0] != "en"@[0]);
        assert("de"@.len() != "english"@.len());
        assert("de"@[0] != "tr"@[0]);
        assert("de"@.len() != "turkish"@.len());
    }
    if l == "german"@ {
        assert("german"@.len() != "en"@.len());
        assert("german"@.len() != "english"@.len());
        assert("german"@.len() != "tr"@.len());
        assert("german"@.len() != "turkish"@.len());
    }
    if l == "fr"@ {
        assert("fr"@[0] != "en"@[0]);
        assert("fr"@.len() != "english"@.len());
        assert("fr"@[0] != "tr"@[0]);
        assert("fr"@.len() != "turkish"@.len());
        assert("fr"@[0] != "de"@[0]);
        assert("fr"@.len() != "german"@.len());
    }
    if l == "french"@ {
        assert("french"@.len() != "en"@.len());
        assert("french"@.len() != "english"@.len());
        assert("french"@.len() != "tr"@.len());
        assert("french"@.len() != "turkish"@.len());
        assert("french"@.len() != "de"@.len());
        assert("french"@[0] != "german"@[0]);
    }
    if l == "es"@ {
        assert("es"@[1] != "en"@[1]);
        assert("es"@.len() != "english"@.len());
        assert("es"@[0] != "tr"@[0]);
        assert("es"@.len() != "turkish"@.len());
        assert("es"@[0] != "de"@[0]);
        assert("es"@.len() != "german"@.len());
        assert("es"@[0] != "fr"@[0]);
        assert("es"@.len() != "french"@.len());
    }
    if l == "spanish"@ {
        assert("spanish"@.len() != "en"@.len());
        assert("spanish"@[0] != "english"@[0]);
        assert("spanish"@.len() != "tr"@.len());
        assert("spanish"@[0] != "turkish"@[0]);
        assert("spanish"@.len() != "de"@.len());
        assert("spanish"@.len() != "german"@.len());
        assert("spanish"@.len() != "fr"@.len());
        assert("spanish"@.len() != "french"@.len());
    }
    if l == "it"@ {
        assert("it"@[0] != "en"@[0]);
        assert("it"@.len() != "english"@.len());
        assert("it"@[0] != "tr"@[0]);
        assert("it"@.len() != "turkish"@.len());
        assert("it"@[0] != "de"@[0]);
        assert("it"@.len() != "german"@.len());
        assert("it"@[0] != "fr"@[0]);
        assert("it"@.len() != "french"@.len());
        assert("it"@[0] != "es"@[0]);
        assert("it"@.len() != "spanish"@.len());
    }
    if l == "italian"@ {
        assert("italian"@.len() != "en"@.len());
        assert("italian"@[0] != "english"@[0]);
        assert("italian"@.len() != "tr"@.len());
        assert("italian"@[0] != "turkish"@[0]);
        assert("italian"@.len() != "de"@.len());
        assert("italian"@.len() != "german"@.len());
        assert("italian"@.len() != "fr"@.len());
        assert("italian"@.len() != "french"@.len());
        assert("italian"@.len() != "es"@.len());
        assert("italian"@[0] != "spanish"@[0]);
    }
    if l == "ru"@ {
        assert("ru"@[0] != "en"@[0]);
        assert("ru"@.len() != "english"@.len());
        assert("ru"@[0] != "tr"@[0]);
        assert("ru"@.len() != "turkish"@.len());
        assert("ru"@[0] != "de"@[0]);
        assert("ru"@.len() != "german"@.len());
        assert("ru"@[0] != "fr"@[0]);
        assert("ru"@.len() != "french"@.len());
        assert("ru"@[0] != "es"@[0]);
        assert("ru"@.len() != "spanish"@.len());
        assert("ru"@[0] != "it"@[0]);
        assert("ru"@.len() != "italian"@.len());
    }
    if l == "russian"@ {
        assert("russian"@.len() != "en"@.len());
        assert("russian"@[0] != "english"@[0]);
        assert("russian"@.len() != "tr"@.len());
        assert("russian"@[0] != "turkish"@[0]);
        assert("russian"@.len() != "de"@.len());
        assert("russian"@.len() != "german"@.len());
        assert("russian"@.len() != "fr"@.len());
        assert("russian"@.len() != "french"@.len());
        assert("russian"@.len() != "es"@.len());
        assert("russian"@[0] != "spanish"@[0]);
        assert("russian"@.len() != "it"@.len());
        assert("russian"@[0] != "italian"@[0]);
    }
    if l == "ar"@ {
        assert("ar"@[0] != "en"@[0]);
        assert("ar"@.len() != "english"@.len());
        assert("ar"@[0] != "tr"@[0]);
        assert("ar"@.len() != "turkish"@.len());
        assert("ar"@[0] != "de"@[0]);
        assert("ar"@.len() != "german"@.len());
        assert("ar"@[0] != "fr"@[0]);
        assert("ar"@.len() != "french"@.len());
        assert("ar"@[0] != "es"@[0]);
        assert("ar"@.len() != "spanish"@.len());
        assert("ar"@[0] != "it"@[0]);
        assert("ar"@.len() != "italian"@.len());
        assert("ar"@[0] != "ru"@[0]);
        assert("ar"@.len() != "russian"@.len());
    }
    if l == "arabic"@ {
        assert("arabic"@.len() != "en"@.len());
        assert("arabic"@.len() != "english"@.len());
        assert("arabic"@.len() != "tr"@.len());
        assert("arabic"@.len() != "turkish"@.len());
        assert("arabic"@.len() != "de"@.len());
        assert("arabic"@[0] != "german"@[0]);
        assert("arabic"@.len() != "fr"@.len());
        assert("arabic"@[0] != "french"@[0]);
        assert("arabic"@.len() != "es"@.len());
        assert("arabic"@.len() != "spanish"@.len());
        assert("arabic"@.len() != "it"@.len());
        assert("arabic"@.len() != "italian"@.len());
        assert("arabic"@.len() != "ru"@.len());
        assert("arabic"@.len() != "russian"@.len());
    }
}

/// Rate limits (429) and every server error (500 to 599) are retried while
/// fewer than five retries were made; nothing else is ever retried, and no
/// response after the fifth retry is.
pub proof fn lemma_retry_policy(status: u16, attempt: u32)
    ensures
        (status == 429 || (500 <= status && status <= 599)) && attempt < 5 ==> should_retry(status, attempt),
        attempt >= 5 ==> !should_retry(status, attempt),
        status != 429 && (status < 500 || status > 599) ==> !should_retry(status, attempt),
{
}

} // verus!
