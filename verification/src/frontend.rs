//! What a desktop front end shows and edits: the settings form of the
//! selected profiles, how a saved form changes the configuration, the text of
//! a note's transcript tab, and the status lines.

use vstd::prelude::*;
use crate::Stage;
use crate::chars::{string_of, append_str, trim, trim_of, dec, dec_of, parse_u64, spec_parse_uint};
use crate::config::{Config, Provider, owned};

verus! {

/// The editable fields of one provider profile, as text.
#[derive(Debug, Clone)]
pub struct ProfileFields {
    pub base_url: String,
    pub model: String,
    pub key_env: String,
}

/// The settings form: the fields of the speech-to-text and summary profiles
/// (none for a profile that is not registered, whose fields stay as they
/// were), and the chunk size in MiB.
#[derive(Debug, Clone)]
pub struct SettingsForm {
    pub stt: Option<ProfileFields>,
    pub summary: Option<ProfileFields>,
    pub chunk_mb: String,
}

/// An optional setting as a form field: its text, or empty.
pub open spec fn field_text(o: Option<String>) -> Seq<char> {
    match o {
        Some(s) => s@,
        None => seq![],
    }
}

fn field_of(o: &Option<String>) -> (r: String)
    ensures
        r@ == field_text(*o),
{
    match o {
        Some(s) => s.clone(),
        None => String::new(),
    }
}

/// The form shows the profile's base URL, model and key variable.
pub open spec fn shows_profile(f: ProfileFields, base_url: Option<String>, model: Option<String>, key_env: Option<String>) -> bool {
    &&& f.base_url@ == field_text(base_url)
    &&& f.model@ == field_text(model)
    &&& f.key_env@ == field_text(key_env)
}

/// Bytes in a MiB.
pub const MIB: u64 = 1_048_576;

/// The settings form for the profiles `stt` and `summary` of `cfg`.
pub fn settings_form(cfg: &Config, stt: &str, summary: &str) -> (r: SettingsForm)
    ensures
        (match cfg.providers.lookup(stt@) {
            Some(p) => r.stt matches Some(f) && shows_profile(f, p.base_url, p.stt_model, p.api_key_env),
            None => r.stt is None,
        }),
        (match cfg.providers.lookup(summary@) {
            Some(p) => r.summary matches Some(f) && shows_profile(f, p.base_url, p.llm_model, p.api_key_env),
            None => r.summary is None,
        }),
        r.chunk_mb@ == dec((cfg.chunk_threshold_bytes / MIB) as nat),
{
    let stt_fields = match cfg.providers.get(stt) {
        Some(p) => Some(ProfileFields {
            base_url: field_of(&p.base_url),
            model: field_of(&p.stt_model),
            key_env: field_of(&p.api_key_env),
        }),
        None => None,
    };
    let summary_fields = match cfg.providers.get(summary) {
        Some(p) => Some(ProfileFields {
            base_url: field_of(&p.base_url),
            model: field_of(&p.llm_model),
            key_env: field_of(&p.api_key_env),
        }),
        None => None,
    };
    let mb = dec_of(cfg.chunk_threshold_bytes / MIB);
    SettingsForm { stt: stt_fields, summary: summary_fields, chunk_mb: string_of(&mb) }
}

/// A form field as an optional setting: trimmed, none when empty.
pub open spec fn field_setting(s: Seq<char>) -> Option<Seq<char>> {
    if trim(s).len() == 0 { None } else { Some(trim(s)) }
}

/// The view of an optional setting.
pub open spec fn setting_view(o: Option<String>) -> Option<Seq<char>> {
    match o {
        Some(s) => Some(s@),
        None => None,
    }
}

pub fn nonempty(s: &str) -> (r: Option<String>)
    ensures
        setting_view(r) == field_setting(s@),
{
    let t = trim_of(s);
    if t.len() == 0 { None } else { Some(string_of(&t)) }
}

/// `p` with the speech-to-text fields of the form laid over it.
pub open spec fn stt_edited(q: Provider, p: Provider, f: ProfileFields) -> bool {
    &&& q.kind == p.kind
    &&& setting_view(q.base_url) == field_setting(f.base_url@)
    &&& setting_view(q.stt_model) == field_setting(f.model@)
    &&& setting_view(q.api_key_env) == field_setting(f.key_env@)
    &&& q.llm_model == p.llm_model
    &&& q.model_path == p.model_path
    &&& q.threads == p.threads
}

/// `p` with the summary fields of the form laid over it.
pub open spec fn summary_edited(q: Provider, p: Provider, f: ProfileFields) -> bool {
    &&& q.kind == p.kind
    &&& setting_view(q.base_url) == field_setting(f.base_url@)
    &&& setting_view(q.llm_model) == field_setting(f.model@)
    &&& setting_view(q.api_key_env) == field_setting(f.key_env@)
    &&& q.stt_model == p.stt_model
    &&& q.model_path == p.model_path
    &&& q.threads == p.threads
}

/// The chunk size a form's MiB field sets, if it is a number: at least one
/// MiB.
pub open spec fn chunk_bytes_of(mb: Seq<char>) -> Option<int> {
    match spec_parse_uint(trim(mb), u64::MAX as nat) {
        Some(v) => Some((if v < 1 { 1 } else { v }) * MIB),
        None => None,
    }
}

fn edit_stt(p: &Provider, f: &ProfileFields) -> (q: Provider)
    ensures
        stt_edited(q, *p, *f),
{
    let mut q = p.copy();
    q.base_url = nonempty(f.base_url.as_str());
    q.stt_model = nonempty(f.model.as_str());
    q.api_key_env = nonempty(f.key_env.as_str());
    q
}

fn edit_summary(p: &Provider, f: &ProfileFields) -> (q: Provider)
    ensures
        summary_edited(q, *p, *f),
{
    let mut q = p.copy();
    q.base_url = nonempty(f.base_url.as_str());
    q.llm_model = nonempty(f.model.as_str());
    q.api_key_env = nonempty(f.key_env.as_str());
    q
}

/// Save a settings form: the speech-to-text profile `stt` (if registered)
/// takes the form's speech fields, then the summary profile `summary` (if
/// registered; it may be the same one) the summary fields, a numeric chunk
/// size replaces the threshold, and the selection and output language are
/// set. Other profiles are untouched.
pub fn apply_settings(cfg: &mut Config, stt: &str, summary: &str, stt_fields: &ProfileFields, summary_fields: &ProfileFields, chunk_mb: &str, output_lang: &str)
    requires
        old(cfg).providers.wf(),
        chunk_bytes_of(chunk_mb@) matches Some(b) ==> b <= u64::MAX,
    ensures
        final(cfg).providers.wf(),
        forall|n: Seq<char>| n != stt@ && n != summary@ ==> #[trigger] final(cfg).providers.lookup(n) == old(cfg).providers.lookup(n),
        stt@ != summary@ ==> (match old(cfg).providers.lookup(stt@) {
            Some(p) => final(cfg).providers.lookup(stt@) matches Some(q) && stt_edited(q, p, *stt_fields),
            None => final(cfg).providers.lookup(stt@) is None,
        }),
        (match old(cfg).providers.lookup(summary@) {
            Some(p) => final(cfg).providers.lookup(summary@) matches Some(q) && exists|m: Provider| {
                &&& summary_edited(q, m, *summary_fields)
                &&& (if stt@ == summary@ { stt_edited(m, p, *stt_fields) } else { m == p })
            },
            None => final(cfg).providers.lookup(summary@) is None,
        }),
        (match chunk_bytes_of(chunk_mb@) {
            Some(b) => final(cfg).chunk_threshold_bytes == b,
            None => final(cfg).chunk_threshold_bytes == old(cfg).chunk_threshold_bytes,
        }),
        final(cfg).stt_provider@ == stt@,
        final(cfg).summary_provider@ == summary@,
        final(cfg).output_lang@ == output_lang@,
        final(cfg).stt_model_override == old(cfg).stt_model_override,
        final(cfg).summary_model_override == old(cfg).summary_model_override,
        final(cfg).chunk_overlap_secs == old(cfg).chunk_overlap_secs,
        final(cfg).backoff_base_ms == old(cfg).backoff_base_ms,
{
    let ghost before = cfg.providers;
    match cfg.providers.get(stt) {
        Some(p) => {
            let q = edit_stt(p, stt_fields);
            cfg.providers.insert(stt, q);
        },
        None => {},
    }
    let ghost mid = cfg.providers;
    assert(mid.lookup(summary@) == (if stt@ == summary@ {
        match before.lookup(stt@) {
            Some(_) => mid.lookup(stt@),
            None => None,
        }
    } else {
        before.lookup(summary@)
    }));
    match cfg.providers.get(summary) {
        Some(p) => {
            let ghost m = *p;
            let q = edit_summary(p, summary_fields);
            cfg.providers.insert(summary, q);
            assert(summary_edited(q, m, *summary_fields));
        },
        None => {},
    }
    let t = trim_of(chunk_mb);
    let ts = string_of(&t);
    match parse_u64(ts.as_str()) {
        Some(mb) => {
            let m = if mb < 1 { 1 } else { mb };
            cfg.chunk_threshold_bytes = m * MIB;
        },
        None => {},
    }
    cfg.stt_provider = owned(stt);
    cfg.summary_provider = owned(summary);
    cfg.output_lang = owned(output_lang);
}

/// The transcript tab of a note: the translation first, when there is one,
/// under its own heading, then the transcript.
pub open spec fn spec_notes_body(translation: Option<String>, transcript: Seq<char>) -> Seq<char> {
    match translation {
        Some(tr) => "== Çeviri ==\n"@ + tr@ + "\n\n== Transkript ==\n"@ + transcript,
        None => transcript,
    }
}

pub fn notes_body(translation: &Option<String>, transcript: &str) -> (r: String)
    ensures
        r@ == spec_notes_body(*translation, transcript@),
{
    let mut s: Vec<char> = Vec::new();
    match translation {
        Some(tr) => {
            append_str(&mut s, "== Çeviri ==\n");
            append_str(&mut s, tr.as_str());
            append_str(&mut s, "\n\n== Transkript ==\n");
        },
        None => {},
    }
    append_str(&mut s, transcript);
    string_of(&s)
}

/// The status line after a successful run.
pub open spec fn spec_done_status(language: Seq<char>) -> Seq<char> {
    "Tamam (kaynak dil: "@ + (if language.len() == 0 { "?"@ } else { language }) + ")."@
}

pub fn done_status(language: &str) -> (r: String)
    ensures
        r@ == spec_done_status(language@),
{
    let mut s: Vec<char> = Vec::new();
    append_str(&mut s, "Tamam (kaynak dil: ");
    if language.is_empty() {
        append_str(&mut s, "?");
    } else {
        append_str(&mut s, language);
    }
    append_str(&mut s, ").");
    string_of(&s)
}

/// The status line while recording.
pub fn recording_status(with_mic: bool) -> (r: &'static str)
    ensures
        with_mic ==> r@ == "● Kaydediliyor (mic + sistem)… Durdur'a basınca işlenecek."@,
        !with_mic ==> r@ == "● Kaydediliyor (sadece sistem)… Durdur'a basınca işlenecek."@,
{
    if with_mic {
        "● Kaydediliyor (mic + sistem)… Durdur'a basınca işlenecek."
    } else {
        "● Kaydediliyor (sadece sistem)… Durdur'a basınca işlenecek."
    }
}

/// The status line of a pipeline stage.
pub fn stage_message(s: Stage) -> (r: &'static str)
    ensures
        s == Stage::Transcribing ==> r@ == "Transkript çıkarılıyor…"@,
        s == Stage::Translating ==> r@ == "Çeviriliyor…"@,
        s == Stage::Summarizing ==> r@ == "Özetleniyor…"@,
{
    match s {
        Stage::Transcribing => "Transkript çıkarılıyor…",
        Stage::Translating => "Çeviriliyor…",
        Stage::Summarizing => "Özetleniyor…",
    }
}

} // verus!
