//! Layered, registry-based provider configuration.
//!
//! Precedence (lowest to highest): built-in defaults, the config file, then
//! environment overrides. Providers are a registry of named profiles;
//! `stt_provider` and `summary_provider` name one each.

use vstd::prelude::*;
use crate::chars::{chars_of, string_of, append_str, append_chars, dec_of, dec, starts_with, starts_with_chars,
    skip_chars, parse_u64, parse_u32, spec_parse_uint};
use crate::paths::{path_join, joined_path, home_dir, config_dir};

verus! {

pub const DEFAULT_STT_MODEL: &'static str = "whisper-large-v3-turbo";
pub const DEFAULT_LLM_MODEL: &'static str = "llama-3.3-70b-versatile";
pub const DEFAULT_CHUNK_THRESHOLD_BYTES: u64 = 24 * 1024 * 1024;
pub const DEFAULT_CHUNK_OVERLAP_SECS: u32 = 3;
pub const DEFAULT_BACKOFF_BASE_MS: u64 = 800;
pub const DEFAULT_LOCAL_THREADS: u32 = 4;

/// The commented default config file that `config init` writes.
pub const TEMPLATE: &'static str = r#"# tutanak yapılandırması
# Katmanlama: varsayılan -> bu dosya -> ortam değişkenleri (env üstün)
# Sır (API anahtarı) burada DEĞİL: provider'ın api_key_env'i ile env'den okunur.

output_lang = "tr"     # özet/çeviri çıktı dili (ISO-639-1)

# Hangi provider profili kullanılsın (aşağıdaki [providers.*] tablosundan):
[stt]
provider = "groq"      # "groq" (bulut) | "fastflowlm" (AMD NPU) | "whispercpp" (CPU, v1)
# model = "whisper-large-v3-turbo"   # opsiyonel; boşsa profilin default'u

[summary]
provider = "groq"      # "groq" | "ollama" (yerel LLM)
# model = "llama-3.3-70b-versatile"

# --- Provider registry: yeni bir OpenAI-uyumlu backend = sıfır kod, sadece profil ---

[providers.groq]
kind = "openai"
base_url = "https://api.groq.com/openai/v1"
api_key_env = "GROQ_API_KEY"
stt_model = "whisper-large-v3-turbo"
llm_model = "llama-3.3-70b-versatile"

# AMD Ryzen AI NPU — whisper V3 turbo + LLM, OpenAI-uyumlu @ :52625.
# Sunucu (ikisini birden, tek port): flm serve gemma4-it:e2b --asr 1
# Sadece ASR (standalone):           flm serve --asr 1
# Hem stt hem summary'yi buna yöneltirsen pipeline %100 yerel/NPU olur.
# gemma4-it:e2b Türkçe çıktıda güçlü.
[providers.fastflowlm]
kind = "openai"
base_url = "http://localhost:52625/v1"
stt_model = "whisper-v3:turbo"
llm_model = "gemma4-it:e2b"

[providers.ollama]          # yerel LLM (özet için)
kind = "openai"
base_url = "http://localhost:11434/v1"
llm_model = "llama3.1"

[providers.whispercpp]      # in-process whisper.cpp (v1'de gelecek)
kind = "whisper-cpp"
# model_path = "~/.local/share/tutanak/models/ggml-large-v3.bin"
threads = 4

[chunking]
threshold_bytes = 25165824   # ~24MB (Groq free=25MB, dev=100MB; yerel için sınır yok sayılır)
overlap_secs = 3

[network]
backoff_base_ms = 800
"#;

/// How a provider is reached.
#[derive(Debug, Clone, Copy, PartialEq, Eq, Structural)]
pub enum Transport {
    /// OpenAI-compatible HTTP server (Groq, FastFlowLM, Ollama, llama.cpp, ...).
    OpenAi,
    /// In-process whisper.cpp (CPU/GPU); its engine is not available yet.
    WhisperCpp,
}

/// A named backend profile.
#[derive(Debug, Clone)]
pub struct Provider {
    pub kind: Transport,
    /// OpenAI transport: server base URL.
    pub base_url: Option<String>,
    /// Name of the environment variable holding the API key (none for local servers).
    pub api_key_env: Option<String>,
    /// Default speech-to-text model of this provider.
    pub stt_model: Option<String>,
    /// Default chat model of this provider.
    pub llm_model: Option<String>,
    /// whisper-cpp transport: path to a model file.
    pub model_path: Option<String>,
    pub threads: u32,
}

/// A copy of an optional string.
pub fn copy_opt(o: &Option<String>) -> (r: Option<String>)
    ensures
        r == *o,
{
    match o {
        Some(s) => Some(s.clone()),
        None => None,
    }
}

impl Provider {
    /// An identical profile.
    pub fn copy(&self) -> (r: Provider)
        ensures
            r == *self,
    {
        Provider {
            kind: self.kind,
            base_url: copy_opt(&self.base_url),
            api_key_env: copy_opt(&self.api_key_env),
            stt_model: copy_opt(&self.stt_model),
            llm_model: copy_opt(&self.llm_model),
            model_path: copy_opt(&self.model_path),
            threads: self.threads,
        }
    }

    /// The API key this profile resolves to, given `value`, what reading the
    /// environment variable named by `api_key_env` gave: none when the
    /// profile names no variable, the variable is unset or it is empty.
    pub fn resolve_key(&self, value: Option<String>) -> (r: Option<String>)
        ensures
            self.api_key_env is None ==> r is None,
            self.api_key_env is Some ==> match value {
                Some(v) => if v@.len() > 0 { r == Some(v) } else { r is None },
                None => r is None,
            },
    {
        match &self.api_key_env {
            None => None,
            Some(_) => match value {
                Some(v) => if v.as_str().is_empty() { None } else { Some(v) },
                None => None,
            },
        }
    }

    /// An OpenAI-compatible profile at `base_url`, with the API key in the
    /// environment variable `key_env` if any, no models and the default thread
    /// count.
    pub fn openai(base_url: &str, key_env: Option<&str>) -> (r: Provider)
        ensures
            r.kind == Transport::OpenAi,
            r.base_url matches Some(u) && u@ == base_url@,
            r.api_key_env matches Some(e) ==> key_env matches Some(k) && e@ == k@,
            r.api_key_env is None <==> key_env is None,
            r.stt_model is None,
            r.llm_model is None,
            r.model_path is None,
            r.threads == DEFAULT_LOCAL_THREADS,
    {
        Provider {
            kind: Transport::OpenAi,
            base_url: Some(string_of(&chars_of(base_url))),
            api_key_env: match key_env {
                Some(k) => Some(string_of(&chars_of(k))),
                None => None,
            },
            stt_model: None,
            llm_model: None,
            model_path: None,
            threads: DEFAULT_LOCAL_THREADS,
        }
    }
}

/// `a` comes before `b` in the order of `String`'s `Ord` (lexicographic by
/// code point).
pub open spec fn name_lt(a: Seq<char>, b: Seq<char>) -> bool
    decreases a.len(),
{
    if a.len() == 0 {
        b.len() > 0
    } else if b.len() == 0 {
        false
    } else if a[0] < b[0] {
        true
    } else if a[0] == b[0] {
        name_lt(a.drop_first(), b.drop_first())
    } else {
        false
    }
}

pub proof fn lemma_name_lt_irreflexive(a: Seq<char>)
    ensures
        !name_lt(a, a),
    decreases a.len(),
{
    if a.len() > 0 {
        lemma_name_lt_irreflexive(a.drop_first());
    }
}

pub proof fn lemma_name_lt_transitive(a: Seq<char>, b: Seq<char>, c: Seq<char>)
    requires
        name_lt(a, b),
        name_lt(b, c),
    ensures
        name_lt(a, c),
    decreases a.len(),
{
    if a.len() > 0 && b.len() > 0 && c.len() > 0 && a[0] == b[0] && b[0] == c[0] {
        lemma_name_lt_transitive(a.drop_first(), b.drop_first(), c.drop_first());
    }
}

pub proof fn lemma_name_lt_total(a: Seq<char>, b: Seq<char>)
    ensures
        a == b || name_lt(a, b) || name_lt(b, a),
    decreases a.len(),
{
    if a.len() > 0 && b.len() > 0 && a[0] == b[0] {
        lemma_name_lt_total(a.drop_first(), b.drop_first());
        if a.drop_first() == b.drop_first() {
            assert(a == seq![a[0]] + a.drop_first());
            assert(b == seq![b[0]] + b.drop_first());
        }
    } else if a.len() == 0 && b.len() == 0 {
        assert(a == b);
    }
}

/// Result of comparing two names.
#[derive(Clone, Copy, PartialEq, Eq, Structural)]
pub enum NameOrder {
    Before,
    Same,
    After,
}

/// How `a` compares with `b`.
pub fn compare_names(a: &Vec<char>, b: &Vec<char>) -> (r: NameOrder)
    ensures
        r == NameOrder::Before <==> name_lt(a@, b@),
        r == NameOrder::Same <==> a@ == b@,
        r == NameOrder::After <==> name_lt(b@, a@),
{
    proof {
        lemma_name_lt_total(a@, b@);
        lemma_name_lt_irreflexive(a@);
        if name_lt(a@, b@) && name_lt(b@, a@) {
            lemma_name_lt_transitive(a@, b@, a@);
        }
    }
    let mut i: usize = 0;
    assert(a@.subrange(0, a.len() as int) == a@);
    assert(b@.subrange(0, b.len() as int) == b@);
    while i < a.len() && i < b.len()
        invariant
            i <= a.len(),
            i <= b.len(),
            a@.subrange(0, i as int) == b@.subrange(0, i as int),
            name_lt(a@, b@) == name_lt(a@.subrange(i as int, a.len() as int), b@.subrange(i as int, b.len() as int)),
            name_lt(b@, a@) == name_lt(b@.subrange(i as int, b.len() as int), a@.subrange(i as int, a.len() as int)),
        decreases a.len() - i,
    {
        let x = a[i];
        let y = b[i];
        let ghost sa = a@.subrange(i as int, a.len() as int);
        let ghost sb = b@.subrange(i as int, b.len() as int);
        assert(sa[0] == x && sb[0] == y);
        if x < y {
            return NameOrder::Before;
        }
        if y < x {
            return NameOrder::After;
        }
        assert(sa.drop_first() == a@.subrange(i + 1, a.len() as int));
        assert(sb.drop_first() == b@.subrange(i + 1, b.len() as int));
        assert(a@.subrange(0, i + 1) == a@.subrange(0, i as int).push(x));
        assert(b@.subrange(0, i + 1) == b@.subrange(0, i as int).push(y));
        i = i + 1;
    }
    if a.len() == b.len() {
        assert(a@ == a@.subrange(0, i as int));
        assert(b@ == b@.subrange(0, i as int));
        NameOrder::Same
    } else if a.len() < b.len() {
        assert(a@.subrange(i as int, a.len() as int).len() == 0);
        NameOrder::Before
    } else {
        assert(b@.subrange(i as int, b.len() as int).len() == 0);
        NameOrder::After
    }
}

/// A provider profile under its name.
#[derive(Debug, Clone)]
pub struct ProviderEntry {
    pub name: String,
    pub provider: Provider,
}

/// The registry of named provider profiles, kept in name order, each name once
/// (as a `BTreeMap<String, Provider>` holds them).
#[derive(Debug, Clone)]
pub struct ProviderRegistry {
    pub entries: Vec<ProviderEntry>,
}

/// The profile of the first entry named `name`.
pub open spec fn find_entry(entries: Seq<ProviderEntry>, name: Seq<char>) -> Option<Provider>
    decreases entries.len(),
{
    if entries.len() == 0 {
        None
    } else if entries[0].name@ == name {
        Some(entries[0].provider)
    } else {
        find_entry(entries.drop_first(), name)
    }
}

/// The entries are in strictly increasing name order.
pub open spec fn names_sorted(entries: Seq<ProviderEntry>) -> bool {
    forall|i: int, j: int| 0 <= i < j < entries.len() ==> name_lt(#[trigger] entries[i].name@, #[trigger] entries[j].name@)
}

proof fn lemma_find_at(entries: Seq<ProviderEntry>, name: Seq<char>, i: int)
    requires
        0 <= i < entries.len(),
        entries[i].name@ == name,
        forall|k: int| 0 <= k < i ==> entries[k].name@ != name,
    ensures
        find_entry(entries, name) == Some(entries[i].provider),
    decreases i,
{
    if i > 0 {
        let t = entries.drop_first();
        assert forall|k: int| 0 <= k < i - 1 implies t[k].name@ != name by {
            assert(t[k] == entries[k + 1]);
        }
        lemma_find_at(t, name, i - 1);
    }
}

proof fn lemma_find_none(entries: Seq<ProviderEntry>, name: Seq<char>)
    requires
        forall|k: int| 0 <= k < entries.len() ==> entries[k].name@ != name,
    ensures
        find_entry(entries, name) is None,
    decreases entries.len(),
{
    if entries.len() > 0 {
        let t = entries.drop_first();
        assert forall|k: int| 0 <= k < t.len() implies t[k].name@ != name by {
            assert(t[k] == entries[k + 1]);
        }
        lemma_find_none(t, name);
    }
}

/// In sorted entries, the entry found for a name is the one holding it.
pub proof fn lemma_find_sorted(entries: Seq<ProviderEntry>, name: Seq<char>)
    requires
        names_sorted(entries),
    ensures
        find_entry(entries, name) matches Some(p) ==> exists|i: int| 0 <= i < entries.len() && entries[i].name@ == name && entries[i].provider == p,
        find_entry(entries, name) is None <==> forall|k: int| 0 <= k < entries.len() ==> entries[k].name@ != name,
        forall|i: int| 0 <= i < entries.len() && entries[i].name@ == name ==> find_entry(entries, name) == Some(entries[i].provider),
{
    if exists|i: int| 0 <= i < entries.len() && entries[i].name@ == name {
        let i = choose|i: int| 0 <= i < entries.len() && entries[i].name@ == name;
        assert forall|k: int| 0 <= k < i implies entries[k].name@ != name by {
            assert(name_lt(entries[k].name@, entries[i].name@));
            lemma_name_lt_irreflexive(name);
        }
        lemma_find_at(entries, name, i);
        assert forall|j: int| 0 <= j < entries.len() && entries[j].name@ == name implies find_entry(entries, name) == Some(entries[j].provider) by {
            if j != i {
                lemma_name_lt_irreflexive(name);
                if j < i {
                    assert(name_lt(entries[j].name@, entries[i].name@));
                } else {
                    assert(name_lt(entries[i].name@, entries[j].name@));
                }
            }
        }
    } else {
        lemma_find_none(entries, name);
    }
}

impl ProviderRegistry {
    /// The profile registered under `name`, if any.
    pub open spec fn lookup(&self, name: Seq<char>) -> Option<Provider> {
        find_entry(self.entries@, name)
    }

    /// The registered names, in order.
    pub open spec fn names(&self) -> Seq<Seq<char>> {
        self.entries@.map_values(|e: ProviderEntry| e.name@)
    }

    /// Names are kept in strictly increasing order.
    pub open spec fn wf(&self) -> bool {
        names_sorted(self.entries@)
    }

    /// An empty registry.
    pub fn new() -> (r: ProviderRegistry)
        ensures
            r.wf(),
            r.entries@.len() == 0,
    {
        ProviderRegistry { entries: Vec::new() }
    }

    /// Number of registered profiles.
    pub fn len(&self) -> (r: usize)
        ensures
            r == self.entries@.len(),
    {
        self.entries.len()
    }

    /// The profile registered under `name`.
    pub fn get(&self, name: &str) -> (r: Option<&Provider>)
        ensures
            r matches Some(p) ==> self.lookup(name@) == Some(*p),
            r is None ==> self.lookup(name@) is None,
    {
        let key = chars_of(name);
        let mut i: usize = 0;
        while i < self.entries.len()
            invariant
                i <= self.entries.len(),
                key@ == name@,
                forall|k: int| 0 <= k < i ==> self.entries@[k].name@ != name@,
            decreases self.entries.len() - i,
        {
            let n = chars_of(self.entries[i].name.as_str());
            if compare_names(&n, &key) == NameOrder::Same {
                proof { lemma_find_at(self.entries@, name@, i as int); }
                return Some(&self.entries[i].provider);
            }
            i = i + 1;
        }
        proof { lemma_find_none(self.entries@, name@); }
        None
    }

    /// The registered names, in order.
    pub fn keys(&self) -> (r: Vec<String>)
        ensures
            r.deep_view() == self.names(),
    {
        let mut out: Vec<String> = Vec::new();
        let mut i: usize = 0;
        while i < self.entries.len()
            invariant
                i <= self.entries.len(),
                out.deep_view() == self.names().take(i as int),
            decreases self.entries.len() - i,
        {
            let ghost before = out.deep_view();
            let nm = self.entries[i].name.clone();
            assert(nm@ == self.names()[i as int]);
            out.push(nm);
            assert(out.deep_view() =~= before.push(nm@));
            i = i + 1;
            assert(self.names().take(i as int) =~= self.names().take(i - 1).push(self.names()[i - 1]));
        }
        assert(self.names().take(i as int) == self.names());
        out
    }

    /// Registers `provider` under `name`, replacing any profile of that name;
    /// the order is kept.
    pub fn insert(&mut self, name: &str, provider: Provider)
        requires
            old(self).wf(),
        ensures
            final(self).wf(),
            final(self).lookup(name@) == Some(provider),
            forall|n: Seq<char>| n != name@ ==> #[trigger] final(self).lookup(n) == old(self).lookup(n),
            forall|n: Seq<char>| final(self).names().contains(n) <==> (n == name@ || old(self).names().contains(n)),
    {
        let key = chars_of(name);
        let ghost old_entries = self.entries@;
        let mut pos: usize = 0;
        while pos < self.entries.len()
            && compare_names(&chars_of(self.entries[pos].name.as_str()), &key) == NameOrder::Before
            invariant
                pos <= self.entries.len(),
                self.entries@ == old_entries,
                key@ == name@,
                forall|k: int| 0 <= k < pos ==> name_lt(#[trigger] self.entries@[k].name@, name@),
            decreases self.entries.len() - pos,
        {
            pos = pos + 1;
        }
        let replacing = pos < self.entries.len()
            && compare_names(&chars_of(self.entries[pos].name.as_str()), &key) == NameOrder::Same;
        let entry = ProviderEntry { name: string_of(&key), provider };
        proof {
            lemma_name_lt_irreflexive(name@);
        }
        if replacing {
            self.entries.set(pos, entry);
        } else {
            proof {
                if pos < old_entries.len() {
                    lemma_name_lt_total(old_entries[pos as int].name@, name@);
                }
            }
            self.entries.insert(pos, entry);
        }
        let ghost ne = self.entries@;
        proof {
            assert forall|i: int, j: int| 0 <= i < j < ne.len() implies name_lt(#[trigger] ne[i].name@, #[trigger] ne[j].name@) by {
                if replacing {
                    if i == pos {
                        assert(name_lt(old_entries[i].name@, old_entries[j].name@));
                    } else if j == pos {
                        assert(name_lt(old_entries[i].name@, old_entries[j].name@));
                    } else {
                        assert(name_lt(old_entries[i].name@, old_entries[j].name@));
                    }
                } else {
                    if i < pos && j == pos {
                    } else if i < pos && j > pos {
                        assert(ne[j] == old_entries[j - 1]);
                        assert(name_lt(old_entries[pos as int].name@, old_entries[j - 1].name@) || j - 1 == pos);
                        assert(name_lt(name@, old_entries[pos as int].name@));
                        if j - 1 > pos {
                            lemma_name_lt_transitive(name@, old_entries[pos as int].name@, old_entries[j - 1].name@);
                        }
                    } else if i == pos {
                        assert(ne[j] == old_entries[j - 1]);
                        assert(name_lt(name@, old_entries[pos as int].name@));
                        if j - 1 > pos {
                            lemma_name_lt_transitive(name@, old_entries[pos as int].name@, old_entries[j - 1].name@);
                        }
                    } else if i > pos {
                        assert(ne[i] == old_entries[i - 1]);
                        assert(ne[j] == old_entries[j - 1]);
                        assert(name_lt(old_entries[i - 1].name@, old_entries[j - 1].name@));
                    } else {
                        assert(ne[i] == old_entries[i]);
                        assert(ne[j] == old_entries[j]);
                        assert(name_lt(old_entries[i].name@, old_entries[j].name@));
                    }
                }
            }
            lemma_find_sorted(ne, name@);
            assert(ne[pos as int].name@ == name@);
            lemma_find_sorted(old_entries, name@);
            assert forall|n: Seq<char>| n != name@ implies #[trigger] find_entry(ne, n) == find_entry(old_entries, n) by {
                lemma_find_sorted(ne, n);
                lemma_find_sorted(old_entries, n);
                if exists|i: int| 0 <= i < old_entries.len() && old_entries[i].name@ == n {
                    let i = choose|i: int| 0 <= i < old_entries.len() && old_entries[i].name@ == n;
                    if replacing {
                        assert(i != pos);
                        assert(ne[i] == old_entries[i]);
                    } else if i < pos {
                        assert(ne[i] == old_entries[i]);
                    } else {
                        assert(ne[i + 1] == old_entries[i]);
                    }
                } else {
                    assert forall|k: int| 0 <= k < ne.len() implies ne[k].name@ != n by {
                        if replacing {
                            if k != pos {
                                assert(ne[k] == old_entries[k]);
                            }
                        } else if k < pos {
                            assert(ne[k] == old_entries[k]);
                        } else if k > pos {
                            assert(ne[k] == old_entries[k - 1]);
                        }
                    }
                }
            }
            let on = old_entries.map_values(|e: ProviderEntry| e.name@);
            let nn = ne.map_values(|e: ProviderEntry| e.name@);
            assert forall|n: Seq<char>| nn.contains(n) <==> (n == name@ || on.contains(n)) by {
                if nn.contains(n) {
                    let k = choose|k: int| 0 <= k < nn.len() && nn[k] == n;
                    if k != pos {
                        if replacing || k < pos {
                            assert(ne[k] == old_entries[k]);
                            assert(on[k] == n);
                        } else {
                            assert(ne[k] == old_entries[k - 1]);
                            assert(on[k - 1] == n);
                        }
                    }
                }
                if n == name@ {
                    assert(nn[pos as int] == n);
                }
                if on.contains(n) {
                    let k = choose|k: int| 0 <= k < on.len() && on[k] == n;
                    if replacing || k < pos {
                        if replacing && k == pos {
                            assert(nn[pos as int] == name@);
                            assert(on[k] == old_entries[k].name@);
                        } else {
                            assert(ne[k] == old_entries[k]);
                            assert(nn[k] == n);
                        }
                    } else {
                        assert(ne[k + 1] == old_entries[k]);
                        assert(nn[k + 1] == n);
                    }
                }
            }
        }
    }
}

/// The resolved runtime configuration.
#[derive(Debug, Clone)]
pub struct Config {
    /// ISO-639-1 output language for summary and translation.
    pub output_lang: String,
    pub stt_provider: String,
    pub stt_model_override: Option<String>,
    pub summary_provider: String,
    pub summary_model_override: Option<String>,
    pub providers: ProviderRegistry,
    pub chunk_threshold_bytes: u64,
    pub chunk_overlap_secs: u32,
    pub backoff_base_ms: u64,
}

/// Why a configuration cannot be used.
#[derive(Debug, Clone)]
pub enum ConfigError {
    /// `stt_provider` names no registered profile.
    UnknownSttProvider(String),
    /// `summary_provider` names no registered profile.
    UnknownSummaryProvider(String),
    /// The speech-to-text profile uses the in-process whisper.cpp transport,
    /// which has no engine yet.
    WhisperCppStt,
    /// The summary profile uses whisper.cpp, which is no chat transport.
    WhisperCppSummary,
}

/// A string holding `s`.
pub fn owned(s: &str) -> (r: String)
    ensures
        r@ == s@,
{
    string_of(&chars_of(s))
}

/// `o` holds a string equal to `s`.
pub open spec fn holds(o: Option<String>, s: Seq<char>) -> bool {
    o matches Some(x) && x@ == s
}

/// `p` is an OpenAI-compatible profile at `url`, keyed by the variable
/// `key` if any, with the given models, no model file and the default thread
/// count.
pub open spec fn openai_profile(p: Provider, url: Seq<char>, key: Option<Seq<char>>, stt: Option<Seq<char>>, llm: Option<Seq<char>>) -> bool {
    &&& p.kind == Transport::OpenAi
    &&& holds(p.base_url, url)
    &&& (match key { Some(k) => holds(p.api_key_env, k), None => p.api_key_env is None })
    &&& (match stt { Some(m) => holds(p.stt_model, m), None => p.stt_model is None })
    &&& (match llm { Some(m) => holds(p.llm_model, m), None => p.llm_model is None })
    &&& p.model_path is None
    &&& p.threads == DEFAULT_LOCAL_THREADS
}

/// The built-in registry: Groq (cloud), FastFlowLM (AMD NPU, both speech and
/// chat), Ollama (local chat) and in-process whisper.cpp, in name order.
pub open spec fn is_default_registry(r: ProviderRegistry) -> bool {
    &&& r.wf()
    &&& r.entries@.len() == 4
    &&& r.entries@[0].name@ == "fastflowlm"@
    &&& r.entries@[1].name@ == "groq"@
    &&& r.entries@[2].name@ == "ollama"@
    &&& r.entries@[3].name@ == "whispercpp"@
    &&& openai_profile(r.entries@[0].provider, "http://localhost:52625/v1"@, None, Some("whisper-v3:turbo"@), Some("gemma4-it:e2b"@))
    &&& openai_profile(r.entries@[1].provider, "https://api.groq.com/openai/v1"@, Some("GROQ_API_KEY"@), Some(DEFAULT_STT_MODEL@), Some(DEFAULT_LLM_MODEL@))
    &&& openai_profile(r.entries@[2].provider, "http://localhost:11434/v1"@, None, None, Some("llama3.1"@))
    &&& ({
        let w = r.entries@[3].provider;
        &&& w.kind == Transport::WhisperCpp
        &&& w.base_url is None && w.api_key_env is None && w.stt_model is None
        &&& w.llm_model is None && w.model_path is None
        &&& w.threads == DEFAULT_LOCAL_THREADS
    })
}

/// The built-in configuration: Turkish output, Groq for both speech and
/// summary, no model overrides, the built-in registry and default limits.
pub open spec fn is_default_config(c: Config) -> bool {
    &&& c.output_lang@ == "tr"@
    &&& c.stt_provider@ == "groq"@
    &&& c.stt_model_override is None
    &&& c.summary_provider@ == "groq"@
    &&& c.summary_model_override is None
    &&& is_default_registry(c.providers)
    &&& c.chunk_threshold_bytes == DEFAULT_CHUNK_THRESHOLD_BYTES
    &&& c.chunk_overlap_secs == DEFAULT_CHUNK_OVERLAP_SECS
    &&& c.backoff_base_ms == DEFAULT_BACKOFF_BASE_MS
}

fn default_registry() -> (r: ProviderRegistry)
    ensures
        is_default_registry(r),
{
    let mut groq = Provider::openai("https://api.groq.com/openai/v1", Some("GROQ_API_KEY"));
    groq.stt_model = Some(owned(DEFAULT_STT_MODEL));
    groq.llm_model = Some(owned(DEFAULT_LLM_MODEL));
    let mut flm = Provider::openai("http://localhost:52625/v1", None);
    flm.stt_model = Some(owned("whisper-v3:turbo"));
    flm.llm_model = Some(owned("gemma4-it:e2b"));
    let mut ollama = Provider::openai("http://localhost:11434/v1", None);
    ollama.llm_model = Some(owned("llama3.1"));
    let whisper = Provider {
        kind: Transport::WhisperCpp,
        base_url: None,
        api_key_env: None,
        stt_model: None,
        llm_model: None,
        model_path: None,
        threads: DEFAULT_LOCAL_THREADS,
    };
    let mut entries: Vec<ProviderEntry> = Vec::new();
    entries.push(ProviderEntry { name: owned("fastflowlm"), provider: flm });
    entries.push(ProviderEntry { name: owned("groq"), provider: groq });
    entries.push(ProviderEntry { name: owned("ollama"), provider: ollama });
    entries.push(ProviderEntry { name: owned("whispercpp"), provider: whisper });
    let r = ProviderRegistry { entries };
    proof {
        reveal_strlit("fastflowlm");
        reveal_strlit("groq");
        reveal_strlit("ollama");
        reveal_strlit("whispercpp");
        assert forall|i: int, j: int| 0 <= i < j < r.entries@.len() implies name_lt(#[trigger] r.entries@[i].name@, #[trigger] r.entries@[j].name@) by {
            assert(r.entries@[i].name@[0] < r.entries@[j].name@[0]);
        }
    }
    r
}

impl Default for Config {
    /// The built-in configuration.
    fn default() -> (r: Config)
        ensures
            is_default_config(r),
    {
        Config {
            output_lang: owned("tr"),
            stt_provider: owned("groq"),
            stt_model_override: None,
            summary_provider: owned("groq"),
            summary_model_override: None,
            providers: default_registry(),
            chunk_threshold_bytes: DEFAULT_CHUNK_THRESHOLD_BYTES,
            chunk_overlap_secs: DEFAULT_CHUNK_OVERLAP_SECS,
            backoff_base_ms: DEFAULT_BACKOFF_BASE_MS,
        }
    }
}

impl Config {
    /// The profile `stt_provider` names.
    pub fn stt_profile(&self) -> (r: Result<&Provider, ConfigError>)
        ensures
            r matches Ok(p) ==> self.providers.lookup(self.stt_provider@) == Some(*p),
            r matches Err(e) ==> (self.providers.lookup(self.stt_provider@) is None
                && (e matches ConfigError::UnknownSttProvider(n) && n@ == self.stt_provider@)),
    {
        match self.providers.get(self.stt_provider.as_str()) {
            Some(p) => Ok(p),
            None => Err(ConfigError::UnknownSttProvider(self.stt_provider.clone())),
        }
    }

    /// The profile `summary_provider` names.
    pub fn summary_profile(&self) -> (r: Result<&Provider, ConfigError>)
        ensures
            r matches Ok(p) ==> self.providers.lookup(self.summary_provider@) == Some(*p),
            r matches Err(e) ==> (self.providers.lookup(self.summary_provider@) is None
                && (e matches ConfigError::UnknownSummaryProvider(n) && n@ == self.summary_provider@)),
    {
        match self.providers.get(self.summary_provider.as_str()) {
            Some(p) => Ok(p),
            None => Err(ConfigError::UnknownSummaryProvider(self.summary_provider.clone())),
        }
    }

    /// The speech-to-text model in effect: the override, else the profile's
    /// model, else the default.
    pub open spec fn spec_stt_model(&self) -> Seq<char> {
        match self.stt_model_override {
            Some(m) => m@,
            None => match self.providers.lookup(self.stt_provider@) {
                Some(p) if p.stt_model is Some => p.stt_model->0@,
                _ => DEFAULT_STT_MODEL@,
            },
        }
    }

    /// The chat model in effect: the override, else the profile's model, else
    /// the default.
    pub open spec fn spec_summary_model(&self) -> Seq<char> {
        match self.summary_model_override {
            Some(m) => m@,
            None => match self.providers.lookup(self.summary_provider@) {
                Some(p) if p.llm_model is Some => p.llm_model->0@,
                _ => DEFAULT_LLM_MODEL@,
            },
        }
    }

    pub fn effective_stt_model(&self) -> (r: String)
        ensures
            r@ == self.spec_stt_model(),
    {
        match &self.stt_model_override {
            Some(m) => m.clone(),
            None => match self.stt_profile() {
                Ok(p) => match &p.stt_model {
                    Some(m) => m.clone(),
                    None => owned(DEFAULT_STT_MODEL),
                },
                Err(_) => owned(DEFAULT_STT_MODEL),
            },
        }
    }

    pub fn effective_summary_model(&self) -> (r: String)
        ensures
            r@ == self.spec_summary_model(),
    {
        match &self.summary_model_override {
            Some(m) => m.clone(),
            None => match self.summary_profile() {
                Ok(p) => match &p.llm_model {
                    Some(m) => m.clone(),
                    None => owned(DEFAULT_LLM_MODEL),
                },
                Err(_) => owned(DEFAULT_LLM_MODEL),
            },
        }
    }

    /// Whether the configuration can run now: both profiles exist, speech does
    /// not use whisper.cpp (its engine is not available yet) and neither does
    /// the summary (it is no chat transport).
    pub open spec fn v0_supported(&self) -> bool {
        &&& self.providers.lookup(self.stt_provider@) matches Some(s) && s.kind != Transport::WhisperCpp
        &&& self.providers.lookup(self.summary_provider@) matches Some(m) && m.kind != Transport::WhisperCpp
    }

    /// Reject configurations whose engines are not available: an unknown
    /// profile, or whisper.cpp for speech (checked first) or summary.
    pub fn ensure_v0_supported(&self) -> (r: Result<(), ConfigError>)
        ensures
            r is Ok <==> self.v0_supported(),
            r matches Err(e) ==> match self.providers.lookup(self.stt_provider@) {
                None => (e matches ConfigError::UnknownSttProvider(n) && n@ == self.stt_provider@),
                Some(s) => if s.kind == Transport::WhisperCpp {
                    e is WhisperCppStt
                } else {
                    match self.providers.lookup(self.summary_provider@) {
                        None => (e matches ConfigError::UnknownSummaryProvider(n) && n@ == self.summary_provider@),
                        Some(_) => e is WhisperCppSummary,
                    }
                },
            },
    {
        let s = self.stt_profile()?;
        if s.kind == Transport::WhisperCpp {
            return Err(ConfigError::WhisperCppStt);
        }
        let m = self.summary_profile()?;
        if m.kind == Transport::WhisperCpp {
            return Err(ConfigError::WhisperCppSummary);
        }
        Ok(())
    }
}

/// Raw values of the environment overrides (`TUTANAK_*` variables), as read.
#[derive(Debug, Clone)]
pub struct EnvOverrides {
    pub output_lang: Option<String>,
    pub stt_provider: Option<String>,
    pub stt_model: Option<String>,
    pub summary_provider: Option<String>,
    pub llm_model: Option<String>,
    pub groq_url: Option<String>,
    pub chunk_bytes: Option<String>,
    pub chunk_overlap_secs: Option<String>,
    pub backoff_ms: Option<String>,
}

/// `v` if present, else `old`.
pub open spec fn or_keep<T>(v: Option<T>, old: T) -> T {
    match v {
        Some(x) => x,
        None => old,
    }
}

/// The number a raw override parses to, if any.
pub open spec fn parsed_or(raw: Option<String>, max: nat, old: nat) -> nat {
    match raw {
        Some(t) => match spec_parse_uint(t@, max) {
            Some(v) => v,
            None => old,
        },
        None => old,
    }
}

/// `p` with its base URL replaced.
pub open spec fn with_base_url(p: Provider, url: String) -> Provider {
    Provider { base_url: Some(url), ..p }
}

impl ProviderRegistry {
    /// Points the profile `name`, if registered, at `url`.
    pub fn set_base_url(&mut self, name: &str, url: String)
        requires
            old(self).wf(),
        ensures
            final(self).wf(),
            forall|n: Seq<char>| n != name@ ==> #[trigger] final(self).lookup(n) == old(self).lookup(n),
            final(self).lookup(name@) == match old(self).lookup(name@) {
                Some(p) => Some(with_base_url(p, url)),
                None => None::<Provider>,
            },
    {
        match self.get(name) {
            Some(p) => {
                let mut q = p.copy();
                q.base_url = Some(url);
                self.insert(name, q);
            },
            None => {},
        }
    }
}

impl EnvOverrides {
    /// `new` is `old` with these overrides applied: each value given
    /// replaces its setting, `groq_url` re-points the `groq` profile (if
    /// registered), numbers that do not parse are ignored; nothing else
    /// changes.
    pub open spec fn applied_to(&self, old: Config, new: Config) -> bool {
        &&& new.output_lang == or_keep(self.output_lang, old.output_lang)
        &&& new.stt_provider == or_keep(self.stt_provider, old.stt_provider)
        &&& new.stt_model_override == (match self.stt_model {
            Some(m) => Some(m),
            None => old.stt_model_override,
        })
        &&& new.summary_provider == or_keep(self.summary_provider, old.summary_provider)
        &&& new.summary_model_override == (match self.llm_model {
            Some(m) => Some(m),
            None => old.summary_model_override,
        })
        &&& forall|n: Seq<char>| n != "groq"@ ==> #[trigger] new.providers.lookup(n) == old.providers.lookup(n)
        &&& new.providers.lookup("groq"@) == match (self.groq_url, old.providers.lookup("groq"@)) {
            (Some(u), Some(p)) => Some(with_base_url(p, u)),
            (_, lk) => lk,
        }
        &&& new.chunk_threshold_bytes == parsed_or(self.chunk_bytes, u64::MAX as nat, old.chunk_threshold_bytes as nat)
        &&& new.chunk_overlap_secs == parsed_or(self.chunk_overlap_secs, u32::MAX as nat, old.chunk_overlap_secs as nat)
        &&& new.backoff_base_ms == parsed_or(self.backoff_ms, u64::MAX as nat, old.backoff_base_ms as nat)
    }
}

impl Config {
    /// Apply environment overrides: each value given replaces its setting;
    /// `groq_url` points the `groq` profile (if registered) elsewhere; numbers
    /// that do not parse are ignored.
    pub fn apply_env(&mut self, env: &EnvOverrides)
        requires
            old(self).providers.wf(),
        ensures
            final(self).providers.wf(),
            env.applied_to(*old(self), *final(self)),
            final(self).output_lang == or_keep(env.output_lang, old(self).output_lang),
            final(self).stt_provider == or_keep(env.stt_provider, old(self).stt_provider),
            final(self).stt_model_override == (match env.stt_model {
                Some(m) => Some(m),
                None => old(self).stt_model_override,
            }),
            final(self).summary_provider == or_keep(env.summary_provider, old(self).summary_provider),
            final(self).summary_model_override == (match env.llm_model {
                Some(m) => Some(m),
                None => old(self).summary_model_override,
            }),
            forall|n: Seq<char>| n != "groq"@ ==> #[trigger] final(self).providers.lookup(n) == old(self).providers.lookup(n),
            final(self).providers.lookup("groq"@) == match (env.groq_url, old(self).providers.lookup("groq"@)) {
                (Some(u), Some(p)) => Some(with_base_url(p, u)),
                (_, lk) => lk,
            },
            final(self).chunk_threshold_bytes == parsed_or(env.chunk_bytes, u64::MAX as nat, old(self).chunk_threshold_bytes as nat),
            final(self).chunk_overlap_secs == parsed_or(env.chunk_overlap_secs, u32::MAX as nat, old(self).chunk_overlap_secs as nat),
            final(self).backoff_base_ms == parsed_or(env.backoff_ms, u64::MAX as nat, old(self).backoff_base_ms as nat),
    {
        match &env.output_lang {
            Some(v) => { self.output_lang = v.clone(); },
            None => {},
        }
        match &env.stt_provider {
            Some(v) => { self.stt_provider = v.clone(); },
            None => {},
        }
        match &env.stt_model {
            Some(v) => { self.stt_model_override = Some(v.clone()); },
            None => {},
        }
        match &env.summary_provider {
            Some(v) => { self.summary_provider = v.clone(); },
            None => {},
        }
        match &env.llm_model {
            Some(v) => { self.summary_model_override = Some(v.clone()); },
            None => {},
        }
        match &env.groq_url {
            Some(v) => { self.providers.set_base_url("groq", v.clone()); },
            None => {},
        }
        match &env.chunk_bytes {
            Some(t) => match parse_u64(t.as_str()) {
                Some(v) => { self.chunk_threshold_bytes = v; },
                None => {},
            },
            None => {},
        }
        match &env.chunk_overlap_secs {
            Some(t) => match parse_u32(t.as_str()) {
                Some(v) => { self.chunk_overlap_secs = v; },
                None => {},
            },
            None => {},
        }
        match &env.backoff_ms {
            Some(t) => match parse_u64(t.as_str()) {
                Some(v) => { self.backoff_base_ms = v; },
                None => {},
            },
            None => {},
        }
    }
}

/// A `[stt]` or `[summary]` table of the config file.
#[derive(Debug, Clone)]
pub struct FileSelect {
    pub provider: Option<String>,
    pub model: Option<String>,
}

/// A `[providers.<name>]` table of the config file.
#[derive(Debug, Clone)]
pub struct FileProvider {
    pub kind: Option<Transport>,
    pub base_url: Option<String>,
    pub api_key_env: Option<String>,
    pub stt_model: Option<String>,
    pub llm_model: Option<String>,
    pub model_path: Option<String>,
    pub threads: Option<u32>,
}

/// A provider table under its name.
#[derive(Debug, Clone)]
pub struct FileProviderEntry {
    pub name: String,
    pub profile: FileProvider,
}

/// The `[chunking]` table.
#[derive(Debug, Clone)]
pub struct FileChunking {
    pub threshold_bytes: Option<u64>,
    pub overlap_secs: Option<u32>,
}

/// The `[network]` table.
#[derive(Debug, Clone)]
pub struct FileNetwork {
    pub backoff_base_ms: Option<u64>,
}

/// The config file's contents; every setting optional.
#[derive(Debug, Clone)]
pub struct FileConfig {
    pub output_lang: Option<String>,
    pub stt: Option<FileSelect>,
    pub summary: Option<FileSelect>,
    /// Provider tables in name order, each name once.
    pub providers: Option<Vec<FileProviderEntry>>,
    pub chunking: Option<FileChunking>,
    pub network: Option<FileNetwork>,
}

/// The profile a new name starts from: OpenAI transport, nothing set, the
/// default thread count.
pub open spec fn blank_profile() -> Provider {
    Provider {
        kind: Transport::OpenAi,
        base_url: None,
        api_key_env: None,
        stt_model: None,
        llm_model: None,
        model_path: None,
        threads: DEFAULT_LOCAL_THREADS,
    }
}

/// A path with a leading `~/` resolved against the home directory, when one
/// is known.
pub open spec fn expanded_path(p: Seq<char>, home: Option<String>) -> Seq<char> {
    match home {
        Some(h) if starts_with(p, "~/"@) => joined_path(h@, p.subrange(2, p.len() as int)),
        _ => p,
    }
}

/// `q` is profile `base` (or a blank one) with the file table `fp` laid over
/// it: every setting the table gives replaces the profile's, a model path with
/// its `~/` resolved.
pub open spec fn overlaid(q: Provider, base: Option<Provider>, fp: FileProvider, home: Option<String>) -> bool {
    let b = or_keep(base, blank_profile());
    &&& q.kind == or_keep(fp.kind, b.kind)
    &&& q.base_url == (if fp.base_url is Some { fp.base_url } else { b.base_url })
    &&& q.api_key_env == (if fp.api_key_env is Some { fp.api_key_env } else { b.api_key_env })
    &&& q.stt_model == (if fp.stt_model is Some { fp.stt_model } else { b.stt_model })
    &&& q.llm_model == (if fp.llm_model is Some { fp.llm_model } else { b.llm_model })
    &&& match fp.model_path {
        Some(mp) => q.model_path matches Some(r) && r@ == expanded_path(mp@, home),
        None => q.model_path == b.model_path,
    }
    &&& q.threads == or_keep(fp.threads, b.threads)
}

/// The file table for provider `name`, if the file has one.
pub open spec fn file_profile(entries: Seq<FileProviderEntry>, name: Seq<char>) -> Option<FileProvider>
    decreases entries.len(),
{
    if entries.len() == 0 {
        None
    } else if entries.last().name@ == name {
        Some(entries.last().profile)
    } else {
        file_profile(entries.drop_last(), name)
    }
}

impl FileConfig {
    /// Provider tables are in strictly increasing name order (as a TOML table
    /// read into a `BTreeMap` yields them).
    pub open spec fn wf(&self) -> bool {
        self.providers matches Some(v) ==> forall|i: int, j: int| 0 <= i < j < v@.len()
            ==> name_lt(#[trigger] v@[i].name@, #[trigger] v@[j].name@)
    }

    /// The file's provider tables.
    pub open spec fn provider_tables(&self) -> Seq<FileProviderEntry> {
        match self.providers {
            Some(v) => v@,
            None => seq![],
        }
    }

    /// `new` is `old` with this file laid over it, `home` resolving `~/` in
    /// model paths: each setting the file gives replaces the old one; each
    /// provider table is laid over the profile of that name (or a blank one,
    /// for a new name); profiles the file does not name are kept.
    pub open spec fn applied(&self, old: Config, new: Config, home: Option<String>) -> bool {
        let stt_sel = self.stt;
        let sum_sel = self.summary;
        &&& new.providers.wf()
        &&& new.output_lang == or_keep(self.output_lang, old.output_lang)
        &&& new.stt_provider == (match stt_sel { Some(sel) => or_keep(sel.provider, old.stt_provider), None => old.stt_provider })
        &&& new.stt_model_override == (match stt_sel {
            Some(sel) if sel.model is Some => sel.model,
            _ => old.stt_model_override,
        })
        &&& new.summary_provider == (match sum_sel { Some(sel) => or_keep(sel.provider, old.summary_provider), None => old.summary_provider })
        &&& new.summary_model_override == (match sum_sel {
            Some(sel) if sel.model is Some => sel.model,
            _ => old.summary_model_override,
        })
        &&& forall|n: Seq<char>| #![trigger new.providers.lookup(n)]
            match file_profile(self.provider_tables(), n) {
                Some(fp) => new.providers.lookup(n) matches Some(q) && overlaid(q, old.providers.lookup(n), fp, home),
                None => new.providers.lookup(n) == old.providers.lookup(n),
            }
        &&& new.chunk_threshold_bytes == (match self.chunking { Some(c) => or_keep(c.threshold_bytes, old.chunk_threshold_bytes), None => old.chunk_threshold_bytes })
        &&& new.chunk_overlap_secs == (match self.chunking { Some(c) => or_keep(c.overlap_secs, old.chunk_overlap_secs), None => old.chunk_overlap_secs })
        &&& new.backoff_base_ms == (match self.network { Some(n) => or_keep(n.backoff_base_ms, old.backoff_base_ms), None => old.backoff_base_ms })
    }
}

/// Resolves a leading `~/` of `p` against `home`.
pub fn expand_tilde_with(p: &str, home: &Option<String>) -> (r: String)
    ensures
        r@ == expanded_path(p@, *home),
{
    let cs = chars_of(p);
    let prefix = chars_of("~/");
    if starts_with_chars(&cs, &prefix) {
        match home {
            Some(h) => {
                proof { reveal_strlit("~/"); }
                let rest = string_of(&skip_chars(&cs, 2));
                return path_join(h.as_str(), rest.as_str());
            },
            None => {},
        }
    }
    string_of(&cs)
}

/// Resolves a leading `~/` of `p` against the home directory, if one is found.
pub fn expand_tilde(p: &str) -> (r: String)
    ensures
        exists|home: Option<String>| r@ == expanded_path(p@, home),
{
    let home = home_dir();
    expand_tilde_with(p, &home)
}

proof fn lemma_file_profile_absent(es: Seq<FileProviderEntry>, n: Seq<char>)
    requires
        forall|k: int| 0 <= k < es.len() ==> es[k].name@ != n,
    ensures
        file_profile(es, n) is None,
    decreases es.len(),
{
    if es.len() > 0 {
        assert(es.last() == es[es.len() - 1]);
        let t = es.drop_last();
        assert forall|k: int| 0 <= k < t.len() implies t[k].name@ != n by {
            assert(t[k] == es[k]);
        }
        lemma_file_profile_absent(t, n);
    }
}

/// A blank profile (see `blank_profile`).
fn blank() -> (r: Provider)
    ensures
        r == blank_profile(),
{
    Provider {
        kind: Transport::OpenAi,
        base_url: None,
        api_key_env: None,
        stt_model: None,
        llm_model: None,
        model_path: None,
        threads: DEFAULT_LOCAL_THREADS,
    }
}

/// `base` with the file table `fp` laid over it.
fn overlay(base: Provider, fp: &FileProvider, home: &Option<String>) -> (q: Provider)
    ensures
        overlaid(q, Some(base), *fp, *home),
{
    let mut q = base;
    match fp.kind {
        Some(k) => { q.kind = k; },
        None => {},
    }
    if fp.base_url.is_some() {
        q.base_url = copy_opt(&fp.base_url);
    }
    if fp.api_key_env.is_some() {
        q.api_key_env = copy_opt(&fp.api_key_env);
    }
    if fp.stt_model.is_some() {
        q.stt_model = copy_opt(&fp.stt_model);
    }
    if fp.llm_model.is_some() {
        q.llm_model = copy_opt(&fp.llm_model);
    }
    match &fp.model_path {
        Some(mp) => { q.model_path = Some(expand_tilde_with(mp.as_str(), home)); },
        None => {},
    }
    match fp.threads {
        Some(t) => { q.threads = t; },
        None => {},
    }
    q
}

impl FileConfig {
    /// Lays this file over `cfg`, resolving `~/` in model paths against
    /// `home`.
    pub fn apply_to_with_home(self, cfg: &mut Config, home: &Option<String>)
        requires
            self.wf(),
            old(cfg).providers.wf(),
        ensures
            self.applied(*old(cfg), *final(cfg), *home),
    {
        let ghost old_cfg = *cfg;
        let ghost file = self;
        match &self.output_lang {
            Some(v) => { cfg.output_lang = v.clone(); },
            None => {},
        }
        match &self.stt {
            Some(sel) => {
                match &sel.provider {
                    Some(p) => { cfg.stt_provider = p.clone(); },
                    None => {},
                }
                match &sel.model {
                    Some(m) => { cfg.stt_model_override = Some(m.clone()); },
                    None => {},
                }
            },
            None => {},
        }
        match &self.summary {
            Some(sel) => {
                match &sel.provider {
                    Some(p) => { cfg.summary_provider = p.clone(); },
                    None => {},
                }
                match &sel.model {
                    Some(m) => { cfg.summary_model_override = Some(m.clone()); },
                    None => {},
                }
            },
            None => {},
        }
        match &self.providers {
            Some(tables) => {
                let ghost ts = tables@;
                let ghost before = *cfg;
                let mut i: usize = 0;
                while i < tables.len()
                    invariant
                        i <= tables.len(),
                        ts == tables@,
                        ts == file.provider_tables(),
                        forall|a: int, b: int| 0 <= a < b < ts.len() ==> name_lt(#[trigger] ts[a].name@, #[trigger] ts[b].name@),
                        cfg.providers.wf(),
                        forall|n: Seq<char>| #![trigger cfg.providers.lookup(n)]
                            match file_profile(ts.take(i as int), n) {
                                Some(fp) => cfg.providers.lookup(n) matches Some(q) && overlaid(q, old_cfg.providers.lookup(n), fp, *home),
                                None => cfg.providers.lookup(n) == old_cfg.providers.lookup(n),
                            },
                        cfg.output_lang == before.output_lang,
                        cfg.stt_provider == before.stt_provider,
                        cfg.stt_model_override == before.stt_model_override,
                        cfg.summary_provider == before.summary_provider,
                        cfg.summary_model_override == before.summary_model_override,
                        cfg.chunk_threshold_bytes == before.chunk_threshold_bytes,
                        cfg.chunk_overlap_secs == before.chunk_overlap_secs,
                        cfg.backoff_base_ms == before.backoff_base_ms,
                    decreases tables.len() - i,
                {
                    let e = &tables[i];
                    let ghost m = e.name@;
                    proof {
                        lemma_name_lt_irreflexive(m);
                        assert forall|k: int| 0 <= k < ts.take(i as int).len() implies ts.take(i as int)[k].name@ != m by {
                            assert(name_lt(ts[k].name@, ts[i as int].name@));
                        }
                        lemma_file_profile_absent(ts.take(i as int), m);
                    }
                    let base = match cfg.providers.get(e.name.as_str()) {
                        Some(p) => p.copy(),
                        None => blank(),
                    };
                    let q = overlay(base, &e.profile, home);
                    cfg.providers.insert(e.name.as_str(), q);
                    proof {
                        assert(ts.take(i + 1).drop_last() == ts.take(i as int));
                        assert(ts.take(i + 1).last() == ts[i as int]);
                    }
                    i = i + 1;
                }
                assert(ts.take(tables.len() as int) == ts);
            },
            None => {
                proof {
                    assert forall|n: Seq<char>| #![trigger cfg.providers.lookup(n)]
                        file_profile(file.provider_tables(), n) is None by {
                        assert(file.provider_tables().len() == 0);
                    }
                }
            },
        }
        match &self.chunking {
            Some(c) => {
                match c.threshold_bytes {
                    Some(v) => { cfg.chunk_threshold_bytes = v; },
                    None => {},
                }
                match c.overlap_secs {
                    Some(v) => { cfg.chunk_overlap_secs = v; },
                    None => {},
                }
            },
            None => {},
        }
        match &self.network {
            Some(n) => {
                match n.backoff_base_ms {
                    Some(v) => { cfg.backoff_base_ms = v; },
                    None => {},
                }
            },
            None => {},
        }
    }

    /// Lays this file over `cfg`, resolving `~/` in model paths against the
    /// home directory, if one is found.
    pub fn apply_to(self, cfg: &mut Config)
        requires
            self.wf(),
            old(cfg).providers.wf(),
        ensures
            exists|home: Option<String>| self.applied(*old(cfg), *final(cfg), home),
    {
        let home = home_dir();
        self.apply_to_with_home(cfg, &home);
    }
}

/// The hex digit for `d` (0..=15), lowercase.
pub open spec fn hex_char(d: int) -> char {
    if d < 10 { ((48 + d) as u8) as char } else { ((87 + d) as u8) as char }
}

/// A character as written inside a TOML basic string: a quote, a backslash,
/// a line feed or a carriage return as its escape, any other control
/// character as `\u00XX`, everything else (a tab too) as it is.
pub open spec fn toml_escape_char(c: char) -> Seq<char> {
    let u = c as u32;
    if c == '"' {
        seq!['\\', '"']
    } else if c == '\\' {
        seq!['\\', '\\']
    } else if c == '\n' {
        seq!['\\', 'n']
    } else if c == '\r' {
        seq!['\\', 'r']
    } else if c != '\t' && (u < 0x20 || u == 0x7f) {
        seq!['\\', 'u', '0', '0', hex_char((u / 16) as int), hex_char((u % 16) as int)]
    } else {
        seq![c]
    }
}

/// `s` with each character escaped for a TOML basic string.
pub open spec fn toml_escaped(s: Seq<char>) -> Seq<char>
    decreases s.len(),
{
    if s.len() == 0 {
        seq![]
    } else {
        toml_escaped(s.drop_last()) + toml_escape_char(s.last())
    }
}

/// `key = "value"` and a line feed, the value escaped for a TOML basic
/// string.
pub open spec fn quoted_line(key: Seq<char>, v: Seq<char>) -> Seq<char> {
    key + " = \""@ + toml_escaped(v) + "\"\n"@
}

fn push_escaped_char(out: &mut Vec<char>, c: char)
    ensures
        final(out)@ == old(out)@ + toml_escape_char(c),
{
    let u = c as u32;
    if c == '"' {
        out.push('\\');
        out.push('"');
    } else if c == '\\' {
        out.push('\\');
        out.push('\\');
    } else if c == '\n' {
        out.push('\\');
        out.push('n');
    } else if c == '\r' {
        out.push('\\');
        out.push('r');
    } else if c != '\t' && (u < 0x20 || u == 0x7f) {
        let hi = (u / 16) as u8;
        let lo = (u % 16) as u8;
        out.push('\\');
        out.push('u');
        out.push('0');
        out.push('0');
        out.push(if hi < 10 { (48 + hi) as char } else { (87 + hi) as char });
        out.push(if lo < 10 { (48 + lo) as char } else { (87 + lo) as char });
    } else {
        out.push(c);
    }
    assert(final(out)@ =~= old(out)@ + toml_escape_char(c));
}

fn push_escaped(out: &mut Vec<char>, v: &str)
    ensures
        final(out)@ == old(out)@ + toml_escaped(v@),
{
    let cs = chars_of(v);
    let ghost start = out@;
    let mut i: usize = 0;
    while i < cs.len()
        invariant
            i <= cs.len(),
            cs@ == v@,
            out@ == start + toml_escaped(cs@.take(i as int)),
        decreases cs.len() - i,
    {
        push_escaped_char(out, cs[i]);
        assert(cs@.take(i + 1).drop_last() == cs@.take(i as int));
        assert(cs@.take(i + 1).last() == cs@[i as int]);
        i = i + 1;
    }
    assert(cs@.take(cs.len() as int) == cs@);
}

/// The line for an optional setting, or nothing.
pub open spec fn opt_line(key: Seq<char>, o: Option<String>) -> Seq<char> {
    match o {
        Some(v) => quoted_line(key, v@),
        None => seq![],
    }
}

/// The file-format name of a transport.
pub open spec fn kind_name(k: Transport) -> Seq<char> {
    match k {
        Transport::OpenAi => "openai"@,
        Transport::WhisperCpp => "whisper-cpp"@,
    }
}

/// A provider's table in the config file.
pub open spec fn provider_toml(e: ProviderEntry) -> Seq<char> {
    let p = e.provider;
    "[providers."@ + e.name@ + "]\n"@
        + quoted_line("kind"@, kind_name(p.kind))
        + opt_line("base_url"@, p.base_url)
        + opt_line("api_key_env"@, p.api_key_env)
        + opt_line("stt_model"@, p.stt_model)
        + opt_line("llm_model"@, p.llm_model)
        + opt_line("model_path"@, p.model_path)
        + "threads = "@ + dec(p.threads as nat) + "\n\n"@
}

/// The provider tables, in registry order.
pub open spec fn providers_toml(es: Seq<ProviderEntry>) -> Seq<char>
    decreases es.len(),
{
    if es.len() == 0 {
        seq![]
    } else {
        providers_toml(es.drop_last()) + provider_toml(es.last())
    }
}

/// The config file for `c`.
pub open spec fn spec_to_toml(c: Config) -> Seq<char> {
    quoted_line("output_lang"@, c.output_lang@) + "\n"@
        + "[stt]\n"@ + quoted_line("provider"@, c.stt_provider@) + opt_line("model"@, c.stt_model_override) + "\n"@
        + "[summary]\n"@ + quoted_line("provider"@, c.summary_provider@) + opt_line("model"@, c.summary_model_override) + "\n"@
        + providers_toml(c.providers.entries@)
        + "[chunking]\nthreshold_bytes = "@ + dec(c.chunk_threshold_bytes as nat)
        + "\noverlap_secs = "@ + dec(c.chunk_overlap_secs as nat) + "\n\n"@
        + "[network]\nbackoff_base_ms = "@ + dec(c.backoff_base_ms as nat) + "\n"@
}

fn push_quoted_line(out: &mut Vec<char>, key: &str, v: &str)
    ensures
        final(out)@ == old(out)@ + quoted_line(key@, v@),
{
    append_str(out, key);
    append_str(out, " = \"");
    push_escaped(out, v);
    append_str(out, "\"\n");
    assert(final(out)@ =~= old(out)@ + quoted_line(key@, v@)) by {
        assert(old(out)@ + key@ + " = \""@ + toml_escaped(v@) + "\"\n"@ == old(out)@ + quoted_line(key@, v@));
    }
}

fn push_opt_line(out: &mut Vec<char>, key: &str, o: &Option<String>)
    ensures
        final(out)@ == old(out)@ + opt_line(key@, *o),
{
    match o {
        Some(v) => push_quoted_line(out, key, v.as_str()),
        None => {
            assert(old(out)@ + opt_line(key@, *o) == old(out)@);
        },
    }
}

fn push_provider_toml(out: &mut Vec<char>, e: &ProviderEntry)
    ensures
        final(out)@ == old(out)@ + provider_toml(*e),
{
    let ghost start = old(out)@;
    let p = &e.provider;
    append_str(out, "[providers.");
    append_str(out, e.name.as_str());
    append_str(out, "]\n");
    let kind = match p.kind {
        Transport::OpenAi => "openai",
        Transport::WhisperCpp => "whisper-cpp",
    };
    push_quoted_line(out, "kind", kind);
    push_opt_line(out, "base_url", &p.base_url);
    push_opt_line(out, "api_key_env", &p.api_key_env);
    push_opt_line(out, "stt_model", &p.stt_model);
    push_opt_line(out, "llm_model", &p.llm_model);
    push_opt_line(out, "model_path", &p.model_path);
    append_str(out, "threads = ");
    let t = dec_of(p.threads as u64);
    append_chars(out, &t);
    append_str(out, "\n\n");
    assert(out@ =~= start + provider_toml(*e));
}

impl Config {
    /// Serializes the configuration to the config-file format, string values
    /// escaped.
    pub fn to_toml(&self) -> (r: String)
        ensures
            r@ == spec_to_toml(*self),
    {
        let mut s: Vec<char> = Vec::new();
        push_quoted_line(&mut s, "output_lang", self.output_lang.as_str());
        append_str(&mut s, "\n");
        append_str(&mut s, "[stt]\n");
        push_quoted_line(&mut s, "provider", self.stt_provider.as_str());
        push_opt_line(&mut s, "model", &self.stt_model_override);
        append_str(&mut s, "\n");
        append_str(&mut s, "[summary]\n");
        push_quoted_line(&mut s, "provider", self.summary_provider.as_str());
        push_opt_line(&mut s, "model", &self.summary_model_override);
        append_str(&mut s, "\n");
        let ghost head = s@;
        let es = &self.providers.entries;
        let mut i: usize = 0;
        while i < es.len()
            invariant
                i <= es.len(),
                s@ == head + providers_toml(es@.take(i as int)),
            decreases es.len() - i,
        {
            push_provider_toml(&mut s, &es[i]);
            assert(es@.take(i + 1).drop_last() == es@.take(i as int));
            assert(es@.take(i + 1).last() == es@[i as int]);
            i = i + 1;
        }
        assert(es@.take(es.len() as int) == es@);
        append_str(&mut s, "[chunking]\nthreshold_bytes = ");
        let a = dec_of(self.chunk_threshold_bytes);
        append_chars(&mut s, &a);
        append_str(&mut s, "\noverlap_secs = ");
        let b = dec_of(self.chunk_overlap_secs as u64);
        append_chars(&mut s, &b);
        append_str(&mut s, "\n\n");
        append_str(&mut s, "[network]\nbackoff_base_ms = ");
        let c = dec_of(self.backoff_base_ms);
        append_chars(&mut s, &c);
        append_str(&mut s, "\n");
        assert(s@ =~= spec_to_toml(*self));
        string_of(&s)
    }
}

/// How a transport prints under `{:?}`.
pub open spec fn kind_debug(k: Transport) -> Seq<char> {
    match k {
        Transport::OpenAi => "OpenAi"@,
        Transport::WhisperCpp => "WhisperCpp"@,
    }
}

/// The key part of a provider's summary line: the variable named and whether
/// it is set, or that there is no key.
pub open spec fn key_shown(p: Provider, key_set: bool) -> Seq<char> {
    match p.api_key_env {
        Some(env) => "key<"@ + env@ + ">="@ + (if key_set { "ayarlı"@ } else { "yok"@ }),
        None => "key=yok"@,
    }
}

/// One provider's line in the summary.
pub open spec fn provider_line(e: ProviderEntry, key_set: bool) -> Seq<char> {
    "  "@ + e.name@ + ": kind="@ + kind_debug(e.provider.kind) + " base_url="@
        + (match e.provider.base_url { Some(u) => u@, None => "-"@ }) + " "@ + key_shown(e.provider, key_set) + "\n"@
}

/// The provider lines; `keys_set[i]` tells whether entry `i`'s key variable is
/// set (missing means not set).
pub open spec fn provider_lines(es: Seq<ProviderEntry>, keys_set: Seq<bool>) -> Seq<char>
    decreases es.len(),
{
    if es.len() == 0 {
        seq![]
    } else {
        let i = es.len() - 1;
        provider_lines(es.drop_last(), keys_set) + provider_line(es.last(), i < keys_set.len() && keys_set[i])
    }
}

/// The redacted, human-readable view of a configuration.
pub open spec fn spec_describe(c: Config, keys_set: Seq<bool>) -> Seq<char> {
    "output_lang = "@ + c.output_lang@ + "\n[stt]     provider = "@ + c.stt_provider@ + "  model = "@ + c.spec_stt_model()
        + "\n[summary] provider = "@ + c.summary_provider@ + "  model = "@ + c.spec_summary_model() + "\n"@
        + "providers:\n"@
        + provider_lines(c.providers.entries@, keys_set)
        + "[chunking] threshold_bytes="@ + dec(c.chunk_threshold_bytes as nat) + " overlap_secs="@ + dec(c.chunk_overlap_secs as nat)
        + "\n[network] backoff_base_ms="@ + dec(c.backoff_base_ms as nat)
}

fn key_text(p: &Provider, key_set: bool) -> (r: Vec<char>)
    ensures
        r@ == key_shown(*p, key_set),
{
    let mut out: Vec<char> = Vec::new();
    match &p.api_key_env {
        Some(env) => {
            append_str(&mut out, "key<");
            append_str(&mut out, env.as_str());
            append_str(&mut out, ">=");
            if key_set {
                append_str(&mut out, "ayarlı");
            } else {
                append_str(&mut out, "yok");
            }
            assert(out@ =~= key_shown(*p, key_set));
        },
        None => append_str(&mut out, "key=yok"),
    }
    out
}

fn push_provider_line(out: &mut Vec<char>, e: &ProviderEntry, key_set: bool)
    ensures
        final(out)@ == old(out)@ + provider_line(*e, key_set),
{
    let ghost start = old(out)@;
    let kind = match e.provider.kind {
        Transport::OpenAi => "OpenAi",
        Transport::WhisperCpp => "WhisperCpp",
    };
    let url: &str = match &e.provider.base_url {
        Some(u) => u.as_str(),
        None => "-",
    };
    let key = key_text(&e.provider, key_set);
    append_str(out, "  ");
    append_str(out, e.name.as_str());
    append_str(out, ": kind=");
    append_str(out, kind);
    append_str(out, " base_url=");
    append_str(out, url);
    append_str(out, " ");
    append_chars(out, &key);
    append_str(out, "\n");
    assert(out@ =~= start + provider_line(*e, key_set));
}

impl Config {
    /// Redacted, human-readable view of the configuration (no secret values);
    /// `keys_set[i]` tells whether the key variable of the `i`-th profile is
    /// set to something non-empty.
    pub fn describe(&self, keys_set: &Vec<bool>) -> (r: String)
        ensures
            r@ == spec_describe(*self, keys_set@),
    {
        let mut s: Vec<char> = Vec::new();
        append_str(&mut s, "output_lang = ");
        append_str(&mut s, self.output_lang.as_str());
        append_str(&mut s, "\n[stt]     provider = ");
        append_str(&mut s, self.stt_provider.as_str());
        append_str(&mut s, "  model = ");
        let sm = self.effective_stt_model();
        append_str(&mut s, sm.as_str());
        append_str(&mut s, "\n[summary] provider = ");
        append_str(&mut s, self.summary_provider.as_str());
        append_str(&mut s, "  model = ");
        let lm = self.effective_summary_model();
        append_str(&mut s, lm.as_str());
        append_str(&mut s, "\n");
        append_str(&mut s, "providers:\n");
        let ghost head = s@;
        let es = &self.providers.entries;
        let mut i: usize = 0;
        while i < es.len()
            invariant
                i <= es.len(),
                s@ == head + provider_lines(es@.take(i as int), keys_set@),
            decreases es.len() - i,
        {
            let set = i < keys_set.len() && keys_set[i];
            push_provider_line(&mut s, &es[i], set);
            assert(es@.take(i + 1).drop_last() == es@.take(i as int));
            assert(es@.take(i + 1).last() == es@[i as int]);
            assert(es@.take(i + 1).len() - 1 == i);
            i = i + 1;
        }
        assert(es@.take(es.len() as int) == es@);
        append_str(&mut s, "[chunking] threshold_bytes=");
        let a = dec_of(self.chunk_threshold_bytes);
        append_chars(&mut s, &a);
        append_str(&mut s, " overlap_secs=");
        let b = dec_of(self.chunk_overlap_secs as u64);
        append_chars(&mut s, &b);
        append_str(&mut s, "\n[network] backoff_base_ms=");
        let c = dec_of(self.backoff_base_ms);
        append_chars(&mut s, &c);
        assert(s@ =~= spec_describe(*self, keys_set@));
        string_of(&s)
    }
}

impl ConfigError {
    /// The message shown for this error.
    pub open spec fn spec_message(&self) -> Seq<char> {
        match self {
            ConfigError::UnknownSttProvider(n) =>
                "Bilinmeyen STT provider'ı: '"@ + n@ + "'. config'de [providers."@ + n@ + "] tanımla."@,
            ConfigError::UnknownSummaryProvider(n) =>
                "Bilinmeyen özet provider'ı: '"@ + n@ + "'. config'de [providers."@ + n@ + "] tanımla."@,
            ConfigError::WhisperCppStt =>
                "In-process whisper.cpp STT v1'de gelecek. NPU için provider = \"fastflowlm\", bulut için \"groq\" kullan."@,
            ConfigError::WhisperCppSummary =>
                "whisper-cpp bir özet/LLM transport'u değil. summary.provider = \"groq\" veya \"ollama\" kullan."@,
        }
    }

    /// The message shown for this error.
    pub fn message(&self) -> (r: String)
        ensures
            r@ == self.spec_message(),
    {
        let mut s: Vec<char> = Vec::new();
        match self {
            ConfigError::UnknownSttProvider(n) => {
                append_str(&mut s, "Bilinmeyen STT provider'ı: '");
                append_str(&mut s, n.as_str());
                append_str(&mut s, "'. config'de [providers.");
                append_str(&mut s, n.as_str());
                append_str(&mut s, "] tanımla.");
            },
            ConfigError::UnknownSummaryProvider(n) => {
                append_str(&mut s, "Bilinmeyen özet provider'ı: '");
                append_str(&mut s, n.as_str());
                append_str(&mut s, "'. config'de [providers.");
                append_str(&mut s, n.as_str());
                append_str(&mut s, "] tanımla.");
            },
            ConfigError::WhisperCppStt => {
                append_str(&mut s, "In-process whisper.cpp STT v1'de gelecek. NPU için provider = \"fastflowlm\", bulut için \"groq\" kullan.");
            },
            ConfigError::WhisperCppSummary => {
                append_str(&mut s, "whisper-cpp bir özet/LLM transport'u değil. summary.provider = \"groq\" veya \"ollama\" kullan.");
            },
        }
        assert(s@ =~= self.spec_message());
        string_of(&s)
    }
}


/// The configuration file under the config directory `base`:
/// `<base>/tutanak/config.toml`.
pub open spec fn spec_config_path_in(base: Seq<char>) -> Seq<char> {
    joined_path(joined_path(base, "tutanak"@), "config.toml"@)
}

pub fn config_path_in(base: &str) -> (r: String)
    ensures
        r@ == spec_config_path_in(base@),
{
    let dir = path_join(base, "tutanak");
    path_join(&dir, "config.toml")
}

/// The configuration file: `$TUTANAK_CONFIG` when set (`env_value` is what
/// reading it gave), else `config.toml` in the user's config directory; none
/// when neither exists.
pub fn config_path(env_value: Option<String>) -> (r: Option<String>)
    ensures
        env_value matches Some(p) ==> r == Some(p),
        (env_value is None && r is Some) ==> exists|base: Seq<char>| r->0@ == spec_config_path_in(base),
{
    match env_value {
        Some(p) => Some(p),
        None => match config_dir() {
            None => None,
            Some(base) => {
                let p = config_path_in(&base);
                assert(p@ == spec_config_path_in(base@));
                Some(p)
            },
        },
    }
}


/// The settings layer in order — the defaults, then the config file, then
/// the environment: a setting the environment gives wins over the file's,
/// and the file's wins over the one underneath; profiles other than `groq`
/// are as the file left them.
pub proof fn lemma_env_overrides_file(base: Config, file: FileConfig, env: EnvOverrides, mid: Config, fin: Config, home: Option<String>)
    requires
        file.applied(base, mid, home),
        env.applied_to(mid, fin),
    ensures
        fin.output_lang == or_keep(env.output_lang, or_keep(file.output_lang, base.output_lang)),
        fin.stt_provider == or_keep(env.stt_provider, match file.stt {
            Some(sel) => or_keep(sel.provider, base.stt_provider),
            None => base.stt_provider,
        }),
        fin.summary_provider == or_keep(env.summary_provider, match file.summary {
            Some(sel) => or_keep(sel.provider, base.summary_provider),
            None => base.summary_provider,
        }),
        env.stt_model is Some ==> fin.stt_model_override == env.stt_model,
        env.llm_model is Some ==> fin.summary_model_override == env.llm_model,
        fin.chunk_threshold_bytes == parsed_or(env.chunk_bytes, u64::MAX as nat, match file.chunking {
            Some(c) => or_keep(c.threshold_bytes, base.chunk_threshold_bytes),
            None => base.chunk_threshold_bytes,
        } as nat),
        fin.backoff_base_ms == parsed_or(env.backoff_ms, u64::MAX as nat, match file.network {
            Some(n) => or_keep(n.backoff_base_ms, base.backoff_base_ms),
            None => base.backoff_base_ms,
        } as nat),
        forall|n: Seq<char>| n != "groq"@ ==> #[trigger] fin.providers.lookup(n) == mid.providers.lookup(n),
{
}


/// The file table a profile is saved as: every field written, the kind and
/// thread count always.
pub open spec fn saved_profile(p: Provider) -> FileProvider {
    FileProvider {
        kind: Some(p.kind),
        base_url: p.base_url,
        api_key_env: p.api_key_env,
        stt_model: p.stt_model,
        llm_model: p.llm_model,
        model_path: p.model_path,
        threads: Some(p.threads),
    }
}

/// `f` is the file `c` is saved as (the tables `to_toml` writes): every
/// setting of `c`, and one table per profile, in registry order.
pub open spec fn describes(f: FileConfig, c: Config) -> bool {
    &&& f.output_lang == Some(c.output_lang)
    &&& f.stt matches Some(sel) && sel.provider == Some(c.stt_provider) && sel.model == c.stt_model_override
    &&& f.summary matches Some(sel) && sel.provider == Some(c.summary_provider) && sel.model == c.summary_model_override
    &&& f.providers matches Some(v) && v@.len() == c.providers.entries@.len()
        && forall|i: int| 0 <= i < v@.len() ==> (#[trigger] v@[i]).name@ == c.providers.entries@[i].name@
            && v@[i].profile == saved_profile(c.providers.entries@[i].provider)
    &&& f.chunking matches Some(ch) && ch.threshold_bytes == Some(c.chunk_threshold_bytes) && ch.overlap_secs == Some(c.chunk_overlap_secs)
    &&& f.network matches Some(n) && n.backoff_base_ms == Some(c.backoff_base_ms)
}

proof fn lemma_file_profile_at(fe: Seq<FileProviderEntry>, name: Seq<char>, i: int)
    requires
        0 <= i < fe.len(),
        fe[i].name@ == name,
        forall|k: int| 0 <= k < fe.len() && k != i ==> fe[k].name@ != name,
    ensures
        file_profile(fe, name) == Some(fe[i].profile),
    decreases fe.len(),
{
    if i != fe.len() - 1 {
        let t = fe.drop_last();
        assert(fe.last().name@ != name) by {
            assert(fe.last() == fe[fe.len() - 1]);
        }
        assert forall|k: int| 0 <= k < t.len() && k != i implies t[k].name@ != name by {
            assert(t[k] == fe[k]);
        }
        lemma_file_profile_at(t, name, i);
        assert(t[i] == fe[i]);
    } else {
        assert(fe.last() == fe[i]);
    }
}

proof fn lemma_file_profile_none(fe: Seq<FileProviderEntry>, name: Seq<char>)
    requires
        forall|k: int| 0 <= k < fe.len() ==> fe[k].name@ != name,
    ensures
        file_profile(fe, name) is None,
    decreases fe.len(),
{
    if fe.len() > 0 {
        let t = fe.drop_last();
        assert(fe.last() == fe[fe.len() - 1]);
        assert forall|k: int| 0 <= k < t.len() implies t[k].name@ != name by {
            assert(t[k] == fe[k]);
        }
        lemma_file_profile_none(t, name);
    }
}

/// `q` is profile `p` loaded back: same kind and thread count, and each
/// field `p` sets (a model path with its `~/` resolved against `home`).
pub open spec fn profile_restored(q: Option<Provider>, p: Provider, home: Option<String>) -> bool {
    &&& q is Some
    &&& q.unwrap().kind == p.kind
    &&& q.unwrap().threads == p.threads
    &&& (p.base_url is Some ==> q.unwrap().base_url == p.base_url)
    &&& (p.api_key_env is Some ==> q.unwrap().api_key_env == p.api_key_env)
    &&& (p.stt_model is Some ==> q.unwrap().stt_model == p.stt_model)
    &&& (p.llm_model is Some ==> q.unwrap().llm_model == p.llm_model)
    &&& (p.model_path matches Some(mp) ==> q.unwrap().model_path matches Some(r) && r@ == expanded_path(mp@, home))
}

/// Saving and loading keeps the configuration: the file a configuration is
/// saved as, laid over the defaults, gives back every setting, and every
/// profile with its kind, thread count and each field it sets (a model path
/// with its `~/` resolved); default profiles it does not hold stay as they
/// were.
pub proof fn lemma_saved_config_restores(c: Config, f: FileConfig, base: Config, new: Config, home: Option<String>)
    requires
        c.providers.wf(),
        describes(f, c),
        is_default_config(base),
        f.applied(base, new, home),
    ensures
        new.output_lang == c.output_lang,
        new.stt_provider == c.stt_provider,
        new.stt_model_override == c.stt_model_override,
        new.summary_provider == c.summary_provider,
        new.summary_model_override == c.summary_model_override,
        new.chunk_threshold_bytes == c.chunk_threshold_bytes,
        new.chunk_overlap_secs == c.chunk_overlap_secs,
        new.backoff_base_ms == c.backoff_base_ms,
        forall|n: Seq<char>| #![trigger new.providers.lookup(n)] c.providers.lookup(n) is Some
            ==> profile_restored(new.providers.lookup(n), c.providers.lookup(n).unwrap(), home),
        forall|n: Seq<char>| #![trigger new.providers.lookup(n)] c.providers.lookup(n) is None ==> new.providers.lookup(n) == base.providers.lookup(n),
{
    let es = c.providers.entries@;
    let fe = f.provider_tables();
    assert forall|n: Seq<char>| #![trigger new.providers.lookup(n)] c.providers.lookup(n) is Some
        implies profile_restored(new.providers.lookup(n), c.providers.lookup(n).unwrap(), home) by {
        let p = c.providers.lookup(n).unwrap();
        lemma_find_sorted(es, n);
        let i = choose|i: int| 0 <= i < es.len() && es[i].name@ == n && es[i].provider == p;
        assert(fe[i].name@ == es[i].name@);
        assert forall|k: int| 0 <= k < fe.len() && k != i implies fe[k].name@ != n by {
            assert(fe[k].name@ == es[k].name@);
            lemma_name_lt_irreflexive(n);
            if k < i {
                assert(name_lt(es[k].name@, es[i].name@));
            } else {
                assert(name_lt(es[i].name@, es[k].name@));
            }
        }
        lemma_file_profile_at(fe, n, i);
        assert(fe[i].profile == saved_profile(p));
    }
    assert forall|n: Seq<char>| #![trigger new.providers.lookup(n)] c.providers.lookup(n) is None implies new.providers.lookup(n) == base.providers.lookup(n) by {
        lemma_find_sorted(es, n);
        assert forall|k: int| 0 <= k < fe.len() implies fe[k].name@ != n by {
            assert(fe[k].name@ == es[k].name@);
        }
        lemma_file_profile_none(fe, n);
    }
}


/// The effective configuration: the defaults, then the config file when one
/// was read (model paths' `~/` resolved against `home`), then the
/// environment overrides.
pub fn layered(file: Option<FileConfig>, env: &EnvOverrides, home: &Option<String>) -> (r: Config)
    requires
        file matches Some(f) ==> f.wf(),
    ensures
        r.providers.wf(),
        exists|base: Config, mid: Config| {
            &&& #[trigger] is_default_config(base)
            &&& (match file {
                Some(f) => f.applied(base, mid, *home),
                None => mid == base,
            })
            &&& #[trigger] env.applied_to(mid, r)
        },
{
    let mut cfg = Config::default();
    let ghost base = cfg;
    match file {
        Some(f) => f.apply_to_with_home(&mut cfg, home),
        None => {},
    }
    let ghost mid = cfg;
    cfg.apply_env(env);
    assert(env.applied_to(mid, cfg));
    cfg
}


/// A profile that names a key variable is described as having its key set
/// exactly when it is: the description ends in `=ayarlı` when the key is
/// set and in `=yok` when it is not, so the two differ. A profile without a
/// key variable is described as having none, either way.
pub proof fn lemma_key_shown_tells_set(p: Provider)
    ensures
        p.api_key_env is Some ==> {
            let on = key_shown(p, true);
            let off = key_shown(p, false);
            &&& on.len() >= 7 && on.subrange(on.len() - 7, on.len() as int) == "=ayarlı"@
            &&& off.len() >= 4 && off.subrange(off.len() - 4, off.len() as int) == "=yok"@
            &&& on != off
        },
        p.api_key_env is None ==> key_shown(p, true) == "key=yok"@ && key_shown(p, false) == "key=yok"@,
{
    reveal_strlit("key<");
    reveal_strlit(">=");
    reveal_strlit("ayarlı");
    reveal_strlit("yok");
    reveal_strlit("=ayarlı");
    reveal_strlit("=yok");
    match p.api_key_env {
        Some(env) => {
            let on = key_shown(p, true);
            let off = key_shown(p, false);
            assert(on.subrange(on.len() - 7, on.len() as int) =~= "=ayarlı"@);
            assert(off.subrange(off.len() - 4, off.len() as int) =~= "=yok"@);
            assert(on.last() != off.last());
        },
        None => {},
    }
}

} // verus!
