use tutanak::config::{
    config_path_in, expand_tilde_with, Config, ConfigError, EnvOverrides, FileChunking, FileConfig,
    FileNetwork, FileProvider, FileProviderEntry, FileSelect, Provider, Transport, DEFAULT_LLM_MODEL,
    DEFAULT_STT_MODEL, TEMPLATE,
};
use tutanak::config::layered;

fn blank_file() -> FileConfig {
    FileConfig { output_lang: None, stt: None, summary: None, providers: None, chunking: None, network: None }
}

fn blank_profile() -> FileProvider {
    FileProvider {
        kind: None,
        base_url: None,
        api_key_env: None,
        stt_model: None,
        llm_model: None,
        model_path: None,
        threads: None,
    }
}

fn no_env() -> EnvOverrides {
    EnvOverrides {
        output_lang: None,
        stt_provider: None,
        stt_model: None,
        summary_provider: None,
        llm_model: None,
        groq_url: None,
        chunk_bytes: None,
        chunk_overlap_secs: None,
        backoff_ms: None,
    }
}

/// The file tables a TOML document holds, read through `toml::Value`.
fn file_from_toml(text: &str) -> FileConfig {
    let v: toml::Value = toml::from_str(text).expect("kendi ürettiğimiz TOML parse edilmeli");
    let t = v.as_table().unwrap();
    // Like the file schema, refuse keys it does not know.
    let only = |tbl: &toml::value::Table, keys: &[&str]| {
        for k in tbl.keys() {
            assert!(keys.contains(&k.as_str()), "unknown key {k}");
        }
    };
    only(t, &["output_lang", "stt", "summary", "providers", "chunking", "network"]);
    for sec in ["stt", "summary"] {
        if let Some(x) = t.get(sec).and_then(|x| x.as_table()) {
            only(x, &["provider", "model"]);
        }
    }
    if let Some(ps) = t.get("providers").and_then(|x| x.as_table()) {
        for p in ps.values() {
            only(
                p.as_table().unwrap(),
                &["kind", "base_url", "api_key_env", "stt_model", "llm_model", "model_path", "threads"],
            );
        }
    }
    if let Some(x) = t.get("chunking").and_then(|x| x.as_table()) {
        only(x, &["threshold_bytes", "overlap_secs"]);
    }
    if let Some(x) = t.get("network").and_then(|x| x.as_table()) {
        only(x, &["backoff_base_ms"]);
    }
    let s = |x: Option<&toml::Value>| x.and_then(|y| y.as_str()).map(|y| y.to_string());
    let select = |name: &str| {
        t.get(name).and_then(|x| x.as_table()).map(|x| FileSelect { provider: s(x.get("provider")), model: s(x.get("model")) })
    };
    let mut providers = Vec::new();
    if let Some(ps) = t.get("providers").and_then(|x| x.as_table()) {
        let mut names: Vec<&String> = ps.keys().collect();
        names.sort();
        for name in names {
            let p = ps[name].as_table().unwrap();
            let kind = match s(p.get("kind")).as_deref() {
                Some("openai") => Some(Transport::OpenAi),
                Some("whisper-cpp") => Some(Transport::WhisperCpp),
                _ => None,
            };
            providers.push(FileProviderEntry {
                name: name.clone(),
                profile: FileProvider {
                    kind,
                    base_url: s(p.get("base_url")),
                    api_key_env: s(p.get("api_key_env")),
                    stt_model: s(p.get("stt_model")),
                    llm_model: s(p.get("llm_model")),
                    model_path: s(p.get("model_path")),
                    threads: p.get("threads").and_then(|x| x.as_integer()).map(|x| x as u32),
                },
            });
        }
    }
    let chunking = t.get("chunking").and_then(|x| x.as_table()).map(|c| FileChunking {
        threshold_bytes: c.get("threshold_bytes").and_then(|x| x.as_integer()).map(|x| x as u64),
        overlap_secs: c.get("overlap_secs").and_then(|x| x.as_integer()).map(|x| x as u32),
    });
    let network = t.get("network").and_then(|x| x.as_table()).map(|c| FileNetwork {
        backoff_base_ms: c.get("backoff_base_ms").and_then(|x| x.as_integer()).map(|x| x as u64),
    });
    FileConfig {
        output_lang: s(t.get("output_lang")),
        stt: select("stt"),
        summary: select("summary"),
        providers: Some(providers),
        chunking,
        network,
    }
}

#[test]
fn defaults_have_groq_and_fastflowlm() {
    let c = Config::default();
    assert_eq!(c.stt_provider, "groq");
    assert_eq!(c.effective_stt_model(), DEFAULT_STT_MODEL);
    let flm = c.providers.get("fastflowlm").unwrap();
    assert_eq!(flm.kind, Transport::OpenAi);
    assert_eq!(flm.base_url.as_deref(), Some("http://localhost:52625/v1"));
    assert!(flm.api_key_env.is_none());
}

#[test]
fn fastflowlm_is_v0_supported_but_whispercpp_is_not() {
    let mut c = Config::default();
    c.stt_provider = "fastflowlm".into();
    assert!(c.ensure_v0_supported().is_ok(), "FastFlowLM (openai transport) v0'da çalışmalı");

    c.stt_provider = "whispercpp".into();
    assert!(c.ensure_v0_supported().is_err());
}

#[test]
fn file_selects_provider_and_overrides_model() {
    let mut file = blank_file();
    file.stt = Some(FileSelect { provider: Some("fastflowlm".into()), model: Some("whisper-v3-turbo".into()) });
    let mut fp = blank_profile();
    fp.base_url = Some("http://127.0.0.1:52625/v1".into());
    file.providers = Some(vec![FileProviderEntry { name: "fastflowlm".into(), profile: fp }]);
    let mut c = Config::default();
    file.apply_to(&mut c);
    assert_eq!(c.stt_provider, "fastflowlm");
    assert_eq!(c.effective_stt_model(), "whisper-v3-turbo");
    assert_eq!(c.stt_profile().unwrap().base_url.as_deref(), Some("http://127.0.0.1:52625/v1"));
}

#[test]
fn file_can_add_new_provider() {
    let mut file = blank_file();
    let mut fp = blank_profile();
    fp.kind = Some(Transport::OpenAi);
    fp.base_url = Some("http://192.168.1.5:8000/v1".into());
    fp.stt_model = Some("whisper-large-v3".into());
    file.providers = Some(vec![FileProviderEntry { name: "myserver".into(), profile: fp }]);
    let mut c = Config::default();
    file.apply_to(&mut c);
    let p = c.providers.get("myserver").unwrap();
    assert_eq!(p.base_url.as_deref(), Some("http://192.168.1.5:8000/v1"));
}

#[test]
fn to_toml_round_trips() {
    let mut c = Config::default();
    c.summary_provider = "ollama".into();
    c.output_lang = "en".into();
    c.providers.set_base_url("groq", "http://x/v1".into());

    let toml = c.to_toml();
    let file = file_from_toml(&toml);
    let mut back = Config::default();
    file.apply_to(&mut back);

    assert_eq!(back.summary_provider, "ollama");
    assert_eq!(back.output_lang, "en");
    assert_eq!(back.providers.get("groq").unwrap().base_url.as_deref(), Some("http://x/v1"));
    assert_eq!(back.providers.get("fastflowlm").unwrap().base_url.as_deref(), Some("http://localhost:52625/v1"));
}

#[test]
fn resolve_key_reads_named_env() {
    let p = Provider::openai("http://x/v1", Some("TUTANAK_TEST_KEY_XYZ"));
    assert!(p.resolve_key(None).is_none());
    assert_eq!(p.resolve_key(Some("secret".into())).as_deref(), Some("secret"));
    assert!(p.resolve_key(Some(String::new())).is_none());
    let local = Provider::openai("http://x/v1", None);
    assert!(local.resolve_key(Some("secret".into())).is_none());
}

#[test]
fn default_registry_lists_four_profiles_in_order() {
    let c = Config::default();
    assert_eq!(c.providers.keys(), vec!["fastflowlm", "groq", "ollama", "whispercpp"]);
    assert_eq!(c.providers.len(), 4);
    let groq = c.providers.get("groq").unwrap();
    assert_eq!(groq.api_key_env.as_deref(), Some("GROQ_API_KEY"));
    assert_eq!(groq.llm_model.as_deref(), Some(DEFAULT_LLM_MODEL));
    assert_eq!(c.providers.get("whispercpp").unwrap().kind, Transport::WhisperCpp);
    assert!(c.providers.get("nope").is_none());
    assert_eq!(c.effective_summary_model(), DEFAULT_LLM_MODEL);
}

#[test]
fn insert_replaces_or_adds_in_order() {
    let mut c = Config::default();
    c.providers.insert("aaa", Provider::openai("http://a/v1", None));
    c.providers.insert("groq", Provider::openai("http://g/v1", None));
    assert_eq!(c.providers.keys(), vec!["aaa", "fastflowlm", "groq", "ollama", "whispercpp"]);
    assert_eq!(c.providers.get("groq").unwrap().base_url.as_deref(), Some("http://g/v1"));
    assert!(c.providers.get("groq").unwrap().api_key_env.is_none());
}

#[test]
fn each_config_error_and_message() {
    let mut c = Config::default();
    c.stt_provider = "nope".into();
    match c.ensure_v0_supported() {
        Err(ConfigError::UnknownSttProvider(n)) => assert_eq!(n, "nope"),
        other => panic!("unexpected {:?}", other),
    }
    assert!(c.stt_profile().is_err());
    let mut c = Config::default();
    c.summary_provider = "nope".into();
    assert!(matches!(c.ensure_v0_supported(), Err(ConfigError::UnknownSummaryProvider(_))));
    let mut c = Config::default();
    c.summary_provider = "whispercpp".into();
    assert!(matches!(c.ensure_v0_supported(), Err(ConfigError::WhisperCppSummary)));
    let mut c = Config::default();
    c.stt_provider = "whispercpp".into();
    c.summary_provider = "whispercpp".into();
    assert!(matches!(c.ensure_v0_supported(), Err(ConfigError::WhisperCppStt)));
    assert_eq!(ConfigError::UnknownSttProvider("x".into()).message(), "Bilinmeyen STT provider'ı: 'x'. config'de [providers.x] tanımla.");
}

#[test]
fn model_override_wins() {
    let mut c = Config::default();
    c.stt_model_override = Some("m1".into());
    c.summary_provider = "ollama".into();
    assert_eq!(c.effective_stt_model(), "m1");
    assert_eq!(c.effective_summary_model(), "llama3.1");
    c.summary_provider = "whispercpp".into();
    assert_eq!(c.effective_summary_model(), DEFAULT_LLM_MODEL);
}

#[test]
fn env_overrides_layer_on_top() {
    let mut c = Config::default();
    let mut env = no_env();
    env.output_lang = Some("de".into());
    env.stt_provider = Some("fastflowlm".into());
    env.llm_model = Some("big".into());
    env.groq_url = Some("http://proxy/v1".into());
    env.chunk_bytes = Some("1234".into());
    env.chunk_overlap_secs = Some("not-a-number".into());
    env.backoff_ms = Some("+50".into());
    c.apply_env(&env);
    assert_eq!(c.output_lang, "de");
    assert_eq!(c.stt_provider, "fastflowlm");
    assert_eq!(c.summary_model_override.as_deref(), Some("big"));
    assert_eq!(c.providers.get("groq").unwrap().base_url.as_deref(), Some("http://proxy/v1"));
    assert_eq!(c.chunk_threshold_bytes, 1234);
    assert_eq!(c.chunk_overlap_secs, 3);
    assert_eq!(c.backoff_base_ms, 50);
    let before = Config::default();
    let mut same = Config::default();
    same.apply_env(&no_env());
    assert_eq!(same.to_toml(), before.to_toml());
}

#[test]
fn file_settings_replace_defaults() {
    let mut file = blank_file();
    file.output_lang = Some("fr".into());
    file.summary = Some(FileSelect { provider: Some("ollama".into()), model: None });
    file.chunking = Some(FileChunking { threshold_bytes: Some(1000), overlap_secs: None });
    file.network = Some(FileNetwork { backoff_base_ms: Some(5) });
    let mut fp = blank_profile();
    fp.model_path = Some("~/models/ggml.bin".into());
    fp.threads = Some(8);
    file.providers = Some(vec![FileProviderEntry { name: "whispercpp".into(), profile: fp }]);
    let mut c = Config::default();
    file.apply_to_with_home(&mut c, &Some("/home/u".into()));
    assert_eq!(c.output_lang, "fr");
    assert_eq!(c.summary_provider, "ollama");
    assert_eq!(c.stt_provider, "groq");
    assert_eq!(c.chunk_threshold_bytes, 1000);
    assert_eq!(c.chunk_overlap_secs, 3);
    assert_eq!(c.backoff_base_ms, 5);
    let w = c.providers.get("whispercpp").unwrap();
    assert_eq!(w.model_path.as_deref(), Some("/home/u/models/ggml.bin"));
    assert_eq!(w.threads, 8);
    assert_eq!(w.kind, Transport::WhisperCpp);
}

#[test]
fn tilde_expansion() {
    assert_eq!(expand_tilde_with("~/a/b", &Some("/h".into())), "/h/a/b");
    assert_eq!(expand_tilde_with("~/a", &None), "~/a");
    assert_eq!(expand_tilde_with("/abs", &Some("/h".into())), "/abs");
    assert_eq!(expand_tilde_with("~x", &Some("/h".into())), "~x");
}

#[test]
fn to_toml_exact_sections() {
    let t = Config::default().to_toml();
    assert!(t.starts_with("output_lang = \"tr\"\n\n[stt]\nprovider = \"groq\"\n\n[summary]\nprovider = \"groq\"\n\n"));
    assert!(t.contains("[providers.fastflowlm]\nkind = \"openai\"\nbase_url = \"http://localhost:52625/v1\"\nstt_model = \"whisper-v3:turbo\"\nllm_model = \"gemma4-it:e2b\"\nthreads = 4\n\n"));
    assert!(t.contains("[providers.whispercpp]\nkind = \"whisper-cpp\"\nthreads = 4\n\n"));
    assert!(t.ends_with("[chunking]\nthreshold_bytes = 25165824\noverlap_secs = 3\n\n[network]\nbackoff_base_ms = 800\n"));
}

#[test]
fn describe_hides_secrets() {
    let c = Config::default();
    let d = c.describe(&vec![false, true, false, false]);
    assert!(d.starts_with("output_lang = tr\n[stt]     provider = groq  model = whisper-large-v3-turbo\n"));
    assert!(d.contains("  groq: kind=OpenAi base_url=https://api.groq.com/openai/v1 key<GROQ_API_KEY>=ayarlı\n"));
    assert!(d.contains("  whispercpp: kind=WhisperCpp base_url=- key=yok\n"));
    assert!(d.ends_with("[chunking] threshold_bytes=25165824 overlap_secs=3\n[network] backoff_base_ms=800"));
}

#[test]
fn config_file_location() {
    assert!(config_path_in("/c").ends_with("tutanak/config.toml"));
    assert_eq!(tutanak::config::config_path(Some("/x.toml".into())).as_deref(), Some("/x.toml"));
}

#[test]
fn environment_wins_over_file() {
    let mut file = blank_file();
    file.output_lang = Some("fr".into());
    file.stt = Some(FileSelect { provider: Some("fastflowlm".into()), model: None });
    file.chunking = Some(FileChunking { threshold_bytes: Some(1000), overlap_secs: Some(9) });
    let mut c = Config::default();
    file.apply_to_with_home(&mut c, &None);
    let mut env = no_env();
    env.output_lang = Some("de".into());
    env.chunk_bytes = Some("2000".into());
    c.apply_env(&env);
    assert_eq!(c.output_lang, "de");
    assert_eq!(c.stt_provider, "fastflowlm");
    assert_eq!(c.chunk_threshold_bytes, 2000);
    assert_eq!(c.chunk_overlap_secs, 9);
}

#[test]
fn saved_tables_restore_the_config() {
    let mut c = Config::default();
    c.output_lang = "en".into();
    c.summary_model_override = Some("m".into());
    c.backoff_base_ms = 42;
    let mut extra = Provider::openai("http://e/v1", Some("E_KEY"));
    extra.model_path = Some("/m.bin".into());
    c.providers.insert("extra", extra);
    let back = {
        let file = file_from_toml(&c.to_toml());
        let mut b = Config::default();
        file.apply_to_with_home(&mut b, &None);
        b
    };
    assert_eq!(back.to_toml(), c.to_toml());
    assert_eq!(back.providers.get("extra").unwrap().model_path.as_deref(), Some("/m.bin"));
}

#[test]
fn template_parses() {
    let file = file_from_toml(TEMPLATE);
    let mut c = Config::default();
    file.apply_to(&mut c);
    assert_eq!(c.to_toml(), Config::default().to_toml());
}

#[test]
fn to_toml_escapes_string_values() {
    let mut c = Config::default();
    c.output_lang = "x\"y\\z\nw\u{1}\tv".into();
    c.stt_model_override = Some("a\rb".into());
    let t = c.to_toml();
    assert!(t.starts_with("output_lang = \"x\\\"y\\\\z\\nw\\u0001\tv\"\n"));
    let file = file_from_toml(&t);
    assert_eq!(file.output_lang.as_deref(), Some(c.output_lang.as_str()));
    let mut back = Config::default();
    file.apply_to(&mut back);
    assert_eq!(back.output_lang, c.output_lang);
    assert_eq!(back.stt_model_override.as_deref(), Some("a\rb"));
}

#[test]
fn layered_config_orders_defaults_file_env() {
    let mut file = blank_file();
    file.output_lang = Some("fr".into());
    file.summary = Some(FileSelect { provider: Some("ollama".into()), model: None });
    let mut env = no_env();
    env.output_lang = Some("de".into());
    let c = layered(Some(file), &env, &None);
    assert_eq!(c.output_lang, "de");
    assert_eq!(c.summary_provider, "ollama");
    assert_eq!(c.stt_provider, "groq");
    let d = layered(None, &no_env(), &None);
    assert_eq!(d.to_toml(), Config::default().to_toml());
}
