use knowlix::ai_agent::{
    answer_context, answer_prompt, bearer_header, endpoint_url, expansion_plan, expansion_prompt,
    file_name, variants_from_reply, ExpansionPlan,
    first_choice_content, generation_target, get_ai_tier, health_from_models, health_probe,
    keep_answer_sources, merge_unique_results, normalize_base_url, parse_query_variants,
    Endpoint, HealthProbe,
};
use knowlix::common::{AiConfig, AiProvider, AiTier, KnowlixError, SearchResult, SearchSource};

fn config(provider: AiProvider) -> AiConfig {
    let mut c = AiConfig::default();
    c.provider = provider;
    c
}

fn result(chunk: &str, path: &str, snippet: &str) -> SearchResult {
    SearchResult {
        file_id: "f".into(),
        file_path: path.into(),
        chunk_id: chunk.into(),
        snippet: snippet.into(),
        score_bits: 0,
        rank_bm25: Some(1),
        rank_vec: None,
        source: SearchSource::Bm25,
    }
}

#[test]
fn base_urls_lose_trailing_slashes() {
    assert_eq!(normalize_base_url("https://api.openai.com/v1/"), "https://api.openai.com/v1");
    assert_eq!(normalize_base_url("http://x///"), "http://x");
    assert_eq!(normalize_base_url("http://x"), "http://x");
    assert_eq!(normalize_base_url("///"), "");
}

#[test]
fn tiers_follow_providers() {
    assert_eq!(get_ai_tier(&config(AiProvider::Disabled)), AiTier::Disabled);
    assert_eq!(get_ai_tier(&config(AiProvider::Ollama)), AiTier::Local);
    assert_eq!(get_ai_tier(&config(AiProvider::Api)), AiTier::Api);
}

#[test]
fn generation_targets_and_their_errors() {
    assert!(matches!(
        generation_target(&config(AiProvider::Disabled)),
        Err(KnowlixError::AiNotConfigured)
    ));
    let t = generation_target(&config(AiProvider::Ollama)).ok().unwrap();
    assert_eq!(t.model, "phi3.5");
    assert_eq!(t.base_url, "http://localhost:11434");
    assert!(t.api_key.is_none());
    let mut no_model = config(AiProvider::Ollama);
    no_model.ollama_model = Some(String::new());
    match generation_target(&no_model) {
        Err(KnowlixError::Ai(m)) => assert_eq!(m, "No Ollama model configured"),
        _ => panic!("an empty model is not configured"),
    }
    let mut api = config(AiProvider::Api);
    match generation_target(&api) {
        Err(KnowlixError::Ai(m)) => assert_eq!(m, "API key not configured"),
        _ => panic!("the key is checked first"),
    }
    api.api_key = Some("sk".into());
    match generation_target(&api) {
        Err(KnowlixError::Ai(m)) => assert_eq!(m, "API model not configured"),
        _ => panic!("then the model"),
    }
    api.api_model = Some("gpt".into());
    api.api_base_url = "https://h/v1/".into();
    let t = generation_target(&api).ok().unwrap();
    assert_eq!(t.base_url, "https://h/v1");
    assert_eq!(t.api_key.as_deref(), Some("sk"));
    assert_eq!(t.model, "gpt");
}

#[test]
fn health_checks() {
    match health_probe(&config(AiProvider::Disabled)) {
        HealthProbe::Report(s) => {
            assert_eq!(s.tier, AiTier::Disabled);
            assert!(!s.reachable);
            assert_eq!(s.error.as_deref(), Some("No AI provider configured"));
        }
        _ => panic!("nothing to ask"),
    }
    match health_probe(&config(AiProvider::Api)) {
        HealthProbe::Report(s) => assert_eq!(s.error.as_deref(), Some("API key not configured")),
        _ => panic!("no key"),
    }
    let mut api = config(AiProvider::Api);
    api.api_key = Some("k".into());
    match health_probe(&api) {
        HealthProbe::ListApiModels { url, key } => {
            assert_eq!(url, "https://api.openai.com/v1");
            assert_eq!(key, "k");
        }
        _ => panic!("list models"),
    }
    let mut ollama = config(AiProvider::Ollama);
    ollama.ollama_model = None;
    let s = health_from_models(&ollama, Ok(vec!["llama3".into(), "phi".into()]));
    assert!(s.reachable);
    assert_eq!(s.model.as_deref(), Some("llama3"));
    assert_eq!(s.tier, AiTier::Local);
    let s2 = health_from_models(&config(AiProvider::Ollama), Ok(vec!["llama3".into()]));
    assert_eq!(s2.model.as_deref(), Some("phi3.5"));
    let s3 = health_from_models(
        &config(AiProvider::Ollama),
        Err(KnowlixError::AiProviderUnreachable("refused".into())),
    );
    assert!(!s3.reachable);
    assert_eq!(s3.error.as_deref(), Some("AI provider unreachable: refused"));
}

#[test]
fn query_variants_from_model_text() {
    let v = parse_query_variants("  first \r\n\nsecond\n   \nthird\nfourth\n", "q");
    assert_eq!(v, vec!["first".to_string(), "second".to_string(), "third".to_string()]);
    assert_eq!(parse_query_variants(" \n\t\n", "orig"), vec!["orig".to_string()]);
    assert_eq!(parse_query_variants("", "orig"), vec!["orig".to_string()]);
    assert_eq!(parse_query_variants("only", "orig"), vec!["only".to_string()]);
    assert_eq!(
        expansion_prompt("rust"),
        "Generate 3 alternative search queries for: \"rust\"\nReturn ONLY the queries, one per line, no numbering, no explanation."
    );
}

#[test]
fn unique_results_across_variants() {
    let mut all = Vec::new();
    merge_unique_results(&mut all, vec![result("a", "/x", "1"), result("b", "/x", "2")]);
    merge_unique_results(
        &mut all,
        vec![result("b", "/x", "3"), result("c", "/x", "4"), result("c", "/x", "5")],
    );
    let ids: Vec<&str> = all.iter().map(|r| r.chunk_id.as_str()).collect();
    assert_eq!(ids, vec!["a", "b", "c"]);
    assert_eq!(all[1].snippet, "2");
    assert_eq!(all[2].snippet, "4");
}

#[test]
fn answer_context_and_prompt() {
    assert_eq!(answer_context(&vec![]), "(no relevant context found)");
    let rs = vec![result("a", "/docs/guide.md", "alpha"), result("b", "plain.txt", "beta")];
    assert_eq!(answer_context(&rs), "[1] guide.md\nalpha\n\n[2] plain.txt\nbeta");
    assert_eq!(file_name("/a/b/"), "");
    assert_eq!(
        answer_prompt("Q?", "CTX"),
        "Answer using ONLY the provided context. If context insufficient, say so.\n\nQuestion: Q?\n\nContext:\nCTX\n\nAnswer in markdown, cite sources with [N]."
    );
    let mut many: Vec<SearchResult> = (0..12).map(|i| result(&i.to_string(), "/p", "s")).collect();
    keep_answer_sources(&mut many);
    assert_eq!(many.len(), 8);
    assert_eq!(many[7].chunk_id, "7");
}

#[test]
fn endpoints_and_headers() {
    assert_eq!(endpoint_url("http://h", Endpoint::OllamaGenerate), "http://h/api/generate");
    assert_eq!(endpoint_url("http://h", Endpoint::OllamaTags), "http://h/api/tags");
    assert_eq!(endpoint_url("https://a/v1", Endpoint::ChatCompletions), "https://a/v1/chat/completions");
    assert_eq!(endpoint_url("https://a/v1", Endpoint::Models), "https://a/v1/models");
    assert_eq!(bearer_header("sk-1"), "Bearer sk-1");
    assert_eq!(first_choice_content(vec!["a".into(), "b".into()]).ok().unwrap(), "a");
    match first_choice_content(vec![]) {
        Err(KnowlixError::Ai(m)) => assert_eq!(m, "Empty response from API"),
        _ => panic!("no choice is an error"),
    }
}

#[test]
fn query_expansion_degrades_to_the_query() {
    match expansion_plan(&config(AiProvider::Disabled), "q") {
        ExpansionPlan::Keep(v) => assert_eq!(v, vec!["q".to_string()]),
        _ => panic!("no provider, no expansion"),
    }
    match expansion_plan(&config(AiProvider::Ollama), "q") {
        ExpansionPlan::Ask { target, prompt } => {
            assert_eq!(target.model, "phi3.5");
            assert!(prompt.contains("\"q\""));
        }
        _ => panic!("ollama with a model can expand"),
    }
    assert_eq!(
        variants_from_reply(Err(KnowlixError::AiProviderUnreachable("x".into())), "q"),
        vec!["q".to_string()]
    );
    assert_eq!(variants_from_reply(Ok("a\nb".into()), "q"), vec!["a".to_string(), "b".to_string()]);
}
