use ai_guard_gateway::config::{AppConfig, EnvVars};

fn empty() -> EnvVars {
    EnvVars {
        port: None,
        llm_provider: None,
        llm_base_url: None,
        llm_api_key: None,
        groq_api_key: None,
        openai_api_key: None,
        gemini_api_key: None,
        enable_prompt_sanitizer: None,
        enable_smart_truncate: None,
        max_tool_array_items: None,
        scope_header_name: None,
    }
}

fn s(v: &str) -> Option<String> {
    Some(v.to_string())
}

#[test]
fn defaults() {
    let c = AppConfig::from_vars(&empty());
    assert_eq!(c.port, 8080);
    assert_eq!(c.llm_provider, "groq");
    assert_eq!(c.llm_base_url, "https://api.groq.com/openai/v1");
    assert_eq!(c.llm_api_key, "dummy_api_key");
    assert!(c.enable_sanitizer);
    assert!(c.enable_truncator);
    assert_eq!(c.max_array_items, 5);
    assert_eq!(c.scope_header, "X-Guard-Scope");
}

#[test]
fn numbers_parse_as_std_does() {
    let mut v = empty();
    v.port = s("+9090");
    v.max_tool_array_items = s("12");
    let c = AppConfig::from_vars(&v);
    assert_eq!(c.port, 9090);
    assert_eq!(c.max_array_items, 12);
    for bad in ["70000", "-1", "", "+", " 80", "8a", "65536"] {
        let mut v = empty();
        v.port = s(bad);
        assert_eq!(AppConfig::from_vars(&v).port, 8080, "port {:?}", bad);
    }
    let mut v = empty();
    v.port = s("65535");
    assert_eq!(AppConfig::from_vars(&v).port, 65535);
    let mut v = empty();
    v.max_tool_array_items = s("many");
    assert_eq!(AppConfig::from_vars(&v).max_array_items, 5);
}

#[test]
fn openai_provider_gets_openai_base_url() {
    let mut v = empty();
    v.llm_provider = s("OpenAI");
    let c = AppConfig::from_vars(&v);
    assert_eq!(c.llm_provider, "OpenAI");
    assert_eq!(c.llm_base_url, "https://api.openai.com/v1");
    let mut v = empty();
    v.llm_provider = s("openai");
    v.llm_base_url = s("http://localhost:1234/v1");
    assert_eq!(AppConfig::from_vars(&v).llm_base_url, "http://localhost:1234/v1");
}

#[test]
fn api_key_precedence() {
    let mut v = empty();
    v.openai_api_key = s("o");
    assert_eq!(AppConfig::from_vars(&v).llm_api_key, "o");
    v.groq_api_key = s("g");
    assert_eq!(AppConfig::from_vars(&v).llm_api_key, "g");
    v.llm_api_key = s("l");
    assert_eq!(AppConfig::from_vars(&v).llm_api_key, "l");
}

#[test]
fn switches() {
    for (value, on) in [("true", true), ("TRUE", true), ("True", true), ("1", true), ("0", false), ("false", false), ("yes", false), (" true", false)] {
        let mut v = empty();
        v.enable_prompt_sanitizer = s(value);
        v.enable_smart_truncate = s(value);
        let c = AppConfig::from_vars(&v);
        assert_eq!(c.enable_sanitizer, on, "{:?}", value);
        assert_eq!(c.enable_truncator, on, "{:?}", value);
    }
}

#[test]
fn gemini_key_is_read() {
    let mut v = empty();
    v.llm_provider = s("gemini");
    v.gemini_api_key = s("g");
    let c = AppConfig::from_vars(&v);
    assert_eq!(c.llm_provider, "gemini");
    assert_eq!(c.llm_api_key, "g");
    // With Gemini as the provider its own key comes before the others.
    v.groq_api_key = s("q");
    assert_eq!(AppConfig::from_vars(&v).llm_api_key, "g");
    v.llm_api_key = s("l");
    assert_eq!(AppConfig::from_vars(&v).llm_api_key, "l");
    // For another provider the Gemini key is never read.
    let mut v = empty();
    v.gemini_api_key = s("g");
    assert_eq!(AppConfig::from_vars(&v).llm_api_key, "dummy_api_key");
    v.openai_api_key = s("o");
    assert_eq!(AppConfig::from_vars(&v).llm_api_key, "o");
}
