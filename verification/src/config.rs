use vstd::prelude::*;
use crate::number::{parse_u16, parse_unsigned, parse_usize};
use crate::text::{eq_ignore_ascii_case, eq_ignoring_ascii_case, text_eq};

verus! {

/// The values of the environment variables that configure the gateway, each
/// `None` when the variable is unset (or not valid Unicode).
pub struct EnvVars {
    pub port: Option<String>,
    pub llm_provider: Option<String>,
    pub llm_base_url: Option<String>,
    pub llm_api_key: Option<String>,
    pub groq_api_key: Option<String>,
    pub openai_api_key: Option<String>,
    pub gemini_api_key: Option<String>,
    pub enable_prompt_sanitizer: Option<String>,
    pub enable_smart_truncate: Option<String>,
    pub max_tool_array_items: Option<String>,
    pub scope_header_name: Option<String>,
}

/// The gateway's settings.
#[derive(Debug)]
pub struct AppConfig {
    pub port: u16,
    pub llm_provider: String,
    pub llm_base_url: String,
    pub llm_api_key: String,
    pub enable_sanitizer: bool,
    pub enable_truncator: bool,
    pub max_array_items: usize,
    pub scope_header: String,
}

/// The text of a variable, or `default` when it is unset.
pub open spec fn text_or(var: Option<String>, default: Seq<char>) -> Seq<char> {
    match var {
        Some(v) => v@,
        None => default,
    }
}

/// A number read from a variable, or `default` when it is unset or does not
/// parse as an unsigned integer no greater than `max`.
pub open spec fn number_or(var: Option<String>, max: nat, default: nat) -> nat {
    match var {
        Some(v) => match parse_unsigned(v@, max) {
            Some(n) => n,
            None => default,
        },
        None => default,
    }
}

/// A switch read from a variable: on for `true` in any ASCII case or for `1`,
/// off for anything else, on when unset.
pub open spec fn switch_or_on(var: Option<String>) -> bool {
    match var {
        Some(v) => eq_ignoring_ascii_case(v@, "true"@) || v@ == "1"@,
        None => true,
    }
}

/// The provider named when none is configured.
pub open spec fn default_provider() -> Seq<char> {
    "groq"@
}

/// The base URL used when none is configured, for the given provider.
pub open spec fn default_base_url(provider: Seq<char>) -> Seq<char> {
    if eq_ignoring_ascii_case(provider, "openai"@) {
        "https://api.openai.com/v1"@
    } else {
        "https://api.groq.com/openai/v1"@
    }
}

/// Whether the configured provider is Gemini (in any ASCII case).
pub open spec fn provider_is_gemini(vars: EnvVars) -> bool {
    eq_ignoring_ascii_case(text_or(vars.llm_provider, default_provider()), "gemini"@)
}

/// The API key: `LLM_API_KEY` when set; else, with Gemini as the provider,
/// `GEMINI_API_KEY` when set; else the first of `GROQ_API_KEY` and
/// `OPENAI_API_KEY` that is set; else a placeholder.
pub open spec fn api_key_of(vars: EnvVars) -> Seq<char> {
    match vars.llm_api_key {
        Some(k) => k@,
        None => if provider_is_gemini(vars) && vars.gemini_api_key is Some {
            vars.gemini_api_key->0@
        } else {
            match vars.groq_api_key {
                Some(k) => k@,
                None => match vars.openai_api_key {
                    Some(k) => k@,
                    None => "dummy_api_key"@,
                },
            }
        },
    }
}

fn text_or_default(var: &Option<String>, default: &str) -> (res: String)
    ensures
        res@ == text_or(*var, default@),
{
    match var {
        Some(v) => v.clone(),
        None => String::from_str(default),
    }
}

fn switch_of(var: &Option<String>) -> (res: bool)
    ensures
        res == switch_or_on(*var),
{
    match var {
        Some(v) => eq_ignore_ascii_case(v.as_str(), "true") || text_eq(v.as_str(), "1"),
        None => true,
    }
}

impl AppConfig {
    /// The settings that the given environment describes, each falling back to
    /// its default when unset or unreadable.
    pub fn from_vars(vars: &EnvVars) -> (res: AppConfig)
        ensures
            res.port as nat == number_or(vars.port, u16::MAX as nat, 8080),
            res.llm_provider@ == text_or(vars.llm_provider, default_provider()),
            res.llm_base_url@ == text_or(
                vars.llm_base_url,
                default_base_url(text_or(vars.llm_provider, default_provider())),
            ),
            res.llm_api_key@ == api_key_of(*vars),
            res.enable_sanitizer == switch_or_on(vars.enable_prompt_sanitizer),
            res.enable_truncator == switch_or_on(vars.enable_smart_truncate),
            res.max_array_items as nat == number_or(vars.max_tool_array_items, usize::MAX as nat, 5),
            res.scope_header@ == text_or(vars.scope_header_name, "X-Guard-Scope"@),
    {
        let port: u16 = match &vars.port {
            Some(p) => match parse_u16(p.as_str()) {
                Some(v) => v,
                None => 8080,
            },
            None => 8080,
        };
        let llm_provider = text_or_default(&vars.llm_provider, "groq");
        let llm_base_url = match &vars.llm_base_url {
            Some(u) => u.clone(),
            None => if eq_ignore_ascii_case(llm_provider.as_str(), "openai") {
                String::from_str("https://api.openai.com/v1")
            } else {
                String::from_str("https://api.groq.com/openai/v1")
            },
        };
        let gemini_provider = eq_ignore_ascii_case(llm_provider.as_str(), "gemini");
        let llm_api_key = match &vars.llm_api_key {
            Some(k) => k.clone(),
            None => match (gemini_provider, &vars.gemini_api_key) {
                (true, Some(k)) => k.clone(),
                _ => match &vars.groq_api_key {
                    Some(k) => k.clone(),
                    None => match &vars.openai_api_key {
                        Some(k) => k.clone(),
                        None => String::from_str("dummy_api_key"),
                    },
                },
            },
        };
        let enable_sanitizer = switch_of(&vars.enable_prompt_sanitizer);
        let enable_truncator = switch_of(&vars.enable_smart_truncate);
        let max_array_items: usize = match &vars.max_tool_array_items {
            Some(m) => match parse_usize(m.as_str()) {
                Some(v) => v,
                None => 5,
            },
            None => 5,
        };
        let scope_header = text_or_default(&vars.scope_header_name, "X-Guard-Scope");
        AppConfig {
            port,
            llm_provider,
            llm_base_url,
            llm_api_key,
            enable_sanitizer,
            enable_truncator,
            max_array_items,
            scope_header,
        }
    }
}

} // verus!
