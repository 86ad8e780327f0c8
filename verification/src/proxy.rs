use vstd::prelude::*;
use vstd::utf8::{decode_utf8, is_leading_byte_width_1, partial_valid_utf8, valid_utf8};
use crate::config::AppConfig;
use crate::context::{opt_str, with_scope, ContextService};
use crate::json::{json_text, to_json_string, JsonTree, JsonValue};
use crate::models::{
    content_tree, messages_view, ChatCompletionRequest, ChatMessage, ErrorDetails, ErrorResponse,
    MessageView,
};
use crate::sanitizer::{
    injection_found, regex_is_match, scan_window, value_has_injection, value_scan_ok, SanitizerService,
    SCAN_LIMIT,
};
use crate::truncator::{truncated_messages, TruncatorService};
use crate::text::utf8_len;
use crate::text::{
    has_prefix, starts_with, text_eq, to_lowercase, trim_end_char, trim_end_matches_char,
    unicode_lowercase, utf8_to_string,
};

verus! {

// ---------------------------------------------------------------------------
// Request headers
// ---------------------------------------------------------------------------

/// One header of a request: its (lower-case) name and its raw value.
#[derive(Debug, PartialEq)]
pub struct Header {
    pub name: String,
    pub value: Vec<u8>,
}

/// A header's name and value.
pub struct HeaderView {
    pub name: Seq<char>,
    pub value: Seq<u8>,
}

impl View for Header {
    type V = HeaderView;

    open spec fn view(&self) -> HeaderView {
        HeaderView { name: self.name@, value: self.value@ }
    }
}

/// A list of headers, header by header.
pub open spec fn headers_view(hs: Seq<Header>) -> Seq<HeaderView> {
    hs.map_values(|h: Header| h@)
}

/// Whether every byte is a visible ASCII character or a tab: the values that
/// can be read as text.
pub open spec fn visible_ascii(bytes: Seq<u8>) -> bool {
    forall|i: int|
        0 <= i < bytes.len() ==> #[trigger] bytes[i] == 9 || (32 <= bytes[i] && bytes[i] < 127)
}

/// A header value read as text, as `HeaderValue::to_str` reads it.
pub open spec fn header_value_text(bytes: Seq<u8>) -> Option<Seq<char>> {
    if visible_ascii(bytes) {
        Some(decode_utf8(bytes))
    } else {
        None
    }
}

/// Reads a header value as text (see `header_value_text`).
pub fn header_text(value: &Vec<u8>) -> (res: Option<String>)
    ensures
        match res {
            Some(s) => header_value_text(value@) == Some(s@),
            None => header_value_text(value@) is None,
        },
{
    let mut i: usize = 0;
    while i < value.len()
        invariant
            i <= value.len(),
            forall|k: int| 0 <= k < i ==> #[trigger] value@[k] == 9 || (32 <= value@[k] && value@[k] < 127),
        decreases value.len() - i,
    {
        let b = value[i];
        if !(b == 9 || (32 <= b && b < 127)) {
            return None;
        }
        i = i + 1;
    }
    proof {
        let bytes = value@;
        assert(bytes.subrange(0, 0) =~= Seq::<u8>::empty());
        assert(partial_valid_utf8(bytes, 0));
        assert forall|k: int| 0 <= 0 <= k < bytes.len() <= bytes.len() implies #[trigger] is_leading_byte_width_1(bytes[k]) by {
            assert(bytes[k] == 9 || (32 <= bytes[k] && bytes[k] < 127));
        }
        vstd::utf8::partial_valid_utf8_extend_ascii_block(bytes, 0, bytes.len() as int);
        assert(bytes.subrange(0, bytes.len() as int) =~= bytes);
        assert(valid_utf8(bytes));
    }
    utf8_to_string(value.as_slice())
}

/// The value of the first header named exactly `name` (what `HeaderMap::get`
/// returns; names are kept in lower case).
pub open spec fn first_named(hs: Seq<HeaderView>, name: Seq<char>) -> Option<Seq<u8>>
    decreases hs.len(),
{
    if hs.len() == 0 {
        None
    } else if hs[0].name == name {
        Some(hs[0].value)
    } else {
        first_named(hs.drop_first(), name)
    }
}

/// The value of the first header whose lower-cased name is `lower_name`.
pub open spec fn first_named_lowercase(hs: Seq<HeaderView>, lower_name: Seq<char>) -> Option<
    Seq<u8>,
>
    decreases hs.len(),
{
    if hs.len() == 0 {
        None
    } else if unicode_lowercase(hs[0].name) == lower_name {
        Some(hs[0].value)
    } else {
        first_named_lowercase(hs.drop_first(), lower_name)
    }
}

/// The text of an optional header value, when it reads as text.
pub open spec fn value_text(value: Option<Seq<u8>>) -> Option<Seq<char>> {
    match value {
        Some(b) => header_value_text(b),
        None => None,
    }
}

/// The text of the first header named `name`, when it reads as text.
pub fn header_get_text(headers: &Vec<Header>, name: &str) -> (res: Option<String>)
    ensures
        match res {
            Some(s) => value_text(first_named(headers_view(headers@), name@)) == Some(s@),
            None => value_text(first_named(headers_view(headers@), name@)) is None,
        },
{
    let ghost hs = headers_view(headers@);
    let mut i: usize = 0;
    assert(hs.skip(0) =~= hs);
    while i < headers.len()
        invariant
            i <= headers.len(),
            hs == headers_view(headers@),
            first_named(hs, name@) == first_named(hs.skip(i as int), name@),
        decreases headers.len() - i,
    {
        assert(hs.skip(i as int).drop_first() =~= hs.skip(i + 1));
        assert(hs.skip(i as int)[0] == headers@[i as int]@);
        if text_eq(headers[i].name.as_str(), name) {
            return header_text(&headers[i].value);
        }
        i = i + 1;
    }
    None
}

/// The text of the first header whose lower-cased name is the lower-cased
/// `name`, when it reads as text: how the scope header is found.
pub fn header_get_text_ignoring_case(headers: &Vec<Header>, name: &str) -> (res: Option<String>)
    ensures
        match res {
            Some(s) => value_text(
                first_named_lowercase(headers_view(headers@), unicode_lowercase(name@)),
            ) == Some(s@),
            None => value_text(
                first_named_lowercase(headers_view(headers@), unicode_lowercase(name@)),
            ) is None,
        },
{
    let wanted = to_lowercase(name);
    let ghost hs = headers_view(headers@);
    let mut i: usize = 0;
    assert(hs.skip(0) =~= hs);
    while i < headers.len()
        invariant
            i <= headers.len(),
            hs == headers_view(headers@),
            wanted@ == unicode_lowercase(name@),
            first_named_lowercase(hs, wanted@) == first_named_lowercase(hs.skip(i as int), wanted@),
        decreases headers.len() - i,
    {
        assert(hs.skip(i as int).drop_first() =~= hs.skip(i + 1));
        assert(hs.skip(i as int)[0] == headers@[i as int]@);
        let lowered = to_lowercase(headers[i].name.as_str());
        if text_eq(lowered.as_str(), wanted.as_str()) {
            return header_text(&headers[i].value);
        }
        i = i + 1;
    }
    None
}

/// Whether a header is kept back from the upstream request.
pub open spec fn is_withheld(name: Seq<char>) -> bool {
    ||| name == "host"@
    ||| name == "authorization"@
    ||| name == "content-length"@
    ||| name == "accept-encoding"@
    ||| name == "x-llm-provider"@
}

/// The headers passed on upstream, in order.
pub open spec fn forwarded(hs: Seq<HeaderView>) -> Seq<HeaderView>
    decreases hs.len(),
{
    if hs.len() == 0 {
        seq![]
    } else if is_withheld(hs.last().name) {
        forwarded(hs.drop_last())
    } else {
        forwarded(hs.drop_last()).push(hs.last())
    }
}

fn copy_bytes(v: &Vec<u8>) -> (res: Vec<u8>)
    ensures
        res@ == v@,
{
    let mut out: Vec<u8> = Vec::new();
    let mut i: usize = 0;
    while i < v.len()
        invariant
            i <= v.len(),
            out@ == v@.take(i as int),
        decreases v.len() - i,
    {
        out.push(v[i]);
        assert(out@ =~= v@.take(i + 1));
        i = i + 1;
    }
    assert(v@.take(v.len() as int) =~= v@);
    out
}

/// The request's headers that are passed on upstream (all but `host`,
/// `authorization`, `content-length`, `accept-encoding` and `x-llm-provider`).
pub fn forwarded_headers(headers: &Vec<Header>) -> (res: Vec<Header>)
    ensures
        headers_view(res@) == forwarded(headers_view(headers@)),
{
    let ghost hs = headers_view(headers@);
    let mut out: Vec<Header> = Vec::new();
    let mut i: usize = 0;
    assert(hs.take(0) =~= Seq::<HeaderView>::empty());
    while i < headers.len()
        invariant
            i <= headers.len(),
            hs == headers_view(headers@),
            headers_view(out@) == forwarded(hs.take(i as int)),
        decreases headers.len() - i,
    {
        proof {
            reveal_strlit("host");
            reveal_strlit("authorization");
            reveal_strlit("content-length");
            reveal_strlit("accept-encoding");
            reveal_strlit("x-llm-provider");
        }
        assert(hs.take(i + 1).drop_last() =~= hs.take(i as int));
        assert(hs.take(i + 1).last() == headers@[i as int]@);
        let key = headers[i].name.as_str();
        let withheld = text_eq(key, "host") || text_eq(key, "authorization") || text_eq(
            key,
            "content-length",
        ) || text_eq(key, "accept-encoding") || text_eq(key, "x-llm-provider");
        if !withheld {
            let h = Header { name: headers[i].name.clone(), value: copy_bytes(&headers[i].value) };
            out.push(h);
            assert(headers_view(out@) =~= forwarded(hs.take(i as int)).push(headers@[i as int]@));
        }
        i = i + 1;
    }
    assert(hs.take(headers.len() as int) =~= hs);
    out
}

/// The `Authorization` value sent upstream: the caller's own, when it reads
/// as text, else a bearer token made of the configured key.
pub open spec fn authorization_for(hs: Seq<HeaderView>, api_key: Seq<char>) -> Seq<char> {
    match value_text(first_named(hs, "authorization"@)) {
        Some(t) => t,
        None => "Bearer "@ + api_key,
    }
}

pub fn authorization_value(headers: &Vec<Header>, api_key: &str) -> (res: String)
    ensures
        res@ == authorization_for(headers_view(headers@), api_key@),
{
    match header_get_text(headers, "authorization") {
        Some(t) => t,
        None => {
            proof {
                reveal_strlit("Bearer ");
            }
            let mut r = String::from_str("Bearer ");
            r.append(api_key);
            r
        },
    }
}

// ---------------------------------------------------------------------------
// Choosing the upstream provider
// ---------------------------------------------------------------------------

/// The provider that a lower-cased model name points to, or `default`.
pub open spec fn provider_for_lowercase_model(m: Seq<char>, default: Seq<char>) -> Seq<char> {
    if has_prefix(m, "gemini"@) {
        "gemini"@
    } else if has_prefix(m, "llama"@) || has_prefix(m, "qwen"@) || has_prefix(m, "mixtral"@) {
        "groq"@
    } else if has_prefix(m, "gpt"@) {
        "openai"@
    } else {
        default
    }
}

/// The provider that a model's name points to, or `default`.
pub open spec fn provider_for_model(model: Seq<char>, default: Seq<char>) -> Seq<char> {
    provider_for_lowercase_model(unicode_lowercase(model), default)
}

/// The provider a request goes to: the one named by the caller, else the one
/// the model points to, lower-cased.
pub open spec fn resolved_provider(
    custom: Option<Seq<char>>,
    model: Seq<char>,
    default: Seq<char>,
) -> Seq<char> {
    unicode_lowercase(
        match custom {
            Some(c) => c,
            None => provider_for_model(model, default),
        },
    )
}

/// The base URL of a provider's OpenAI-compatible API, or `default_base_url`
/// for a provider the gateway does not know.
pub open spec fn provider_base_url(provider: Seq<char>, default_base_url: Seq<char>) -> Seq<char> {
    if provider == "gemini"@ {
        "https://generativelanguage.googleapis.com/v1beta/openai"@
    } else if provider == "groq"@ {
        "https://api.groq.com/openai/v1"@
    } else if provider == "openai"@ {
        "https://api.openai.com/v1"@
    } else {
        default_base_url
    }
}

/// The chat-completions endpoint under a base URL.
pub open spec fn completions_url(base: Seq<char>) -> Seq<char> {
    trim_end_char(base, '/') + "/chat/completions"@
}

/// The provider that a lower-cased model name points to, or `default_provider`.
pub fn model_provider(lower_model: &str, default_provider: &str) -> (res: String)
    ensures
        res@ == provider_for_lowercase_model(lower_model@, default_provider@),
{
    proof {
        reveal_strlit("gemini");
        reveal_strlit("llama");
        reveal_strlit("qwen");
        reveal_strlit("mixtral");
        reveal_strlit("gpt");
        reveal_strlit("groq");
        reveal_strlit("openai");
    }
    let chosen: &str = if starts_with(lower_model, "gemini") {
        "gemini"
    } else if starts_with(lower_model, "llama") || starts_with(lower_model, "qwen") || starts_with(
        lower_model,
        "mixtral",
    ) {
        "groq"
    } else if starts_with(lower_model, "gpt") {
        "openai"
    } else {
        default_provider
    };
    String::from_str(chosen)
}

/// The chat-completions endpoint of a (lower-cased) provider.
pub fn completions_endpoint(provider: &str, default_base_url: &str) -> (res: String)
    ensures
        res@ == completions_url(provider_base_url(provider@, default_base_url@)),
{
    proof {
        reveal_strlit("gemini");
        reveal_strlit("groq");
        reveal_strlit("openai");
        reveal_strlit("https://generativelanguage.googleapis.com/v1beta/openai");
        reveal_strlit("https://api.groq.com/openai/v1");
        reveal_strlit("https://api.openai.com/v1");
        reveal_strlit("/chat/completions");
    }
    let base_url: &str = if text_eq(provider, "gemini") {
        "https://generativelanguage.googleapis.com/v1beta/openai"
    } else if text_eq(provider, "groq") {
        "https://api.groq.com/openai/v1"
    } else if text_eq(provider, "openai") {
        "https://api.openai.com/v1"
    } else {
        default_base_url
    };
    let mut target_url = trim_end_matches_char(base_url, '/');
    target_url.append("/chat/completions");
    target_url
}

/// Resolves the upstream endpoint and the provider's name from the header
/// that names a provider, the model, and the configured defaults.
pub fn resolve_target_url(
    custom_provider: Option<&str>,
    model_name: &str,
    default_provider: &str,
    default_base_url: &str,
) -> (res: (String, String))
    ensures
        res.1@ == resolved_provider(opt_str(custom_provider), model_name@, default_provider@),
        res.0@ == completions_url(provider_base_url(res.1@, default_base_url@)),
{
    let chosen: String = match custom_provider {
        Some(c) => String::from_str(c),
        None => {
            let m = to_lowercase(model_name);
            model_provider(m.as_str(), default_provider)
        },
    };
    let provider = to_lowercase(chosen.as_str());
    let target_url = completions_endpoint(provider.as_str(), default_base_url);
    (target_url, provider)
}

// ---------------------------------------------------------------------------
// Normalising the request
// ---------------------------------------------------------------------------

/// The text that a `prompt` or `input` field stands for: a string as it is,
/// an array as its JSON text, anything else as nothing.
pub open spec fn prompt_text(v: JsonTree) -> Seq<char> {
    match v {
        JsonTree::Str(s) => s,
        JsonTree::Array(_) => json_text(v),
        _ => seq![],
    }
}

/// The text taken from `prompt`, or, when there is no `prompt`, from `input`.
pub open spec fn extracted_text(prompt: Option<JsonTree>, input: Option<JsonTree>) -> Seq<char> {
    match prompt {
        Some(p) => prompt_text(p),
        None => match input {
            Some(i) => prompt_text(i),
            None => seq![],
        },
    }
}

/// A user message with the given text and nothing else.
pub open spec fn user_message(text: Seq<char>) -> MessageView {
    MessageView {
        role: "user"@,
        content: Some(JsonTree::Str(text)),
        name: None,
        tool_calls: None,
        tool_call_id: None,
    }
}

/// The conversation of a request: its messages, or, when it has none, a user
/// message holding the text of `prompt` or `input` (when that is not empty).
pub open spec fn normalized_messages(
    ms: Seq<MessageView>,
    prompt: Option<JsonTree>,
    input: Option<JsonTree>,
) -> Seq<MessageView> {
    if ms.len() == 0 && extracted_text(prompt, input).len() > 0 {
        seq![user_message(extracted_text(prompt, input))]
    } else {
        ms
    }
}

/// The conversation that a request carries once normalised.
pub open spec fn request_conversation(req: ChatCompletionRequest) -> Seq<MessageView> {
    normalized_messages(messages_view(req.messages@), content_tree(req.prompt), content_tree(req.input))
}

fn text_of_prompt(v: &JsonValue) -> (res: String)
    ensures
        res@ == prompt_text(v@),
{
    match v {
        JsonValue::String(s) => s.clone(),
        JsonValue::Array(_) => to_json_string(v),
        _ => String::new(),
    }
}

/// Moves a bare `prompt` or `input` into the conversation (see
/// `normalized_messages`) and drops both fields; the model and the other
/// fields are kept.
pub fn normalize_request(req: &mut ChatCompletionRequest)
    ensures
        messages_view(final(req).messages@) == request_conversation(*old(req)),
        final(req).model == old(req).model,
        final(req).prompt is None,
        final(req).input is None,
        final(req).extra_fields == old(req).extra_fields,
{
    if req.messages.len() == 0 {
        let extracted = match &req.prompt {
            Some(p) => text_of_prompt(p),
            None => match &req.input {
                Some(i) => text_of_prompt(i),
                None => String::new(),
            },
        };
        if !extracted.as_str().is_empty() {
            proof {
                reveal_strlit("user");
            }
            req.messages.push(
                ChatMessage {
                    role: String::from_str("user"),
                    content: Some(JsonValue::String(extracted)),
                    name: None,
                    tool_calls: None,
                    tool_call_id: None,
                },
            );
            assert(messages_view(req.messages@) =~= request_conversation(*old(req)));
        }
    }
    req.prompt = None;
    req.input = None;
}

// ---------------------------------------------------------------------------
// The injection policy
// ---------------------------------------------------------------------------

/// Whether a message holds an injection: some string of its content, at any
/// depth, holds one (a message without content holds none).
pub open spec fn message_flagged(patterns: Seq<Seq<char>>, m: MessageView) -> bool {
    match m.content {
        Some(v) => value_has_injection(patterns, v),
        None => false,
    }
}

/// Whether some message of a conversation holds an injection.
pub open spec fn conversation_flagged(patterns: Seq<Seq<char>>, ms: Seq<MessageView>) -> bool {
    exists|i: int| 0 <= i < ms.len() && message_flagged(patterns, #[trigger] ms[i])
}

/// Whether scanning a conversation in order, stopping at the first injection,
/// only meets strings whose scan window can be cut out.
pub open spec fn conversation_scan_ok(patterns: Seq<Seq<char>>, ms: Seq<MessageView>) -> bool {
    forall|i: int|
        0 <= i < ms.len() ==> ((forall|j: int| 0 <= j < i ==> !message_flagged(patterns, #[trigger] ms[j]))
            ==> match (#[trigger] ms[i]).content {
            Some(v) => value_scan_ok(patterns, v),
            None => true,
        })
}

/// Whether some message of the conversation holds an injection, in any string
/// of its content.
pub fn find_injection(sanitizer: &SanitizerService, messages: &Vec<ChatMessage>) -> (res: bool)
    requires
        conversation_scan_ok(sanitizer@, messages_view(messages@)),
    ensures
        res == conversation_flagged(sanitizer@, messages_view(messages@)),
{
    let ghost ms = messages_view(messages@);
    let mut i: usize = 0;
    while i < messages.len()
        invariant
            i <= messages.len(),
            ms == messages_view(messages@),
            conversation_scan_ok(sanitizer@, ms),
            forall|j: int| 0 <= j < i ==> !message_flagged(sanitizer@, #[trigger] ms[j]),
        decreases messages.len() - i,
    {
        assert(ms[i as int] == messages@[i as int]@);
        match &messages[i].content {
            Some(content) => {
                if sanitizer.check_value_injection(content) {
                    assert(message_flagged(sanitizer@, ms[i as int]));
                    return true;
                }
                assert(!message_flagged(sanitizer@, ms[i as int]));
            },
            None => {},
        }
        i = i + 1;
    }
    false
}

/// Scans the conversation as `find_injection` does, in order and stopping at
/// the first injection, but answers `None` instead of reaching a string whose
/// scan window cannot be cut out.
pub fn find_injection_checked(sanitizer: &SanitizerService, messages: &Vec<ChatMessage>) -> (res:
    Option<bool>)
    ensures
        match res {
            Some(found) => conversation_scan_ok(sanitizer@, messages_view(messages@)) && found
                == conversation_flagged(sanitizer@, messages_view(messages@)),
            None => !conversation_scan_ok(sanitizer@, messages_view(messages@)),
        },
{
    let ghost ms = messages_view(messages@);
    let mut i: usize = 0;
    while i < messages.len()
        invariant
            i <= messages.len(),
            ms == messages_view(messages@),
            forall|j: int|
                0 <= j < i ==> !message_flagged(sanitizer@, #[trigger] ms[j]) && match ms[j].content {
                    Some(v) => value_scan_ok(sanitizer@, v),
                    None => true,
                },
        decreases messages.len() - i,
    {
        assert(ms[i as int] == messages@[i as int]@);
        match &messages[i].content {
            Some(content) => {
                match sanitizer.check_value_injection_checked(content) {
                    None => {
                        assert(forall|j: int| 0 <= j < i ==> !message_flagged(sanitizer@, #[trigger] ms[j]));
                        return None;
                    },
                    Some(true) => {
                        assert(message_flagged(sanitizer@, ms[i as int]));
                        assert forall|k: int| 0 <= k < ms.len() && (forall|j: int|
                            0 <= j < k ==> !message_flagged(sanitizer@, #[trigger] ms[j])) implies match (#[trigger] ms[k]).content {
                            Some(v) => value_scan_ok(sanitizer@, v),
                            None => true,
                        } by {
                            if k > i {
                                assert(!message_flagged(sanitizer@, ms[i as int]));
                            }
                        }
                        return Some(true);
                    },
                    Some(false) => {},
                }
            },
            None => {},
        }
        i = i + 1;
    }
    assert forall|k: int| 0 <= k < ms.len() && (forall|j: int|
        0 <= j < k ==> !message_flagged(sanitizer@, #[trigger] ms[j])) implies match (#[trigger] ms[k]).content {
        Some(v) => value_scan_ok(sanitizer@, v),
        None => true,
    } by {}
    Some(false)
}

/// The answer given to a request that breaks the injection policy.
pub open spec fn is_policy_violation(e: ErrorResponse) -> bool {
    &&& e.error.message@
        == "Request blocked by AI Guard Security Policy: Prompt Injection or Jailbreak Attempt Detected."@
    &&& e.error.error_type@ == "security_policy_violation"@
    &&& e.error.code@ == "prompt_injection_blocked"@
}

pub fn policy_violation() -> (res: ErrorResponse)
    ensures
        is_policy_violation(res),
{
    ErrorResponse {
        error: ErrorDetails {
            message: String::from_str(
                "Request blocked by AI Guard Security Policy: Prompt Injection or Jailbreak Attempt Detected.",
            ),
            error_type: String::from_str("security_policy_violation"),
            code: String::from_str("prompt_injection_blocked"),
        },
    }
}

// ---------------------------------------------------------------------------
// The decision on a chat-completion request
// ---------------------------------------------------------------------------

/// The upstream call that a request becomes.
#[derive(Debug)]
pub struct UpstreamCall {
    pub target_url: String,
    pub provider: String,
    pub authorization: String,
    /// The caller's headers that are passed on, after `Content-Type` and
    /// `Authorization`.
    pub headers: Vec<Header>,
    pub request: ChatCompletionRequest,
}

/// What becomes of a chat-completion request.
#[derive(Debug)]
pub enum ProxyDecision {
    /// Refused with this error (sent with status 400).
    Reject(ErrorResponse),
    /// Sent upstream.
    Forward(UpstreamCall),
}

/// The scope that the request's scope header names, read as text.
pub open spec fn scope_header_text(hs: Seq<HeaderView>, header_name: Seq<char>) -> Option<
    Seq<char>,
> {
    value_text(first_named_lowercase(hs, unicode_lowercase(header_name)))
}

/// The conversation sent upstream: scoped, then, when the truncator is on,
/// with its tool payloads truncated.
pub open spec fn upstream_conversation(
    config: AppConfig,
    hs: Seq<HeaderView>,
    conversation: Seq<MessageView>,
) -> Seq<MessageView> {
    let scoped = with_scope(conversation, scope_header_text(hs, config.scope_header@));
    if config.enable_truncator {
        truncated_messages(scoped, config.max_array_items as nat)
    } else {
        scoped
    }
}

/// Whether `d` is the decision on request `req` with headers `hs`: refused
/// with the policy error exactly when the sanitizer is on and the normalised
/// conversation holds an injection; otherwise forwarded with the model kept,
/// `prompt`, `input` and unknown fields gone, the upstream conversation, and
/// the chosen provider, endpoint, authorisation and headers.
pub open spec fn is_decision_for(
    config: AppConfig,
    patterns: Seq<Seq<char>>,
    hs: Seq<HeaderView>,
    req: ChatCompletionRequest,
    d: ProxyDecision,
) -> bool {
    match d {
        ProxyDecision::Reject(e) => {
            &&& config.enable_sanitizer
            &&& conversation_flagged(patterns, request_conversation(req))
            &&& is_policy_violation(e)
        },
        ProxyDecision::Forward(call) => {
            let provider = resolved_provider(
                value_text(first_named(hs, "x-llm-provider"@)),
                req.model@,
                config.llm_provider@,
            );
            &&& !(config.enable_sanitizer && conversation_flagged(
                patterns,
                request_conversation(req),
            ))
            &&& call.request.model == req.model
            &&& call.request.prompt is None
            &&& call.request.input is None
            &&& call.request.extra_fields@.len() == 0
            &&& messages_view(call.request.messages@) == upstream_conversation(
                config,
                hs,
                request_conversation(req),
            )
            &&& call.provider@ == provider
            &&& call.target_url@ == completions_url(provider_base_url(provider, config.llm_base_url@))
            &&& call.authorization@ == authorization_for(hs, config.llm_api_key@)
            &&& headers_view(call.headers@) == forwarded(hs)
        },
    }
}

/// Decides what becomes of a chat-completion request (see `is_decision_for`):
/// the request is normalised; with the sanitizer on, a conversation holding an
/// injection is refused; otherwise the scope is injected, tool payloads are
/// truncated (with the truncator on), unknown fields are dropped, and the
/// provider, endpoint, authorisation and headers to pass on are chosen.
pub fn prepare_chat_completion(
    config: &AppConfig,
    sanitizer: &SanitizerService,
    headers: &Vec<Header>,
    req: ChatCompletionRequest,
) -> (res: ProxyDecision)
    requires
        config.enable_sanitizer ==> conversation_scan_ok(sanitizer@, request_conversation(req)),
    ensures
        is_decision_for(*config, sanitizer@, headers_view(headers@), req, res),
{
    let mut req = req;
    normalize_request(&mut req);

    let scope_val = header_get_text_ignoring_case(headers, config.scope_header.as_str());

    if config.enable_sanitizer {
        if find_injection(sanitizer, &req.messages) {
            return ProxyDecision::Reject(policy_violation());
        }
    }

    let scope_ref: Option<&str> = match &scope_val {
        Some(t) => Some(t.as_str()),
        None => None,
    };
    ContextService::inject_scope(&mut req.messages, scope_ref);

    if config.enable_truncator {
        TruncatorService::truncate_tool_results(&mut req.messages, config.max_array_items);
    }

    req.extra_fields.clear();

    let custom_provider = header_get_text(headers, "x-llm-provider");
    let custom_ref: Option<&str> = match &custom_provider {
        Some(t) => Some(t.as_str()),
        None => None,
    };
    let (target_url, provider_name) = resolve_target_url(
        custom_ref,
        req.model.as_str(),
        config.llm_provider.as_str(),
        config.llm_base_url.as_str(),
    );

    let authorization = authorization_value(headers, config.llm_api_key.as_str());
    let passed_on = forwarded_headers(headers);

    ProxyDecision::Forward(
        UpstreamCall {
            target_url,
            provider: provider_name,
            authorization,
            headers: passed_on,
            request: req,
        },
    )
}

/// The decision on a request (see `is_decision_for`), or `None` when the
/// sanitizer is on and scanning the normalised conversation, in order and
/// stopping at the first injection, would reach a string whose scan window
/// cannot be cut out.
pub fn prepare_chat_completion_checked(
    config: &AppConfig,
    sanitizer: &SanitizerService,
    headers: &Vec<Header>,
    req: ChatCompletionRequest,
) -> (res: Option<ProxyDecision>)
    ensures
        match res {
            Some(d) => is_decision_for(*config, sanitizer@, headers_view(headers@), req, d),
            None => config.enable_sanitizer && !conversation_scan_ok(
                sanitizer@,
                request_conversation(req),
            ),
        },
{
    let ghost original = req;
    let mut req = req;
    normalize_request(&mut req);
    proof {
        assert(extracted_text(None, None).len() == 0);
        assert(request_conversation(req) == request_conversation(original));
    }
    if config.enable_sanitizer {
        if find_injection_checked(sanitizer, &req.messages).is_none() {
            return None;
        }
    }
    Some(prepare_chat_completion(config, sanitizer, headers, req))
}

// ---------------------------------------------------------------------------
// Laws
// ---------------------------------------------------------------------------

/// The headers passed on upstream are exactly the caller's headers that are
/// not withheld, in their order: in particular the caller's `Authorization`,
/// `Host` and provider header are never copied.
pub proof fn lemma_forwarded_exactly_unwithheld(hs: Seq<HeaderView>)
    ensures
        forall|i: int|
            0 <= i < forwarded(hs).len() ==> !is_withheld((#[trigger] forwarded(hs)[i]).name),
        forwarded(hs) == hs.filter(|h: HeaderView| !is_withheld(h.name)),
    decreases hs.len(),
{
    reveal(Seq::filter);
    if hs.len() > 0 {
        lemma_forwarded_exactly_unwithheld(hs.drop_last());
    }
}

/// Every endpoint the gateway calls is the chat-completions path of a base URL.
pub proof fn lemma_endpoint_is_completions_path(base: Seq<char>)
    ensures
        completions_url(base).len() >= "/chat/completions"@.len(),
        completions_url(base).skip(completions_url(base).len() - "/chat/completions"@.len())
            == "/chat/completions"@,
{
    let u = completions_url(base);
    assert(u.skip(u.len() - "/chat/completions"@.len()) =~= "/chat/completions"@);
}

/// With the sanitizer on, a request is refused with the policy error as soon as
/// one message of its normalised conversation, whatever its role (user,
/// system, assistant, tool, ...), holds an injection in some string of its
/// content.
pub proof fn lemma_injection_in_any_message_refused(
    config: AppConfig,
    patterns: Seq<Seq<char>>,
    hs: Seq<HeaderView>,
    req: ChatCompletionRequest,
    d: ProxyDecision,
    i: int,
    v: JsonTree,
)
    requires
        is_decision_for(config, patterns, hs, req, d),
        config.enable_sanitizer,
        0 <= i < request_conversation(req).len(),
        request_conversation(req)[i].content == Some(v),
        value_has_injection(patterns, v),
    ensures
        d is Reject,
        is_policy_violation(d->Reject_0),
{
    assert(message_flagged(patterns, request_conversation(req)[i]));
}

/// With the sanitizer on, a request is refused with the policy error when one
/// of its messages, of any role, has a text content of at most `SCAN_LIMIT`
/// bytes that one of the patterns matches.
pub proof fn lemma_matched_text_refused(
    config: AppConfig,
    patterns: Seq<Seq<char>>,
    hs: Seq<HeaderView>,
    req: ChatCompletionRequest,
    d: ProxyDecision,
    i: int,
    text: Seq<char>,
    k: int,
)
    requires
        is_decision_for(config, patterns, hs, req, d),
        config.enable_sanitizer,
        0 <= i < request_conversation(req).len(),
        request_conversation(req)[i].content == Some(JsonTree::Str(text)),
        utf8_len(text) <= SCAN_LIMIT,
        0 <= k < patterns.len(),
        regex_is_match(patterns[k], text),
    ensures
        d is Reject,
        is_policy_violation(d->Reject_0),
{
    assert(scan_window(text) == text);
    assert(injection_found(patterns, text));
    lemma_injection_in_any_message_refused(config, patterns, hs, req, d, i, JsonTree::Str(text));
}

/// What is sent upstream is the normalised conversation with the scope
/// injected; with the truncator off nothing else is changed (no tool payload
/// is cut), and with it on, tool payloads are truncated to the configured
/// number of items.
pub proof fn lemma_truncator_switch(
    config: AppConfig,
    patterns: Seq<Seq<char>>,
    hs: Seq<HeaderView>,
    req: ChatCompletionRequest,
    call: UpstreamCall,
)
    requires
        is_decision_for(config, patterns, hs, req, ProxyDecision::Forward(call)),
    ensures
        !config.enable_truncator ==> messages_view(call.request.messages@) == with_scope(
            request_conversation(req),
            scope_header_text(hs, config.scope_header@),
        ),
        config.enable_truncator ==> messages_view(call.request.messages@) == truncated_messages(
            with_scope(request_conversation(req), scope_header_text(hs, config.scope_header@)),
            config.max_array_items as nat,
        ),
{
}

/// A request is refused exactly when the sanitizer is on and some message of
/// its normalised conversation, of any role, holds an injection in some string
/// of its content; a refusal always carries the policy error.
pub proof fn lemma_refused_exactly_on_injection(
    config: AppConfig,
    patterns: Seq<Seq<char>>,
    hs: Seq<HeaderView>,
    req: ChatCompletionRequest,
    d: ProxyDecision,
)
    requires
        is_decision_for(config, patterns, hs, req, d),
    ensures
        (d is Reject) <==> (config.enable_sanitizer && exists|i: int|
            0 <= i < request_conversation(req).len() && (#[trigger] request_conversation(req)[i]).content
                is Some && value_has_injection(
                patterns,
                request_conversation(req)[i].content->0,
            )),
        d is Reject ==> is_policy_violation(d->Reject_0),
{
    let ms = request_conversation(req);
    if d is Reject {
        let i = choose|i: int| 0 <= i < ms.len() && message_flagged(patterns, #[trigger] ms[i]);
        assert(ms[i].content is Some && value_has_injection(patterns, ms[i].content->0));
    } else if config.enable_sanitizer && exists|i: int|
        0 <= i < ms.len() && (#[trigger] ms[i]).content is Some && value_has_injection(
            patterns,
            ms[i].content->0,
        ) {
        let i = choose|i: int|
            0 <= i < ms.len() && (#[trigger] ms[i]).content is Some && value_has_injection(
                patterns,
                ms[i].content->0,
            );
        assert(message_flagged(patterns, ms[i]));
    }
}

} // verus!
