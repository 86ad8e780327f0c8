use ai_guard_gateway::context::ContextService;
use ai_guard_gateway::json::JsonValue;
use ai_guard_gateway::models::ChatMessage;

fn message(role: &str, content: Option<JsonValue>) -> ChatMessage {
    ChatMessage { role: role.to_string(), content, name: None, tool_calls: None, tool_call_id: None }
}

fn text(s: &str) -> Option<JsonValue> {
    Some(JsonValue::String(s.to_string()))
}

const DIRECTIVE: &str = "\n\n[SECURITY DIRECTIVE - MANDATORY SCOPE BOUNDARY]: You are operating under the scope: \"Organization: AcmeCorp, Department: Finance\". Do not access or leak data outside this scope boundary.";

#[test]
fn scope_is_appended_to_the_first_system_message() {
    let mut messages = vec![
        message("user", text("hi")),
        message("system", text("Be brief.")),
        message("system", text("Second.")),
    ];
    ContextService::inject_scope(
        &mut messages,
        Some("  Organization: AcmeCorp, Department: Finance \t"),
    );
    assert_eq!(messages.len(), 3);
    assert_eq!(messages[0], message("user", text("hi")));
    assert_eq!(messages[1], message("system", text(&format!("Be brief.{}", DIRECTIVE))));
    assert_eq!(messages[2], message("system", text("Second.")));
}

#[test]
fn system_message_is_added_when_there_is_none() {
    let mut messages = vec![message("user", text("Tampilkan ringkasan perangkat"))];
    ContextService::inject_scope(&mut messages, Some("Organization: AcmeCorp, Department: Finance"));
    assert_eq!(messages.len(), 2);
    assert_eq!(messages[0], message("system", text(&format!("System Initialized.{}", DIRECTIVE))));
    assert_eq!(messages[1], message("user", text("Tampilkan ringkasan perangkat")));
}

#[test]
fn blank_or_missing_scope_changes_nothing() {
    let mut messages = vec![message("user", text("hi"))];
    ContextService::inject_scope(&mut messages, Some(" \n\t "));
    ContextService::inject_scope(&mut messages, None);
    assert_eq!(messages, vec![message("user", text("hi"))]);
}

const FINANCE: &str = "\n\n[SECURITY DIRECTIVE - MANDATORY SCOPE BOUNDARY]: You are operating under the scope: \"Finance\". Do not access or leak data outside this scope boundary.";

#[test]
fn directive_reaches_system_messages_without_text() {
    let mut messages = vec![
        message("system", Some(JsonValue::Array(vec![]))),
        message("system", text("later")),
    ];
    ContextService::inject_scope(&mut messages, Some("Finance"));
    let part = JsonValue::Object(vec![
        ("type".to_string(), JsonValue::String("text".to_string())),
        ("text".to_string(), JsonValue::String(FINANCE.to_string())),
    ]);
    assert_eq!(messages[0], message("system", Some(JsonValue::Array(vec![part]))));
    assert_eq!(messages[1], message("system", text("later")));
    let mut absent = vec![message("system", None)];
    ContextService::inject_scope(&mut absent, Some("Finance"));
    assert_eq!(absent, vec![message("system", text(FINANCE))]);
    let mut null = vec![message("system", Some(JsonValue::Null))];
    ContextService::inject_scope(&mut null, Some("Finance"));
    assert_eq!(null, vec![message("system", text(FINANCE))]);
}

#[test]
fn system_message_that_cannot_carry_the_directive_gets_one_in_front() {
    let mut messages = vec![message("system", Some(JsonValue::Bool(true))), message("user", text("hi"))];
    ContextService::inject_scope(&mut messages, Some("Finance"));
    assert_eq!(messages.len(), 3);
    assert_eq!(messages[0], message("system", text(&format!("System Initialized.{}", FINANCE))));
    assert_eq!(messages[1], message("system", Some(JsonValue::Bool(true))));
    assert_eq!(messages[2], message("user", text("hi")));
}
