use ai_guard_gateway::json::{to_json_string, JsonValue};
use ai_guard_gateway::models::ChatMessage;
use ai_guard_gateway::truncator::TruncatorService;

fn num(n: u32) -> JsonValue {
    JsonValue::Number(n.to_string())
}

fn notice(shown: usize, total: usize) -> JsonValue {
    JsonValue::Object(vec![(
        "_ai_guard_meta".to_string(),
        JsonValue::String(format!(
            "Array truncated by AI Guard Gateway. Showing {} of {} total items.",
            shown, total
        )),
    )])
}

fn message(role: &str, content: Option<JsonValue>) -> ChatMessage {
    ChatMessage { role: role.to_string(), content, name: None, tool_calls: None, tool_call_id: None }
}

#[test]
fn long_array_is_cut_with_notice() {
    let mut v = JsonValue::Array((1..=7).map(num).collect());
    assert!(TruncatorService::truncate_json(&mut v, 5));
    let mut expected: Vec<JsonValue> = (1..=5).map(num).collect();
    expected.push(notice(5, 7));
    assert_eq!(v, JsonValue::Array(expected));
}

#[test]
fn short_array_is_untouched() {
    let mut v = JsonValue::Array((1..=5).map(num).collect());
    assert!(!TruncatorService::truncate_json(&mut v, 5));
    assert_eq!(v, JsonValue::Array((1..=5).map(num).collect()));
}

#[test]
fn arrays_inside_objects_are_cut_but_not_arrays_inside_arrays() {
    let inner = JsonValue::Array((1..=3).map(num).collect());
    let mut v = JsonValue::Object(vec![
        ("rows".to_string(), JsonValue::Array(vec![num(1), num(2), num(3)])),
        ("nested".to_string(), JsonValue::Array(vec![inner])),
        ("name".to_string(), JsonValue::String("x".to_string())),
    ]);
    assert!(TruncatorService::truncate_json(&mut v, 2));
    let expected = JsonValue::Object(vec![
        ("rows".to_string(), JsonValue::Array(vec![num(1), num(2), notice(2, 3)])),
        ("nested".to_string(), JsonValue::Array(vec![JsonValue::Array((1..=3).map(num).collect())])),
        ("name".to_string(), JsonValue::String("x".to_string())),
    ]);
    assert_eq!(v, expected);
}

#[test]
fn zero_limit_keeps_only_the_notice() {
    let mut v = JsonValue::Array(vec![num(1)]);
    assert!(TruncatorService::truncate_json(&mut v, 0));
    assert_eq!(v, JsonValue::Array(vec![notice(0, 1)]));
}

#[test]
fn tool_message_text_is_rewritten_as_compact_json() {
    let text = "{\"items\": [1, 2, 3]}";
    let mut messages = vec![
        message("user", Some(JsonValue::String(text.to_string()))),
        message("tool", Some(JsonValue::String(text.to_string()))),
        message("function", Some(JsonValue::String("not json".to_string()))),
    ];
    TruncatorService::truncate_tool_results(&mut messages, 2);
    assert_eq!(messages[0], message("user", Some(JsonValue::String(text.to_string()))));
    assert_eq!(
        messages[1],
        message(
            "tool",
            Some(JsonValue::String(
                "{\"items\":[1,2,{\"_ai_guard_meta\":\"Array truncated by AI Guard Gateway. Showing 2 of 3 total items.\"}]}"
                    .to_string()
            ))
        )
    );
    assert_eq!(messages[2], message("function", Some(JsonValue::String("not json".to_string()))));
}

#[test]
fn tool_message_text_with_nothing_to_cut_is_kept_verbatim() {
    let text = "[1,  2]";
    let mut messages = vec![message("tool", Some(JsonValue::String(text.to_string())))];
    TruncatorService::truncate_tool_results(&mut messages, 5);
    assert_eq!(messages[0], message("tool", Some(JsonValue::String(text.to_string()))));
}

#[test]
fn tool_message_array_content_is_cut_in_place() {
    let mut messages = vec![
        message("tool", Some(JsonValue::Array(vec![num(1), num(2), num(3)]))),
        message("assistant", Some(JsonValue::Array(vec![num(1), num(2), num(3)]))),
        message("tool", None),
    ];
    TruncatorService::truncate_tool_results(&mut messages, 1);
    assert_eq!(messages[0], message("tool", Some(JsonValue::Array(vec![num(1), notice(1, 3)]))));
    assert_eq!(
        messages[1],
        message("assistant", Some(JsonValue::Array(vec![num(1), num(2), num(3)])))
    );
    assert_eq!(messages[2], message("tool", None));
}

#[test]
fn compact_json_text() {
    let v = JsonValue::Object(vec![
        ("a".to_string(), JsonValue::Null),
        ("b".to_string(), JsonValue::Bool(false)),
        ("c".to_string(), JsonValue::String("say \"hi\"\n".to_string())),
        ("d".to_string(), JsonValue::Array(vec![])),
    ]);
    assert_eq!(to_json_string(&v), "{\"a\":null,\"b\":false,\"c\":\"say \\\"hi\\\"\\n\",\"d\":[]}");
}

#[test]
fn tool_message_text_that_is_not_json_is_kept() {
    let mut messages = vec![
        message("tool", Some(JsonValue::String("hello".to_string()))),
        message("tool", Some(JsonValue::String("[1, 2, 3".to_string()))),
    ];
    TruncatorService::truncate_tool_results(&mut messages, 1);
    assert_eq!(messages[0], message("tool", Some(JsonValue::String("hello".to_string()))));
    assert_eq!(messages[1], message("tool", Some(JsonValue::String("[1, 2, 3".to_string()))));
}

#[test]
fn tool_message_text_objects_come_back_with_sorted_keys() {
    let text = "{\"z\": [true, false], \"a\": 1.50}";
    let mut messages = vec![message("function", Some(JsonValue::String(text.to_string())))];
    TruncatorService::truncate_tool_results(&mut messages, 1);
    assert_eq!(
        messages[0],
        message(
            "function",
            Some(JsonValue::String(
                "{\"a\":1.5,\"z\":[true,{\"_ai_guard_meta\":\"Array truncated by AI Guard Gateway. Showing 1 of 2 total items.\"}]}".to_string()
            ))
        )
    );
}

#[test]
fn control_characters_are_escaped() {
    let v = JsonValue::String("\u{1}\u{1f}\u{8}\u{c}\r\t\\/\u{7f}".to_string());
    assert_eq!(to_json_string(&v), "\"\\u0001\\u001f\\b\\f\\r\\t\\\\/\u{7f}\"");
}
