use vstd::prelude::*;
use crate::json::{json_reading, json_text, read_json, to_json_string, JsonTree, JsonValue};
use crate::models::{content_tree, messages_view, ChatMessage, MessageView};
use crate::number::{decimal_string, decimal_text};
use crate::text::text_eq;

verus! {

/// The key of the notice that stands in for the elements cut from an array.
pub open spec fn meta_key() -> Seq<char> {
    "_ai_guard_meta"@
}

/// The notice that says how many of how many elements are shown.
pub open spec fn notice_text(shown: nat, total: nat) -> Seq<char> {
    "Array truncated by AI Guard Gateway. Showing "@ + decimal_text(shown) + " of "@
        + decimal_text(total) + " total items."@
}

/// The object appended to a truncated array.
pub open spec fn meta_notice(shown: nat, total: nat) -> JsonTree {
    JsonTree::Object(seq![(meta_key(), JsonTree::Str(notice_text(shown, total)))])
}

/// `v` with every array that is longer than `max` and is `v` itself or sits
/// in objects only (not inside another array) cut to its first `max`
/// elements, followed by a notice.
pub open spec fn truncated_tree(v: JsonTree, max: nat) -> JsonTree
    decreases v,
{
    match v {
        JsonTree::Array(items) => if items.len() > max {
            JsonTree::Array(items.take(max as int).push(meta_notice(max, items.len())))
        } else {
            v
        },
        JsonTree::Object(members) => JsonTree::Object(
            Seq::new(
                members.len(),
                |i: int|
                    {
                        let key: Seq<char> = if 0 <= i < members.len() {
                            members[i].0
                        } else {
                            Seq::empty()
                        };
                        let value: JsonTree = if 0 <= i < members.len() {
                            truncated_tree(members[i].1, max)
                        } else {
                            JsonTree::Null
                        };
                        (key, value)
                    },
            ),
        ),
        _ => v,
    }
}

/// Whether `truncated_tree` cuts anything from `v`.
pub open spec fn truncation_applies(v: JsonTree, max: nat) -> bool
    decreases v,
{
    match v {
        JsonTree::Array(items) => items.len() > max,
        JsonTree::Object(members) => exists|i: int|
            0 <= i < members.len() && truncation_applies((#[trigger] members[i]).1, max),
        _ => false,
    }
}

/// Whether a message with this role carries a tool's result.
pub open spec fn is_tool_role(role: Seq<char>) -> bool {
    role == "tool"@ || role == "function"@
}

/// The content that a tool message has once its payload is truncated: an
/// array content is truncated; a string content that reads as JSON, and whose
/// reading has something to cut, becomes the JSON text of the truncated
/// reading; any other content stays.
pub open spec fn truncated_content(content: Option<JsonTree>, max: nat) -> Option<JsonTree> {
    match content {
        Some(JsonTree::Str(t)) => match json_reading(t) {
            Some(p) => if truncation_applies(p, max) {
                Some(JsonTree::Str(json_text(truncated_tree(p, max))))
            } else {
                content
            },
            None => content,
        },
        Some(JsonTree::Array(items)) => Some(truncated_tree(JsonTree::Array(items), max)),
        _ => content,
    }
}

/// A message once its tool payload, if it is a tool message, is truncated.
pub open spec fn truncated_message(m: MessageView, max: nat) -> MessageView {
    if is_tool_role(m.role) {
        MessageView { content: truncated_content(m.content, max), ..m }
    } else {
        m
    }
}

/// Every message of `ms` once tool payloads are truncated.
pub open spec fn truncated_messages(ms: Seq<MessageView>, max: nat) -> Seq<MessageView> {
    ms.map_values(|m: MessageView| truncated_message(m, max))
}

/// Cuts the over-long arrays in the tool results among chat messages.
pub struct TruncatorService;

impl TruncatorService {
    /// Cuts every over-long array in `val` (see `truncated_tree`) and tells
    /// whether anything was cut.
    pub fn truncate_json(val: &mut JsonValue, max_items: usize) -> (modified: bool)
        ensures
            final(val)@ == truncated_tree(old(val)@, max_items as nat),
            modified == truncation_applies(old(val)@, max_items as nat),
        decreases *old(val),
    {
        match val {
            JsonValue::Array(arr) => {
                let ghost orig = arr@;
                let ghost trees = old(val)@->Array_0;
                assert forall|k: int| 0 <= k < orig.len() implies #[trigger] trees[k] == orig[k]@ by {
                    assert(trees[k] == orig[k]@);
                }
                if arr.len() > max_items {
                    let total = arr.len();
                    arr.truncate(max_items);
                    let notice = meta_notice_value(max_items, total);
                    arr.push(notice);
                    proof {
                        let fin = JsonValue::Array(*arr)@->Array_0;
                        assert forall|k: int| 0 <= k < arr@.len() implies #[trigger] fin[k] == arr@[k]@ by {
                            assert(fin[k] == arr@[k]@);
                        }
                        assert(fin =~= trees.take(max_items as int).push(
                            meta_notice(max_items as nat, total as nat),
                        ));
                    }
                    true
                } else {
                    false
                }
            },
            JsonValue::Object(obj) => {
                let ghost orig = obj@;
                let ghost trees = old(val)@->Object_0;
                assert(*old(val) == JsonValue::Object(*obj));
                assert forall|k: int| 0 <= k < orig.len() implies #[trigger] trees[k] == (
                    orig[k].0@,
                    orig[k].1@,
                ) by {
                    assert(trees[k] == (orig[k].0@, orig[k].1@));
                }
                let mut modified = false;
                let mut i: usize = 0;
                while i < obj.len()
                    invariant
                        i <= obj.len(),
                        obj.len() == orig.len(),
                        *old(val) is Object,
                        old(val)->Object_0@ == orig,
                        trees == old(val)@->Object_0,
                        trees.len() == orig.len(),
                        forall|k: int| 0 <= k < orig.len() ==> #[trigger] trees[k] == (
                            orig[k].0@,
                            orig[k].1@,
                        ),
                        forall|k: int| i <= k < obj.len() ==> #[trigger] obj@[k] == orig[k],
                        forall|k: int|
                            0 <= k < i ==> (#[trigger] obj@[k]).0 == orig[k].0 && obj@[k].1@
                                == truncated_tree(trees[k].1, max_items as nat),
                        modified == exists|k: int|
                            0 <= k < i && truncation_applies((#[trigger] trees[k]).1, max_items as nat),
                    decreases obj.len() - i,
                {
                    proof {
                        assert(decreases_to!(*old(val) => (*old(val))->Object_0));
                        assert(decreases_to!((*old(val))->Object_0 => orig));
                        assert(decreases_to!(orig => orig[i as int]));
                        assert(decreases_to!(orig[i as int] => orig[i as int].1));
                    }
                    let m = Self::truncate_json(&mut obj[i].1, max_items);
                    if m {
                        modified = true;
                    }
                    i = i + 1;
                }
                proof {
                    let fin = JsonValue::Object(*obj)@->Object_0;
                    assert forall|k: int| 0 <= k < obj@.len() implies #[trigger] fin[k] == (
                        obj@[k].0@,
                        obj@[k].1@,
                    ) by {
                        assert(fin[k] == (obj@[k].0@, obj@[k].1@));
                    }
                    assert(fin =~= truncated_tree(old(val)@, max_items as nat)->Object_0);
                }
                modified
            },
            _ => false,
        }
    }
}

impl TruncatorService {
    /// Truncates the payload of every tool message (role `tool` or `function`),
    /// as `truncated_messages` says: an array content is cut in place, and a
    /// string content that parses as JSON with something to cut is replaced
    /// by the compact JSON text of the cut value.
    pub fn truncate_tool_results(messages: &mut Vec<ChatMessage>, max_items: usize)
        ensures
            messages_view(final(messages)@) == truncated_messages(
                messages_view(old(messages)@),
                max_items as nat,
            ),
    {
        let mut i: usize = 0;
        while i < messages.len()
            invariant
                i <= messages.len(),
                messages@.len() == old(messages)@.len(),
                forall|k: int| i <= k < messages@.len() ==> #[trigger] messages@[k] == old(messages)@[k],
                forall|k: int|
                    0 <= k < i ==> (#[trigger] messages@[k])@ == truncated_message(
                        old(messages)@[k]@,
                        max_items as nat,
                    ),
            decreases messages.len() - i,
        {
            proof {
                reveal_strlit("tool");
                reveal_strlit("function");
            }
            let is_tool = text_eq(messages[i].role.as_str(), "tool") || text_eq(
                messages[i].role.as_str(),
                "function",
            );
            if is_tool {
                Self::truncate_content(&mut messages[i].content, max_items);
            }
            i = i + 1;
        }
        assert(messages_view(messages@) =~= truncated_messages(
            messages_view(old(messages)@),
            max_items as nat,
        ));
    }

    /// Truncates one tool message's content (see `truncated_content`).
    fn truncate_content(content: &mut Option<JsonValue>, max_items: usize)
        ensures
            content_tree(*final(content)) == truncated_content(
                content_tree(*old(content)),
                max_items as nat,
            ),
    {
        let reading: Option<JsonValue> = match content {
            Some(JsonValue::String(t)) => read_json(t.as_str()),
            _ => None,
        };
        let is_array = match content {
            Some(JsonValue::Array(_)) => true,
            _ => false,
        };
        match reading {
            Some(mut p) => {
                if Self::truncate_json(&mut p, max_items) {
                    *content = Some(JsonValue::String(to_json_string(&p)));
                }
            },
            None => {
                if is_array {
                    match content {
                        Some(c) => {
                            let _ = Self::truncate_json(c, max_items);
                        },
                        None => {},
                    }
                }
            },
        }
    }
}

/// The notice object, built as `json!` builds it.
fn meta_notice_value(shown: usize, total: usize) -> (res: JsonValue)
    ensures
        res@ == meta_notice(shown as nat, total as nat),
{
    proof {
        reveal_strlit("_ai_guard_meta");
        reveal_strlit("Array truncated by AI Guard Gateway. Showing ");
        reveal_strlit(" of ");
        reveal_strlit(" total items.");
    }
    let mut text = String::from_str("Array truncated by AI Guard Gateway. Showing ");
    let a = decimal_string(shown);
    text.append(a.as_str());
    text.append(" of ");
    let b = decimal_string(total);
    text.append(b.as_str());
    text.append(" total items.");
    let mut members: Vec<(String, JsonValue)> = Vec::new();
    assert(text@ =~= notice_text(shown as nat, total as nat));
    let key = String::from_str("_ai_guard_meta");
    let value = JsonValue::String(text);
    assert(value@ == JsonTree::Str(notice_text(shown as nat, total as nat)));
    members.push((key, value));
    let res = JsonValue::Object(members);
    assert(members@[0] == (key, value));
    assert(res@->Object_0[0] == (members@[0].0@, members@[0].1@));
    assert(res@->Object_0[0] == (meta_key(), JsonTree::Str(notice_text(shown as nat, total as nat))));
    assert(res@->Object_0 =~= seq![(meta_key(), JsonTree::Str(notice_text(shown as nat, total as nat)))]);
    res
}

// ---------------------------------------------------------------------------
// Laws
// ---------------------------------------------------------------------------

/// A value with nothing to cut is left exactly as it was.
pub proof fn lemma_nothing_to_cut_unchanged(v: JsonTree, max: nat)
    requires
        !truncation_applies(v, max),
    ensures
        truncated_tree(v, max) == v,
    decreases v,
{
    match v {
        JsonTree::Object(members) => {
            assert forall|i: int| 0 <= i < members.len() implies truncated_tree(
                (#[trigger] members[i]).1,
                max,
            ) == members[i].1 by {
                lemma_nothing_to_cut_unchanged(members[i].1, max);
            }
            assert(truncated_tree(v, max)->Object_0 =~= members);
        },
        _ => {},
    }
}

/// Truncating an over-long array keeps its first `max` elements as they were
/// and adds one notice that tells how many of how many are shown.
pub proof fn lemma_truncation_keeps_prefix(items: Seq<JsonTree>, max: nat)
    requires
        items.len() > max,
    ensures
        truncated_tree(JsonTree::Array(items), max) is Array,
        truncated_tree(JsonTree::Array(items), max)->Array_0.len() == max + 1,
        truncated_tree(JsonTree::Array(items), max)->Array_0.take(max as int) == items.take(
            max as int,
        ),
        truncated_tree(JsonTree::Array(items), max)->Array_0[max as int] == meta_notice(
            max,
            items.len(),
        ),
{
    assert(items.take(max as int).push(meta_notice(max, items.len())).take(max as int) =~= items.take(
        max as int,
    ));
}

/// Whether every array in `v` that truncation reaches (`v` itself, or one
/// held in objects only) has at most `bound` elements.
pub open spec fn reached_arrays_within(v: JsonTree, bound: nat) -> bool
    decreases v,
{
    match v {
        JsonTree::Array(items) => items.len() <= bound,
        JsonTree::Object(members) => forall|i: int|
            0 <= i < members.len() ==> reached_arrays_within((#[trigger] members[i]).1, bound),
        _ => true,
    }
}

/// After truncation no reached array holds more than `max` elements and the
/// notice.
pub proof fn lemma_truncation_bounds_arrays(v: JsonTree, max: nat)
    ensures
        reached_arrays_within(truncated_tree(v, max), max + 1),
    decreases v,
{
    match v {
        JsonTree::Object(members) => {
            let out = truncated_tree(v, max)->Object_0;
            assert forall|i: int| 0 <= i < out.len() implies reached_arrays_within(
                (#[trigger] out[i]).1,
                max + 1,
            ) by {
                lemma_truncation_bounds_arrays(members[i].1, max);
            }
        },
        _ => {},
    }
}

/// Truncation keeps the conversation's length and order, and leaves every
/// message that is not a tool message as it was.
pub proof fn lemma_only_tool_messages_change(ms: Seq<MessageView>, max: nat)
    ensures
        truncated_messages(ms, max).len() == ms.len(),
        forall|i: int|
            0 <= i < ms.len() && !is_tool_role(ms[i].role) ==> #[trigger] truncated_messages(ms, max)[i] == ms[i],
        forall|i: int|
            0 <= i < ms.len() ==> (#[trigger] truncated_messages(ms, max)[i]).role
                == ms[i].role,
{
}

/// Each message is truncated on its own: what becomes of the `i`-th message
/// is what truncating that message alone gives, whatever the other messages
/// are (a tool payload is truncated whether or not other tool messages come
/// before it).
pub proof fn lemma_truncation_message_by_message(ms: Seq<MessageView>, max: nat, i: int)
    requires
        0 <= i < ms.len(),
    ensures
        truncated_messages(ms, max).len() == ms.len(),
        truncated_messages(seq![ms[i]], max).len() == 1,
        truncated_messages(ms, max)[i] == truncated_messages(seq![ms[i]], max)[0],
{
}

/// Truncating two parts of a conversation one after the other is truncating
/// the whole conversation.
pub proof fn lemma_truncation_splits(a: Seq<MessageView>, b: Seq<MessageView>, max: nat)
    ensures
        truncated_messages(a + b, max) == truncated_messages(a, max) + truncated_messages(b, max),
{
    assert(truncated_messages(a + b, max) =~= truncated_messages(a, max) + truncated_messages(
        b,
        max,
    ));
}

/// A message with role `tool` or `function` whose content is an array longer
/// than `max` comes out with that array cut to its first `max` elements and a
/// notice of how many of how many are shown; its role and other fields stay.
pub proof fn lemma_tool_array_payload_truncated(m: MessageView, max: nat, items: Seq<JsonTree>)
    requires
        m.role == "tool"@ || m.role == "function"@,
        m.content == Some(JsonTree::Array(items)),
        items.len() > max,
    ensures
        ({
            let out = truncated_message(m, max);
            &&& out.role == m.role
            &&& out.name == m.name
            &&& out.tool_calls == m.tool_calls
            &&& out.tool_call_id == m.tool_call_id
            &&& out.content matches Some(JsonTree::Array(cut)) && cut.len() == max + 1 && cut.take(
                max as int,
            ) == items.take(max as int) && cut[max as int] == meta_notice(max, items.len())
        }),
{
    lemma_truncation_keeps_prefix(items, max);
}

} // verus!
