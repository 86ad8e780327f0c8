use vstd::prelude::*;
use crate::json::{JsonTree, JsonValue};
use crate::models::{content_tree, messages_view, ChatMessage, MessageView};
use crate::text::{text_eq, trim, trimmed};

verus! {

/// The sentence appended to the system prompt to bind the assistant to a scope.
pub open spec fn scope_directive(scope: Seq<char>) -> Seq<char> {
    "\n\n[SECURITY DIRECTIVE - MANDATORY SCOPE BOUNDARY]: You are operating under the scope: \""@
        + scope + "\". Do not access or leak data outside this scope boundary."@
}

/// The content of a system message that the gateway adds when there is none.
pub open spec fn initial_system_text(scope: Seq<char>) -> Seq<char> {
    "System Initialized."@ + scope_directive(scope)
}

/// The role of the messages that carry the system prompt.
pub open spec fn system_role() -> Seq<char> {
    "system"@
}

/// A system message with the given text and nothing else.
pub open spec fn system_message(text: Seq<char>) -> MessageView {
    MessageView {
        role: system_role(),
        content: Some(JsonTree::Str(text)),
        name: None,
        tool_calls: None,
        tool_call_id: None,
    }
}

/// Whether message `j` is the first one with role `role`.
pub open spec fn is_first_with_role(ms: Seq<MessageView>, role: Seq<char>, j: int) -> bool {
    &&& 0 <= j < ms.len()
    &&& ms[j].role == role
    &&& forall|k: int| 0 <= k < j ==> (#[trigger] ms[k]).role != role
}

/// Whether some message has role `role`.
pub open spec fn has_role(ms: Seq<MessageView>, role: Seq<char>) -> bool {
    exists|k: int| 0 <= k < ms.len() && (#[trigger] ms[k]).role == role
}

/// The text part that carries `text` in a content made of parts.
pub open spec fn text_part(text: Seq<char>) -> JsonTree {
    JsonTree::Object(seq![("type"@, JsonTree::Str("text"@)), ("text"@, JsonTree::Str(text))])
}

/// Whether a system message's content can take a directive: a string, a list
/// of parts, `null`, or no content at all.
pub open spec fn can_carry_directive(content: Option<JsonTree>) -> bool {
    match content {
        None => true,
        Some(JsonTree::Null) => true,
        Some(JsonTree::Str(_)) => true,
        Some(JsonTree::Array(_)) => true,
        _ => false,
    }
}

/// A content with `directive` added: appended to a string, added as a last
/// text part to a list of parts, or, in place of `null` or no content, the
/// directive alone; any other content as it is.
pub open spec fn content_with_directive(content: Option<JsonTree>, directive: Seq<char>) -> Option<
    JsonTree,
> {
    match content {
        Some(JsonTree::Str(s)) => Some(JsonTree::Str(s + directive)),
        Some(JsonTree::Array(items)) => Some(JsonTree::Array(items.push(text_part(directive)))),
        Some(JsonTree::Null) => Some(JsonTree::Str(directive)),
        None => Some(JsonTree::Str(directive)),
        _ => content,
    }
}

/// The messages bound to `scope`: the directive added to the first system
/// message when its content can take it, or else a new system message put in
/// front (so also when there is no system message).
pub open spec fn scoped_messages(ms: Seq<MessageView>, scope: Seq<char>) -> Seq<MessageView> {
    let j = choose|j: int| is_first_with_role(ms, system_role(), j);
    if has_role(ms, system_role()) && can_carry_directive(ms[j].content) {
        ms.update(
            j,
            MessageView {
                content: content_with_directive(ms[j].content, scope_directive(scope)),
                ..ms[j]
            },
        )
    } else {
        seq![system_message(initial_system_text(scope))] + ms
    }
}

/// Whether message `m` is a system message that carries `directive`: as the
/// end of its text, or as its last text part.
pub open spec fn carries_directive(m: MessageView, directive: Seq<char>) -> bool {
    &&& m.role == system_role()
    &&& match m.content {
        Some(JsonTree::Str(t)) => t.len() >= directive.len() && t.skip(
            t.len() - directive.len(),
        ) == directive,
        Some(JsonTree::Array(items)) => items.len() > 0 && items.last() == text_part(directive),
        _ => false,
    }
}

/// The scope that a header value names: the value trimmed, unless that is empty.
pub open spec fn scope_of(scope_text: Option<Seq<char>>) -> Option<Seq<char>> {
    match scope_text {
        Some(t) => if trimmed(t).len() > 0 {
            Some(trimmed(t))
        } else {
            None
        },
        None => None,
    }
}

/// The messages once the scope named by `scope_text`, if any, is injected.
pub open spec fn with_scope(ms: Seq<MessageView>, scope_text: Option<Seq<char>>) -> Seq<
    MessageView,
> {
    match scope_of(scope_text) {
        Some(scope) => scoped_messages(ms, scope),
        None => ms,
    }
}

/// An optional string slice as an optional character sequence.
pub open spec fn opt_str(s: Option<&str>) -> Option<Seq<char>> {
    match s {
        Some(t) => Some(t@),
        None => None,
    }
}

/// Binds a conversation to the scope that a request names.
pub struct ContextService;

impl ContextService {
    /// Injects the scope given in a request header into the conversation, as
    /// `with_scope` says: a missing or blank scope changes nothing; otherwise
    /// the trimmed scope is written into a directive and added to the first
    /// system message (appended to a string content, added as a last text
    /// part to a list of parts, or given as the content in place of `null` or
    /// none), or, when there is no system message or the first one's content
    /// can take no directive, given to a new system message put in front.
    pub fn inject_scope(messages: &mut Vec<ChatMessage>, scope_text: Option<&str>)
        ensures
            messages_view(final(messages)@) == with_scope(
                messages_view(old(messages)@),
                opt_str(scope_text),
            ),
    {
        let raw = match scope_text {
            Some(s) => s,
            None => {
                return ;
            },
        };
        let scope = trim(raw);
        if scope.as_str().is_empty() {
            return ;
        }
        proof {
            reveal_strlit(
                "\n\n[SECURITY DIRECTIVE - MANDATORY SCOPE BOUNDARY]: You are operating under the scope: \"",
            );
            reveal_strlit("\". Do not access or leak data outside this scope boundary.");
            reveal_strlit("System Initialized.");
            reveal_strlit("system");
        }
        let mut directive = String::from_str(
            "\n\n[SECURITY DIRECTIVE - MANDATORY SCOPE BOUNDARY]: You are operating under the scope: \"",
        );
        directive.append(scope.as_str());
        directive.append("\". Do not access or leak data outside this scope boundary.");
        assert(directive@ =~= scope_directive(trimmed(raw@)));
        let ghost before = messages_view(messages@);
        let ghost scope_seq = trimmed(raw@);

        let first = Self::first_system_message(messages);
        let carried = match first {
            Some(j) => Self::add_directive(&mut messages[j].content, directive.as_str()),
            None => false,
        };
        if carried {
            proof {
                let j = first->0;
                assert(is_first_with_role(before, system_role(), j as int));
                assert(has_role(before, system_role()));
                lemma_first_is_unique(before, system_role(), j as int);
                assert(messages_view(messages@) =~= scoped_messages(before, scope_seq));
            }
            return ;
        }
        proof {
            if has_role(before, system_role()) {
                let j = first->0;
                lemma_first_is_unique(before, system_role(), j as int);
            }
        }
        let mut text = String::from_str("System Initialized.");
        text.append(directive.as_str());
        assert(text@ =~= initial_system_text(scope_seq));
        let msg = ChatMessage {
            role: String::from_str("system"),
            content: Some(JsonValue::String(text)),
            name: None,
            tool_calls: None,
            tool_call_id: None,
        };
        messages.insert(0, msg);
        assert(messages_view(messages@) =~= scoped_messages(before, scope_seq));
    }

    /// The position of the first system message, if there is one.
    fn first_system_message(messages: &Vec<ChatMessage>) -> (res: Option<usize>)
        ensures
            match res {
                Some(j) => is_first_with_role(messages_view(messages@), system_role(), j as int),
                None => !has_role(messages_view(messages@), system_role()),
            },
    {
        let ghost ms = messages_view(messages@);
        let mut i: usize = 0;
        while i < messages.len()
            invariant
                i <= messages.len(),
                ms == messages_view(messages@),
                forall|k: int| 0 <= k < i ==> (#[trigger] ms[k]).role != system_role(),
            decreases messages.len() - i,
        {
            proof {
                reveal_strlit("system");
            }
            assert(ms[i as int] == messages@[i as int]@);
            if text_eq(messages[i].role.as_str(), "system") {
                return Some(i);
            }
            i = i + 1;
        }
        None
    }

    /// Adds `directive` to a content that can take it (see
    /// `content_with_directive`) and says whether it did; any other content is
    /// left as it is.
    fn add_directive(content: &mut Option<JsonValue>, directive: &str) -> (carried: bool)
        ensures
            carried == can_carry_directive(content_tree(*old(content))),
            carried ==> content_tree(*final(content)) == content_with_directive(
                content_tree(*old(content)),
                directive@,
            ),
            !carried ==> *final(content) == *old(content),
    {
        proof {
            reveal_strlit("type");
            reveal_strlit("text");
        }
        let taken = content.take();
        match taken {
            Some(JsonValue::String(s)) => {
                let mut t = s;
                t.append(directive);
                *content = Some(JsonValue::String(t));
                true
            },
            Some(JsonValue::Array(items)) => {
                let ghost before = JsonValue::Array(items)@;
                let mut parts = items;
                let mut part: Vec<(String, JsonValue)> = Vec::new();
                part.push((String::from_str("type"), JsonValue::String(String::from_str("text"))));
                part.push((String::from_str("text"), JsonValue::String(String::from_str(directive))));
                assert(part@.len() == 2);
                assert(part@[0].0@ == "type"@ && part@[0].1@ == JsonTree::Str("text"@));
                assert(part@[1].0@ == "text"@ && part@[1].1@ == JsonTree::Str(directive@));
                let part_value = JsonValue::Object(part);
                assert(part_value@->Object_0 =~= text_part(directive@)->Object_0);
                parts.push(part_value);
                let after = JsonValue::Array(parts);
                assert(after@->Array_0 =~= before->Array_0.push(text_part(directive@)));
                *content = Some(after);
                true
            },
            Some(JsonValue::Null) => {
                *content = Some(JsonValue::String(String::from_str(directive)));
                true
            },
            None => {
                *content = Some(JsonValue::String(String::from_str(directive)));
                true
            },
            Some(other) => {
                *content = Some(other);
                false
            },
        }
    }
}

// ---------------------------------------------------------------------------
// Laws
// ---------------------------------------------------------------------------

/// Once a non-blank scope is injected, no message is lost: either the first
/// system message takes the directive and the conversation keeps its length
/// and every other message, or one system message holding the directive is
/// put in front of the unchanged conversation.
pub proof fn lemma_scope_keeps_conversation(ms: Seq<MessageView>, scope: Seq<char>)
    ensures
        has_role(scoped_messages(ms, scope), system_role()),
        ({
            let j = choose|j: int| is_first_with_role(ms, system_role(), j);
            has_role(ms, system_role()) && can_carry_directive(ms[j].content) ==> {
                &&& scoped_messages(ms, scope).len() == ms.len()
                &&& scoped_messages(ms, scope)[j].content == content_with_directive(
                    ms[j].content,
                    scope_directive(scope),
                )
                &&& scoped_messages(ms, scope)[j].role == ms[j].role
                &&& forall|k: int|
                    0 <= k < ms.len() && k != j ==> #[trigger] scoped_messages(ms, scope)[k]
                        == ms[k]
            }
        }),
        ({
            let j = choose|j: int| is_first_with_role(ms, system_role(), j);
            !(has_role(ms, system_role()) && can_carry_directive(ms[j].content)) ==> {
                &&& scoped_messages(ms, scope).len() == ms.len() + 1
                &&& scoped_messages(ms, scope)[0] == system_message(initial_system_text(scope))
                &&& scoped_messages(ms, scope).skip(1) == ms
            }
        }),
{
    let j = choose|j: int| is_first_with_role(ms, system_role(), j);
    if has_role(ms, system_role()) {
        let k0 = choose|k: int| 0 <= k < ms.len() && (#[trigger] ms[k]).role == system_role();
        lemma_first_with_role_exists(ms, system_role(), k0);
    }
    if has_role(ms, system_role()) && can_carry_directive(ms[j].content) {
        assert(scoped_messages(ms, scope)[j].role == system_role());
    } else {
        assert(scoped_messages(ms, scope)[0].role == system_role());
        assert(scoped_messages(ms, scope).skip(1) =~= ms);
    }
}

/// Once a non-blank scope is injected, some system message carries its
/// directive, whatever the content of the conversation's system messages.
pub proof fn lemma_scope_directive_present(ms: Seq<MessageView>, scope: Seq<char>)
    ensures
        exists|k: int|
            0 <= k < scoped_messages(ms, scope).len() && carries_directive(
                #[trigger] scoped_messages(ms, scope)[k],
                scope_directive(scope),
            ),
{
    let d = scope_directive(scope);
    let out = scoped_messages(ms, scope);
    let j = choose|j: int| is_first_with_role(ms, system_role(), j);
    lemma_scope_keeps_conversation(ms, scope);
    if has_role(ms, system_role()) && can_carry_directive(ms[j].content) {
        let k0 = choose|k: int| 0 <= k < ms.len() && (#[trigger] ms[k]).role == system_role();
        lemma_first_with_role_exists(ms, system_role(), k0);
        match ms[j].content {
            Some(JsonTree::Str(s)) => {
                assert((s + d).skip(s.len() as int) =~= d);
            },
            Some(JsonTree::Array(items)) => {},
            _ => {
                assert(d.skip(0) =~= d);
            },
        }
        assert(carries_directive(out[j], d));
    } else {
        let t = initial_system_text(scope);
        assert(t.skip(t.len() - d.len()) =~= d);
        assert(carries_directive(out[0], d));
    }
}

/// The first message with a role is the only one that is first.
pub proof fn lemma_first_is_unique(ms: Seq<MessageView>, role: Seq<char>, j: int)
    requires
        is_first_with_role(ms, role, j),
    ensures
        (choose|i: int| is_first_with_role(ms, role, i)) == j,
{
    let i = choose|i: int| is_first_with_role(ms, role, i);
    assert(is_first_with_role(ms, role, i));
    if i < j {
        assert(ms[i].role != role);
    }
    if i > j {
        assert(ms[j].role != role);
    }
}

/// A conversation with a message of role `role` has a first one.
pub proof fn lemma_first_with_role_exists(ms: Seq<MessageView>, role: Seq<char>, k: int)
    requires
        0 <= k < ms.len(),
        ms[k].role == role,
    ensures
        exists|j: int| is_first_with_role(ms, role, j),
    decreases k,
{
    if forall|i: int| 0 <= i < k ==> (#[trigger] ms[i]).role != role {
        assert(is_first_with_role(ms, role, k));
    } else {
        let i = choose|i: int| 0 <= i < k && (#[trigger] ms[i]).role == role;
        lemma_first_with_role_exists(ms, role, i);
    }
}

} // verus!
