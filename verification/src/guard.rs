use vstd::prelude::*;
use crate::sanitizer::{injection_found, neutralized, scan_cut_ok, SanitizerService};

verus! {

/// A plain chat message: a role and a text.
#[derive(Debug, PartialEq)]
pub struct ChatMessage {
    pub role: String,
    pub content: String,
}

/// The messages to inspect.
pub struct SanitizeRequest {
    pub messages: Vec<ChatMessage>,
}

/// The verdict on a batch of messages, and the messages as they may be passed on.
#[derive(Debug, PartialEq)]
pub struct SanitizeResponse {
    pub safe: bool,
    pub detected_count: usize,
    pub messages: Vec<ChatMessage>,
}

/// How many of `ms` hold an injection.
pub open spec fn injected_count(patterns: Seq<Seq<char>>, ms: Seq<ChatMessage>) -> nat
    decreases ms.len(),
{
    if ms.len() == 0 {
        0
    } else {
        injected_count(patterns, ms.drop_last()) + if injection_found(
            patterns,
            ms.last().content@,
        ) {
            1nat
        } else {
            0nat
        }
    }
}

/// What a message's text becomes: neutralised when it holds an injection,
/// untouched otherwise.
pub open spec fn guarded_text(patterns: Seq<Seq<char>>, text: Seq<char>) -> Seq<char> {
    if injection_found(patterns, text) {
        neutralized(patterns, text)
    } else {
        text
    }
}

/// Inspects every message: one that holds an injection is counted and has its
/// text neutralised; the batch is safe when none does. Roles and order are
/// kept.
pub fn handle_sanitize(sanitizer: &SanitizerService, payload: SanitizeRequest) -> (res:
    SanitizeResponse)
    requires
        forall|i: int|
            0 <= i < payload.messages@.len() ==> scan_cut_ok(
                (#[trigger] payload.messages@[i]).content@,
            ),
    ensures
        res.messages@.len() == payload.messages@.len(),
        forall|i: int|
            #![trigger res.messages@[i]]
            0 <= i < payload.messages@.len() ==> {
                &&& res.messages@[i].role == payload.messages@[i].role
                &&& res.messages@[i].content@ == guarded_text(
                    sanitizer@,
                    payload.messages@[i].content@,
                )
            },
        res.detected_count == injected_count(sanitizer@, payload.messages@),
        res.safe == (res.detected_count == 0),
{
    let mut safe = true;
    let mut detected_count: usize = 0;
    let mut sanitized_messages: Vec<ChatMessage> = Vec::new();
    let ghost given = payload.messages@;
    let n = payload.messages.len();
    for msg in it: payload.messages
        invariant
            it.seq() == given,
            given.len() == n,
            forall|i: int| 0 <= i < given.len() ==> scan_cut_ok((#[trigger] given[i]).content@),
            sanitized_messages@.len() == it.index(),
            forall|i: int|
                #![trigger sanitized_messages@[i]]
                0 <= i < it.index() ==> {
                    &&& sanitized_messages@[i].role == given[i].role
                    &&& sanitized_messages@[i].content@ == guarded_text(
                        sanitizer@,
                        given[i].content@,
                    )
                },
            detected_count == injected_count(sanitizer@, given.take(it.index() as int)),
            detected_count <= it.index(),
            safe == (detected_count == 0),
    {
        let ghost k = it.index();
        assert(given.take(k + 1).drop_last() =~= given.take(k as int));
        assert(given.take(k + 1).last() == msg);
        let is_injected = sanitizer.check_injection(msg.content.as_str());
        if is_injected {
            safe = false;
            detected_count = detected_count + 1;
            let cleaned_content = sanitizer.sanitize(msg.content.as_str());
            sanitized_messages.push(ChatMessage { role: msg.role, content: cleaned_content });
        } else {
            sanitized_messages.push(msg);
        }
    }
    assert(given.take(given.len() as int) =~= given);
    SanitizeResponse { safe, detected_count, messages: sanitized_messages }
}

// ---------------------------------------------------------------------------
// Laws
// ---------------------------------------------------------------------------

/// No more injections are counted than there are messages.
pub proof fn lemma_count_at_most_messages(patterns: Seq<Seq<char>>, ms: Seq<ChatMessage>)
    ensures
        injected_count(patterns, ms) <= ms.len(),
    decreases ms.len(),
{
    if ms.len() > 0 {
        lemma_count_at_most_messages(patterns, ms.drop_last());
    }
}

/// A batch in which no message holds an injection is counted as clean, and
/// every text in it is passed on as it came.
pub proof fn lemma_clean_batch(patterns: Seq<Seq<char>>, ms: Seq<ChatMessage>)
    requires
        forall|i: int| 0 <= i < ms.len() ==> !injection_found(patterns, (#[trigger] ms[i]).content@),
    ensures
        injected_count(patterns, ms) == 0,
        forall|i: int|
            0 <= i < ms.len() ==> guarded_text(patterns, (#[trigger] ms[i]).content@) == ms[i].content@,
    decreases ms.len(),
{
    if ms.len() > 0 {
        let rest = ms.drop_last();
        assert forall|i: int| 0 <= i < rest.len() implies !injection_found(
            patterns,
            (#[trigger] rest[i]).content@,
        ) by {
            assert(rest[i] == ms[i]);
        }
        lemma_clean_batch(patterns, rest);
        assert(!injection_found(patterns, ms[ms.len() - 1].content@));
    }
}

/// A batch with a message that holds an injection is counted as unsafe.
pub proof fn lemma_flagged_message_makes_batch_unsafe(
    patterns: Seq<Seq<char>>,
    ms: Seq<ChatMessage>,
    j: int,
)
    requires
        0 <= j < ms.len(),
        injection_found(patterns, ms[j].content@),
    ensures
        injected_count(patterns, ms) > 0,
    decreases ms.len(),
{
    if j < ms.len() - 1 {
        lemma_flagged_message_makes_batch_unsafe(patterns, ms.drop_last(), j);
    }
}

} // verus!
