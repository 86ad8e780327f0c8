use vstd::prelude::*;
use regex::Regex;
use crate::json::{JsonTree, JsonValue};
use crate::text::{
    chars_of, chars_within, has_prefix, lemma_chars_within, lemma_chars_within_fits,
    lemma_utf8_len_prefix_monotone, utf8_len, utf8_width_of,
};

verus! {

#[verifier::external_type_specification]
#[verifier::external_body]
pub struct ExRegex(Regex);

// ---------------------------------------------------------------------------
// The regular-expression engine
// ---------------------------------------------------------------------------

/// Whether `regex::Regex::new` accepts `pattern`.
pub uninterp spec fn regex_compiles(pattern: Seq<char>) -> bool;

/// Whether the expression compiled from `pattern` matches somewhere in
/// `haystack` (`regex::Regex::is_match`).
pub uninterp spec fn regex_is_match(pattern: Seq<char>, haystack: Seq<char>) -> bool;

/// What `regex::Regex::replace_all` returns when every match of the expression
/// compiled from `pattern` in `haystack` is replaced by `replacement`.
pub uninterp spec fn regex_replace_all(
    pattern: Seq<char>,
    haystack: Seq<char>,
    replacement: Seq<char>,
) -> Seq<char>;

/// A compiled regular expression together with the pattern it was compiled
/// from. Values are only made by `compile_pattern`, so `source` is always the
/// pattern that `regex` was built from.
pub struct CompiledPattern {
    source: String,
    regex: Regex,
}

impl View for CompiledPattern {
    type V = Seq<char>;

    /// The pattern the expression was compiled from.
    closed spec fn view(&self) -> Seq<char> {
        self.source@
    }
}

/// Calls `regex::Regex::new`. The contract says that it succeeds exactly when
/// the pattern compiles (`regex_compiles`, left unstated: the regex grammar and
/// its size limit), and that the compiled value carries the pattern it was
/// built from.
#[verifier::external_body]
fn compile_pattern(pattern: &str) -> (res: Option<CompiledPattern>)
    ensures
        res is Some <==> regex_compiles(pattern@),
        res matches Some(c) ==> c@ == pattern@,
{
    match Regex::new(pattern) {
        Ok(regex) => Some(CompiledPattern { source: pattern.to_string(), regex }),
        Err(_) => None,
    }
}

/// Calls `regex::Regex::is_match`. The contract names the answer
/// `regex_is_match` of the pattern and the haystack; which haystacks match is
/// left unstated.
#[verifier::external_body]
fn pattern_is_match(pattern: &CompiledPattern, haystack: &str) -> (res: bool)
    ensures
        res == regex_is_match(pattern@, haystack@),
{
    pattern.regex.is_match(haystack)
}

/// Calls `regex::Regex::replace_all` and takes the result as a `String`. The
/// contract names the result `regex_replace_all` of the pattern, haystack and
/// replacement, and states what the crate documents: when nothing matches, the
/// haystack comes back unchanged. The text that replaces a match is left
/// unstated.
#[verifier::external_body]
fn pattern_replace_all(pattern: &CompiledPattern, haystack: &str, replacement: &str) -> (res:
    String)
    ensures
        res@ == regex_replace_all(pattern@, haystack@, replacement@),
        !regex_is_match(pattern@, haystack@) ==> res@ == haystack@,
{
    pattern.regex.replace_all(haystack, replacement).to_string()
}

// ---------------------------------------------------------------------------
// The rules
// ---------------------------------------------------------------------------

/// The text that stands in place of a neutralised phrase.
pub const NEUTRALIZED_MARKER: &'static str = "[neutralized_prompt_injection]";

/// Only the first `SCAN_LIMIT` bytes of a text are scanned for injections.
pub const SCAN_LIMIT: usize = 10000;

/// The phrases that mark a prompt injection, as regular expressions.
pub open spec fn injection_pattern_texts() -> Seq<Seq<char>> {
    seq![
        r"(?i)ignore\s+(all\s+)?(previous|prior)\s+(instructions|directives|prompts)"@,
        r"(?i)disregard\s+(all\s+)?(previous|prior)\s+(instructions|rules)"@,
        r"(?i)system\s+prompt\s+override"@,
        r"(?i)you\s+are\s+now\s+in\s+DAN\s+mode"@,
        r"(?i)do\s+anything\s+now"@,
        r"(?i)forget\s+(your|all)\s+rules"@,
        r"(?i)bypass\s+safety\s+filters"@,
        r"(?i)jailbreak\s+mode"@,
    ]
}

/// The patterns of `raw` that compile, in order.
pub open spec fn compiling(raw: Seq<Seq<char>>) -> Seq<Seq<char>>
    decreases raw.len(),
{
    if raw.len() == 0 {
        seq![]
    } else if regex_compiles(raw.last()) {
        compiling(raw.drop_last()).push(raw.last())
    } else {
        compiling(raw.drop_last())
    }
}

/// Whether the scan window of `text` can be cut out: the text is at most
/// `SCAN_LIMIT` bytes long in UTF-8, or a character starts at that byte.
pub open spec fn scan_cut_ok(text: Seq<char>) -> bool {
    utf8_len(text) <= SCAN_LIMIT || utf8_len(text.take(chars_within(text, SCAN_LIMIT as nat) as int))
        == SCAN_LIMIT
}

/// The part of `text` that is scanned: its first `SCAN_LIMIT` bytes.
pub open spec fn scan_window(text: Seq<char>) -> Seq<char> {
    if utf8_len(text) > SCAN_LIMIT {
        text.take(chars_within(text, SCAN_LIMIT as nat) as int)
    } else {
        text
    }
}

/// Whether one of `patterns` matches in the scan window of `text`.
pub open spec fn injection_found(patterns: Seq<Seq<char>>, text: Seq<char>) -> bool {
    exists|i: int| 0 <= i < patterns.len() && regex_is_match(#[trigger] patterns[i], scan_window(text))
}

/// `text` after each of `patterns` in turn, when it matches what is left so far,
/// has had all its matches replaced by the marker.
pub open spec fn neutralized(patterns: Seq<Seq<char>>, text: Seq<char>) -> Seq<char>
    decreases patterns.len(),
{
    if patterns.len() == 0 {
        text
    } else {
        let before = neutralized(patterns.drop_last(), text);
        if regex_is_match(patterns.last(), before) {
            regex_replace_all(patterns.last(), before, NEUTRALIZED_MARKER@)
        } else {
            before
        }
    }
}

/// Whether a JSON value holds, in some string at any depth, an injection.
pub open spec fn value_has_injection(patterns: Seq<Seq<char>>, v: JsonTree) -> bool
    decreases v,
{
    match v {
        JsonTree::Str(s) => injection_found(patterns, s),
        JsonTree::Array(items) => exists|i: int|
            0 <= i < items.len() && value_has_injection(patterns, #[trigger] items[i]),
        JsonTree::Object(members) => exists|i: int|
            0 <= i < members.len() && value_has_injection(patterns, (#[trigger] members[i]).1),
        _ => false,
    }
}

/// Whether scanning `v` for injections, depth first and stopping at the first
/// one found, only meets strings whose scan window can be cut out.
pub open spec fn value_scan_ok(patterns: Seq<Seq<char>>, v: JsonTree) -> bool
    decreases v,
{
    match v {
        JsonTree::Str(s) => scan_cut_ok(s),
        JsonTree::Array(items) => forall|i: int|
            0 <= i < items.len() ==> ((forall|j: int|
                0 <= j < i ==> !value_has_injection(patterns, #[trigger] items[j]))
                ==> value_scan_ok(patterns, #[trigger] items[i])),
        JsonTree::Object(members) => forall|i: int|
            0 <= i < members.len() ==> ((forall|j: int|
                0 <= j < i ==> !value_has_injection(patterns, (#[trigger] members[j]).1))
                ==> value_scan_ok(patterns, (#[trigger] members[i]).1)),
        _ => true,
    }
}

/// `v` with every string, at any depth, neutralised; object keys are kept.
pub open spec fn sanitized_tree(patterns: Seq<Seq<char>>, v: JsonTree) -> JsonTree
    decreases v,
{
    match v {
        JsonTree::Str(s) => JsonTree::Str(neutralized(patterns, s)),
        JsonTree::Array(items) => JsonTree::Array(
            Seq::new(
                items.len(),
                |i: int|
                    if 0 <= i < items.len() {
                        sanitized_tree(patterns, items[i])
                    } else {
                        JsonTree::Null
                    },
            ),
        ),
        JsonTree::Object(members) => JsonTree::Object(
            Seq::new(
                members.len(),
                |i: int|
                    {
                        let key: Seq<char> = if 0 <= i < members.len() {
                            members[i].0
                        } else {
                            Seq::empty()
                        };
                        let value: JsonTree = if 0 <= i < members.len() {
                            sanitized_tree(patterns, members[i].1)
                        } else {
                            JsonTree::Null
                        };
                        (key, value)
                    },
            ),
        ),
        other => other,
    }
}

/// Where the scan window of `text` ends: the number of characters within
/// `SCAN_LIMIT` bytes, their length in bytes, and whether the whole text is
/// longer than `SCAN_LIMIT` bytes.
fn window_cut(text: &str) -> (res: (usize, usize, bool))
    ensures
        res.0 == chars_within(text@, SCAN_LIMIT as nat),
        res.0 <= text@.len(),
        res.1 == utf8_len(text@.take(res.0 as int)),
        res.2 == (utf8_len(text@) > SCAN_LIMIT),
{
    let cs = chars_of(text);
    let n = cs.len();
    let mut bytes: usize = 0;
    let mut fit: usize = 0;
    let mut fit_bytes: usize = 0;
    let mut i: usize = 0;
    assert(text@.take(0) =~= Seq::<char>::empty());
    while i < n
        invariant
            cs@ == text@,
            n == cs.len(),
            i <= n,
            fit <= i,
            bytes <= SCAN_LIMIT ==> bytes == utf8_len(text@.take(i as int)),
            bytes > SCAN_LIMIT ==> utf8_len(text@.take(i as int)) > SCAN_LIMIT,
            bytes <= SCAN_LIMIT + 4,
            fit_bytes == utf8_len(text@.take(fit as int)),
            fit_bytes <= SCAN_LIMIT,
            fit == i || utf8_len(text@.take(fit + 1)) > SCAN_LIMIT,
        decreases n - i,
    {
        assert(text@.take(i + 1).drop_last() =~= text@.take(i as int));
        let w = utf8_width_of(cs[i]);
        if fit == i && bytes + w <= SCAN_LIMIT {
            fit = i + 1;
            fit_bytes = bytes + w;
        }
        if bytes <= SCAN_LIMIT {
            bytes = bytes + w;
        }
        i = i + 1;
    }
    assert(text@.take(n as int) =~= text@);
    proof {
        lemma_chars_within(text@, SCAN_LIMIT as nat, fit as int);
    }
    (fit, fit_bytes, bytes > SCAN_LIMIT)
}

/// The scan window of `text`, cut out as `&text[..SCAN_LIMIT]` would.
fn scan_window_of(text: &str) -> (res: &str)
    requires
        scan_cut_ok(text@),
    ensures
        res@ == scan_window(text@),
{
    let (fit, _fit_bytes, over) = window_cut(text);
    if over {
        text.substring_char(0, fit)
    } else {
        text
    }
}

/// Whether the scan window of `text` can be cut out (see `scan_cut_ok`).
pub fn can_cut_scan_window(text: &str) -> (res: bool)
    ensures
        res == scan_cut_ok(text@),
{
    let (_fit, fit_bytes, over) = window_cut(text);
    !over || fit_bytes == SCAN_LIMIT
}

// ---------------------------------------------------------------------------
// The service
// ---------------------------------------------------------------------------

/// Detects and neutralises prompt-injection phrases.
pub struct SanitizerService {
    patterns: Vec<CompiledPattern>,
}

impl View for SanitizerService {
    type V = Seq<Seq<char>>;

    /// The patterns in use, in the order in which they are tried.
    closed spec fn view(&self) -> Seq<Seq<char>> {
        self.patterns@.map_values(|c: CompiledPattern| c@)
    }
}

impl SanitizerService {
    /// A sanitizer that uses every injection pattern that compiles, in order.
    pub fn new() -> (res: Self)
        ensures
            res@ == compiling(injection_pattern_texts()),
    {
        let mut raw: Vec<&'static str> = Vec::new();
        raw.push(r"(?i)ignore\s+(all\s+)?(previous|prior)\s+(instructions|directives|prompts)");
        raw.push(r"(?i)disregard\s+(all\s+)?(previous|prior)\s+(instructions|rules)");
        raw.push(r"(?i)system\s+prompt\s+override");
        raw.push(r"(?i)you\s+are\s+now\s+in\s+DAN\s+mode");
        raw.push(r"(?i)do\s+anything\s+now");
        raw.push(r"(?i)forget\s+(your|all)\s+rules");
        raw.push(r"(?i)bypass\s+safety\s+filters");
        raw.push(r"(?i)jailbreak\s+mode");
        let ghost texts = injection_pattern_texts();
        assert(raw@.map_values(|r: &str| r@) =~= texts);
        let mut patterns: Vec<CompiledPattern> = Vec::new();
        let mut i: usize = 0;
        while i < raw.len()
            invariant
                i <= raw.len(),
                raw.len() == texts.len(),
                forall|k: int| 0 <= k < raw.len() ==> (#[trigger] raw@[k])@ == texts[k],
                patterns@.map_values(|c: CompiledPattern| c@) == compiling(texts.take(i as int)),
            decreases raw.len() - i,
        {
            assert(texts.take(i + 1).drop_last() =~= texts.take(i as int));
            assert(texts.take(i + 1).last() == texts[i as int]);
            let ghost before = patterns@;
            match compile_pattern(raw[i]) {
                Some(c) => {
                    patterns.push(c);
                    assert(patterns@.map_values(|c: CompiledPattern| c@) =~= before.map_values(
                        |c: CompiledPattern| c@,
                    ).push(texts[i as int]));
                },
                None => {},
            }
            i = i + 1;
        }
        assert(texts.take(raw.len() as int) =~= texts);
        SanitizerService { patterns }
    }

    /// Whether `text` holds a prompt-injection phrase within its first
    /// `SCAN_LIMIT` bytes.
    pub fn check_injection(&self, text: &str) -> (res: bool)
        requires
            scan_cut_ok(text@),
        ensures
            res == injection_found(self@, text@),
    {
        let window: &str = scan_window_of(text);
        assert(window@ == scan_window(text@));
        let mut i: usize = 0;
        while i < self.patterns.len()
            invariant
                i <= self.patterns.len(),
                window@ == scan_window(text@),
                forall|k: int| 0 <= k < i ==> !regex_is_match(#[trigger] self@[k], window@),
            decreases self.patterns.len() - i,
        {
            if pattern_is_match(&self.patterns[i], window) {
                assert(self@[i as int] == self.patterns@[i as int]@);
                return true;
            }
            assert(self@[i as int] == self.patterns@[i as int]@);
            i = i + 1;
        }
        false
    }

    /// `text` with every prompt-injection phrase replaced by the marker.
    pub fn sanitize(&self, text: &str) -> (res: String)
        ensures
            res@ == neutralized(self@, text@),
    {
        let mut cleaned = String::from_str(text);
        let mut i: usize = 0;
        assert(self@.take(0) =~= Seq::<Seq<char>>::empty());
        while i < self.patterns.len()
            invariant
                i <= self.patterns.len(),
                self@.len() == self.patterns.len(),
                cleaned@ == neutralized(self@.take(i as int), text@),
            decreases self.patterns.len() - i,
        {
            proof {
                reveal_strlit("[neutralized_prompt_injection]");
            }
            assert(self@.take(i + 1).drop_last() =~= self@.take(i as int));
            assert(self@.take(i + 1).last() == self.patterns@[i as int]@);
            if pattern_is_match(&self.patterns[i], cleaned.as_str()) {
                cleaned = pattern_replace_all(&self.patterns[i], cleaned.as_str(), NEUTRALIZED_MARKER);
            }
            i = i + 1;
        }
        assert(self@.take(self.patterns.len() as int) =~= self@);
        cleaned
    }

    /// Whether `val` holds, in some string at any depth, a prompt-injection
    /// phrase within that string's first `SCAN_LIMIT` bytes.
    pub fn check_value_injection(&self, val: &JsonValue) -> (res: bool)
        requires
            value_scan_ok(self@, val@),
        ensures
            res == value_has_injection(self@, val@),
        decreases *val,
    {
        match val {
            JsonValue::String(s) => self.check_injection(s.as_str()),
            JsonValue::Array(items) => {
                let ghost trees = val@->Array_0;
                let mut i: usize = 0;
                while i < items.len()
                    invariant
                        i <= items.len(),
                        *val == JsonValue::Array(*items),
                        trees == val@->Array_0,
                        trees.len() == items@.len(),
                        forall|k: int| 0 <= k < items@.len() ==> #[trigger] trees[k] == items@[k]@,
                        value_scan_ok(self@, val@),
                        forall|j: int| 0 <= j < i ==> !value_has_injection(self@, #[trigger] trees[j]),
                    decreases items.len() - i,
                {
                    proof {
                        assert(decreases_to!(*val => (*val)->Array_0));
                        assert(decreases_to!(*items => items@));
                        assert(decreases_to!(items@ => items@[i as int]));
                        assert(trees[i as int] == items@[i as int]@);
                    }
                    if self.check_value_injection(&items[i]) {
                        return true;
                    }
                    i = i + 1;
                }
                false
            },
            JsonValue::Object(members) => {
                let ghost trees = val@->Object_0;
                assert forall|k: int| 0 <= k < members@.len() implies #[trigger] trees[k] == (
                    members@[k].0@,
                    members@[k].1@,
                ) by {
                    assert(trees[k] == (members@[k].0@, members@[k].1@));
                }
                let mut i: usize = 0;
                while i < members.len()
                    invariant
                        i <= members.len(),
                        *val == JsonValue::Object(*members),
                        trees == val@->Object_0,
                        trees.len() == members@.len(),
                        forall|k: int|
                            0 <= k < members@.len() ==> #[trigger] trees[k] == (
                            members@[k].0@,
                            members@[k].1@,
                        ),
                        value_scan_ok(self@, val@),
                        forall|j: int| 0 <= j < i ==> !value_has_injection(self@, (#[trigger] trees[j]).1),
                    decreases members.len() - i,
                {
                    proof {
                        assert(decreases_to!(*val => (*val)->Object_0));
                        assert(decreases_to!(*members => members@));
                        assert(decreases_to!(members@ => members@[i as int]));
                        assert(decreases_to!(members@[i as int] => members@[i as int].1));
                        assert(trees[i as int].1 == members@[i as int].1@);
                    }
                    if self.check_value_injection(&members[i].1) {
                        return true;
                    }
                    i = i + 1;
                }
                false
            },
            _ => false,
        }
    }

    /// `val` with every string, at any depth, sanitised; keys, numbers,
    /// booleans and nulls are kept.
    pub fn sanitize_value(&self, val: &JsonValue) -> (res: JsonValue)
        ensures
            res@ == sanitized_tree(self@, val@),
        decreases *val,
    {
        match val {
            JsonValue::Null => JsonValue::Null,
            JsonValue::Bool(b) => JsonValue::Bool(*b),
            JsonValue::Number(t) => JsonValue::Number(t.clone()),
            JsonValue::String(s) => JsonValue::String(self.sanitize(s.as_str())),
            JsonValue::Array(items) => {
                let ghost trees = val@->Array_0;
                let mut out: Vec<JsonValue> = Vec::new();
                let mut i: usize = 0;
                while i < items.len()
                    invariant
                        i <= items.len(),
                        *val == JsonValue::Array(*items),
                        trees == val@->Array_0,
                        trees.len() == items@.len(),
                        forall|k: int| 0 <= k < items@.len() ==> #[trigger] trees[k] == items@[k]@,
                        out.len() == i,
                        forall|k: int|
                            0 <= k < i ==> (#[trigger] out@[k])@ == sanitized_tree(self@, trees[k]),
                    decreases items.len() - i,
                {
                    proof {
                        assert(decreases_to!(*val => (*val)->Array_0));
                        assert(decreases_to!(*items => items@));
                        assert(decreases_to!(items@ => items@[i as int]));
                        assert(trees[i as int] == items@[i as int]@);
                    }
                    let v = self.sanitize_value(&items[i]);
                    out.push(v);
                    i = i + 1;
                }
                let res = JsonValue::Array(out);
                assert(res@->Array_0 =~= sanitized_tree(self@, val@)->Array_0);
                res
            },
            JsonValue::Object(members) => {
                let ghost trees = val@->Object_0;
                assert forall|k: int| 0 <= k < members@.len() implies #[trigger] trees[k] == (
                    members@[k].0@,
                    members@[k].1@,
                ) by {
                    assert(trees[k] == (members@[k].0@, members@[k].1@));
                }
                let mut out: Vec<(String, JsonValue)> = Vec::new();
                let mut i: usize = 0;
                while i < members.len()
                    invariant
                        i <= members.len(),
                        *val == JsonValue::Object(*members),
                        trees == val@->Object_0,
                        trees.len() == members@.len(),
                        forall|k: int|
                            0 <= k < members@.len() ==> #[trigger] trees[k] == (
                            members@[k].0@,
                            members@[k].1@,
                        ),
                        out.len() == i,
                        forall|k: int|
                            0 <= k < i ==> (#[trigger] out@[k]).0@ == trees[k].0 && out@[k].1@
                                == sanitized_tree(self@, trees[k].1),
                    decreases members.len() - i,
                {
                    proof {
                        assert(decreases_to!(*val => (*val)->Object_0));
                        assert(decreases_to!(*members => members@));
                        assert(decreases_to!(members@ => members@[i as int]));
                        assert(decreases_to!(members@[i as int] => members@[i as int].1));
                    }
                    let key = members[i].0.clone();
                    let v = self.sanitize_value(&members[i].1);
                    out.push((key, v));
                    i = i + 1;
                }
                let res = JsonValue::Object(out);
                assert forall|k: int| 0 <= k < out@.len() implies #[trigger] res@->Object_0[k] == (
                    out@[k].0@,
                    out@[k].1@,
                ) by {
                    assert(res@->Object_0[k] == (out@[k].0@, out@[k].1@));
                }
                assert(res@->Object_0 =~= sanitized_tree(self@, val@)->Object_0);
                res
            },
        }
    }
}

impl SanitizerService {
    /// Scans `val` for an injection as `check_value_injection` does, depth
    /// first and stopping at the first one found, but answers `None` instead
    /// of reaching a string whose scan window cannot be cut out.
    pub fn check_value_injection_checked(&self, val: &JsonValue) -> (res: Option<bool>)
        ensures
            match res {
                Some(found) => value_scan_ok(self@, val@) && found == value_has_injection(
                    self@,
                    val@,
                ),
                None => !value_scan_ok(self@, val@),
            },
        decreases *val,
    {
        match val {
            JsonValue::String(s) => {
                if can_cut_scan_window(s.as_str()) {
                    Some(self.check_injection(s.as_str()))
                } else {
                    None
                }
            },
            JsonValue::Array(items) => {
                let ghost trees = val@->Array_0;
                let mut i: usize = 0;
                while i < items.len()
                    invariant
                        i <= items.len(),
                        *val == JsonValue::Array(*items),
                        trees == val@->Array_0,
                        trees.len() == items@.len(),
                        forall|k: int| 0 <= k < items@.len() ==> #[trigger] trees[k] == items@[k]@,
                        forall|j: int|
                            0 <= j < i ==> value_scan_ok(self@, #[trigger] trees[j])
                                && !value_has_injection(self@, trees[j]),
                    decreases items.len() - i,
                {
                    proof {
                        assert(decreases_to!(*val => (*val)->Array_0));
                        assert(decreases_to!(*items => items@));
                        assert(decreases_to!(items@ => items@[i as int]));
                        assert(trees[i as int] == items@[i as int]@);
                    }
                    match self.check_value_injection_checked(&items[i]) {
                        None => {
                            return None;
                        },
                        Some(true) => {
                            return Some(true);
                        },
                        Some(false) => {},
                    }
                    i = i + 1;
                }
                Some(false)
            },
            JsonValue::Object(members) => {
                let ghost trees = val@->Object_0;
                assert forall|k: int| 0 <= k < members@.len() implies #[trigger] trees[k] == (
                    members@[k].0@,
                    members@[k].1@,
                ) by {
                    assert(trees[k] == (members@[k].0@, members@[k].1@));
                }
                let mut i: usize = 0;
                while i < members.len()
                    invariant
                        i <= members.len(),
                        *val == JsonValue::Object(*members),
                        trees == val@->Object_0,
                        trees.len() == members@.len(),
                        forall|k: int|
                            0 <= k < members@.len() ==> #[trigger] trees[k] == (
                            members@[k].0@,
                            members@[k].1@,
                        ),
                        forall|j: int|
                            0 <= j < i ==> value_scan_ok(self@, (#[trigger] trees[j]).1)
                                && !value_has_injection(self@, trees[j].1),
                    decreases members.len() - i,
                {
                    proof {
                        assert(decreases_to!(*val => (*val)->Object_0));
                        assert(decreases_to!(*members => members@));
                        assert(decreases_to!(members@ => members@[i as int]));
                        assert(decreases_to!(members@[i as int] => members@[i as int].1));
                        assert(trees[i as int].1 == members@[i as int].1@);
                    }
                    match self.check_value_injection_checked(&members[i].1) {
                        None => {
                            return None;
                        },
                        Some(true) => {
                            return Some(true);
                        },
                        Some(false) => {},
                    }
                    i = i + 1;
                }
                Some(false)
            },
            _ => Some(false),
        }
    }
}

// ---------------------------------------------------------------------------
// Laws
// ---------------------------------------------------------------------------

/// Sanitising leaves a text that none of the patterns matches exactly as it was.
pub proof fn lemma_clean_text_unchanged(patterns: Seq<Seq<char>>, text: Seq<char>)
    requires
        forall|i: int| 0 <= i < patterns.len() ==> !regex_is_match(#[trigger] patterns[i], text),
    ensures
        neutralized(patterns, text) == text,
    decreases patterns.len(),
{
    if patterns.len() > 0 {
        let rest = patterns.drop_last();
        assert forall|i: int| 0 <= i < rest.len() implies !regex_is_match(#[trigger] rest[i], text) by {
            assert(rest[i] == patterns[i]);
        }
        lemma_clean_text_unchanged(rest, text);
        assert(!regex_is_match(patterns[patterns.len() - 1], text));
    }
}

/// Only the first `SCAN_LIMIT` bytes of a text are scanned: once a text is
/// longer than that, whatever is appended to it does not change whether it is
/// flagged.
pub proof fn lemma_text_after_window_ignored(patterns: Seq<Seq<char>>, a: Seq<char>, tail: Seq<char>)
    requires
        utf8_len(a) > SCAN_LIMIT,
    ensures
        scan_window(a + tail) == scan_window(a),
        injection_found(patterns, a + tail) == injection_found(patterns, a),
{
    let b = a + tail;
    let limit = SCAN_LIMIT as nat;
    assert(b.take(a.len() as int) =~= a);
    lemma_utf8_len_prefix_monotone(b, a.len() as int, b.len() as int);
    assert(b.take(b.len() as int) =~= b);
    lemma_chars_within_fits(a, limit);
    let k: int = chars_within(a, limit) as int;
    assert(k < a.len()) by {
        assert(a.take(a.len() as int) =~= a);
    }
    assert(b.take(k) =~= a.take(k));
    assert(b.take(k + 1int) =~= a.take(k + 1int));
    lemma_chars_within(b, limit, k);
}

/// Sanitising a JSON value keeps its shape: the same kind of value, arrays of
/// the same length, objects with the same keys in the same order, and
/// non-string leaves unchanged.
pub proof fn lemma_sanitized_tree_keeps_shape(patterns: Seq<Seq<char>>, v: JsonTree)
    ensures
        match v {
            JsonTree::Array(items) => sanitized_tree(patterns, v) is Array
                && sanitized_tree(patterns, v)->Array_0.len() == items.len(),
            JsonTree::Object(members) => sanitized_tree(patterns, v) is Object && {
                let out = sanitized_tree(patterns, v)->Object_0;
                &&& out.len() == members.len()
                &&& forall|i: int| 0 <= i < members.len() ==> (#[trigger] out[i]).0 == members[i].0
            },
            JsonTree::Str(_) => sanitized_tree(patterns, v) is Str,
            _ => sanitized_tree(patterns, v) == v,
        },
{
}

/// Each pattern is applied to what the patterns before it left: when pattern
/// `i` matches the text that patterns `0..i` produced, all its matches there
/// are replaced by the marker, whether or not an earlier pattern matched;
/// otherwise that text is kept.
pub proof fn lemma_each_pattern_applied(patterns: Seq<Seq<char>>, text: Seq<char>, i: int)
    requires
        0 <= i < patterns.len(),
    ensures
        ({
            let before = neutralized(patterns.take(i), text);
            neutralized(patterns.take(i + 1), text) == if regex_is_match(patterns[i], before) {
                regex_replace_all(patterns[i], before, NEUTRALIZED_MARKER@)
            } else {
                before
            }
        }),
{
    assert(patterns.take(i + 1).drop_last() =~= patterns.take(i));
    assert(patterns.take(i + 1).last() == patterns[i]);
}

/// Sanitising with the patterns `first` and then `second` is sanitising with
/// the patterns of `first` followed by those of `second`.
pub proof fn lemma_neutralized_composes(first: Seq<Seq<char>>, second: Seq<Seq<char>>, text: Seq<char>)
    ensures
        neutralized(first + second, text) == neutralized(second, neutralized(first, text)),
    decreases second.len(),
{
    if second.len() == 0 {
        assert(first + second =~= first);
    } else {
        assert((first + second).drop_last() =~= first + second.drop_last());
        assert((first + second).last() == second.last());
        lemma_neutralized_composes(first, second.drop_last(), text);
    }
}

/// The sanitizer's phrases are these eight, in this order, each matched
/// without regard to case (`(?i)`).
pub proof fn lemma_injection_phrases()
    ensures
        injection_pattern_texts() == seq![
            "(?i)"@ + r"ignore\s+(all\s+)?(previous|prior)\s+(instructions|directives|prompts)"@,
            "(?i)"@ + r"disregard\s+(all\s+)?(previous|prior)\s+(instructions|rules)"@,
            "(?i)"@ + r"system\s+prompt\s+override"@,
            "(?i)"@ + r"you\s+are\s+now\s+in\s+DAN\s+mode"@,
            "(?i)"@ + r"do\s+anything\s+now"@,
            "(?i)"@ + r"forget\s+(your|all)\s+rules"@,
            "(?i)"@ + r"bypass\s+safety\s+filters"@,
            "(?i)"@ + r"jailbreak\s+mode"@,
        ],
        forall|j: int|
            0 <= j < injection_pattern_texts().len() ==> has_prefix(
                #[trigger] injection_pattern_texts()[j],
                "(?i)"@,
            ),
{
    reveal_strlit("(?i)");
    reveal_strlit(r"(?i)ignore\s+(all\s+)?(previous|prior)\s+(instructions|directives|prompts)");
    reveal_strlit(r"ignore\s+(all\s+)?(previous|prior)\s+(instructions|directives|prompts)");
    reveal_strlit(r"(?i)disregard\s+(all\s+)?(previous|prior)\s+(instructions|rules)");
    reveal_strlit(r"disregard\s+(all\s+)?(previous|prior)\s+(instructions|rules)");
    reveal_strlit(r"(?i)system\s+prompt\s+override");
    reveal_strlit(r"system\s+prompt\s+override");
    reveal_strlit(r"(?i)you\s+are\s+now\s+in\s+DAN\s+mode");
    reveal_strlit(r"you\s+are\s+now\s+in\s+DAN\s+mode");
    reveal_strlit(r"(?i)do\s+anything\s+now");
    reveal_strlit(r"do\s+anything\s+now");
    reveal_strlit(r"(?i)forget\s+(your|all)\s+rules");
    reveal_strlit(r"forget\s+(your|all)\s+rules");
    reveal_strlit(r"(?i)bypass\s+safety\s+filters");
    reveal_strlit(r"bypass\s+safety\s+filters");
    reveal_strlit(r"(?i)jailbreak\s+mode");
    reveal_strlit(r"jailbreak\s+mode");
    let texts = injection_pattern_texts();
    assert(texts[0] =~= "(?i)"@ + r"ignore\s+(all\s+)?(previous|prior)\s+(instructions|directives|prompts)"@);
    assert(texts[1] =~= "(?i)"@ + r"disregard\s+(all\s+)?(previous|prior)\s+(instructions|rules)"@);
    assert(texts[2] =~= "(?i)"@ + r"system\s+prompt\s+override"@);
    assert(texts[3] =~= "(?i)"@ + r"you\s+are\s+now\s+in\s+DAN\s+mode"@);
    assert(texts[4] =~= "(?i)"@ + r"do\s+anything\s+now"@);
    assert(texts[5] =~= "(?i)"@ + r"forget\s+(your|all)\s+rules"@);
    assert(texts[6] =~= "(?i)"@ + r"bypass\s+safety\s+filters"@);
    assert(texts[7] =~= "(?i)"@ + r"jailbreak\s+mode"@);
    assert forall|j: int| 0 <= j < texts.len() implies has_prefix(#[trigger] texts[j], "(?i)"@) by {
        assert(texts[j].subrange(0, 4) =~= "(?i)"@);
    }
}

/// The patterns that compile are some of the given ones, in their order.
pub proof fn lemma_compiling_keeps_given(raw: Seq<Seq<char>>)
    ensures
        compiling(raw).len() <= raw.len(),
        forall|i: int|
            0 <= i < compiling(raw).len() ==> exists|j: int|
                0 <= j < raw.len() && #[trigger] compiling(raw)[i] == raw[j],
    decreases raw.len(),
{
    if raw.len() > 0 {
        let rest = raw.drop_last();
        lemma_compiling_keeps_given(rest);
        assert forall|i: int| 0 <= i < compiling(raw).len() implies exists|j: int|
            0 <= j < raw.len() && #[trigger] compiling(raw)[i] == raw[j] by {
            if i < compiling(rest).len() {
                let j = choose|j: int| 0 <= j < rest.len() && compiling(rest)[i] == rest[j];
                assert(compiling(raw)[i] == raw[j]);
            } else {
                assert(compiling(raw)[i] == raw[raw.len() - 1]);
            }
        }
    }
}

/// Every pattern that a new sanitizer uses matches without regard to case.
pub proof fn lemma_default_patterns_ignore_case()
    ensures
        forall|i: int|
            0 <= i < compiling(injection_pattern_texts()).len() ==> has_prefix(
                #[trigger] compiling(injection_pattern_texts())[i],
                "(?i)"@,
            ),
{
    lemma_injection_phrases();
    lemma_compiling_keeps_given(injection_pattern_texts());
    assert forall|i: int| 0 <= i < compiling(injection_pattern_texts()).len() implies has_prefix(
        #[trigger] compiling(injection_pattern_texts())[i],
        "(?i)"@,
    ) by {
        let texts = injection_pattern_texts();
        let j = choose|j: int| 0 <= j < texts.len() && compiling(texts)[i] == texts[j];
        assert(has_prefix(texts[j], "(?i)"@));
    }
}

/// A text of at most `SCAN_LIMIT` bytes is flagged exactly when one of the
/// patterns matches it.
pub proof fn lemma_short_text_flagged(patterns: Seq<Seq<char>>, text: Seq<char>)
    requires
        utf8_len(text) <= SCAN_LIMIT,
    ensures
        injection_found(patterns, text) <==> exists|k: int|
            0 <= k < patterns.len() && regex_is_match(#[trigger] patterns[k], text),
{
    assert(scan_window(text) == text);
}

/// A JSON value holds an injection when any of its strings does, at any
/// depth: a string that is flagged, an array with such an item, an object
/// with such a member value. Nulls, booleans and numbers hold none.
pub proof fn lemma_injection_anywhere_in_value(patterns: Seq<Seq<char>>, v: JsonTree)
    ensures
        v matches JsonTree::Str(s) ==> (value_has_injection(patterns, v) == injection_found(
            patterns,
            s,
        )),
        v matches JsonTree::Array(items) ==> forall|i: int|
            0 <= i < items.len() && value_has_injection(patterns, #[trigger] items[i])
                ==> value_has_injection(patterns, v),
        v matches JsonTree::Object(members) ==> forall|i: int|
            0 <= i < members.len() && value_has_injection(patterns, (#[trigger] members[i]).1)
                ==> value_has_injection(patterns, v),
        (v is Null || v is Bool || v is Number) ==> !value_has_injection(patterns, v),
{
}

} // verus!
