use vstd::prelude::*;
use serde_json::Value;

verus! {

/// A JSON value, as the gateway reads and writes message contents.
///
/// A number is held as the text that denotes it (the text `serde_json` writes
/// for it), so no floating-point value is ever held. The members of an object
/// are kept in the order in which they are written.
#[derive(Debug, PartialEq)]
pub enum JsonValue {
    Null,
    Bool(bool),
    Number(String),
    String(String),
    Array(Vec<JsonValue>),
    Object(Vec<(String, JsonValue)>),
}

/// The mathematical content of a `JsonValue`: strings as character
/// sequences, arrays and objects as sequences.
pub enum JsonTree {
    Null,
    Bool(bool),
    Number(Seq<char>),
    Str(Seq<char>),
    Array(Seq<JsonTree>),
    Object(Seq<(Seq<char>, JsonTree)>),
}

impl View for JsonValue {
    type V = JsonTree;

    open spec fn view(&self) -> JsonTree
        decreases self,
    {
        match self {
            JsonValue::Null => JsonTree::Null,
            JsonValue::Bool(b) => JsonTree::Bool(*b),
            JsonValue::Number(t) => JsonTree::Number(t@),
            JsonValue::String(s) => JsonTree::Str(s@),
            JsonValue::Array(items) => JsonTree::Array(
                Seq::new(
                    items@.len(),
                    |i: int|
                        if 0 <= i < items@.len() {
                            items@[i].view()
                        } else {
                            JsonTree::Null
                        },
                ),
            ),
            JsonValue::Object(members) => JsonTree::Object(
                Seq::new(
                    members@.len(),
                    |i: int|
                        {
                            let key: Seq<char> = if 0 <= i < members@.len() {
                                members@[i].0@
                            } else {
                                Seq::empty()
                            };
                            let value: JsonTree = if 0 <= i < members@.len() {
                                members@[i].1.view()
                            } else {
                                JsonTree::Null
                            };
                            (key, value)
                        },
                ),
            ),
        }
    }
}

#[verifier::external_type_specification]
#[verifier::external_body]
pub struct ExValue(Value);

/// What `serde_json::from_str::<serde_json::Value>` reads `text` as, taken as
/// a tree (numbers as the text `serde_json` writes for them, object members in
/// the map's order), or `None` when the text is not JSON.
pub uninterp spec fn json_reading(text: Seq<char>) -> Option<JsonTree>;

/// A `serde_json::Value` as a `JsonValue`, variant by variant: a number as the
/// text it displays as, an object's members in the map's order.
#[verifier::external_body]
fn value_to_json(v: &Value) -> JsonValue {
    match v {
        Value::Null => JsonValue::Null,
        Value::Bool(b) => JsonValue::Bool(*b),
        Value::Number(n) => JsonValue::Number(n.to_string()),
        Value::String(s) => JsonValue::String(s.clone()),
        Value::Array(items) => JsonValue::Array(items.iter().map(value_to_json).collect()),
        Value::Object(map) => JsonValue::Object(
            map.iter().map(|(k, x)| (k.clone(), value_to_json(x))).collect(),
        ),
    }
}

/// Calls `serde_json::from_str::<serde_json::Value>` and converts the value.
/// The contract names the result `json_reading` of the text: the reading
/// depends on the text alone, and is `None` exactly when `serde_json` reports
/// an error. Which texts are JSON, and what they read as, is left unstated.
#[verifier::external_body]
pub(crate) fn read_json(text: &str) -> (res: Option<JsonValue>)
    ensures
        match res {
            Some(v) => json_reading(text@) == Some(v@),
            None => json_reading(text@) is None,
        },
{
    match serde_json::from_str::<Value>(text) {
        Ok(v) => Some(value_to_json(&v)),
        Err(_) => None,
    }
}

/// A lower-case hexadecimal digit for `d` below 16.
pub open spec fn hex_digit(d: nat) -> char {
    if d < 10 {
        ((d as int) + ('0' as int)) as char
    } else {
        ((d as int) - 10 + ('a' as int)) as char
    }
}

/// How `serde_json` writes one character inside a string literal: `"` and `\`
/// behind a backslash; backspace, form feed, line feed, carriage return and
/// tab as `\b`, `\f`, `\n`, `\r`, `\t`; every other character below U+0020 as
/// `\u00` and two lower-case hex digits; anything else as it is.
pub open spec fn escaped_char(c: char) -> Seq<char> {
    if c == '"' {
        seq!['\\', '"']
    } else if c == '\\' {
        seq!['\\', '\\']
    } else if c == '\u{8}' {
        seq!['\\', 'b']
    } else if c == '\u{c}' {
        seq!['\\', 'f']
    } else if c == '\n' {
        seq!['\\', 'n']
    } else if c == '\r' {
        seq!['\\', 'r']
    } else if c == '\t' {
        seq!['\\', 't']
    } else if (c as u32) < 0x20 {
        seq!['\\', 'u', '0', '0', hex_digit((c as u32 as nat) / 16), hex_digit((c as u32 as nat) % 16)]
    } else {
        seq![c]
    }
}

/// The characters of `s`, each written as `escaped_char` writes it.
pub open spec fn escaped_text(s: Seq<char>) -> Seq<char>
    decreases s.len(),
{
    if s.len() == 0 {
        seq![]
    } else {
        escaped_text(s.drop_last()) + escaped_char(s.last())
    }
}

/// The JSON string literal that `serde_json` writes for `s`, quotes included.
pub open spec fn json_quoted(s: Seq<char>) -> Seq<char> {
    seq!['"'] + escaped_text(s) + seq!['"']
}

/// Calls `serde_json::to_string` on a `str`. The contract states what
/// `serde_json`'s escape table and `write_char_escape` show: the text between
/// two quotes, each character escaped as `escaped_char` says. Serialising a
/// `str` into memory cannot fail (only I/O errors of the writer are reported,
/// and a `Vec<u8>` writer raises none), so the error arm is never taken.
#[verifier::external_body]
pub fn quote_json_string(s: &str) -> (res: String)
    ensures
        res@ == json_quoted(s@),
{
    serde_json::to_string(s).unwrap_or_default()
}

/// The compact JSON text of a value, as `serde_json` writes it: no white space,
/// `,` between elements and members, `:` after each key.
pub open spec fn json_text(v: JsonTree) -> Seq<char>
    decreases v, 1nat,
{
    match v {
        JsonTree::Null => seq!['n', 'u', 'l', 'l'],
        JsonTree::Bool(b) => if b {
            seq!['t', 'r', 'u', 'e']
        } else {
            seq!['f', 'a', 'l', 's', 'e']
        },
        JsonTree::Number(t) => t,
        JsonTree::Str(s) => json_quoted(s),
        JsonTree::Array(items) => seq!['['] + elements_text(items) + seq![']'],
        JsonTree::Object(members) => seq!['{'] + members_text(members) + seq!['}'],
    }
}

/// The elements of an array, each written as JSON, separated by `,`.
pub open spec fn elements_text(items: Seq<JsonTree>) -> Seq<char>
    decreases items, 0nat,
{
    if items.len() == 0 {
        seq![]
    } else if items.len() == 1 {
        json_text(items[0])
    } else {
        elements_text(items.drop_last()) + seq![','] + json_text(items.last())
    }
}

/// One member of an object: its quoted key, `:`, its value.
pub open spec fn member_text(m: (Seq<char>, JsonTree)) -> Seq<char>
    decreases m, 2nat,
{
    json_quoted(m.0) + seq![':'] + json_text(m.1)
}

/// The members of an object, separated by `,`.
pub open spec fn members_text(members: Seq<(Seq<char>, JsonTree)>) -> Seq<char>
    decreases members, 0nat,
{
    if members.len() == 0 {
        seq![]
    } else if members.len() == 1 {
        member_text(members[0])
    } else {
        members_text(members.drop_last()) + seq![','] + member_text(members.last())
    }
}

/// Writes `v` as compact JSON text.
pub fn to_json_string(v: &JsonValue) -> (res: String)
    ensures
        res@ == json_text(v@),
    decreases *v,
{
    match v {
        JsonValue::Null => {
            let r = String::from_str("null");
            proof {
                reveal_strlit("null");
            }
            assert(r@ =~= seq!['n', 'u', 'l', 'l']);
            r
        },
        JsonValue::Bool(b) => {
            if *b {
                let r = String::from_str("true");
                proof {
                    reveal_strlit("true");
                }
                assert(r@ =~= seq!['t', 'r', 'u', 'e']);
                r
            } else {
                let r = String::from_str("false");
                proof {
                    reveal_strlit("false");
                }
                assert(r@ =~= seq!['f', 'a', 'l', 's', 'e']);
                r
            }
        },
        JsonValue::Number(t) => String::from_str(t.as_str()),
        JsonValue::String(s) => quote_json_string(s.as_str()),
        JsonValue::Array(items) => {
            let ghost trees = v@->Array_0;
            proof {
                reveal_strlit("[");
                reveal_strlit("]");
            }
            let mut r = String::from_str("[");
            let mut i: usize = 0;
            while i < items.len()
                invariant
                    i <= items.len(),
                    trees == v@->Array_0,
                    trees.len() == items@.len(),
                    forall|k: int| 0 <= k < items@.len() ==> #[trigger] trees[k] == items@[k]@,
                    r@ == seq!['['] + elements_text(trees.take(i as int)),
                    *v == JsonValue::Array(*items),
                decreases items.len() - i,
            {
                assert(trees.take(i + 1).drop_last() =~= trees.take(i as int));
                assert(trees.take(i + 1).last() == items@[i as int]@);
                proof {
                    reveal_strlit(",");
                    assert(decreases_to!(*v => (*v)->Array_0));
                    assert(decreases_to!(*items => items@));
                    assert(decreases_to!(items@ => items@[i as int]));
                }
                let t = to_json_string(&items[i]);
                if i > 0 {
                    r.append(",");
                }
                r.append(t.as_str());
                assert(r@ =~= seq!['['] + elements_text(trees.take(i + 1)));
                i = i + 1;
            }
            assert(trees.take(items.len() as int) =~= trees);
            r.append("]");
            r
        },
        JsonValue::Object(members) => {
            let ghost trees = v@->Object_0;
            assert(trees.len() == members@.len());
            assert forall|k: int| 0 <= k < members@.len() implies #[trigger] trees[k] == (
                members@[k].0@,
                members@[k].1@,
            ) by {
                assert(trees[k] == (members@[k].0@, members@[k].1@));
            }
            proof {
                reveal_strlit("{");
                reveal_strlit("}");
            }
            let mut r = String::from_str("{");
            let mut i: usize = 0;
            while i < members.len()
                invariant
                    i <= members.len(),
                    trees == v@->Object_0,
                    trees.len() == members@.len(),
                    forall|k: int|
                        0 <= k < members@.len() ==> #[trigger] trees[k] == (
                        members@[k].0@,
                        members@[k].1@,
                    ),
                    r@ == seq!['{'] + members_text(trees.take(i as int)),
                    *v == JsonValue::Object(*members),
                decreases members.len() - i,
            {
                assert(trees.take(i + 1).drop_last() =~= trees.take(i as int));
                assert(trees.take(i + 1).last() == trees[i as int]);
                proof {
                    reveal_strlit(",");
                    reveal_strlit(":");
                    assert(decreases_to!(*v => (*v)->Object_0));
                    assert(decreases_to!(*members => members@));
                    assert(decreases_to!(members@ => members@[i as int]));
                    assert(decreases_to!(members@[i as int] => members@[i as int].1));
                }
                let key = quote_json_string(members[i].0.as_str());
                let t = to_json_string(&members[i].1);
                if i > 0 {
                    r.append(",");
                }
                assert(key@ + seq![':'] + t@ == member_text(trees[i as int]));
                r.append(key.as_str());
                r.append(":");
                r.append(t.as_str());
                assert(r@ =~= seq!['{'] + members_text(trees.take(i + 1)));
                i = i + 1;
            }
            assert(trees.take(members.len() as int) =~= trees);
            r.append("}");
            r
        },
    }
}

impl JsonValue {
    /// A copy of the value, element by element.
    pub fn duplicate(&self) -> (res: JsonValue)
        ensures
            res@ == self@,
        decreases *self,
    {
        match self {
            JsonValue::Null => JsonValue::Null,
            JsonValue::Bool(b) => JsonValue::Bool(*b),
            JsonValue::Number(t) => JsonValue::Number(t.clone()),
            JsonValue::String(s) => JsonValue::String(s.clone()),
            JsonValue::Array(items) => {
                let ghost trees = self@->Array_0;
                let mut out: Vec<JsonValue> = Vec::new();
                let mut i: usize = 0;
                while i < items.len()
                    invariant
                        i <= items.len(),
                        *self == JsonValue::Array(*items),
                        trees == self@->Array_0,
                        trees.len() == items@.len(),
                        forall|k: int| 0 <= k < items@.len() ==> #[trigger] trees[k] == items@[k]@,
                        out.len() == i,
                        forall|k: int| 0 <= k < i ==> (#[trigger] out@[k])@ == trees[k],
                    decreases items.len() - i,
                {
                    proof {
                        assert(decreases_to!(*self => (*self)->Array_0));
                        assert(decreases_to!(*items => items@));
                        assert(decreases_to!(items@ => items@[i as int]));
                        assert(trees[i as int] == items@[i as int]@);
                    }
                    let v = items[i].duplicate();
                    out.push(v);
                    i = i + 1;
                }
                let res = JsonValue::Array(out);
                assert(res@->Array_0 =~= trees);
                res
            },
            JsonValue::Object(members) => {
                let ghost trees = self@->Object_0;
                assert forall|k: int| 0 <= k < members@.len() implies #[trigger] trees[k] == (
                    members@[k].0@,
                    members@[k].1@,
                ) by {
                    assert(trees[k] == (members@[k].0@, members@[k].1@));
                }
                let mut out: Vec<(String, JsonValue)> = Vec::new();
                let mut i: usize = 0;
                while i < members.len()
                    invariant
                        i <= members.len(),
                        *self == JsonValue::Object(*members),
                        trees == self@->Object_0,
                        trees.len() == members@.len(),
                        forall|k: int|
                            0 <= k < members@.len() ==> #[trigger] trees[k] == (
                            members@[k].0@,
                            members@[k].1@,
                        ),
                        out.len() == i,
                        forall|k: int|
                            0 <= k < i ==> ((#[trigger] out@[k]).0@, out@[k].1@) == trees[k],
                    decreases members.len() - i,
                {
                    proof {
                        assert(decreases_to!(*self => (*self)->Object_0));
                        assert(decreases_to!(*members => members@));
                        assert(decreases_to!(members@ => members@[i as int]));
                        assert(decreases_to!(members@[i as int] => members@[i as int].1));
                    }
                    let key = members[i].0.clone();
                    let v = members[i].1.duplicate();
                    out.push((key, v));
                    i = i + 1;
                }
                let res = JsonValue::Object(out);
                assert forall|k: int| 0 <= k < out@.len() implies #[trigger] res@->Object_0[k] == (
                    out@[k].0@,
                    out@[k].1@,
                ) by {
                    assert(res@->Object_0[k] == (out@[k].0@, out@[k].1@));
                }
                assert(res@->Object_0 =~= trees);
                res
            },
        }
    }
}

} // verus!
