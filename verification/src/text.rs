use vstd::prelude::*;
use vstd::utf8::{decode_utf8, valid_utf8};

verus! {

// ---------------------------------------------------------------------------
// Characters
// ---------------------------------------------------------------------------

/// White space in the sense of Unicode's `White_Space` property, the set that
/// `char::is_whitespace` (and so `str::trim`) recognises.
pub open spec fn is_space(c: char) -> bool {
    ||| ('\u{9}' <= c && c <= '\u{d}')
    ||| c == ' '
    ||| c == '\u{85}'
    ||| c == '\u{a0}'
    ||| c == '\u{1680}'
    ||| ('\u{2000}' <= c && c <= '\u{200a}')
    ||| c == '\u{2028}'
    ||| c == '\u{2029}'
    ||| c == '\u{202f}'
    ||| c == '\u{205f}'
    ||| c == '\u{3000}'
}

pub fn is_space_char(c: char) -> (res: bool)
    ensures
        res == is_space(c),
{
    ('\u{9}' <= c && c <= '\u{d}') || c == ' ' || c == '\u{85}' || c == '\u{a0}' || c == '\u{1680}'
        || ('\u{2000}' <= c && c <= '\u{200a}') || c == '\u{2028}' || c == '\u{2029}' || c
        == '\u{202f}' || c == '\u{205f}' || c == '\u{3000}'
}

/// An ASCII upper-case letter mapped to its lower-case form; every other
/// character unchanged.
pub open spec fn ascii_lower_char(c: char) -> char {
    if 'A' <= c && c <= 'Z' {
        ((c as u32) + 32) as char
    } else {
        c
    }
}

/// `ascii_lower_char` applied to each character.
pub open spec fn ascii_lower(s: Seq<char>) -> Seq<char> {
    s.map_values(|c: char| ascii_lower_char(c))
}

/// Whether every character of `s` is ASCII.
pub open spec fn all_ascii(s: Seq<char>) -> bool {
    forall|i: int| 0 <= i < s.len() ==> (#[trigger] s[i]) <= '\u{7f}'
}

// ---------------------------------------------------------------------------
// Lower-casing (std)
// ---------------------------------------------------------------------------

/// What `str::to_lowercase` returns for a string: its lower-case form under
/// the Unicode `Lowercase` mapping.
pub uninterp spec fn unicode_lowercase(s: Seq<char>) -> Seq<char>;

/// Calls `str::to_lowercase`. The contract names the result
/// `unicode_lowercase` of the input and states the one fact the standard
/// library documents plainly enough to be relied on here: on an ASCII string
/// the mapping only turns `A`..`Z` into `a`..`z`. What it does to other
/// characters (which may even change the length) is left unsaid.
#[verifier::external_body]
pub fn to_lowercase(s: &str) -> (res: String)
    ensures
        res@ == unicode_lowercase(s@),
        all_ascii(s@) ==> res@ == ascii_lower(s@),
{
    s.to_lowercase()
}

// ---------------------------------------------------------------------------
// Reading and comparing strings
// ---------------------------------------------------------------------------

/// The characters of `s`, in order.
pub fn chars_of(s: &str) -> (res: Vec<char>)
    ensures
        res@ == s@,
{
    let mut res: Vec<char> = Vec::new();
    for c in it: s.chars()
        invariant
            res@ == it.seq().take(it.index() as int),
            it.seq() == s@,
    {
        res.push(c);
    }
    res
}

/// Whether two strings hold the same characters.
pub fn text_eq(a: &str, b: &str) -> (res: bool)
    ensures
        res == (a@ == b@),
{
    let x = chars_of(a);
    let y = chars_of(b);
    if x.len() != y.len() {
        return false;
    }
    let mut i: usize = 0;
    while i < x.len()
        invariant
            x@ == a@,
            y@ == b@,
            x.len() == y.len(),
            i <= x.len(),
            forall|k: int| 0 <= k < i ==> x@[k] == y@[k],
        decreases x.len() - i,
    {
        if x[i] != y[i] {
            return false;
        }
        i = i + 1;
    }
    assert(x@ =~= y@);
    true
}

/// Whether `s` begins with `p`.
pub open spec fn has_prefix(s: Seq<char>, p: Seq<char>) -> bool {
    p.len() <= s.len() && s.subrange(0, p.len() as int) == p
}

pub fn starts_with(s: &str, p: &str) -> (res: bool)
    ensures
        res == has_prefix(s@, p@),
{
    let x = chars_of(s);
    let y = chars_of(p);
    if y.len() > x.len() {
        return false;
    }
    let mut i: usize = 0;
    while i < y.len()
        invariant
            x@ == s@,
            y@ == p@,
            y.len() <= x.len(),
            i <= y.len(),
            forall|k: int| 0 <= k < i ==> x@[k] == y@[k],
        decreases y.len() - i,
    {
        if x[i] != y[i] {
            assert(s@.subrange(0, p@.len() as int)[i as int] != p@[i as int]);
            return false;
        }
        i = i + 1;
    }
    assert(s@.subrange(0, p@.len() as int) =~= p@);
    true
}

/// An ASCII case-insensitive match, as `str::eq_ignore_ascii_case` decides it.
pub open spec fn eq_ignoring_ascii_case(a: Seq<char>, b: Seq<char>) -> bool {
    a.len() == b.len() && forall|i: int|
        0 <= i < a.len() ==> ascii_lower_char(#[trigger] a[i]) == ascii_lower_char(b[i])
}

fn lower_code(c: char) -> (res: u32)
    ensures
        res == ascii_lower_char(c) as u32,
{
    let x = c as u32;
    if 65 <= x && x <= 90 {
        x + 32
    } else {
        x
    }
}

pub fn eq_ignore_ascii_case(a: &str, b: &str) -> (res: bool)
    ensures
        res == eq_ignoring_ascii_case(a@, b@),
{
    let x = chars_of(a);
    let y = chars_of(b);
    if x.len() != y.len() {
        return false;
    }
    let mut i: usize = 0;
    while i < x.len()
        invariant
            x@ == a@,
            y@ == b@,
            x.len() == y.len(),
            i <= x.len(),
            forall|k: int| 0 <= k < i ==> ascii_lower_char(#[trigger] x@[k]) == ascii_lower_char(y@[k]),
        decreases x.len() - i,
    {
        if lower_code(x[i]) != lower_code(y[i]) {
            return false;
        }
        i = i + 1;
    }
    true
}

// ---------------------------------------------------------------------------
// Trimming
// ---------------------------------------------------------------------------

/// `s` without its leading white space.
pub open spec fn trim_start(s: Seq<char>) -> Seq<char>
    decreases s.len(),
{
    if s.len() > 0 && is_space(s[0]) {
        trim_start(s.drop_first())
    } else {
        s
    }
}

/// `s` without its trailing white space.
pub open spec fn trim_end(s: Seq<char>) -> Seq<char>
    decreases s.len(),
{
    if s.len() > 0 && is_space(s.last()) {
        trim_end(s.drop_last())
    } else {
        s
    }
}

/// What `str::trim` leaves of `s`.
pub open spec fn trimmed(s: Seq<char>) -> Seq<char> {
    trim_end(trim_start(s))
}

/// `s` without its trailing copies of `c`, as `str::trim_end_matches(c)` leaves it.
pub open spec fn trim_end_char(s: Seq<char>, c: char) -> Seq<char>
    decreases s.len(),
{
    if s.len() > 0 && s.last() == c {
        trim_end_char(s.drop_last(), c)
    } else {
        s
    }
}

/// The same characters as `str::trim` keeps.
pub fn trim(s: &str) -> (res: String)
    ensures
        res@ == trimmed(s@),
{
    let cs = chars_of(s);
    let n = cs.len();
    let mut i: usize = 0;
    assert(s@.skip(0) =~= s@);
    while i < n && is_space_char(cs[i])
        invariant
            cs@ == s@,
            n == cs.len(),
            i <= n,
            trim_start(s@) == trim_start(s@.skip(i as int)),
        decreases n - i,
    {
        assert(s@.skip(i as int).drop_first() =~= s@.skip(i + 1));
        i = i + 1;
    }
    assert(trim_start(s@) == s@.skip(i as int));
    assert(s@.skip(i as int) =~= s@.subrange(i as int, n as int));
    let mut j: usize = n;
    while j > i && is_space_char(cs[j - 1])
        invariant
            cs@ == s@,
            n == cs.len(),
            i <= j <= n,
            trim_end(s@.subrange(i as int, n as int)) == trim_end(s@.subrange(i as int, j as int)),
        decreases j,
    {
        assert(s@.subrange(i as int, j as int).drop_last() =~= s@.subrange(i as int, j - 1));
        j = j - 1;
    }
    let piece = s.substring_char(i, j);
    piece.to_owned()
}

/// The same characters as `str::trim_end_matches(c)` keeps, for a single character `c`.
pub fn trim_end_matches_char(s: &str, c: char) -> (res: String)
    ensures
        res@ == trim_end_char(s@, c),
{
    let cs = chars_of(s);
    let mut j: usize = cs.len();
    assert(s@.subrange(0, j as int) =~= s@);
    while j > 0 && cs[j - 1] == c
        invariant
            cs@ == s@,
            j <= cs.len(),
            trim_end_char(s@, c) == trim_end_char(s@.subrange(0, j as int), c),
        decreases j,
    {
        assert(s@.subrange(0, j as int).drop_last() =~= s@.subrange(0, j - 1));
        j = j - 1;
    }
    assert(s@.subrange(0, cs.len() as int) =~= s@);
    let piece = s.substring_char(0, j);
    piece.to_owned()
}

// ---------------------------------------------------------------------------
// Decoding (std)
// ---------------------------------------------------------------------------

/// Calls `std::str::from_utf8` and copies the text out. The standard library
/// documents that it succeeds exactly when the bytes are valid UTF-8; the
/// contract says so over vstd's model of UTF-8, and that the text is the one
/// the bytes encode.
#[verifier::external_body]
pub fn utf8_to_string(bytes: &[u8]) -> (res: Option<String>)
    ensures
        res is Some <==> valid_utf8(bytes@),
        res matches Some(s) ==> s@ == decode_utf8(bytes@),
{
    match std::str::from_utf8(bytes) {
        Ok(s) => Some(s.to_string()),
        Err(_) => None,
    }
}

// ---------------------------------------------------------------------------
// UTF-8 lengths
// ---------------------------------------------------------------------------

/// The number of bytes that UTF-8 takes for `c`.
pub open spec fn utf8_width(c: char) -> nat {
    if (c as u32) < 0x80 {
        1
    } else if (c as u32) < 0x800 {
        2
    } else if (c as u32) < 0x10000 {
        3
    } else {
        4
    }
}

/// The number of bytes that UTF-8 takes for `s` (what `str::len` returns).
pub open spec fn utf8_len(s: Seq<char>) -> nat
    decreases s.len(),
{
    if s.len() == 0 {
        0
    } else {
        utf8_len(s.drop_last()) + utf8_width(s.last())
    }
}

/// The number of leading characters of `s` that fit in `limit` bytes.
pub open spec fn chars_within(s: Seq<char>, limit: nat) -> nat
    decreases s.len(),
{
    if utf8_len(s) <= limit || s.len() == 0 {
        s.len()
    } else {
        chars_within(s.drop_last(), limit)
    }
}

pub fn utf8_width_of(c: char) -> (res: usize)
    ensures
        res == utf8_width(c),
{
    let x = c as u32;
    if x < 0x80 {
        1
    } else if x < 0x800 {
        2
    } else if x < 0x10000 {
        3
    } else {
        4
    }
}

/// Prefixes of a string take no more bytes than longer prefixes.
pub proof fn lemma_utf8_len_prefix_monotone(s: Seq<char>, a: int, b: int)
    requires
        0 <= a <= b <= s.len(),
    ensures
        utf8_len(s.take(a)) <= utf8_len(s.take(b)),
    decreases b - a,
{
    if a < b {
        assert(s.take(b).drop_last() =~= s.take(b - 1));
        lemma_utf8_len_prefix_monotone(s, a, b - 1);
    }
}

/// The prefix length that `chars_within` picks is characterised by fitting
/// while one more character would not.
pub proof fn lemma_chars_within(s: Seq<char>, limit: nat, k: int)
    requires
        0 <= k <= s.len(),
        utf8_len(s.take(k)) <= limit,
        k == s.len() || utf8_len(s.take(k + 1)) > limit,
    ensures
        chars_within(s, limit) == k,
    decreases s.len(),
{
    assert(s.take(s.len() as int) =~= s);
    if utf8_len(s) <= limit || s.len() == 0 {
        if k < s.len() {
            lemma_utf8_len_prefix_monotone(s, k + 1, s.len() as int);
        }
    } else {
        let t = s.drop_last();
        assert(k < s.len());
        assert(t.take(k) =~= s.take(k));
        if k + 1 <= t.len() {
            assert(t.take(k + 1) =~= s.take(k + 1));
        }
        lemma_chars_within(t, limit, k);
    }
}

/// What `chars_within` picks: a prefix that fits, and that one more character
/// would overflow.
pub proof fn lemma_chars_within_fits(s: Seq<char>, limit: nat)
    ensures
        0 <= chars_within(s, limit) <= s.len(),
        utf8_len(s.take(chars_within(s, limit) as int)) <= limit,
        chars_within(s, limit) == s.len() || utf8_len(s.take(chars_within(s, limit) as int + 1)) > limit,
    decreases s.len(),
{
    assert(s.take(s.len() as int) =~= s);
    if !(utf8_len(s) <= limit || s.len() == 0) {
        let d = s.drop_last();
        lemma_chars_within_fits(d, limit);
        let k: int = chars_within(d, limit) as int;
        assert(d.take(k) =~= s.take(k));
        if k < d.len() {
            assert(d.take(k + 1) =~= s.take(k + 1));
        }
    }
}

} // verus!
