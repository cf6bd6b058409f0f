//! Text helpers shared by the indexers and the protocol client.

use vstd::prelude::*;
use vstd::utf8::*;

verus! {

/// Code points with the Unicode property `White_Space`.
pub open spec fn is_white_space(c: char) -> bool {
    let u = c as u32;
    ||| 0x9 <= u <= 0xD
    ||| u == 0x20
    ||| u == 0x85
    ||| u == 0xA0
    ||| u == 0x1680
    ||| 0x2000 <= u <= 0x200A
    ||| u == 0x2028
    ||| u == 0x2029
    ||| u == 0x202F
    ||| u == 0x205F
    ||| u == 0x3000
}

/// `s` without its leading white space.
pub open spec fn trim_start(s: Seq<char>) -> Seq<char>
    decreases s.len(),
{
    if s.len() > 0 && is_white_space(s[0]) {
        trim_start(s.drop_first())
    } else {
        s
    }
}

/// `s` without its trailing white space.
pub open spec fn trim_end(s: Seq<char>) -> Seq<char>
    decreases s.len(),
{
    if s.len() > 0 && is_white_space(s.last()) {
        trim_end(s.drop_last())
    } else {
        s
    }
}

/// `s` without leading and trailing white space.
pub open spec fn trimmed(s: Seq<char>) -> Seq<char> {
    trim_end(trim_start(s))
}

/// What is left of `s` after `prefix`, if `s` starts with it.
pub open spec fn without_prefix(s: Seq<char>, prefix: Seq<char>) -> Option<Seq<char>> {
    if prefix.is_prefix_of(s) {
        Some(s.skip(prefix.len() as int))
    } else {
        None
    }
}

/// The text that `bytes` encode, when they are UTF-8.
pub open spec fn decoded(bytes: Seq<u8>) -> Option<Seq<char>> {
    if valid_utf8(bytes) {
        Some(decode_utf8(bytes))
    } else {
        None
    }
}

/// The view of an optional string.
pub open spec fn opt_view(s: Option<String>) -> Option<Seq<char>> {
    match s {
        Some(text) => Some(text@),
        None => None,
    }
}

/// The view of an optional string slice.
pub open spec fn opt_str_view(s: Option<&str>) -> Option<Seq<char>> {
    match s {
        Some(text) => Some(text@),
        None => None,
    }
}

/// `String::from_utf8` of std: the bytes as a string when they are valid
/// UTF-8, and nothing otherwise.
#[verifier::external_body]
pub(crate) fn string_from_utf8(bytes: Vec<u8>) -> (text: Option<String>)
    ensures
        opt_view(text) == decoded(bytes@),
{
    String::from_utf8(bytes).ok()
}

/// Whether `c` is white space.
pub fn char_is_white_space(c: char) -> (white: bool)
    ensures
        white == is_white_space(c),
{
    let u = c as u32;
    (0x9 <= u && u <= 0xD) || u == 0x20 || u == 0x85 || u == 0xA0 || u == 0x1680 || (0x2000 <= u
        && u <= 0x200A) || u == 0x2028 || u == 0x2029 || u == 0x202F || u == 0x205F || u == 0x3000
}

/// What follows `prefix` in `text`, when `text` starts with it.
pub fn strip_prefix<'a>(text: &'a str, prefix: &str) -> (rest: Option<&'a str>)
    ensures
        match rest {
            Some(r) => without_prefix(text@, prefix@) == Some(r@),
            None => without_prefix(text@, prefix@) is None,
        },
{
    let chars = chars_of(text);
    let lead = chars_of(prefix);
    if lead.len() > chars.len() {
        return None;
    }
    let mut i: usize = 0;
    while i < lead.len()
        invariant
            i <= lead.len() <= chars.len(),
            chars@ == text@,
            lead@ == prefix@,
            text@.take(i as int) == prefix@.take(i as int),
        decreases lead.len() - i,
    {
        if chars[i] != lead[i] {
            assert(text@.subrange(0, prefix@.len() as int)[i as int] != prefix@[i as int]);
            return None;
        }
        assert(text@.take(i + 1) == text@.take(i as int).push(text@[i as int]));
        assert(prefix@.take(i + 1) == prefix@.take(i as int).push(prefix@[i as int]));
        i = i + 1;
    }
    assert(prefix@.take(prefix@.len() as int) == prefix@);
    Some(text.substring_char(lead.len(), chars.len()))
}

/// Whether `text` ends with `suffix`.
pub fn ends_with(text: &str, suffix: &str) -> (ends: bool)
    ensures
        ends == suffix@.is_suffix_of(text@),
{
    let chars = chars_of(text);
    let tail = chars_of(suffix);
    if tail.len() > chars.len() {
        return false;
    }
    let offset = chars.len() - tail.len();
    let mut i: usize = 0;
    while i < tail.len()
        invariant
            i <= tail.len() <= chars.len(),
            offset == chars.len() - tail.len(),
            chars@ == text@,
            tail@ == suffix@,
            text@.subrange(offset as int, offset + i) == suffix@.take(i as int),
        decreases tail.len() - i,
    {
        if chars[offset + i] != tail[i] {
            assert(text@.subrange(offset as int, text@.len() as int)[i as int] != suffix@[i as int]);
            return false;
        }
        assert(text@.subrange(offset as int, offset + i + 1) == text@.subrange(
            offset as int,
            offset + i,
        ).push(text@[offset + i]));
        assert(suffix@.take(i + 1) == suffix@.take(i as int).push(suffix@[i as int]));
        i = i + 1;
    }
    assert(suffix@.take(suffix@.len() as int) == suffix@);
    true
}

/// `text` without the white space at its two ends.
pub fn trim<'a>(text: &'a str) -> (inner: &'a str)
    ensures
        inner@ == trimmed(text@),
{
    let chars = chars_of(text);
    let mut start: usize = 0;
    assert(text@.skip(0) == text@);
    while start < chars.len() && char_is_white_space(chars[start])
        invariant
            start <= chars.len(),
            chars@ == text@,
            trim_start(text@) == trim_start(text@.skip(start as int)),
        decreases chars.len() - start,
    {
        assert(text@.skip(start as int).drop_first() == text@.skip(start + 1));
        start = start + 1;
    }
    assert(trim_start(text@) == text@.skip(start as int));
    let mut end: usize = chars.len();
    while end > start && char_is_white_space(chars[end - 1])
        invariant
            start <= end <= chars.len(),
            chars@ == text@,
            trimmed(text@) == trim_end(text@.subrange(start as int, end as int)),
        decreases end - start,
    {
        assert(text@.subrange(start as int, end as int).drop_last() == text@.subrange(
            start as int,
            end - 1,
        ));
        end = end - 1;
    }
    text.substring_char(start, end)
}

/// Whether two byte slices hold the same bytes.
pub fn bytes_eq(a: &[u8], b: &[u8]) -> (same: bool)
    ensures
        same == (a@ == b@),
{
    if a.len() != b.len() {
        return false;
    }
    let mut i: usize = 0;
    while i < a.len()
        invariant
            i <= a.len(),
            a.len() == b.len(),
            a@.take(i as int) == b@.take(i as int),
        decreases a.len() - i,
    {
        if a[i] != b[i] {
            assert(a@[i as int] != b@[i as int]);
            return false;
        }
        assert(a@.take(i + 1) == a@.take(i as int).push(a@[i as int]));
        assert(b@.take(i + 1) == b@.take(i as int).push(b@[i as int]));
        i = i + 1;
    }
    assert(a@ == a@.take(a.len() as int));
    assert(b@ == b@.take(b.len() as int));
    true
}

/// Whether two strings hold the same text.
pub fn str_eq(a: &str, b: &str) -> (same: bool)
    ensures
        same == (a@ == b@),
{
    proof {
        encode_utf8_decode_utf8(a@);
        encode_utf8_decode_utf8(b@);
    }
    bytes_eq(a.as_bytes(), b.as_bytes())
}

/// The characters of `text`, in order.
pub fn chars_of(text: &str) -> (chars: Vec<char>)
    ensures
        chars@ == text@,
{
    let mut chars: Vec<char> = Vec::new();
    for c in it: text.chars()
        invariant
            it.seq() == text@,
            chars@ == it.seq().take(it.index() as int),
    {
        chars.push(c);
    }
    assert(chars@ == text@.take(text@.len() as int));
    chars
}

} // verus!
