//! Message framing: a body is preceded by a header that gives its length.
//!
//! On the wire a message is the ASCII text `Content-Length: `, the length of
//! the body in decimal, `\r\n\r\n`, and then the body.

use crate::text::{
    char_is_white_space, chars_of, decoded, string_from_utf8, trim_end, trim_start, trimmed,
    without_prefix,
};
use vstd::prelude::*;
use vstd::slice::slice_to_vec;
use vstd::utf8::*;

verus! {

/// The decimal digit `d` as a character.
pub open spec fn digit_char(d: int) -> char {
    (0x30 + d) as u8 as char
}

/// The decimal digits of `n`, without leading zeros.
pub open spec fn decimal(n: nat) -> Seq<char>
    decreases n,
{
    if n < 10 {
        seq![digit_char(n as int)]
    } else {
        decimal(n / 10).push(digit_char((n % 10) as int))
    }
}

/// The bytes of a text of ASCII characters.
pub open spec fn ascii_bytes(text: Seq<char>) -> Seq<u8> {
    Seq::new(text.len(), |i: int| text[i] as u8)
}

/// The header of a message whose body is `length` bytes long, as text.
pub open spec fn header_text(length: nat) -> Seq<char> {
    "Content-Length: "@ + decimal(length) + "\r\n\r\n"@
}

/// The header of a message whose body is `length` bytes long.
pub open spec fn header_bytes(length: nat) -> Seq<u8> {
    ascii_bytes(header_text(length))
}

/// A message on the wire: the header, then the body.
pub open spec fn frame(body: Seq<u8>) -> Seq<u8> {
    header_bytes(body.len()) + body
}

/// The digits of a number are decimal digits, and there is at least one.
pub proof fn lemma_decimal_digits(n: nat)
    ensures
        decimal(n).len() >= 1,
        forall|i: int|
            0 <= i < decimal(n).len() ==> 0x30 <= (#[trigger] decimal(n)[i]) as u32 <= 0x39,
        forall|i: int| 0 <= i < decimal(n).len() ==> '0' <= (#[trigger] decimal(n)[i]) <= '9',
    decreases n,
{
    if n >= 10 {
        lemma_decimal_digits(n / 10);
    }
}

/// The decimal digits of `n` as bytes.
pub fn decimal_bytes(n: usize) -> (digits: Vec<u8>)
    ensures
        digits@ == ascii_bytes(decimal(n as nat)),
    decreases n,
{
    if n < 10 {
        let mut digits: Vec<u8> = Vec::new();
        digits.push(0x30u8 + (n as u8));
        assert(digits@ =~= ascii_bytes(decimal(n as nat)));
        digits
    } else {
        let mut digits = decimal_bytes(n / 10);
        digits.push(0x30u8 + ((n % 10) as u8));
        assert(digits@ =~= ascii_bytes(decimal(n as nat)));
        digits
    }
}

/// The text in front of the length in a header is plain ASCII.
pub proof fn lemma_header_parts()
    ensures
        "Content-Length: "@.len() == 16,
        "\r\n\r\n"@ == seq!['\r', '\n', '\r', '\n'],
        is_ascii_chars("Content-Length: "@),
        is_ascii_chars("\r\n\r\n"@),
        forall|i: int|
            0 <= i < 16 ==> (#[trigger] "Content-Length: "@[i]) != '\r' && "Content-Length: "@[i]
                != '\n',
{
    reveal_strlit("Content-Length: ");
    reveal_strlit("\r\n\r\n");
    assert("\r\n\r\n"@ =~= seq!['\r', '\n', '\r', '\n']);
}

/// A message on the wire: the header, then the body.
pub fn encode_frame(body: &[u8]) -> (message: Vec<u8>)
    ensures
        message@ == frame(body@),
        message@.len() == header_bytes(body@.len()).len() + body@.len(),
{
    let mut message: Vec<u8> = Vec::new();
    let lead = "Content-Length: ".as_bytes();
    let tail = "\r\n\r\n".as_bytes();
    proof {
        lemma_header_parts();
        is_ascii_chars_encode_utf8("Content-Length: "@);
        is_ascii_chars_encode_utf8("\r\n\r\n"@);
        assert(lead@ =~= ascii_bytes("Content-Length: "@));
        assert(tail@ =~= ascii_bytes("\r\n\r\n"@));
    }
    message.extend_from_slice(lead);
    let mut digits = decimal_bytes(body.len());
    message.append(&mut digits);
    message.extend_from_slice(tail);
    assert(message@ =~= header_bytes(body@.len()));
    message.extend_from_slice(body);
    message
}

/// What can be wrong with the header of an incoming message.
#[derive(Clone, Copy, Debug, PartialEq, Eq, Structural)]
pub enum FrameError {
    /// The header is not valid UTF-8.
    InvalidHeader,
    /// No line of the header gives a content length.
    MissingContentLength,
}

/// The character is a decimal digit.
pub open spec fn is_digit(c: char) -> bool {
    0x30 <= c as u32 <= 0x39
}

/// Every character of `s` is a decimal digit.
pub open spec fn all_digits(s: Seq<char>) -> bool {
    forall|i: int| 0 <= i < s.len() ==> is_digit(#[trigger] s[i])
}

/// The number that the decimal digits `s` write.
pub open spec fn decimal_value(s: Seq<char>) -> nat
    decreases s.len(),
{
    if s.len() == 0 {
        0
    } else {
        decimal_value(s.drop_last()) * 10 + (s.last() as u32 - 0x30) as nat
    }
}

/// The number that `s` writes: an optional `+`, then one or more decimal
/// digits, of a value that fits the machine word.
pub open spec fn parse_unsigned(s: Seq<char>) -> Option<usize> {
    let digits = if s.len() > 0 && s[0] == '+' {
        s.drop_first()
    } else {
        s
    };
    if digits.len() > 0 && all_digits(digits) && decimal_value(digits) <= usize::MAX {
        Some(decimal_value(digits) as usize)
    } else {
        None
    }
}

/// The place of the first line feed of `s`, or the length of `s` when it
/// has none.
pub open spec fn line_break(s: Seq<char>) -> int
    decreases s.len(),
{
    if s.len() == 0 || s[0] == '\n' {
        0
    } else {
        1 + line_break(s.drop_first())
    }
}

/// `line` without a carriage return at its end.
pub open spec fn without_return(line: Seq<char>) -> Seq<char> {
    if line.len() > 0 && line.last() == '\r' {
        line.drop_last()
    } else {
        line
    }
}

/// The lines of `s`. A line ends at a line feed; the line feed, and a
/// carriage return just before it, are not part of the line. What follows
/// the last line feed is a line too, unless it is empty.
pub open spec fn lines(s: Seq<char>) -> Seq<Seq<char>>
    decreases s.len(),
{
    if s.len() == 0 {
        Seq::empty()
    } else if 0 <= line_break(s) < s.len() {
        seq![without_return(s.take(line_break(s)))] + lines(s.skip(line_break(s) + 1))
    } else {
        seq![s]
    }
}

/// The content length that a header line gives: the number written after
/// `Content-Length:`, white space around it set aside.
pub open spec fn line_length(line: Seq<char>) -> Option<usize> {
    match without_prefix(line, "Content-Length:"@) {
        Some(rest) => parse_unsigned(trimmed(rest)),
        None => None,
    }
}

/// The content length given by the first of `lines` that gives one.
pub open spec fn first_length(lines: Seq<Seq<char>>) -> Option<usize>
    decreases lines.len(),
{
    if lines.len() == 0 {
        None
    } else {
        match line_length(lines[0]) {
            Some(length) => Some(length),
            None => first_length(lines.drop_first()),
        }
    }
}

/// The length of the body that a header announces.
pub open spec fn header_length(header: Seq<u8>) -> Result<usize, FrameError> {
    match decoded(header) {
        None => Err(FrameError::InvalidHeader),
        Some(text) => match first_length(lines(text)) {
            Some(length) => Ok(length),
            None => Err(FrameError::MissingContentLength),
        },
    }
}

/// The value of the first digits of a number is at most the number.
pub proof fn lemma_decimal_value_grows(s: Seq<char>, n: int)
    requires
        0 <= n <= s.len(),
    ensures
        decimal_value(s.take(n)) <= decimal_value(s),
    decreases s.len(),
{
    if n == s.len() {
        assert(s.take(n) == s);
    } else {
        lemma_decimal_value_grows(s.drop_last(), n);
        assert(s.drop_last().take(n) == s.take(n));
    }
}

/// The number that the characters of `chars` from `from` up to `to` write.
pub fn parse_unsigned_at(chars: &Vec<char>, from: usize, to: usize) -> (number: Option<usize>)
    requires
        from <= to <= chars.len(),
    ensures
        number == parse_unsigned(chars@.subrange(from as int, to as int)),
{
    let ghost s = chars@.subrange(from as int, to as int);
    let start = if from < to && chars[from] == '+' {
        from + 1
    } else {
        from
    };
    let ghost digits = chars@.subrange(start as int, to as int);
    assert(digits == if s.len() > 0 && s[0] == '+' {
        s.drop_first()
    } else {
        s
    });
    if start == to {
        return None;
    }
    let mut value: usize = 0;
    let mut i: usize = start;
    assert(digits.take(0) == Seq::<char>::empty());
    while i < to
        invariant
            start <= i <= to <= chars.len(),
            from <= start < to,
            s == chars@.subrange(from as int, to as int),
            digits == chars@.subrange(start as int, to as int),
            digits == if s.len() > 0 && s[0] == '+' {
                s.drop_first()
            } else {
                s
            },
            all_digits(digits.take(i - start)),
            value == decimal_value(digits.take(i - start)),
        decreases to - i,
    {
        let c = chars[i];
        let code = c as u32;
        assert(digits[i - start] == c);
        if code < 0x30 || code > 0x39 {
            assert(!is_digit(digits[i - start]));
            return None;
        }
        let d = (code - 0x30) as usize;
        proof {
            let upto = digits.take(i - start + 1);
            assert(upto.drop_last() == digits.take(i - start));
            assert(upto.last() == c);
            assert(decimal_value(upto) == value * 10 + d);
            assert(all_digits(upto)) by {
                assert forall|j: int| 0 <= j < upto.len() implies is_digit(#[trigger] upto[j]) by {
                    if j < i - start {
                        assert(digits.take(i - start)[j] == upto[j]);
                    }
                }
            }
            lemma_decimal_value_grows(digits, i - start + 1);
        }
        if value > (usize::MAX - d) / 10 {
            return None;
        }
        value = value * 10 + d;
        i = i + 1;
    }
    assert(digits.take(to - start) == digits);
    Some(value)
}

/// Whether the characters of `chars` from `from` up to `to` start with
/// `prefix`.
pub fn starts_with_at(chars: &Vec<char>, from: usize, to: usize, prefix: &Vec<char>) -> (starts:
    bool)
    requires
        from <= to <= chars.len(),
    ensures
        starts == prefix@.is_prefix_of(chars@.subrange(from as int, to as int)),
{
    let ghost s = chars@.subrange(from as int, to as int);
    if prefix.len() > to - from {
        return false;
    }
    let mut i: usize = 0;
    while i < prefix.len()
        invariant
            i <= prefix.len() <= to - from,
            from <= to <= chars.len(),
            s == chars@.subrange(from as int, to as int),
            s.take(i as int) == prefix@.take(i as int),
        decreases prefix.len() - i,
    {
        if chars[from + i] != prefix[i] {
            assert(s.subrange(0, prefix@.len() as int)[i as int] != prefix@[i as int]);
            return false;
        }
        assert(s.take(i + 1) == s.take(i as int).push(s[i as int]));
        assert(prefix@.take(i + 1) == prefix@.take(i as int).push(prefix@[i as int]));
        i = i + 1;
    }
    assert(prefix@.take(prefix@.len() as int) == prefix@);
    true
}

/// The content length that the line from `from` up to `to` gives.
pub fn line_length_at(chars: &Vec<char>, from: usize, to: usize) -> (length: Option<usize>)
    requires
        from <= to <= chars.len(),
    ensures
        length == line_length(chars@.subrange(from as int, to as int)),
{
    let ghost line = chars@.subrange(from as int, to as int);
    let prefix = chars_of("Content-Length:");
    if !starts_with_at(chars, from, to, &prefix) {
        return None;
    }
    let first = from + prefix.len();
    let ghost rest = chars@.subrange(first as int, to as int);
    assert(rest == line.skip(prefix@.len() as int));
    let mut start: usize = first;
    assert(rest.skip(0) == rest);
    while start < to && char_is_white_space(chars[start])
        invariant
            first <= start <= to <= chars.len(),
            rest == chars@.subrange(first as int, to as int),
            trim_start(rest) == trim_start(rest.skip(start - first)),
        decreases to - start,
    {
        assert(rest.skip(start - first).drop_first() == rest.skip(start - first + 1));
        start = start + 1;
    }
    assert(trim_start(rest) == rest.skip(start - first));
    assert(rest.skip(start - first) == chars@.subrange(start as int, to as int));
    let mut end: usize = to;
    while end > start && char_is_white_space(chars[end - 1])
        invariant
            first <= start <= end <= to <= chars.len(),
            trimmed(rest) == trim_end(chars@.subrange(start as int, end as int)),
        decreases end - start,
    {
        assert(chars@.subrange(start as int, end as int).drop_last() == chars@.subrange(
            start as int,
            end - 1,
        ));
        end = end - 1;
    }
    parse_unsigned_at(chars, start, end)
}

/// The content length given by the first line of `chars` that gives one.
pub fn find_content_length(chars: &Vec<char>) -> (length: Option<usize>)
    ensures
        length == first_length(lines(chars@)),
{
    let mut start: usize = 0;
    assert(chars@.skip(0) == chars@);
    while start < chars.len()
        invariant
            start <= chars.len(),
            first_length(lines(chars@)) == first_length(lines(chars@.skip(start as int))),
        decreases chars.len() - start,
    {
        let ghost tail = chars@.skip(start as int);
        let mut stop: usize = start;
        assert(tail.skip(0) == tail);
        while stop < chars.len() && chars[stop] != '\n'
            invariant
                start <= stop <= chars.len(),
                tail == chars@.skip(start as int),
                line_break(tail) == (stop - start) + line_break(tail.skip(stop - start)),
            decreases chars.len() - stop,
        {
            assert(tail.skip(stop - start).drop_first() == tail.skip(stop - start + 1));
            stop = stop + 1;
        }
        assert(line_break(tail) == stop - start);
        if stop < chars.len() {
            let end = if stop > start && chars[stop - 1] == '\r' {
                stop - 1
            } else {
                stop
            };
            let ghost whole = tail.take(stop - start);
            assert(whole == chars@.subrange(start as int, stop as int));
            assert(without_return(whole) == chars@.subrange(start as int, end as int)) by {
                if stop > start && chars[stop - 1] == '\r' {
                    assert(whole.last() == chars@[stop - 1]);
                    assert(whole.drop_last() == chars@.subrange(start as int, end as int));
                }
            }
            let ghost later = lines(tail.skip(stop - start + 1));
            assert(tail.skip(stop - start + 1) == chars@.skip(stop + 1));
            assert(lines(tail) == seq![without_return(whole)] + later);
            assert((seq![without_return(whole)] + later)[0] == without_return(whole));
            assert((seq![without_return(whole)] + later).drop_first() == later);
            let found = line_length_at(chars, start, end);
            if found.is_some() {
                return found;
            }
            start = stop + 1;
        } else {
            assert(tail == chars@.subrange(start as int, chars.len() as int));
            assert(lines(tail) == seq![tail]);
            assert(seq![tail][0] == tail);
            assert(seq![tail].drop_first() == Seq::<Seq<char>>::empty());
            assert(first_length(Seq::<Seq<char>>::empty()) is None);
            assert(first_length(seq![tail]) == line_length(tail)) by {
                match line_length(tail) {
                    Some(found) => {},
                    None => {},
                }
            }
            return line_length_at(chars, start, chars.len());
        }
    }
    assert(chars@.skip(chars.len() as int) == Seq::<char>::empty());
    None
}

/// The length of the body that the header `header` announces.
pub fn parse_content_length(header: &[u8]) -> (length: Result<usize, FrameError>)
    ensures
        length == header_length(header@),
{
    match string_from_utf8(slice_to_vec(header)) {
        Some(text) => {
            let chars = chars_of(text.as_str());
            match find_content_length(&chars) {
                Some(length) => Ok(length),
                None => Err(FrameError::MissingContentLength),
            }
        },
        None => Err(FrameError::InvalidHeader),
    }
}

/// The bytes end with the four bytes that close a header.
pub open spec fn ends_header(bytes: Seq<u8>) -> bool {
    &&& bytes.len() >= 4
    &&& bytes[bytes.len() - 4] == 13
    &&& bytes[bytes.len() - 3] == 10
    &&& bytes[bytes.len() - 2] == 13
    &&& bytes[bytes.len() - 1] == 10
}

/// The first `n` bytes of `stream` end with the close of a header.
pub open spec fn header_stops_at(stream: Seq<u8>, n: int) -> bool {
    0 <= n <= stream.len() && ends_header(stream.take(n))
}

/// The header at the start of `stream` is `n` bytes long: it is the
/// shortest stretch of the stream that ends with the close of a header.
pub open spec fn is_header_end(stream: Seq<u8>, n: int) -> bool {
    &&& header_stops_at(stream, n)
    &&& forall|m: int| 0 <= m < n ==> !#[trigger] header_stops_at(stream, m)
}

/// The stream holds a whole header.
pub open spec fn has_header(stream: Seq<u8>) -> bool {
    exists|n: int| is_header_end(stream, n)
}

/// The length of the header at the start of `stream`.
pub open spec fn header_end(stream: Seq<u8>) -> int {
    choose|n: int| is_header_end(stream, n)
}

/// What stands at the start of a stream of incoming bytes.
pub enum NextFrame {
    /// The stream ends before the message does.
    Incomplete,
    /// The header announces no length.
    Broken(FrameError),
    /// A whole message, and what follows it.
    Whole { body: Seq<u8>, rest: Seq<u8> },
}

/// The message at the start of `stream`: the header runs up to the first
/// close of a header, and the body is as long as the header says.
pub open spec fn next_frame(stream: Seq<u8>) -> NextFrame {
    if !has_header(stream) {
        NextFrame::Incomplete
    } else {
        let n = header_end(stream);
        match header_length(stream.take(n)) {
            Err(error) => NextFrame::Broken(error),
            Ok(length) => if n + length <= stream.len() {
                NextFrame::Whole {
                    body: stream.subrange(n, n + length),
                    rest: stream.skip(n + length),
                }
            } else {
                NextFrame::Incomplete
            },
        }
    }
}

/// A stream has one header end at most.
pub proof fn lemma_header_end_is(stream: Seq<u8>, n: int)
    requires
        is_header_end(stream, n),
    ensures
        has_header(stream),
        header_end(stream) == n,
{
    let m = header_end(stream);
    assert(is_header_end(stream, m));
    if m < n {
        assert(!header_stops_at(stream, m));
    }
    if n < m {
        assert(!header_stops_at(stream, n));
    }
}

/// Whether `header` ends with the four bytes that close a header.
pub fn header_complete(header: &[u8]) -> (complete: bool)
    ensures
        complete == ends_header(header@),
{
    let n = header.len();
    n >= 4 && header[n - 4] == 13 && header[n - 3] == 10 && header[n - 2] == 13 && header[n - 1]
        == 10
}

/// What `decode_frame` found at the start of a stream.
#[derive(Debug)]
pub enum Decoded {
    /// The stream ends before the message does.
    Incomplete,
    /// The header announces no length.
    Broken(FrameError),
    /// A whole message: its body, and the number of bytes that header and
    /// body take up in the stream.
    Whole { body: Vec<u8>, consumed: usize },
}

/// Reads the message at the start of `stream`.
pub fn decode_frame(stream: &[u8]) -> (decoded: Decoded)
    ensures
        match decoded {
            Decoded::Incomplete => next_frame(stream@) is Incomplete,
            Decoded::Broken(error) => next_frame(stream@) == NextFrame::Broken(error),
            Decoded::Whole { body, consumed } => {
                &&& 4 <= consumed <= stream.len()
                &&& next_frame(stream@) == (NextFrame::Whole {
                    body: body@,
                    rest: stream@.skip(consumed as int),
                })
            },
        },
{
    let mut n: usize = 0;
    let mut found = false;
    assert(!header_stops_at(stream@, 0));
    while n < stream.len() && !found
        invariant
            n <= stream.len(),
            forall|m: int| 0 <= m < n ==> !#[trigger] header_stops_at(stream@, m),
            found == header_stops_at(stream@, n as int),
        decreases stream.len() - n + (if found { 0int } else { 1int }),
    {
        n = n + 1;
        found = n >= 4 && stream[n - 4] == 13 && stream[n - 3] == 10 && stream[n - 2] == 13
            && stream[n - 1] == 10;
    }
    if !found {
        assert(!has_header(stream@)) by {
            if has_header(stream@) {
                let m = header_end(stream@);
                assert(header_stops_at(stream@, m));
            }
        }
        return Decoded::Incomplete;
    }
    proof {
        lemma_header_end_is(stream@, n as int);
    }
    let header = vstd::slice::slice_subrange(stream, 0, n);
    match parse_content_length(header) {
        Err(error) => Decoded::Broken(error),
        Ok(length) => {
            if length <= stream.len() - n {
                let body = slice_to_vec(vstd::slice::slice_subrange(stream, n, n + length));
                Decoded::Whole { body, consumed: n + length }
            } else {
                Decoded::Incomplete
            }
        },
    }
}

/// The digits of a number write that number.
pub proof fn lemma_decimal_value_of_decimal(n: nat)
    ensures
        decimal_value(decimal(n)) == n,
        all_digits(decimal(n)),
        decimal(n).len() >= 1,
    decreases n,
{
    lemma_decimal_digits(n);
    if n < 10 {
        assert(decimal(n).drop_last() == Seq::<char>::empty());
        assert(decimal_value(Seq::<char>::empty()) == 0);
        assert(decimal(n).last() == digit_char(n as int));
    } else {
        lemma_decimal_value_of_decimal(n / 10);
        assert(decimal(n).drop_last() == decimal(n / 10));
        assert(decimal(n).last() == digit_char((n % 10) as int));
    }
}

/// The first line feed of `s` stands at place `k`.
pub proof fn lemma_line_break_at(s: Seq<char>, k: int)
    requires
        0 <= k < s.len(),
        s[k] == '\n',
        forall|i: int| 0 <= i < k ==> s[i] != '\n',
    ensures
        line_break(s) == k,
    decreases k,
{
    if k > 0 {
        assert forall|i: int| 0 <= i < k - 1 implies s.drop_first()[i] != '\n' by {
            assert(s.drop_first()[i] == s[i + 1]);
        }
        lemma_line_break_at(s.drop_first(), k - 1);
    }
}

/// The characters of a header: sixteen characters of name, the digits,
/// and the four characters that close it; all of them ASCII, and no
/// carriage return or line feed before the close.
pub proof fn lemma_header_chars(n: nat)
    ensures
        header_text(n).len() == 20 + decimal(n).len(),
        is_ascii_chars(header_text(n)),
        header_text(n).take(16) == "Content-Length: "@,
        header_text(n).subrange(16, header_text(n).len() - 4) == decimal(n),
        header_text(n)[header_text(n).len() - 4] == '\r',
        header_text(n)[header_text(n).len() - 3] == '\n',
        header_text(n)[header_text(n).len() - 2] == '\r',
        header_text(n)[header_text(n).len() - 1] == '\n',
        forall|i: int|
            0 <= i < header_text(n).len() - 4 ==> (#[trigger] header_text(n)[i]) != '\r'
                && header_text(n)[i] != '\n',
{
    lemma_header_parts();
    lemma_decimal_digits(n);
    let t = header_text(n);
    let lead = "Content-Length: "@;
    let digits = decimal(n);
    let close = "\r\n\r\n"@;
    assert(t.len() == 16 + digits.len() + 4);
    assert(t.take(16) =~= lead);
    assert(t.subrange(16, t.len() - 4) =~= digits);
    assert forall|i: int| 0 <= i < t.len() - 4 implies (#[trigger] t[i]) != '\r' && t[i]
        != '\n' by {
        if i < 16 {
            assert(t[i] == lead[i]);
        } else {
            assert(t[i] == digits[i - 16]);
            assert(0x30 <= digits[i - 16] as u32 <= 0x39);
        }
    }
    assert forall|i: int| 0 <= i < t.len() implies '\0' <= #[trigger] t[i] <= '\u{7f}' by {
        if i < 16 {
            assert(t[i] == lead[i]);
            assert('\0' <= lead[i] <= '\u{7f}');
        } else if i < t.len() - 4 {
            assert(t[i] == digits[i - 16]);
            assert('0' <= digits[i - 16] <= '9');
        } else {
            assert(t[i] == close[i - (t.len() - 4)]);
            assert('\0' <= close[i - (t.len() - 4)] <= '\u{7f}');
        }
    }
}

/// The bytes of a header are its characters: they end with the four bytes
/// that close a header, and have no carriage return or line feed before.
pub proof fn lemma_header_shape(n: nat)
    ensures
        header_bytes(n).len() == 20 + decimal(n).len(),
        header_bytes(n) == encode_utf8(header_text(n)),
        forall|i: int|
            0 <= i < header_bytes(n).len() - 4 ==> (#[trigger] header_bytes(n)[i]) != 13
                && header_bytes(n)[i] != 10,
        header_bytes(n)[header_bytes(n).len() - 4] == 13,
        header_bytes(n)[header_bytes(n).len() - 3] == 10,
        header_bytes(n)[header_bytes(n).len() - 2] == 13,
        header_bytes(n)[header_bytes(n).len() - 1] == 10,
{
    lemma_header_chars(n);
    let t = header_text(n);
    let h = header_bytes(n);
    is_ascii_chars_encode_utf8(t);
    assert(encode_utf8(t) =~= h);
    assert forall|i: int| 0 <= i < h.len() - 4 implies (#[trigger] h[i]) != 13 && h[i] != 10 by {
        assert(t[i] != '\r' && t[i] != '\n' && '\0' <= t[i] <= '\u{7f}');
        assert(h[i] == t[i] as u8);
    }
}

/// The first line of a header is its name and the digits.
pub proof fn lemma_header_first_line(n: nat)
    ensures
        lines(header_text(n)).len() >= 1,
        lines(header_text(n))[0] == "Content-Length: "@ + decimal(n),
{
    lemma_header_chars(n);
    let t = header_text(n);
    let len = t.len() as int;
    lemma_line_break_at(t, len - 3);
    let first = t.take(len - 3);
    assert(first.last() == '\r');
    let line = "Content-Length: "@ + decimal(n);
    assert(first.drop_last() =~= line);
    assert(without_return(first) == line);
    let later = lines(t.skip(len - 2));
    assert(lines(t) == seq![line] + later);
    assert((seq![line] + later)[0] == line);
}

/// The line of a header that names the length gives the length.
pub proof fn lemma_header_line_length(n: nat)
    requires
        n <= usize::MAX,
    ensures
        line_length("Content-Length: "@ + decimal(n)) == Some(n as usize),
{
    lemma_decimal_value_of_decimal(n);
    lemma_decimal_digits(n);
    reveal_strlit("Content-Length:");
    reveal_strlit("Content-Length: ");
    let digits = decimal(n);
    let line = "Content-Length: "@ + digits;
    let name = "Content-Length:"@;
    assert(name =~= line.subrange(0, 15));
    assert(name.is_prefix_of(line));
    let rest = line.skip(15);
    assert(without_prefix(line, name) == Some(rest));
    assert(rest[0] == ' ');
    assert(rest.drop_first() =~= digits);
    assert(0x30 <= digits[0] as u32 <= 0x39);
    assert(0x30 <= digits.last() as u32 <= 0x39);
    assert(trim_start(digits) == digits);
    assert(trim_start(rest) == digits);
    assert(trim_end(digits) == digits);
    assert(trimmed(rest) == digits);
    assert(digits[0] != '+');
    assert(parse_unsigned(digits) == Some(n as usize));
}

/// The header that announces `n` bytes is read as announcing `n` bytes.
pub proof fn lemma_header_length(n: nat)
    requires
        n <= usize::MAX,
    ensures
        header_length(header_bytes(n)) == Ok::<usize, FrameError>(n as usize),
{
    lemma_header_shape(n);
    lemma_header_first_line(n);
    lemma_header_line_length(n);
    let t = header_text(n);
    let h = header_bytes(n);
    assert(decoded(h) == Some(t)) by {
        encode_utf8_valid_utf8(t);
        encode_utf8_decode_utf8(t);
    }
}

/// A header followed by anything ends where it ends.
pub proof fn lemma_header_stops(n: nat, after: Seq<u8>)
    ensures
        is_header_end(header_bytes(n) + after, header_bytes(n).len() as int),
{
    lemma_header_shape(n);
    let h = header_bytes(n);
    let stream = h + after;
    let len = h.len() as int;
    assert(stream.take(len) =~= h);
    assert forall|m: int| 0 <= m < len implies !#[trigger] header_stops_at(stream, m) by {
        let part = stream.take(m);
        if m >= 4 {
            assert(part[m - 1] == h[m - 1]);
            assert(part[m - 3] == h[m - 3]);
            if m - 1 < len - 4 {
                assert(h[m - 1] != 10);
            } else if m - 1 == len - 3 {
                assert(h[m - 3] != 10);
            }
        }
    }
}

/// A message put on the wire is read back as it was: the header gives the
/// length of the body, the body follows it byte for byte, and what comes
/// behind the message is left alone.
pub proof fn lemma_frame_round_trip(body: Seq<u8>, rest: Seq<u8>)
    requires
        body.len() <= usize::MAX,
    ensures
        frame(body) == header_bytes(body.len()) + body,
        next_frame(frame(body) + rest) == (NextFrame::Whole { body, rest }),
{
    let n = body.len();
    let h = header_bytes(n);
    let stream = frame(body) + rest;
    assert(stream =~= h + (body + rest));
    lemma_header_stops(n, body + rest);
    lemma_header_end_is(stream, h.len() as int);
    lemma_header_length(n);
    assert(stream.take(h.len() as int) =~= h);
    assert(stream.subrange(h.len() as int, (h.len() + n) as int) =~= body);
    assert(stream.skip((h.len() + n) as int) =~= rest);
}

/// A message on the wire is longer than its body by its header, which is
/// never empty.
pub proof fn lemma_frame_longer(body: Seq<u8>)
    ensures
        frame(body).len() == header_bytes(body.len()).len() + body.len(),
        header_bytes(body.len()).len() >= 21,
{
    lemma_header_shape(body.len());
    lemma_decimal_digits(body.len());
}

} // verus!
