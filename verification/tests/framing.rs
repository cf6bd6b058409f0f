use analyzer::framing::{
    decimal_bytes, decode_frame, encode_frame, find_content_length,
    header_complete, line_length_at, parse_content_length, parse_unsigned_at, starts_with_at,
    Decoded, FrameError,
};

fn chars(text: &str) -> Vec<char> {
    text.chars().collect()
}

fn whole(decoded: Decoded) -> (Vec<u8>, usize) {
    match decoded {
        Decoded::Whole { body, consumed } => (body, consumed),
        other => panic!("no whole message: {:?}", other),
    }
}

#[test]
fn encoded_frame_is_header_then_body() {
    assert_eq!(encode_frame(b"{\"id\":2}"), b"Content-Length: 8\r\n\r\n{\"id\":2}".to_vec());
    assert_eq!(encode_frame(b""), b"Content-Length: 0\r\n\r\n".to_vec());
    let body = vec![b'x'; 1234];
    let mut expected = b"Content-Length: 1234\r\n\r\n".to_vec();
    expected.extend_from_slice(&body);
    assert_eq!(encode_frame(&body), expected);
}

#[test]
fn encoded_length_counts_bytes_not_characters() {
    let body = "{\"s\":\"caf\u{e9}\"}";
    assert_eq!(body.len(), 13);
    let message = encode_frame(body.as_bytes());
    assert!(message.starts_with(b"Content-Length: 13\r\n\r\n"));
    assert_eq!(&message[22..], body.as_bytes());
}

#[test]
fn decimal_digits_of_numbers() {
    assert_eq!(decimal_bytes(0), b"0".to_vec());
    assert_eq!(decimal_bytes(7), b"7".to_vec());
    assert_eq!(decimal_bytes(10), b"10".to_vec());
    assert_eq!(decimal_bytes(4096), b"4096".to_vec());
    assert_eq!(decimal_bytes(usize::MAX), usize::MAX.to_string().into_bytes());
}

#[test]
fn decoding_an_encoded_frame_gives_the_body_back() {
    for body in [&b""[..], b"{}", b"{\"jsonrpc\":\"2.0\",\"id\":1,\"result\":null}", b"\r\n\r\n", &[0u8, 255, 13, 10]] {
        let message = encode_frame(body);
        let (read, consumed) = whole(decode_frame(&message));
        assert_eq!(read, body);
        assert_eq!(consumed, message.len());
    }
}

#[test]
fn decoding_leaves_what_follows_the_frame() {
    let mut stream = encode_frame(b"first");
    let first_len = stream.len();
    stream.extend_from_slice(&encode_frame(b"second"));
    let (body, consumed) = whole(decode_frame(&stream));
    assert_eq!(body, b"first");
    assert_eq!(consumed, first_len);
    let (next, _) = whole(decode_frame(&stream[consumed..]));
    assert_eq!(next, b"second");
}

#[test]
fn decoding_a_short_stream_is_incomplete() {
    assert!(matches!(decode_frame(b""), Decoded::Incomplete));
    assert!(matches!(decode_frame(b"Content-Length: 5\r\n"), Decoded::Incomplete));
    assert!(matches!(decode_frame(b"Content-Length: 5\r\n\r\nabcd"), Decoded::Incomplete));
    assert!(matches!(decode_frame(b"Content-Length: 5\r\n\r\nabcde"), Decoded::Whole { .. }));
}

#[test]
fn decoding_a_header_without_length_is_an_error() {
    assert!(matches!(
        decode_frame(b"Content-Type: x\r\n\r\nabc"),
        Decoded::Broken(FrameError::MissingContentLength)
    ));
    assert!(matches!(decode_frame(b"\r\n\r\n"), Decoded::Broken(FrameError::MissingContentLength)));
    assert!(matches!(
        decode_frame(b"Content-Length: \xff\r\n\r\n"),
        Decoded::Broken(FrameError::InvalidHeader)
    ));
}

#[test]
fn header_is_complete_with_its_four_closing_bytes() {
    assert!(header_complete(b"\r\n\r\n"));
    assert!(header_complete(b"Content-Length: 1\r\n\r\n"));
    assert!(!header_complete(b"Content-Length: 1\r\n\r"));
    assert!(!header_complete(b"Content-Length: 1\r\n"));
    assert!(!header_complete(b"\n\r\n"));
    assert!(!header_complete(b"\n\n\n\n"));
    assert!(!header_complete(b""));
}

#[test]
fn content_length_is_read_from_the_header() {
    assert_eq!(parse_content_length(b"Content-Length: 42\r\n\r\n"), Ok(42));
    assert_eq!(parse_content_length(b"Content-Length:42\r\n\r\n"), Ok(42));
    assert_eq!(parse_content_length(b"Content-Length: \t 42 \t\r\n\r\n"), Ok(42));
    assert_eq!(parse_content_length(b"Content-Length: +42\r\n\r\n"), Ok(42));
    assert_eq!(parse_content_length(b"Content-Length: 007\r\n\r\n"), Ok(7));
    assert_eq!(parse_content_length(b"Content-Length: 0\r\n\r\n"), Ok(0));
    assert_eq!(parse_content_length(b"Content-Length: 5"), Ok(5));
    assert_eq!(parse_content_length(b"Content-Length: 5\n"), Ok(5));
    assert_eq!(parse_content_length("Content-Length:\u{a0}5\u{2003}\r\n\r\n".as_bytes()), Ok(5));
}

#[test]
fn content_length_is_the_first_line_that_gives_one() {
    assert_eq!(
        parse_content_length(b"Content-Type: application/json\r\nContent-Length: 9\r\n\r\n"),
        Ok(9)
    );
    assert_eq!(parse_content_length(b"Content-Length: 1\r\nContent-Length: 2\r\n\r\n"), Ok(1));
    assert_eq!(parse_content_length(b"Content-Length: x\r\nContent-Length: 2\r\n\r\n"), Ok(2));
    assert_eq!(parse_content_length(b"Content-Length:\r\nContent-Length: 3\r\n\r\n"), Ok(3));
}

#[test]
fn header_without_usable_length_is_refused() {
    let missing = Err(FrameError::MissingContentLength);
    assert_eq!(parse_content_length(b""), missing);
    assert_eq!(parse_content_length(b"\r\n\r\n"), missing);
    assert_eq!(parse_content_length(b"content-length: 5\r\n\r\n"), missing);
    assert_eq!(parse_content_length(b" Content-Length: 5\r\n\r\n"), missing);
    assert_eq!(parse_content_length(b"Content-Length: -5\r\n\r\n"), missing);
    assert_eq!(parse_content_length(b"Content-Length: 5 6\r\n\r\n"), missing);
    assert_eq!(parse_content_length(b"Content-Length: 5a\r\n\r\n"), missing);
    assert_eq!(parse_content_length(b"Content-Length: +\r\n\r\n"), missing);
    assert_eq!(parse_content_length(b"Content-Length: ++5\r\n\r\n"), missing);
    assert_eq!(parse_content_length(b"Content-Length: 5x\r"), missing);
    assert_eq!(parse_content_length(b"Content-Length: 99999999999999999999999999\r\n\r\n"), missing);
    assert_eq!(parse_content_length(b"Content-Length: 5\xc3\r\n\r\n"), Err(FrameError::InvalidHeader));
}

#[test]
fn largest_length_is_accepted_and_the_next_refused() {
    let max = usize::MAX.to_string();
    assert_eq!(parse_unsigned_at(&chars(&max), 0, max.len()), Some(usize::MAX));
    let mut digits: Vec<u8> = max.into_bytes();
    let last = digits.len() - 1;
    digits[last] += 1;
    let over = String::from_utf8(digits).unwrap();
    assert_eq!(parse_unsigned_at(&chars(&over), 0, over.len()), None);
    let longer = format!("{}0", usize::MAX);
    assert_eq!(parse_unsigned_at(&chars(&longer), 0, longer.len()), None);
}

#[test]
fn numbers_are_read_from_a_range_of_characters() {
    let text = chars("ab123cd");
    assert_eq!(parse_unsigned_at(&text, 2, 5), Some(123));
    assert_eq!(parse_unsigned_at(&text, 2, 4), Some(12));
    assert_eq!(parse_unsigned_at(&text, 2, 6), None);
    assert_eq!(parse_unsigned_at(&text, 1, 5), None);
    assert_eq!(parse_unsigned_at(&text, 3, 3), None);
    let arabic = chars("\u{661}\u{662}");
    assert_eq!(parse_unsigned_at(&arabic, 0, 2), None);
}

#[test]
fn lines_and_prefixes_are_read_from_ranges() {
    let text = chars("xContent-Length: 12y");
    let name = chars("Content-Length:");
    assert!(starts_with_at(&text, 1, 20, &name));
    assert!(!starts_with_at(&text, 0, 20, &name));
    assert!(!starts_with_at(&text, 1, 10, &name));
    assert!(starts_with_at(&text, 3, 3, &Vec::new()));
    assert_eq!(line_length_at(&text, 1, 19), Some(12));
    assert_eq!(line_length_at(&text, 1, 20), None);
    assert_eq!(line_length_at(&text, 1, 16), None);
    assert_eq!(find_content_length(&chars("a\nContent-Length: 3\r\nContent-Length: 4")), Some(3));
    assert_eq!(find_content_length(&chars("Content-Length: 3\r")), Some(3));
    assert_eq!(find_content_length(&chars("Content-Length: 3\r\r\n")), Some(3));
    assert_eq!(find_content_length(&chars("Content-Length: 3\n\n")), Some(3));
    assert_eq!(find_content_length(&chars("\n\nContent-Length: 8")), Some(8));
    assert_eq!(find_content_length(&chars("Content-Length\n: 3")), None);
    assert_eq!(find_content_length(&chars("")), None);
}
