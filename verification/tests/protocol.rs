use analyzer::framing::{encode_frame, FrameError};
use analyzer::llm::LLMClient;
use analyzer::lsp::{
    classify, correlate, definition_request, initialize_request, initialized_notification,
    make_file_uri, read_response, response_id, Disposition, LspClient, LspError, Response,
    ResponseReader,
};
use analyzer::text::{bytes_eq, char_is_white_space, chars_of, ends_with, str_eq, strip_prefix, trim};
use serde_json::Value;

fn body_of(message: &[u8]) -> Value {
    let split = message.windows(4).position(|w| w == b"\r\n\r\n").expect("a header") + 4;
    let header = std::str::from_utf8(&message[..split]).unwrap();
    let body = &message[split..];
    assert_eq!(header, format!("Content-Length: {}\r\n\r\n", body.len()));
    serde_json::from_slice(body).expect("the body is JSON")
}

fn delivered(response: Response) -> (Vec<u8>, usize) {
    match response {
        Response::Delivered { body, consumed } => (body, consumed),
        other => panic!("nothing delivered: {:?}", other),
    }
}

#[test]
fn correlation_of_plain_values() {
    assert_eq!(correlate(Some(2), Some(Some(2))), Disposition::Deliver);
    assert_eq!(correlate(Some(2), Some(Some(99))), Disposition::Interim);
    assert_eq!(correlate(Some(2), Some(None)), Disposition::Interim);
    assert_eq!(correlate(Some(2), None), Disposition::Unparseable);
    assert_eq!(correlate(None, Some(Some(7))), Disposition::Deliver);
    assert_eq!(correlate(None, Some(None)), Disposition::Deliver);
    assert_eq!(correlate(None, None), Disposition::Unparseable);
    assert_eq!(correlate(Some(0), Some(Some(0))), Disposition::Deliver);
    assert_eq!(correlate(Some(u64::MAX), Some(Some(u64::MAX))), Disposition::Deliver);
}

#[test]
fn identifier_is_read_from_a_body() {
    assert_eq!(response_id(b"{\"id\":2,\"result\":null}"), Some(Some(2)));
    assert_eq!(response_id(b" { \"jsonrpc\" : \"2.0\", \"id\" : 18446744073709551615 } "), Some(Some(u64::MAX)));
    assert_eq!(response_id(b"{\"id\":\"2\"}"), Some(None));
    assert_eq!(response_id(b"{\"id\":-2}"), Some(None));
    assert_eq!(response_id(b"{\"id\":2.0}"), Some(None));
    assert_eq!(response_id(b"{\"id\":null}"), Some(None));
    assert_eq!(response_id(b"{\"method\":\"window/logMessage\"}"), Some(None));
    assert_eq!(response_id(b"{\"params\":{\"id\":2}}"), Some(None));
    assert_eq!(response_id(b"[2]"), Some(None));
    assert_eq!(response_id(b"2"), Some(None));
    assert_eq!(response_id(b"{\"id\":1,\"id\":2}"), Some(Some(2)));
    assert_eq!(response_id(b"{\"id\":2"), None);
    assert_eq!(response_id(b""), None);
    assert_eq!(response_id(b"not json"), None);
    assert_eq!(response_id(b"{\"id\":2} trailing"), None);
}

#[test]
fn bodies_are_classified() {
    assert_eq!(classify(Some(2), b"{\"id\":2}"), Disposition::Deliver);
    assert_eq!(classify(Some(2), b"{\"id\":99}"), Disposition::Interim);
    assert_eq!(classify(Some(2), b"{\"id\":2.0}"), Disposition::Interim);
    assert_eq!(classify(Some(2), b"{}"), Disposition::Interim);
    assert_eq!(classify(Some(2), b"{"), Disposition::Unparseable);
    assert_eq!(classify(None, b"{\"id\":99}"), Disposition::Deliver);
    assert_eq!(classify(None, b"null"), Disposition::Deliver);
    assert_eq!(classify(None, b"nul"), Disposition::Unparseable);
}

#[test]
fn response_is_picked_behind_an_unrelated_message() {
    let first = encode_frame(b"{\"jsonrpc\":\"2.0\",\"id\":99,\"result\":1}");
    let second = encode_frame(b"{\"jsonrpc\":\"2.0\",\"id\":2,\"result\":2}");
    let mut stream = first.clone();
    stream.extend_from_slice(&second);
    stream.extend_from_slice(b"rest");
    let (body, consumed) = delivered(read_response(&stream, Some(2)));
    assert_eq!(body, b"{\"jsonrpc\":\"2.0\",\"id\":2,\"result\":2}");
    assert_eq!(consumed, first.len() + second.len());
    let (any, used) = delivered(read_response(&stream, None));
    assert_eq!(any, b"{\"jsonrpc\":\"2.0\",\"id\":99,\"result\":1}");
    assert_eq!(used, first.len());
}

#[test]
fn unparseable_and_interim_messages_are_dropped() {
    let mut stream = encode_frame(b"garbage");
    stream.extend_from_slice(&encode_frame(b"{\"method\":\"note\"}"));
    stream.extend_from_slice(&encode_frame(b"{\"id\":3}"));
    stream.extend_from_slice(&encode_frame(b"{\"id\":2}"));
    let (body, consumed) = delivered(read_response(&stream, Some(2)));
    assert_eq!(body, b"{\"id\":2}");
    assert_eq!(consumed, stream.len());
    let (first_json, _) = delivered(read_response(&stream, None));
    assert_eq!(first_json, b"{\"method\":\"note\"}");
}

#[test]
fn stream_that_ends_first_is_incomplete() {
    let mut stream = encode_frame(b"{\"id\":99}");
    assert!(matches!(read_response(&stream, Some(2)), Response::Incomplete));
    assert!(matches!(read_response(b"", Some(2)), Response::Incomplete));
    stream.extend_from_slice(b"Content-Length: 10\r\n\r\n{\"id\":2}");
    assert!(matches!(read_response(&stream, Some(2)), Response::Incomplete));
}

#[test]
fn header_without_length_breaks_the_read() {
    let mut stream = encode_frame(b"{\"id\":99}");
    stream.extend_from_slice(b"Content-Type: json\r\n\r\n{\"id\":2}");
    assert!(matches!(
        read_response(&stream, Some(2)),
        Response::Broken(FrameError::MissingContentLength)
    ));
    let client = LspClient::new("127.0.0.1:9999");
    assert_eq!(
        client.read_response(&stream, Some(2)),
        Err(LspError::Protocol(FrameError::MissingContentLength))
    );
    assert_eq!(client.read_response(&stream, Some(99)), Ok(b"{\"id\":99}".to_vec()));
    assert_eq!(client.read_response(b"Content-Length: 3\r\n\r\n{}", None), Err(LspError::Incomplete));
}

#[test]
fn reader_takes_a_stream_byte_by_byte() {
    let mut stream = encode_frame(b"{\"id\":99}");
    stream.extend_from_slice(&encode_frame(b"{\"id\":2}"));
    let mut reader = ResponseReader::new(Some(2));
    let mut at = 0;
    let mut delivered = None;
    let mut bodies = 0;
    while at < stream.len() && delivered.is_none() {
        let byte = stream[at];
        at += 1;
        match reader.header_byte(byte) {
            Ok(None) => {}
            Ok(Some(length)) => {
                let body = stream[at..at + length].to_vec();
                at += length;
                bodies += 1;
                delivered = reader.body(body);
            }
            Err(error) => panic!("unexpected {:?}", error),
        }
    }
    assert_eq!(bodies, 2);
    assert_eq!(delivered, Some(b"{\"id\":2}".to_vec()));
    assert_eq!(at, stream.len());
}

#[test]
fn reader_reports_a_header_without_length() {
    let mut reader = ResponseReader::new(None);
    let mut last = Ok(None);
    for byte in b"X-Other: 1\r\n\r\n" {
        last = reader.header_byte(*byte);
    }
    assert_eq!(last, Err(FrameError::MissingContentLength));
    let mut fresh = Ok(None);
    for byte in b"Content-Length: 2\r\n\r\n" {
        fresh = reader.header_byte(*byte);
    }
    assert_eq!(fresh, Ok(Some(2)));
    assert_eq!(reader.body(b"{}".to_vec()), Some(b"{}".to_vec()));
    assert_eq!(reader.body(b"{".to_vec()), None);
}

#[test]
fn initialize_with_relative_path_is_refused() {
    let client = LspClient::new("127.0.0.1:9999");
    assert_eq!(client.address(), "127.0.0.1:9999");
    for path in ["relative/project", "./here", "", "project"] {
        assert!(matches!(client.send_initialize_request(path, 1), Err(LspError::Validation)));
        assert!(matches!(client.plan_initialize(path, false, 1), Err(LspError::Validation)));
    }
    assert!(matches!(client.plan_initialize("/abs", false, 1), Err(LspError::Validation)));
}

#[test]
fn definition_with_relative_path_is_refused() {
    let client = LspClient::new("127.0.0.1:9999");
    for path in ["src/main.go", "../main.go", ""] {
        assert!(matches!(client.get_definition(path, 0, 0), Err(LspError::Validation)));
        assert!(matches!(client.plan_definition(path, false, 3, 4), Err(LspError::Validation)));
    }
}

#[test]
fn initialize_exchange_for_an_absolute_path() {
    let client = LspClient::new("127.0.0.1:9999");
    let exchange = client.send_initialize_request("/home/me/project", 4242).expect("absolute");
    assert_eq!(exchange.expected_id, Some(1));
    let request = body_of(&exchange.request);
    assert_eq!(request["jsonrpc"], Value::from("2.0"));
    assert_eq!(request["id"], Value::from(1u64));
    assert_eq!(request["method"], Value::from("initialize"));
    let params = &request["params"];
    assert_eq!(params["processId"], Value::from(4242u64));
    assert_eq!(params["rootUri"], Value::from("file:///home/me/project"));
    assert_eq!(params["clientInfo"]["name"], Value::from("YourLSPClientName"));
    assert_eq!(params["clientInfo"]["version"], Value::from("1.0.0"));
    let folders = params["workspaceFolders"].as_array().unwrap();
    assert_eq!(folders.len(), 1);
    assert_eq!(folders[0]["uri"], Value::from("file:///home/me/project"));
    assert_eq!(folders[0]["name"], Value::from("file:///home/me/project"));
    let workspace = &params["capabilities"]["workspace"];
    assert_eq!(workspace["workspaceFolders"], Value::from(true));
    assert_eq!(workspace["configuration"], Value::from(true));
    assert_eq!(workspace["didChangeConfiguration"]["dynamicRegistration"], Value::from(true));
    assert_eq!(workspace["workspaceEdit"]["documentChanges"], Value::from(true));
    let document = &params["capabilities"]["textDocument"];
    assert_eq!(document["hover"]["contentFormat"], Value::from(vec!["plaintext"]));
    assert_eq!(document["completion"]["completionItem"]["snippetSupport"], Value::from(true));
    assert_eq!(
        document["codeAction"]["codeActionLiteralSupport"]["codeActionKind"]["valueSet"],
        Value::from(vec!["source.organizeImports", "refactor.rewrite", "refactor.extract"])
    );
    let notification = body_of(exchange.notification.as_ref().expect("a notification"));
    assert_eq!(notification["jsonrpc"], Value::from("2.0"));
    assert_eq!(notification["method"], Value::from("initialized"));
    assert_eq!(notification["params"], Value::Object(serde_json::Map::new()));
    assert!(notification.get("id").is_none());
    assert_eq!(notification.as_object().unwrap().len(), 3);
    assert_eq!(request.as_object().unwrap().len(), 4);
    assert_eq!(params.as_object().unwrap().len(), 5);
}

#[test]
fn definition_exchange_for_an_absolute_path() {
    let client = LspClient::new("127.0.0.1:9999");
    let exchange = client.get_definition("/src/main.go", 12, 7).expect("absolute");
    assert_eq!(exchange.expected_id, Some(2));
    assert!(exchange.notification.is_none());
    let request = body_of(&exchange.request);
    assert_eq!(request["jsonrpc"], Value::from("2.0"));
    assert_eq!(request["id"], Value::from(2u64));
    assert_eq!(request["method"], Value::from("textDocument/definition"));
    assert_eq!(request["notification"], Value::from(0u64));
    assert_eq!(request["params"]["textDocument"]["uri"], Value::from("file:///src/main.go"));
    assert_eq!(request["params"]["position"]["line"], Value::from(12u64));
    assert_eq!(request["params"]["position"]["character"], Value::from(7u64));
    assert_eq!(request.as_object().unwrap().len(), 5);
    let planned = client.plan_definition("/src/main.go", true, 12, 7).unwrap();
    assert_eq!(planned.request, exchange.request);
}

#[test]
fn request_bytes_are_exact() {
    let definition = definition_request("file:///a.go", 0, u32::MAX);
    assert_eq!(
        definition.to_string(),
        "{\"id\":2,\"jsonrpc\":\"2.0\",\"method\":\"textDocument/definition\",\"notification\":0,\"params\":{\"position\":{\"character\":4294967295,\"line\":0},\"textDocument\":{\"uri\":\"file:///a.go\"}}}"
    );
    let client = LspClient::new("x");
    let message = client.send_request(&initialized_notification());
    assert_eq!(
        message,
        b"Content-Length: 52\r\n\r\n{\"jsonrpc\":\"2.0\",\"method\":\"initialized\",\"params\":{}}".to_vec()
    );
    let quoted = initialize_request("file:///with \"quotes\"", 0);
    assert_eq!(quoted["params"]["rootUri"], Value::from("file:///with \"quotes\""));
    assert_eq!(make_file_uri("/a b"), "file:///a b");
    assert_eq!(make_file_uri(""), "file://");
}

#[test]
fn prompts_are_written_out() {
    let client = LLMClient::new();
    assert_eq!(client.model(), "codellama");
    assert_eq!(
        client.prompt("go", "func f() {}"),
        "Understand what this method does and \n            add a detailed doc comment explaining that to the following go method:\n            func f() {}\n            The doc comment should describe what the method does. Return the doc comment as a code comment above the method implementaion and include both the doc comment and method in your response\n            as a go code comment. Don't include any explanations or anything other than the required doc comments in your response.\n            "
    );
    assert_eq!(
        client.brief_prompt("golang", "X"),
        "Add a detailed doc comment to the following golang method:\n            X\n            The doc comment should describe what the method does. \n            Return the method implementaion with the doc comment above the method\n            as a code comment. Don't include any explanations in your response."
    );
    assert_eq!(client.response(Ok("// doc".to_string())), Ok("// doc".to_string()));
    assert_eq!(
        client.response(Err("timeout".to_string())),
        Err("Error generating response: timeout".to_string())
    );
}

#[test]
fn text_helpers() {
    assert_eq!(trim("  a b\t\r\n"), "a b");
    assert_eq!(trim("\u{a0}\u{3000}x\u{2028}"), "x");
    assert_eq!(trim("\u{200b}x"), "\u{200b}x");
    assert_eq!(trim(" \t "), "");
    assert_eq!(trim(""), "");
    assert_eq!(strip_prefix("package demo", "package "), Some("demo"));
    assert_eq!(strip_prefix("package", "package "), None);
    assert_eq!(strip_prefix("abc", ""), Some("abc"));
    assert_eq!(strip_prefix("\u{e9}t\u{e9}", "\u{e9}"), Some("t\u{e9}"));
    assert!(ends_with("file.go", ".go"));
    assert!(ends_with("x", ""));
    assert!(!ends_with("go", ".go"));
    assert!(!ends_with("file.got", ".go"));
    assert!(str_eq("caf\u{e9}", "caf\u{e9}"));
    assert!(!str_eq("cafe", "caf\u{e9}"));
    assert!(!str_eq("a", "ab"));
    assert!(bytes_eq(b"", b""));
    assert!(!bytes_eq(b"a", b"b"));
    assert_eq!(chars_of("a\u{e9}\u{1F600}"), vec!['a', '\u{e9}', '\u{1F600}']);
    for c in ['\t', '\n', '\u{b}', '\u{c}', '\r', ' ', '\u{85}', '\u{a0}', '\u{1680}', '\u{2000}', '\u{200a}', '\u{2028}', '\u{2029}', '\u{202f}', '\u{205f}', '\u{3000}'] {
        assert!(char_is_white_space(c));
    }
    for c in ['a', '0', '\u{8}', '\u{e}', '\u{1f}', '\u{200b}', '\u{180e}', '\u{feff}'] {
        assert!(!char_is_white_space(c));
    }
}

#[test]
fn white_space_agrees_with_the_standard_library() {
    let mut code = 0u32;
    while code <= 0x10FFFF {
        if let Some(c) = char::from_u32(code) {
            assert_eq!(char_is_white_space(c), c.is_whitespace(), "at {:x}", code);
        }
        code += 1;
    }
}

#[test]
fn sent_request_is_read_back_as_it_was_sent() {
    let client = LspClient::new("x");
    let request = definition_request("file:///a.go", 3, 4);
    let mut stream = client.send_request(&request);
    let sent = stream.len();
    stream.extend_from_slice(b"more");
    assert_eq!(client.read_response(&stream, None), Ok(request.to_string().into_bytes()));
    assert_eq!(client.read_response(&stream, Some(2)), Ok(request.to_string().into_bytes()));
    let (body, consumed) = delivered(read_response(&stream, None));
    assert_eq!(body, request.to_string().into_bytes());
    assert_eq!(consumed, sent);
}
