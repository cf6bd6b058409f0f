//! The client side of the language server protocol: the requests it sends
//! and the way it picks the answer to a request out of what comes in.

use crate::framing::{
    encode_frame, ends_header, frame, has_header, header_complete, header_end, header_length,
    header_stops_at, lemma_frame_longer, lemma_frame_round_trip, lemma_header_end_is, next_frame,
    parse_content_length, FrameError, NextFrame,
};
use crate::json::{
    doc_member, doc_unsigned, json_doc, json_parsed, json_text, keys_ascend, list_docs,
    member_docs, text_less, value_as_u64, value_bool, value_from_slice, value_get, value_list,
    value_object, value_text, value_to_string, value_unsigned, JsonDoc,
};
use vstd::prelude::*;
use vstd::slice::slice_to_vec;
use vstd::string::StringExecFns;
use vstd::utf8::encode_utf8;

verus! {

/// Two strings that agree on their first `k` characters are ordered by the
/// characters that follow.
pub proof fn lemma_less_at(a: Seq<char>, b: Seq<char>, k: int)
    requires
        0 <= k < a.len(),
        k < b.len(),
        a.take(k) =~= b.take(k),
        (a[k] as u32) < (b[k] as u32),
    ensures
        text_less(a, b),
    decreases k,
{
    if k > 0 {
        assert(a[0] == a.take(k)[0]);
        assert(b[0] == b.take(k)[0]);
        assert(a.drop_first().take(k - 1) == a.take(k).drop_first());
        assert(b.drop_first().take(k - 1) == b.take(k).drop_first());
        lemma_less_at(a.drop_first(), b.drop_first(), k - 1);
    }
}

/// Adds the member `key` with the value `value` behind `members`.
fn push_member(members: &mut Vec<(String, serde_json::Value)>, key: &str, value: serde_json::Value)
    requires
        keys_ascend(member_docs(old(members)@)),
        old(members).len() > 0 ==> text_less(old(members)[old(members).len() - 1].0@, key@),
    ensures
        member_docs(final(members)@) == member_docs(old(members)@).push((key@, json_doc(value))),
        keys_ascend(member_docs(final(members)@)),
        final(members).len() == old(members).len() + 1,
        final(members)[final(members).len() - 1].0@ == key@,
{
    members.push((key.to_owned(), value));
    assert(member_docs(members@) =~= member_docs(old(members)@).push((key@, json_doc(value))));
    assert forall|i: int| 0 <= i && i + 1 < members.len() implies text_less(
        (#[trigger] member_docs(members@)[i]).0,
        member_docs(members@)[i + 1].0,
    ) by {
        if i + 1 < members.len() - 1 {
            assert(member_docs(old(members)@)[i].0 == member_docs(members@)[i].0);
            assert(member_docs(old(members)@)[i + 1].0 == member_docs(members@)[i + 1].0);
        }
    }
}

/// The object with one member.
fn object1(k1: &str, v1: serde_json::Value) -> (value: serde_json::Value)
    ensures
        json_doc(value) == JsonDoc::Object(seq![(k1@, json_doc(v1))]),
{
    let mut members: Vec<(String, serde_json::Value)> = Vec::new();
    assert(member_docs(members@) =~= Seq::empty());
    push_member(&mut members, k1, v1);
    assert(member_docs(members@) =~= seq![(k1@, json_doc(v1))]);
    value_object(members)
}

/// The object with two members.
fn object2(k1: &str, v1: serde_json::Value, k2: &str, v2: serde_json::Value) -> (value:
    serde_json::Value)
    requires
        text_less(k1@, k2@),
    ensures
        json_doc(value) == JsonDoc::Object(seq![(k1@, json_doc(v1)), (k2@, json_doc(v2))]),
{
    let mut members: Vec<(String, serde_json::Value)> = Vec::new();
    assert(member_docs(members@) =~= Seq::empty());
    push_member(&mut members, k1, v1);
    push_member(&mut members, k2, v2);
    assert(member_docs(members@) =~= seq![(k1@, json_doc(v1)), (k2@, json_doc(v2))]);
    value_object(members)
}

/// The object with three members.
fn object3(
    k1: &str,
    v1: serde_json::Value,
    k2: &str,
    v2: serde_json::Value,
    k3: &str,
    v3: serde_json::Value,
) -> (value: serde_json::Value)
    requires
        text_less(k1@, k2@),
        text_less(k2@, k3@),
    ensures
        json_doc(value) == JsonDoc::Object(
            seq![(k1@, json_doc(v1)), (k2@, json_doc(v2)), (k3@, json_doc(v3))],
        ),
{
    let mut members: Vec<(String, serde_json::Value)> = Vec::new();
    assert(member_docs(members@) =~= Seq::empty());
    push_member(&mut members, k1, v1);
    push_member(&mut members, k2, v2);
    push_member(&mut members, k3, v3);
    assert(member_docs(members@) =~= seq![
        (k1@, json_doc(v1)),
        (k2@, json_doc(v2)),
        (k3@, json_doc(v3)),
    ]);
    value_object(members)
}

/// The object with four members.
fn object4(
    k1: &str,
    v1: serde_json::Value,
    k2: &str,
    v2: serde_json::Value,
    k3: &str,
    v3: serde_json::Value,
    k4: &str,
    v4: serde_json::Value,
) -> (value: serde_json::Value)
    requires
        text_less(k1@, k2@),
        text_less(k2@, k3@),
        text_less(k3@, k4@),
    ensures
        json_doc(value) == JsonDoc::Object(
            seq![
                (k1@, json_doc(v1)),
                (k2@, json_doc(v2)),
                (k3@, json_doc(v3)),
                (k4@, json_doc(v4)),
            ],
        ),
{
    let mut members: Vec<(String, serde_json::Value)> = Vec::new();
    assert(member_docs(members@) =~= Seq::empty());
    push_member(&mut members, k1, v1);
    push_member(&mut members, k2, v2);
    push_member(&mut members, k3, v3);
    push_member(&mut members, k4, v4);
    assert(member_docs(members@) =~= seq![
        (k1@, json_doc(v1)),
        (k2@, json_doc(v2)),
        (k3@, json_doc(v3)),
        (k4@, json_doc(v4)),
    ]);
    value_object(members)
}

/// The object with five members.
fn object5(
    k1: &str,
    v1: serde_json::Value,
    k2: &str,
    v2: serde_json::Value,
    k3: &str,
    v3: serde_json::Value,
    k4: &str,
    v4: serde_json::Value,
    k5: &str,
    v5: serde_json::Value,
) -> (value: serde_json::Value)
    requires
        text_less(k1@, k2@),
        text_less(k2@, k3@),
        text_less(k3@, k4@),
        text_less(k4@, k5@),
    ensures
        json_doc(value) == JsonDoc::Object(
            seq![
                (k1@, json_doc(v1)),
                (k2@, json_doc(v2)),
                (k3@, json_doc(v3)),
                (k4@, json_doc(v4)),
                (k5@, json_doc(v5)),
            ],
        ),
{
    let mut members: Vec<(String, serde_json::Value)> = Vec::new();
    assert(member_docs(members@) =~= Seq::empty());
    push_member(&mut members, k1, v1);
    push_member(&mut members, k2, v2);
    push_member(&mut members, k3, v3);
    push_member(&mut members, k4, v4);
    push_member(&mut members, k5, v5);
    assert(member_docs(members@) =~= seq![
        (k1@, json_doc(v1)),
        (k2@, json_doc(v2)),
        (k3@, json_doc(v3)),
        (k4@, json_doc(v4)),
        (k5@, json_doc(v5)),
    ]);
    value_object(members)
}

/// The array of the strings `texts`.
fn text_list(texts: &Vec<&str>) -> (value: serde_json::Value)
    ensures
        json_doc(value) == JsonDoc::List(Seq::new(texts.len() as nat, |i: int| JsonDoc::Text(texts[i]@))),
{
    let mut items: Vec<serde_json::Value> = Vec::new();
    let mut i: usize = 0;
    while i < texts.len()
        invariant
            i <= texts.len(),
            items.len() == i,
            forall|j: int| 0 <= j < i ==> json_doc(#[trigger] items[j]) == JsonDoc::Text(texts[j]@),
        decreases texts.len() - i,
    {
        items.push(value_text(texts[i]));
        i = i + 1;
    }
    assert(list_docs(items@) =~= Seq::new(texts.len() as nat, |i: int| JsonDoc::Text(texts[i]@)));
    value_list(items)
}

/// The array that holds `item` alone.
fn list_of_one(item: serde_json::Value) -> (value: serde_json::Value)
    ensures
        json_doc(value) == JsonDoc::List(seq![json_doc(item)]),
{
    let mut items: Vec<serde_json::Value> = Vec::new();
    items.push(item);
    assert(list_docs(items@) =~= seq![json_doc(item)]);
    value_list(items)
}

/// The notification that follows a successful handshake.
pub open spec fn initialized_doc() -> JsonDoc {
    JsonDoc::Object(
        seq![
            ("jsonrpc"@, JsonDoc::Text("2.0"@)),
            ("method"@, JsonDoc::Text("initialized"@)),
            ("params"@, JsonDoc::Object(Seq::empty())),
        ],
    )
}

/// The notification that follows a successful handshake.
pub fn initialized_notification() -> (message: serde_json::Value)
    ensures
        json_doc(message) == initialized_doc(),
{
    let empty: Vec<(String, serde_json::Value)> = Vec::new();
    assert(member_docs(empty@) =~= Seq::empty());
    let params = value_object(empty);
    proof {
        reveal_strlit("jsonrpc");
        reveal_strlit("method");
        reveal_strlit("params");
        lemma_less_at("jsonrpc"@, "method"@, 0);
        lemma_less_at("method"@, "params"@, 0);
    }
    object3("jsonrpc", value_text("2.0"), "method", value_text("initialized"), "params", params)
}

/// The address of a file or directory as the protocol writes it.
pub open spec fn file_uri(path: Seq<char>) -> Seq<char> {
    "file://"@ + path
}

/// What the client tells the server it can do with a workspace.
pub open spec fn workspace_capabilities_doc() -> JsonDoc {
    JsonDoc::Object(
        seq![
            ("configuration"@, JsonDoc::Bool(true)),
            (
                "didChangeConfiguration"@,
                JsonDoc::Object(seq![("dynamicRegistration"@, JsonDoc::Bool(true))]),
            ),
            ("workspaceEdit"@, JsonDoc::Object(seq![("documentChanges"@, JsonDoc::Bool(true))])),
            ("workspaceFolders"@, JsonDoc::Bool(true)),
        ],
    )
}

/// The kinds of code action that the client understands.
pub open spec fn code_action_kinds() -> Seq<JsonDoc> {
    seq![
        JsonDoc::Text("source.organizeImports"@),
        JsonDoc::Text("refactor.rewrite"@),
        JsonDoc::Text("refactor.extract"@),
    ]
}

/// What the client tells the server it can do with a text document: hover
/// in plain text, completion with snippets, and code actions by kind.
pub open spec fn document_capabilities_doc() -> JsonDoc {
    JsonDoc::Object(
        seq![
            (
                "codeAction"@,
                JsonDoc::Object(
                    seq![
                        (
                            "codeActionLiteralSupport"@,
                            JsonDoc::Object(
                                seq![
                                    (
                                        "codeActionKind"@,
                                        JsonDoc::Object(
                                            seq![("valueSet"@, JsonDoc::List(code_action_kinds()))],
                                        ),
                                    ),
                                ],
                            ),
                        ),
                    ],
                ),
            ),
            (
                "completion"@,
                JsonDoc::Object(
                    seq![
                        (
                            "completionItem"@,
                            JsonDoc::Object(seq![("snippetSupport"@, JsonDoc::Bool(true))]),
                        ),
                    ],
                ),
            ),
            (
                "hover"@,
                JsonDoc::Object(
                    seq![("contentFormat"@, JsonDoc::List(seq![JsonDoc::Text("plaintext"@)]))],
                ),
            ),
        ],
    )
}

/// The capabilities that the client declares.
pub open spec fn capabilities_doc() -> JsonDoc {
    JsonDoc::Object(
        seq![
            ("textDocument"@, document_capabilities_doc()),
            ("workspace"@, workspace_capabilities_doc()),
        ],
    )
}

/// The parameters of the handshake for the project at `root_uri`, sent by
/// the process `process_id`.
pub open spec fn initialize_params_doc(root_uri: Seq<char>, process_id: u32) -> JsonDoc {
    JsonDoc::Object(
        seq![
            ("capabilities"@, capabilities_doc()),
            (
                "clientInfo"@,
                JsonDoc::Object(
                    seq![
                        ("name"@, JsonDoc::Text("YourLSPClientName"@)),
                        ("version"@, JsonDoc::Text("1.0.0"@)),
                    ],
                ),
            ),
            ("processId"@, JsonDoc::Unsigned(process_id as u64)),
            ("rootUri"@, JsonDoc::Text(root_uri)),
            (
                "workspaceFolders"@,
                JsonDoc::List(
                    seq![
                        JsonDoc::Object(
                            seq![
                                ("name"@, JsonDoc::Text(root_uri)),
                                ("uri"@, JsonDoc::Text(root_uri)),
                            ],
                        ),
                    ],
                ),
            ),
        ],
    )
}

/// The handshake request for the project at `root_uri`.
pub open spec fn initialize_doc(root_uri: Seq<char>, process_id: u32) -> JsonDoc {
    JsonDoc::Object(
        seq![
            ("id"@, JsonDoc::Unsigned(1)),
            ("jsonrpc"@, JsonDoc::Text("2.0"@)),
            ("method"@, JsonDoc::Text("initialize"@)),
            ("params"@, initialize_params_doc(root_uri, process_id)),
        ],
    )
}

/// The request for the definition of what stands at `line` and `character`,
/// both counted from zero, in the document at `uri`.
pub open spec fn definition_doc(uri: Seq<char>, line: u32, character: u32) -> JsonDoc {
    JsonDoc::Object(
        seq![
            ("id"@, JsonDoc::Unsigned(2)),
            ("jsonrpc"@, JsonDoc::Text("2.0"@)),
            ("method"@, JsonDoc::Text("textDocument/definition"@)),
            ("notification"@, JsonDoc::Unsigned(0)),
            (
                "params"@,
                JsonDoc::Object(
                    seq![
                        (
                            "position"@,
                            JsonDoc::Object(
                                seq![
                                    ("character"@, JsonDoc::Unsigned(character as u64)),
                                    ("line"@, JsonDoc::Unsigned(line as u64)),
                                ],
                            ),
                        ),
                        ("textDocument"@, JsonDoc::Object(seq![("uri"@, JsonDoc::Text(uri))])),
                    ],
                ),
            ),
        ],
    )
}

/// What the client tells the server it can do with a workspace.
fn workspace_capabilities() -> (value: serde_json::Value)
    ensures
        json_doc(value) == workspace_capabilities_doc(),
{
    let change = object1("dynamicRegistration", value_bool(true));
    let edit = object1("documentChanges", value_bool(true));
    proof {
        reveal_strlit("configuration");
        reveal_strlit("didChangeConfiguration");
        reveal_strlit("workspaceEdit");
        reveal_strlit("workspaceFolders");
        lemma_less_at("configuration"@, "didChangeConfiguration"@, 0);
        lemma_less_at("didChangeConfiguration"@, "workspaceEdit"@, 0);
        lemma_less_at("workspaceEdit"@, "workspaceFolders"@, 9);
    }
    object4(
        "configuration",
        value_bool(true),
        "didChangeConfiguration",
        change,
        "workspaceEdit",
        edit,
        "workspaceFolders",
        value_bool(true),
    )
}

/// What the client tells the server it can do with a text document.
fn document_capabilities() -> (value: serde_json::Value)
    ensures
        json_doc(value) == document_capabilities_doc(),
{
    let mut kinds: Vec<&str> = Vec::new();
    kinds.push("source.organizeImports");
    kinds.push("refactor.rewrite");
    kinds.push("refactor.extract");
    let value_set = text_list(&kinds);
    assert(json_doc(value_set) == JsonDoc::List(code_action_kinds())) by {
        assert(Seq::new(kinds.len() as nat, |i: int| JsonDoc::Text(kinds[i]@))
            =~= code_action_kinds());
    }
    let code_action = object1(
        "codeActionLiteralSupport",
        object1("codeActionKind", object1("valueSet", value_set)),
    );
    let completion = object1("completionItem", object1("snippetSupport", value_bool(true)));
    let mut formats: Vec<&str> = Vec::new();
    formats.push("plaintext");
    let content_format = text_list(&formats);
    assert(json_doc(content_format) == JsonDoc::List(seq![JsonDoc::Text("plaintext"@)])) by {
        assert(Seq::new(formats.len() as nat, |i: int| JsonDoc::Text(formats[i]@)) =~= seq![
            JsonDoc::Text("plaintext"@),
        ]);
    }
    let hover = object1("contentFormat", content_format);
    proof {
        reveal_strlit("codeAction");
        reveal_strlit("completion");
        reveal_strlit("hover");
        lemma_less_at("codeAction"@, "completion"@, 2);
        lemma_less_at("completion"@, "hover"@, 0);
    }
    object3("codeAction", code_action, "completion", completion, "hover", hover)
}

/// The handshake request for the project at `root_uri`.
pub fn initialize_request(root_uri: &str, process_id: u32) -> (message: serde_json::Value)
    ensures
        json_doc(message) == initialize_doc(root_uri@, process_id),
{
    proof {
        reveal_strlit("textDocument");
        reveal_strlit("workspace");
        lemma_less_at("textDocument"@, "workspace"@, 0);
    }
    let capabilities = object2(
        "textDocument",
        document_capabilities(),
        "workspace",
        workspace_capabilities(),
    );
    proof {
        reveal_strlit("name");
        reveal_strlit("version");
        reveal_strlit("uri");
        lemma_less_at("name"@, "version"@, 0);
        lemma_less_at("name"@, "uri"@, 0);
    }
    let client_info = object2(
        "name",
        value_text("YourLSPClientName"),
        "version",
        value_text("1.0.0"),
    );
    let folder = object2("name", value_text(root_uri), "uri", value_text(root_uri));
    let folders = list_of_one(folder);
    proof {
        reveal_strlit("capabilities");
        reveal_strlit("clientInfo");
        reveal_strlit("processId");
        reveal_strlit("rootUri");
        reveal_strlit("workspaceFolders");
        lemma_less_at("capabilities"@, "clientInfo"@, 1);
        lemma_less_at("clientInfo"@, "processId"@, 0);
        lemma_less_at("processId"@, "rootUri"@, 0);
        lemma_less_at("rootUri"@, "workspaceFolders"@, 0);
    }
    let params = object5(
        "capabilities",
        capabilities,
        "clientInfo",
        client_info,
        "processId",
        value_unsigned(process_id as u64),
        "rootUri",
        value_text(root_uri),
        "workspaceFolders",
        folders,
    );
    proof {
        reveal_strlit("id");
        reveal_strlit("jsonrpc");
        reveal_strlit("method");
        reveal_strlit("params");
        lemma_less_at("id"@, "jsonrpc"@, 0);
        lemma_less_at("jsonrpc"@, "method"@, 0);
        lemma_less_at("method"@, "params"@, 0);
    }
    object4(
        "id",
        value_unsigned(1),
        "jsonrpc",
        value_text("2.0"),
        "method",
        value_text("initialize"),
        "params",
        params,
    )
}

/// The request for the definition of what stands at `line` and `character`
/// in the document at `uri`.
pub fn definition_request(uri: &str, line: u32, character: u32) -> (message: serde_json::Value)
    ensures
        json_doc(message) == definition_doc(uri@, line, character),
{
    proof {
        reveal_strlit("character");
        reveal_strlit("line");
        reveal_strlit("position");
        reveal_strlit("textDocument");
        lemma_less_at("character"@, "line"@, 0);
        lemma_less_at("position"@, "textDocument"@, 0);
    }
    let position = object2(
        "character",
        value_unsigned(character as u64),
        "line",
        value_unsigned(line as u64),
    );
    let document = object1("uri", value_text(uri));
    let params = object2("position", position, "textDocument", document);
    proof {
        reveal_strlit("id");
        reveal_strlit("jsonrpc");
        reveal_strlit("method");
        reveal_strlit("notification");
        reveal_strlit("params");
        lemma_less_at("id"@, "jsonrpc"@, 0);
        lemma_less_at("jsonrpc"@, "method"@, 0);
        lemma_less_at("method"@, "notification"@, 0);
        lemma_less_at("notification"@, "params"@, 0);
    }
    object5(
        "id",
        value_unsigned(2),
        "jsonrpc",
        value_text("2.0"),
        "method",
        value_text("textDocument/definition"),
        "notification",
        value_unsigned(0),
        "params",
        params,
    )
}

/// What the client does with an incoming message.
#[derive(Clone, Copy, Debug, PartialEq, Eq, Structural)]
pub enum Disposition {
    /// The message is the one waited for: it is handed to the caller.
    Deliver,
    /// The message is JSON, but not the answer waited for: it is dropped.
    Interim,
    /// The message is no JSON: it is dropped.
    Unparseable,
}

/// The identifier of a message: its member `id`, when that is an unsigned
/// number.
pub open spec fn message_id(doc: JsonDoc) -> Option<u64> {
    match doc_member(doc, "id"@) {
        Some(id) => doc_unsigned(id),
        None => None,
    }
}

/// What is read of a body: nothing when it is no JSON, and else the
/// identifier of the message, if it has one.
pub open spec fn body_id(body: Seq<u8>) -> Option<Option<u64>> {
    match json_parsed(body) {
        Some(doc) => Some(message_id(doc)),
        None => None,
    }
}

/// What the client does with a message of which `id` was read, while it
/// waits for `expected`. Waiting for no identifier, it takes any JSON;
/// waiting for one, it takes the message that carries it.
pub open spec fn disposition(expected: Option<u64>, id: Option<Option<u64>>) -> Disposition {
    match id {
        None => Disposition::Unparseable,
        Some(found) => match expected {
            None => Disposition::Deliver,
            Some(wanted) => if found == Some(wanted) {
                Disposition::Deliver
            } else {
                Disposition::Interim
            },
        },
    }
}

/// What the client does with the body `body` while it waits for `expected`.
pub open spec fn body_disposition(expected: Option<u64>, body: Seq<u8>) -> Disposition {
    disposition(expected, body_id(body))
}

/// What the client does with a message of which `id` was read, while it
/// waits for `expected`.
pub fn correlate(expected: Option<u64>, id: Option<Option<u64>>) -> (what: Disposition)
    ensures
        what == disposition(expected, id),
{
    match id {
        None => Disposition::Unparseable,
        Some(found) => match expected {
            None => Disposition::Deliver,
            Some(wanted) => match found {
                Some(carried) => if carried == wanted {
                    Disposition::Deliver
                } else {
                    Disposition::Interim
                },
                None => Disposition::Interim,
            },
        },
    }
}

/// What is read of a body: nothing when it is no JSON, and else the
/// identifier of the message, if it has one.
pub fn response_id(body: &[u8]) -> (id: Option<Option<u64>>)
    ensures
        id == body_id(body@),
{
    match value_from_slice(body) {
        Some(message) => match value_get(&message, "id") {
            Some(id) => Some(value_as_u64(id)),
            None => Some(None),
        },
        None => None,
    }
}

/// What the client does with the body `body` while it waits for `expected`.
pub fn classify(expected: Option<u64>, body: &[u8]) -> (what: Disposition)
    ensures
        what == body_disposition(expected, body@),
{
    correlate(expected, response_id(body))
}

/// The reading side of one call: it gathers the bytes of a header one by
/// one, says how long the body is that follows, and says of each body
/// whether it is the answer waited for.
pub struct ResponseReader {
    expected_id: Option<u64>,
    header: Vec<u8>,
}

impl ResponseReader {
    /// The identifier waited for, if any.
    pub closed spec fn expected(&self) -> Option<u64> {
        self.expected_id
    }

    /// The bytes of the header gathered so far.
    pub closed spec fn gathered(&self) -> Seq<u8> {
        self.header@
    }

    /// A reader that waits for the message with the identifier
    /// `expected_id`, or for any message when there is none.
    pub fn new(expected_id: Option<u64>) -> (reader: Self)
        ensures
            reader.expected() == expected_id,
            reader.gathered() == Seq::<u8>::empty(),
    {
        ResponseReader { expected_id, header: Vec::new() }
    }

    /// Takes the next byte of a header. While the header is not closed,
    /// the answer is `Ok(None)`: another byte is wanted. With the byte that
    /// closes it the header is read and forgotten: the answer is the length
    /// of the body to read next, or the error in the header.
    pub fn header_byte(&mut self, byte: u8) -> (next: Result<Option<usize>, FrameError>)
        ensures
            final(self).expected() == old(self).expected(),
            ({
                let header = old(self).gathered().push(byte);
                if ends_header(header) {
                    &&& final(self).gathered() == Seq::<u8>::empty()
                    &&& next == match header_length(header) {
                        Ok(length) => Ok::<Option<usize>, FrameError>(Some(length)),
                        Err(error) => Err::<Option<usize>, FrameError>(error),
                    }
                } else {
                    &&& final(self).gathered() == header
                    &&& next == Ok::<Option<usize>, FrameError>(None)
                }
            }),
    {
        self.header.push(byte);
        if header_complete(self.header.as_slice()) {
            let length = parse_content_length(self.header.as_slice());
            self.header.clear();
            match length {
                Ok(length) => Ok(Some(length)),
                Err(error) => Err(error),
            }
        } else {
            Ok(None)
        }
    }

    /// Takes a body. It is handed back when it is the message waited for,
    /// and dropped when it is not.
    pub fn body(&self, body: Vec<u8>) -> (delivered: Option<Vec<u8>>)
        ensures
            delivered == if body_disposition(self.expected(), body@) == Disposition::Deliver {
                Some(body)
            } else {
                None
            },
    {
        match classify(self.expected_id, body.as_slice()) {
            Disposition::Deliver => Some(body),
            _ => None,
        }
    }
}

/// How reading a response from a stream of bytes ends.
pub enum ReadResult {
    /// The message waited for, and the number of bytes read up to its end.
    Delivered { body: Seq<u8>, consumed: int },
    /// The stream ends before the message waited for has come.
    Incomplete,
    /// A header announces no length.
    Broken(FrameError),
}

/// Reading a response from `stream`, from the place `offset` on: messages
/// are taken one after the other, and the first that is the one waited for
/// is the response. Messages before it are dropped.
pub open spec fn read_from(stream: Seq<u8>, expected: Option<u64>, offset: int) -> ReadResult
    decreases stream.len() - offset,
{
    if offset < 0 || offset > stream.len() {
        ReadResult::Incomplete
    } else {
        match next_frame(stream.skip(offset)) {
            NextFrame::Incomplete => ReadResult::Incomplete,
            NextFrame::Broken(error) => ReadResult::Broken(error),
            NextFrame::Whole { body, rest } => {
                let end = stream.len() - rest.len();
                if body_disposition(expected, body) == Disposition::Deliver {
                    ReadResult::Delivered { body, consumed: end }
                } else if offset < end <= stream.len() {
                    read_from(stream, expected, end)
                } else {
                    ReadResult::Incomplete
                }
            },
        }
    }
}

/// Reading ends with the message at `offset` when that is the one waited
/// for.
pub proof fn lemma_read_delivers(
    stream: Seq<u8>,
    expected: Option<u64>,
    offset: int,
    body: Seq<u8>,
    rest: Seq<u8>,
)
    requires
        0 <= offset <= stream.len(),
        next_frame(stream.skip(offset)) == (NextFrame::Whole { body, rest }),
        body_disposition(expected, body) == Disposition::Deliver,
    ensures
        read_from(stream, expected, offset) == (ReadResult::Delivered {
            body,
            consumed: stream.len() - rest.len(),
        }),
{
}

/// Reading goes on behind the message at `offset` when that is not the one
/// waited for.
pub proof fn lemma_read_passes_over(
    stream: Seq<u8>,
    expected: Option<u64>,
    offset: int,
    body: Seq<u8>,
    rest: Seq<u8>,
)
    requires
        0 <= offset <= stream.len(),
        next_frame(stream.skip(offset)) == (NextFrame::Whole { body, rest }),
        body_disposition(expected, body) != Disposition::Deliver,
        offset < stream.len() - rest.len() <= stream.len(),
    ensures
        read_from(stream, expected, offset) == read_from(
            stream,
            expected,
            stream.len() - rest.len(),
        ),
{
}

/// The message waited for is read as it was sent: from the bytes that a
/// body takes on the wire, the body comes back byte for byte, and reading
/// ends with the last of them.
pub proof fn lemma_sent_body_is_read(body: Seq<u8>, rest: Seq<u8>, expected: Option<u64>)
    requires
        body.len() <= usize::MAX,
        body_disposition(expected, body) == Disposition::Deliver,
    ensures
        read_from(frame(body) + rest, expected, 0) == (ReadResult::Delivered {
            body,
            consumed: frame(body).len() as int,
        }),
{
    let stream = frame(body) + rest;
    lemma_frame_round_trip(body, rest);
    assert(stream.skip(0) == stream) by {
        assert(stream.skip(0) =~= stream);
    }
    lemma_read_delivers(stream, expected, 0, body, rest);
}

/// A message that is not the one waited for is dropped, and the one waited
/// for is taken where it follows: of two messages on a stream, the first
/// not the one waited for and the second the one, the second is the
/// response, and reading ends behind it.
pub proof fn lemma_response_follows_interim(
    first: Seq<u8>,
    second: Seq<u8>,
    rest: Seq<u8>,
    expected: Option<u64>,
)
    requires
        first.len() <= usize::MAX,
        second.len() <= usize::MAX,
        body_disposition(expected, first) != Disposition::Deliver,
        body_disposition(expected, second) == Disposition::Deliver,
    ensures
        read_from(frame(first) + frame(second) + rest, expected, 0) == (ReadResult::Delivered {
            body: second,
            consumed: (frame(first).len() + frame(second).len()) as int,
        }),
{
    let one = frame(first);
    let two = frame(second);
    let stream = one + two + rest;
    let behind = two + rest;
    let end = one.len() as int;
    lemma_frame_round_trip(first, behind);
    lemma_frame_round_trip(second, rest);
    lemma_frame_longer(first);
    assert(stream == one + behind) by {
        assert(one + two + rest =~= one + (two + rest));
    }
    assert(stream.skip(0) == stream) by {
        assert(stream.skip(0) =~= stream);
    }
    assert(stream.skip(end) == behind) by {
        assert((one + behind).skip(end) =~= behind);
    }
    assert(stream.len() - behind.len() == end);
    assert(stream.len() - rest.len() == one.len() + two.len());
    lemma_read_passes_over(stream, expected, 0, first, behind);
    lemma_read_delivers(stream, expected, end, second, rest);
}

/// How `read_response` ended.
#[derive(Debug)]
pub enum Response {
    /// The message waited for, and the number of bytes read up to its end.
    Delivered { body: Vec<u8>, consumed: usize },
    /// The stream ends before the message waited for has come.
    Incomplete,
    /// A header announces no length.
    Broken(FrameError),
}

impl Response {
    /// The result that the response stands for.
    pub open spec fn view(&self) -> ReadResult {
        match self {
            Response::Delivered { body, consumed } => ReadResult::Delivered {
                body: body@,
                consumed: *consumed as int,
            },
            Response::Incomplete => ReadResult::Incomplete,
            Response::Broken(error) => ReadResult::Broken(*error),
        }
    }
}

/// Reads from `stream` the response to the request with the identifier
/// `expected_id`, or the first message that is JSON when there is none.
/// The stream is taken as a connection hands it over: header bytes one by
/// one, and each body in one piece.
pub fn read_response(stream: &[u8], expected_id: Option<u64>) -> (response: Response)
    ensures
        response.view() == read_from(stream@, expected_id, 0),
{
    let mut reader = ResponseReader::new(expected_id);
    let mut start: usize = 0;
    let mut at: usize = 0;
    assert(stream@.subrange(0, 0) =~= Seq::<u8>::empty());
    loop
        invariant
            start <= at <= stream.len(),
            reader.expected() == expected_id,
            reader.gathered() == stream@.subrange(start as int, at as int),
            forall|m: int|
                0 <= m <= at - start ==> !#[trigger] header_stops_at(
                    stream@.skip(start as int),
                    m,
                ),
            read_from(stream@, expected_id, 0) == read_from(stream@, expected_id, start as int),
        decreases stream.len() - at,
    {
        let ghost tail = stream@.skip(start as int);
        if at == stream.len() {
            assert(!has_header(tail)) by {
                if has_header(tail) {
                    let n = header_end(tail);
                    assert(header_stops_at(tail, n));
                }
            }
            return Response::Incomplete;
        }
        let byte = stream[at];
        let ghost header = reader.gathered().push(byte);
        at = at + 1;
        assert(header =~= tail.take(at - start));
        let next = reader.header_byte(byte);
        match next {
            Ok(None) => {
                assert(!header_stops_at(tail, at - start));
            },
            Err(error) => {
                proof {
                    lemma_header_end_is(tail, at - start);
                }
                return Response::Broken(error);
            },
            Ok(Some(length)) => {
                proof {
                    lemma_header_end_is(tail, at - start);
                }
                if length > stream.len() - at {
                    return Response::Incomplete;
                }
                let end = at + length;
                let body = slice_to_vec(vstd::slice::slice_subrange(stream, at, end));
                assert(body@ =~= tail.subrange(at - start, at - start + length));
                assert(stream@.len() - tail.skip(at - start + length).len() == end);
                match reader.body(body) {
                    Some(delivered) => {
                        return Response::Delivered { body: delivered, consumed: end };
                    },
                    None => {
                        start = end;
                        at = end;
                        assert(stream@.subrange(end as int, end as int) =~= Seq::<u8>::empty());
                        assert(!header_stops_at(stream@.skip(end as int), 0));
                    },
                }
            },
        }
    }
}

/// Why a call of the client failed.
#[derive(Clone, Copy, Debug, PartialEq, Eq, Structural)]
pub enum LspError {
    /// The path given is not absolute.
    Validation,
    /// A header of the incoming stream announces no length.
    Protocol(FrameError),
    /// The incoming stream ended before the answer came.
    Incomplete,
}

/// What a call of the client puts on the wire and what it waits for.
#[derive(Debug)]
pub struct Exchange {
    /// The request, framed.
    pub request: Vec<u8>,
    /// The identifier of the response to wait for after the request.
    pub expected_id: Option<u64>,
    /// The notification to send once the response has come, framed.
    pub notification: Option<Vec<u8>>,
}

/// The bytes that a message takes on the wire.
pub open spec fn wire(doc: JsonDoc) -> Seq<u8> {
    frame(encode_utf8(json_text(doc)))
}

/// The handshake for the project at `path`: the request with the
/// identifier 1, its response to wait for, then the notification that the
/// client is ready.
pub open spec fn initialize_exchange(path: Seq<char>, process_id: u32, exchange: Exchange) -> bool {
    &&& exchange.request@ == wire(initialize_doc(file_uri(path), process_id))
    &&& exchange.expected_id == Some(1u64)
    &&& exchange.notification matches Some(message)
    &&& message@ == wire(initialized_doc())
}

/// The lookup of a definition in the file at `path`: the request with the
/// identifier 2 and its response to wait for.
pub open spec fn definition_exchange(
    path: Seq<char>,
    line: u32,
    character: u32,
    exchange: Exchange,
) -> bool {
    &&& exchange.request@ == wire(definition_doc(file_uri(path), line, character))
    &&& exchange.expected_id == Some(2u64)
    &&& exchange.notification is None
}

/// `Path::is_absolute` of std: whether the path is absolute. What makes a
/// path absolute differs from system to system, so nothing is said of the
/// answer.
#[verifier::external_body]
pub(crate) fn path_is_absolute(path: &str) -> (absolute: bool) {
    std::path::Path::new(path).is_absolute()
}

/// The address of the file or directory at `path`.
pub fn make_file_uri(path: &str) -> (uri: String)
    ensures
        uri@ == file_uri(path@),
{
    let mut uri = "file://".to_owned();
    uri.append(path);
    uri
}

/// The client of a language server, without the connection: it says what
/// is to be sent and what is to be waited for, and reads what came in.
pub struct LspClient {
    address: String,
}

impl LspClient {
    /// The address of the server.
    pub closed spec fn spec_address(&self) -> Seq<char> {
        self.address@
    }

    /// A client for the server at `addr`.
    pub fn new(addr: &str) -> (client: Self)
        ensures
            client.spec_address() == addr@,
    {
        LspClient { address: addr.to_owned() }
    }

    /// The address of the server.
    pub fn address(&self) -> (addr: &str)
        ensures
            addr@ == self.spec_address(),
    {
        self.address.as_str()
    }

    /// The bytes that the message `request` takes on the wire.
    pub fn send_request(&self, request: &serde_json::Value) -> (message: Vec<u8>)
        ensures
            message@ == wire(json_doc(*request)),
    {
        let text = value_to_string(request);
        encode_frame(text.as_str().as_bytes())
    }

    /// The handshake for the project at `project_path`, of which the
    /// caller says whether it is absolute. A path that is not absolute is
    /// refused, and nothing is to be sent.
    pub fn plan_initialize(&self, project_path: &str, absolute: bool, process_id: u32) -> (planned:
        Result<Exchange, LspError>)
        ensures
            !absolute <==> planned matches Err(LspError::Validation),
            match planned {
                Ok(exchange) => initialize_exchange(project_path@, process_id, exchange),
                Err(error) => error == LspError::Validation,
            },
    {
        if !absolute {
            return Err(LspError::Validation);
        }
        let root_uri = make_file_uri(project_path);
        let request = initialize_request(root_uri.as_str(), process_id);
        let notification = initialized_notification();
        Ok(
            Exchange {
                request: self.send_request(&request),
                expected_id: Some(1),
                notification: Some(self.send_request(&notification)),
            },
        )
    }

    /// The handshake for the project at `project_path`, sent by the
    /// process `process_id`. A path that the system does not take for
    /// absolute is refused, and nothing is to be sent.
    pub fn send_initialize_request(&self, project_path: &str, process_id: u32) -> (planned: Result<
        Exchange,
        LspError,
    >)
        ensures
            match planned {
                Ok(exchange) => initialize_exchange(project_path@, process_id, exchange),
                Err(error) => error == LspError::Validation,
            },
    {
        self.plan_initialize(project_path, path_is_absolute(project_path), process_id)
    }

    /// The lookup of the definition of what stands at `line` and
    /// `character`, both counted from zero, in the file at `file_path`, of
    /// which the caller says whether it is absolute. A path that is not
    /// absolute is refused, and nothing is to be sent.
    pub fn plan_definition(
        &self,
        file_path: &str,
        absolute: bool,
        line: u32,
        character: u32,
    ) -> (planned: Result<Exchange, LspError>)
        ensures
            !absolute <==> planned matches Err(LspError::Validation),
            match planned {
                Ok(exchange) => definition_exchange(file_path@, line, character, exchange),
                Err(error) => error == LspError::Validation,
            },
    {
        if !absolute {
            return Err(LspError::Validation);
        }
        let uri = make_file_uri(file_path);
        let request = definition_request(uri.as_str(), line, character);
        Ok(Exchange { request: self.send_request(&request), expected_id: Some(2), notification: None })
    }

    /// The lookup of the definition of what stands at `line` and
    /// `character` in the file at `file_path`. A path that the system does
    /// not take for absolute is refused, and nothing is to be sent.
    pub fn get_definition(&self, file_path: &str, line: u32, character: u32) -> (planned: Result<
        Exchange,
        LspError,
    >)
        ensures
            match planned {
                Ok(exchange) => definition_exchange(file_path@, line, character, exchange),
                Err(error) => error == LspError::Validation,
            },
    {
        self.plan_definition(file_path, path_is_absolute(file_path), line, character)
    }

    /// Reads from `stream` the response to the request with the identifier
    /// `expected_id`, or the first message that is JSON when there is none.
    pub fn read_response(&self, stream: &[u8], expected_id: Option<u64>) -> (response: Result<
        Vec<u8>,
        LspError,
    >)
        ensures
            match response {
                Ok(body) => read_from(stream@, expected_id, 0) matches ReadResult::Delivered {
                    body: read,
                    consumed,
                } && read == body@,
                Err(LspError::Protocol(error)) => read_from(stream@, expected_id, 0)
                    == ReadResult::Broken(error),
                Err(LspError::Incomplete) => read_from(stream@, expected_id, 0) is Incomplete,
                Err(LspError::Validation) => false,
            },
    {
        match read_response(stream, expected_id) {
            Response::Delivered { body, consumed } => Ok(body),
            Response::Broken(error) => Err(LspError::Protocol(error)),
            Response::Incomplete => Err(LspError::Incomplete),
        }
    }
}

} // verus!
