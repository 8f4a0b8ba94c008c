//! The request on the wire: the JSON document that is its body, and the
//! headers that go with it.

use crate::json::Json;
use crate::request::{
    BlockView, ContentBlock, ContentView, MessageContent, MessageView, RequestView, WireMessage,
    WireRequest,
};
use crate::wire::ToolChoice;
use vstd::prelude::*;
use vstd::string::*;

verus! {

/// Whether `json` is an object whose members have the names `names`, in
/// order, and no others.
pub open spec fn has_members(json: Json, names: Seq<Seq<char>>) -> bool {
    match json {
        Json::Object(entries) => entries@.len() == names.len() && forall|i: int|
            0 <= i < names.len() ==> (#[trigger] entries@[i]).0@ == names[i],
        _ => false,
    }
}

/// The value of the member at position `i` of an object.
pub open spec fn value_at(json: Json, i: int) -> Json {
    match json {
        Json::Object(entries) => entries@[i].1,
        _ => Json::Null,
    }
}

/// Whether `json` is the string `text`.
pub open spec fn is_text(json: Json, text: Seq<char>) -> bool {
    json.text() == Some(text)
}

/// Whether `json` is the string `text`, or null where there is none.
pub open spec fn is_optional_text(json: Json, text: Option<Seq<char>>) -> bool {
    match text {
        Some(text) => is_text(json, text),
        None => json is Null,
    }
}

/// Whether `json` says `block`: an image by its type, and its source in
/// base64 with its media type and its payload; text by its type and its text.
pub open spec fn is_block(json: Json, block: BlockView) -> bool {
    match block {
        BlockView::Image { media_type, data } => {
            &&& has_members(json, seq!["type"@, "source"@])
            &&& is_text(value_at(json, 0), "image"@)
            &&& has_members(value_at(json, 1), seq!["type"@, "media_type"@, "data"@])
            &&& is_text(value_at(value_at(json, 1), 0), "base64"@)
            &&& is_text(value_at(value_at(json, 1), 1), media_type)
            &&& is_text(value_at(value_at(json, 1), 2), data)
        },
        BlockView::Text { text } => {
            &&& has_members(json, seq!["type"@, "text"@])
            &&& is_text(value_at(json, 0), "text"@)
            &&& is_text(value_at(json, 1), text)
        },
    }
}

/// Whether `json` says `blocks`: an array with one item for each block.
pub open spec fn is_blocks(json: Json, blocks: Seq<BlockView>) -> bool {
    match json {
        Json::Array(items) => items@.len() == blocks.len() && forall|i: int|
            0 <= i < blocks.len() ==> is_block(#[trigger] items@[i], blocks[i]),
        _ => false,
    }
}

/// Whether `json` says `content`: a string for plain text, an array for
/// blocks.
pub open spec fn is_content(json: Json, content: ContentView) -> bool {
    match content {
        ContentView::Text(text) => is_text(json, text),
        ContentView::Blocks(blocks) => is_blocks(json, blocks),
    }
}

/// Whether `json` says `message`: its role and its content.
pub open spec fn is_message(json: Json, message: MessageView) -> bool {
    &&& has_members(json, seq!["role"@, "content"@])
    &&& is_text(value_at(json, 0), message.role)
    &&& is_content(value_at(json, 1), message.content)
}

/// Whether `json` says `messages`: an array with one item for each message.
pub open spec fn is_messages(json: Json, messages: Seq<MessageView>) -> bool {
    match json {
        Json::Array(items) => items@.len() == messages.len() && forall|i: int|
            0 <= i < messages.len() ==> is_message(#[trigger] items@[i], messages[i]),
        _ => false,
    }
}

/// Whether `json` is the body of `request` with the sampling parameters
/// `temperature` and `top_p`: the model, or null; the two parameters; the
/// system prompt, or null; the number of tokens; the messages; and whether
/// the reply is to be streamed.
pub open spec fn is_request_body(
    json: Json,
    request: RequestView,
    temperature: Json,
    top_p: Json,
) -> bool {
    &&& has_members(
        json,
        seq![
            "model"@,
            "temperature"@,
            "top_p"@,
            "system"@,
            "max_tokens"@,
            "messages"@,
            "stream"@,
        ],
    )
    &&& is_optional_text(value_at(json, 0), request.model)
    &&& value_at(json, 1) == temperature
    &&& value_at(json, 2) == top_p
    &&& is_optional_text(value_at(json, 3), request.system)
    &&& value_at(json, 4) == Json::Integer(request.max_tokens as i64)
    &&& is_messages(value_at(json, 5), request.messages)
    &&& value_at(json, 6) == Json::Bool(request.stream)
}

/// The headers of a request with the credential `api_key`: the credential,
/// and the version of the interface.
pub open spec fn headers_of(api_key: Seq<char>) -> Seq<(Seq<char>, Seq<char>)> {
    seq![("X-API-Key"@, api_key), ("anthropic-version"@, "2023-06-01"@)]
}

fn text(value: &str) -> (json: Json)
    ensures
        is_text(json, value@),
{
    Json::Text(String::from_str(value))
}

fn optional_text(value: &Option<String>) -> (json: Json)
    ensures
        is_optional_text(json, value.deep_view()),
{
    match value {
        Some(value) => Json::Text(value.clone()),
        None => Json::Null,
    }
}

fn member(name: &str, value: Json) -> (entry: (String, Json))
    ensures
        entry.0@ == name@,
        entry.1 == value,
{
    (String::from_str(name), value)
}

/// The JSON that says `block`.
pub fn block_json(block: &ContentBlock) -> (json: Json)
    ensures
        is_block(json, block.deep_view()),
{
    match block {
        ContentBlock::Image { media_type, data } => {
            let mut source: Vec<(String, Json)> = Vec::new();
            source.push(member("type", text("base64")));
            source.push(member("media_type", Json::Text(media_type.clone())));
            source.push(member("data", Json::Text(data.clone())));
            let mut entries: Vec<(String, Json)> = Vec::new();
            entries.push(member("type", text("image")));
            entries.push(member("source", Json::Object(source)));
            Json::Object(entries)
        },
        ContentBlock::Text { text: words } => {
            let mut entries: Vec<(String, Json)> = Vec::new();
            entries.push(member("type", text("text")));
            entries.push(member("text", Json::Text(words.clone())));
            Json::Object(entries)
        },
    }
}

/// The JSON that says `content`.
pub fn content_json(content: &MessageContent) -> (json: Json)
    ensures
        is_content(json, content.deep_view()),
{
    match content {
        MessageContent::Text(words) => Json::Text(words.clone()),
        MessageContent::Blocks(blocks) => {
            let mut items: Vec<Json> = Vec::new();
            let mut i: usize = 0;
            while i < blocks.len()
                invariant
                    i <= blocks@.len(),
                    items@.len() == i,
                    forall|k: int|
                        0 <= k < i ==> is_block(#[trigger] items@[k], blocks@[k].deep_view()),
                decreases blocks@.len() - i,
            {
                items.push(block_json(&blocks[i]));
                i = i + 1;
            }
            Json::Array(items)
        },
    }
}

/// The JSON that says `message`.
pub fn message_json(message: &WireMessage) -> (json: Json)
    ensures
        is_message(json, message.deep_view()),
{
    let mut entries: Vec<(String, Json)> = Vec::new();
    entries.push(member("role", Json::Text(message.role.clone())));
    entries.push(member("content", content_json(&message.content)));
    Json::Object(entries)
}

/// The body of `request`. The two sampling parameters are given as the
/// caller read them.
pub fn request_body(request: &WireRequest, temperature: Json, top_p: Json) -> (json: Json)
    ensures
        is_request_body(json, request.deep_view(), temperature, top_p),
{
    let mut messages: Vec<Json> = Vec::new();
    let mut i: usize = 0;
    while i < request.messages.len()
        invariant
            i <= request.messages@.len(),
            messages@.len() == i,
            forall|k: int|
                0 <= k < i ==> is_message(
                    #[trigger] messages@[k],
                    request.messages@[k].deep_view(),
                ),
        decreases request.messages@.len() - i,
    {
        messages.push(message_json(&request.messages[i]));
        i = i + 1;
    }
    let mut entries: Vec<(String, Json)> = Vec::new();
    entries.push(member("model", optional_text(&request.model)));
    entries.push(member("temperature", temperature));
    entries.push(member("top_p", top_p));
    entries.push(member("system", optional_text(&request.system)));
    entries.push(member("max_tokens", Json::Integer(request.max_tokens as i64)));
    entries.push(member("messages", Json::Array(messages)));
    entries.push(member("stream", Json::Bool(request.stream)));
    Json::Object(entries)
}

/// The headers of a request with the credential `api_key`.
pub fn request_headers(api_key: &str) -> (headers: Vec<(String, String)>)
    ensures
        headers.deep_view() == headers_of(api_key@),
{
    let mut headers: Vec<(String, String)> = Vec::new();
    headers.push((String::from_str("X-API-Key"), String::from_str(api_key)));
    headers.push((String::from_str("anthropic-version"), String::from_str("2023-06-01")));
    assert(headers.deep_view() =~= headers_of(api_key@));
    headers
}

/// Whether `json` is an object with exactly the members `members`, in
/// order, each of them a string.
pub open spec fn is_text_object(json: Json, members: Seq<(Seq<char>, Seq<char>)>) -> bool {
    match json {
        Json::Object(entries) => entries@.len() == members.len() && forall|i: int|
            0 <= i < members.len() ==> is_text_member(#[trigger] entries@[i], members[i]),
        _ => false,
    }
}

/// Whether `entry` is the member `member`: it has its name, and its value
/// is the string that `member` gives.
pub open spec fn is_text_member(entry: (String, Json), member: (Seq<char>, Seq<char>)) -> bool {
    entry.0@ == member.0 && entry.1.text() == Some(member.1)
}

impl ToolChoice {
    /// The members of the object that says this choice on the wire.
    pub open spec fn wire_members(self) -> Seq<(Seq<char>, Seq<char>)> {
        match self {
            ToolChoice::Auto => seq![("type"@, "auto"@)],
            ToolChoice::Any => seq![("type"@, "any"@)],
            ToolChoice::Tool(name) => seq![("type"@, "tool"@), ("name"@, name@)],
        }
    }

    /// The object that says this choice on the wire.
    pub fn to_json(&self) -> (json: Json)
        ensures
            is_text_object(json, self.wire_members()),
    {
        let mut entries: Vec<(String, Json)> = Vec::new();
        match self {
            ToolChoice::Auto => {
                entries.push((String::from_str("type"), Json::Text(String::from_str("auto"))));
            },
            ToolChoice::Any => {
                entries.push((String::from_str("type"), Json::Text(String::from_str("any"))));
            },
            ToolChoice::Tool(name) => {
                entries.push((String::from_str("type"), Json::Text(String::from_str("tool"))));
                entries.push((String::from_str("name"), Json::Text(name.clone())));
            },
        }
        Json::Object(entries)
    }
}

} // verus!
