use assistant_core::attachment::{AttachmentType, MessageAttachment};
use assistant_core::body::{block_json, content_json, message_json, request_body, request_headers};
use assistant_core::config::AssistantModelConfig;
use assistant_core::json::Json;
use assistant_core::request::{
    build_request, ContentBlock, ConversationTurn, MessageContent, WireMessage,
};
use serde_json::Value;

fn to_value(json: &Json) -> Value {
    match json {
        Json::Null => Value::Null,
        Json::Bool(b) => Value::Bool(*b),
        Json::Integer(whole) => Value::Number((*whole).into()),
        Json::Number(text) => serde_json::from_str(text).unwrap(),
        Json::Text(s) => Value::String(s.clone()),
        Json::Array(items) => Value::Array(items.iter().map(to_value).collect()),
        Json::Object(members) => {
            Value::Object(members.iter().map(|(k, v)| (k.clone(), to_value(v))).collect())
        }
    }
}

fn parsed(text: &str) -> Value {
    serde_json::from_str(text).unwrap()
}

fn names(json: &Json) -> Vec<String> {
    match json {
        Json::Object(members) => members.iter().map(|(k, _)| k.clone()).collect(),
        other => panic!("{:?}", other),
    }
}

#[test]
fn image_block_on_the_wire() {
    let block = ContentBlock::Image { media_type: "image/png".to_string(), data: "AAAA".to_string() };
    assert_eq!(
        to_value(&block_json(&block)),
        parsed(r#"{"type":"image","source":{"type":"base64","media_type":"image/png","data":"AAAA"}}"#)
    );
}

#[test]
fn text_block_on_the_wire() {
    let block = ContentBlock::Text { text: "say \"hi\"".to_string() };
    assert_eq!(to_value(&block_json(&block)), parsed(r#"{"type":"text","text":"say \"hi\""}"#));
}

#[test]
fn content_on_the_wire() {
    assert_eq!(to_value(&content_json(&MessageContent::Text("plain".to_string()))), parsed(r#""plain""#));
    assert_eq!(to_value(&content_json(&MessageContent::Blocks(vec![]))), parsed("[]"));
    let blocks = MessageContent::Blocks(vec![
        ContentBlock::Image { media_type: "image/gif".to_string(), data: "R0lG".to_string() },
        ContentBlock::Text { text: "what?".to_string() },
    ]);
    assert_eq!(
        to_value(&content_json(&blocks)),
        parsed(
            r#"[{"type":"image","source":{"type":"base64","media_type":"image/gif","data":"R0lG"}},{"type":"text","text":"what?"}]"#
        )
    );
}

#[test]
fn message_on_the_wire() {
    let message =
        WireMessage { role: "user".to_string(), content: MessageContent::Text("hi".to_string()) };
    assert_eq!(to_value(&message_json(&message)), parsed(r#"{"role":"user","content":"hi"}"#));
}

#[test]
fn request_on_the_wire() {
    let turns = vec![
        ConversationTurn { role: "system".to_string(), text: "be brief".to_string(), attachments: vec![] },
        ConversationTurn {
            role: "user".to_string(),
            text: "look".to_string(),
            attachments: vec![MessageAttachment::fresh(
                AttachmentType::Image,
                "a.png".to_string(),
                "data:image/png;base64,iVBORw0KGgo=".to_string(),
            )],
        },
        ConversationTurn { role: "assistant".to_string(), text: "ok".to_string(), attachments: vec![] },
    ];
    let settings = vec![
        AssistantModelConfig { name: "model".to_string(), value: Some("model-1".to_string()) },
        AssistantModelConfig { name: "max_tokens".to_string(), value: Some("512".to_string()) },
    ];
    let request = build_request(&turns, &settings, true).unwrap();
    let body = request_body(&request, Json::Number("0.75".to_string()), Json::Number("1.0".to_string()));
    assert_eq!(
        names(&body),
        vec!["model", "temperature", "top_p", "system", "max_tokens", "messages", "stream"]
    );
    assert_eq!(
        to_value(&body),
        parsed(
            r#"{
                "model": "model-1",
                "temperature": 0.75,
                "top_p": 1.0,
                "system": "be brief",
                "max_tokens": 512,
                "messages": [
                    {"role": "user", "content": [
                        {"type": "image", "source": {"type": "base64", "media_type": "image/png", "data": "iVBORw0KGgo="}},
                        {"type": "text", "text": "look"}
                    ]},
                    {"role": "assistant", "content": "ok"}
                ],
                "stream": true
            }"#
        )
    );
}

#[test]
fn request_without_model_and_system_says_null() {
    let request = build_request(&vec![], &vec![], false).unwrap();
    let body = request_body(&request, Json::Number("0.75".to_string()), Json::Number("1.0".to_string()));
    assert_eq!(
        to_value(&body),
        parsed(
            r#"{"model":null,"temperature":0.75,"top_p":1.0,"system":null,"max_tokens":2000,"messages":[],"stream":false}"#
        )
    );
}

#[test]
fn headers_carry_the_credential_and_the_version() {
    assert_eq!(
        request_headers("k-123"),
        vec![
            ("X-API-Key".to_string(), "k-123".to_string()),
            ("anthropic-version".to_string(), "2023-06-01".to_string()),
        ]
    );
}
