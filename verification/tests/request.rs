use assistant_core::attachment::{AttachmentType, MessageAttachment};
use assistant_core::config::AssistantModelConfig;
use assistant_core::error::AppError;
use assistant_core::request::{
    build_content, build_image_blocks, build_messages, build_request, find_system_prompt,
    image_block, max_tokens, split_data_uri, ContentBlock, ConversationTurn, MessageContent,
    DEFAULT_MAX_TOKENS, DEFAULT_TEMPERATURE, DEFAULT_TOP_P,
};

fn settings(entries: &[(&str, Option<&str>)]) -> Vec<AssistantModelConfig> {
    entries
        .iter()
        .map(|(name, value)| AssistantModelConfig {
            name: name.to_string(),
            value: value.map(str::to_string),
        })
        .collect()
}

fn attachment(kind: AttachmentType, content: &str) -> MessageAttachment {
    MessageAttachment::fresh(kind, "origin".to_string(), content.to_string())
}

fn turn(role: &str, text: &str, attachments: Vec<MessageAttachment>) -> ConversationTurn {
    ConversationTurn { role: role.to_string(), text: text.to_string(), attachments }
}

fn blocks(content: &MessageContent) -> Vec<(String, String, String)> {
    match content {
        MessageContent::Text(text) => vec![("plain".to_string(), text.clone(), String::new())],
        MessageContent::Blocks(blocks) => blocks
            .iter()
            .map(|block| match block {
                ContentBlock::Image { media_type, data } => {
                    ("image".to_string(), media_type.clone(), data.clone())
                }
                ContentBlock::Text { text } => ("text".to_string(), text.clone(), String::new()),
            })
            .collect(),
    }
}

fn triple(kind: &str, a: &str, b: &str) -> (String, String, String) {
    (kind.to_string(), a.to_string(), b.to_string())
}

fn regex_parts(content: &str) -> Option<(String, String)> {
    let re = regex::Regex::new(r"data:(?P<media_type>[^;]+);base64,(?P<data>.+)").unwrap();
    let caps = re.captures(content)?;
    Some((caps.name("media_type")?.as_str().to_string(), caps.name("data")?.as_str().to_string()))
}

#[test]
fn empty_settings_give_the_defaults() {
    let request = build_request(&vec![], &settings(&[]), false).unwrap();
    assert_eq!(request.max_tokens, 2000);
    assert_eq!(request.model, None);
    assert_eq!(request.system, None);
    assert!(request.messages.is_empty());
    assert!(!request.stream);
    assert_eq!(DEFAULT_MAX_TOKENS, 2000);
}

#[test]
fn sampling_defaults_are_three_quarters_and_one() {
    assert_eq!(DEFAULT_TEMPERATURE.parse::<f64>(), Ok(0.75));
    assert_eq!(DEFAULT_TOP_P.parse::<f64>(), Ok(1.0));
}

#[test]
fn max_tokens_is_read_from_the_settings() {
    assert_eq!(max_tokens(&settings(&[("max_tokens", Some("4096"))])), 4096);
    assert_eq!(max_tokens(&settings(&[("max_tokens", Some("-5"))])), -5);
    assert_eq!(max_tokens(&settings(&[("max_tokens", Some("+12"))])), 12);
}

#[test]
fn max_tokens_falls_back_where_it_does_not_parse() {
    assert_eq!(max_tokens(&settings(&[("max_tokens", Some("many"))])), 2000);
    assert_eq!(max_tokens(&settings(&[("max_tokens", Some(""))])), 2000);
    assert_eq!(max_tokens(&settings(&[("max_tokens", Some("4096.0"))])), 2000);
    assert_eq!(max_tokens(&settings(&[("max_tokens", Some(" 4096"))])), 2000);
    assert_eq!(max_tokens(&settings(&[("max_tokens", Some("99999999999"))])), 2000);
    assert_eq!(max_tokens(&settings(&[("max_tokens", None)])), 2000);
    assert_eq!(max_tokens(&settings(&[("temperature", Some("0.1"))])), 2000);
}

#[test]
fn model_is_taken_as_it_is() {
    let request =
        build_request(&vec![], &settings(&[("model", Some(" some model/1 "))]), true).unwrap();
    assert_eq!(request.model.as_deref(), Some(" some model/1 "));
    assert!(request.stream);
}

#[test]
fn system_turn_is_carried_apart() {
    let turns = vec![
        turn("user", "hi", vec![]),
        turn("system", "be brief", vec![]),
        turn("assistant", "hello", vec![]),
        turn("system", "be long", vec![]),
        turn("user", "bye", vec![]),
    ];
    let request = build_request(&turns, &settings(&[]), false).unwrap();
    assert_eq!(request.system.as_deref(), Some("be brief"));
    let roles: Vec<&str> = request.messages.iter().map(|m| m.role.as_str()).collect();
    assert_eq!(roles, vec!["user", "assistant", "user"]);
    let texts: Vec<_> = request.messages.iter().map(|m| blocks(&m.content)).collect();
    assert_eq!(
        texts,
        vec![
            vec![triple("plain", "hi", "")],
            vec![triple("plain", "hello", "")],
            vec![triple("plain", "bye", "")],
        ]
    );
    assert_eq!(find_system_prompt(&turns).as_deref(), Some("be brief"));
}

#[test]
fn conversation_without_system_turn_has_no_system_prompt() {
    let turns = vec![turn("user", "hi", vec![]), turn("System", "x", vec![])];
    let request = build_request(&turns, &settings(&[]), false).unwrap();
    assert_eq!(request.system, None);
    assert_eq!(request.messages.len(), 2);
    assert_eq!(request.messages[1].role, "System");
}

#[test]
fn images_come_first_and_the_text_last() {
    let turns = vec![turn(
        "user",
        "what is this?",
        vec![
            attachment(AttachmentType::Image, "data:image/png;base64,AAAA"),
            attachment(AttachmentType::Text, "some notes"),
            attachment(AttachmentType::Image, "data:image/jpeg;base64,/9j/4A=="),
        ],
    )];
    let messages = build_messages(&turns).unwrap();
    assert_eq!(messages.len(), 1);
    assert_eq!(messages[0].role, "user");
    assert_eq!(
        blocks(&messages[0].content),
        vec![
            triple("image", "image/png", "AAAA"),
            triple("image", "image/jpeg", "/9j/4A=="),
            triple("text", "what is this?", ""),
        ]
    );
}

#[test]
fn turn_with_only_other_attachments_is_sent_as_plain_text() {
    let t = turn("user", "see notes", vec![attachment(AttachmentType::Text, "notes")]);
    assert_eq!(blocks(&build_content(&t).unwrap()), vec![triple("plain", "see notes", "")]);
    let t = turn(
        "user",
        "sum",
        vec![attachment(AttachmentType::Text, "abc"), attachment(AttachmentType::Text, "def")],
    );
    assert_eq!(blocks(&build_content(&t).unwrap()), vec![triple("plain", "sum", "")]);
}

#[test]
fn nothing_of_a_text_attachment_is_sent() {
    let turns = vec![turn("user", "sum", vec![attachment(AttachmentType::Text, "abc")])];
    let request = build_request(&turns, &settings(&[]), false).unwrap();
    assert_eq!(request.messages.len(), 1);
    assert_eq!(request.messages[0].role, "user");
    match &request.messages[0].content {
        MessageContent::Text(text) => assert_eq!(text, "sum"),
        other => panic!("{:?}", other),
    }
    assert!(!format!("{:?}", request).contains("abc"));
}

#[test]
fn turn_without_attachments_is_sent_as_plain_text() {
    let t = turn("assistant", "plain", vec![]);
    assert_eq!(blocks(&build_content(&t).unwrap()), vec![triple("plain", "plain", "")]);
}

#[test]
fn image_that_is_no_data_uri_is_refused() {
    let turns = vec![
        turn("user", "one", vec![attachment(AttachmentType::Image, "data:image/png;base64,AA")]),
        turn("user", "two", vec![attachment(AttachmentType::Image, "just text")]),
    ];
    assert_eq!(build_request(&turns, &settings(&[]), false).err(), Some(AppError::UnsupportedType));
    assert!(build_messages(&turns).is_none());
    assert!(build_image_blocks(&turns[1].attachments).is_none());
    assert!(build_content(&turns[1]).is_none());
}

#[test]
fn image_of_a_system_turn_is_not_looked_at() {
    let turns = vec![turn("system", "s", vec![attachment(AttachmentType::Image, "no uri")])];
    let request = build_request(&turns, &settings(&[]), false).unwrap();
    assert!(request.messages.is_empty());
    assert_eq!(request.system.as_deref(), Some("s"));
}

#[test]
fn text_attachment_that_is_no_data_uri_is_ignored() {
    let t = turn("user", "t", vec![attachment(AttachmentType::Text, "data:oops")]);
    assert_eq!(blocks(&build_content(&t).unwrap()), vec![triple("plain", "t", "")]);
}

#[test]
fn data_uri_is_split_into_type_and_payload() {
    assert_eq!(
        split_data_uri("data:image/png;base64,iVBORw0KGgo="),
        Some(("image/png".to_string(), "iVBORw0KGgo=".to_string()))
    );
    assert_eq!(split_data_uri("data:;base64,AAAA"), None);
    assert_eq!(split_data_uri("data:image/png;base64,"), None);
    assert_eq!(split_data_uri(""), None);
}

#[test]
fn data_uri_is_split_as_the_expression_says() {
    let samples = [
        "data:image/png;base64,AAAA",
        "xxdata:image/gif;base64,R0lGODlh and more",
        "data:image/png;base64,AAAA\nBBBB",
        "data:a;b;base64,CC",
        "data:data:x;base64,y",
        "data:image/png;base64",
        "data:image/png,AAAA",
        "DATA:image/png;base64,AAAA",
        "data:im\nage;base64,x",
        "plain",
    ];
    for sample in samples {
        assert_eq!(split_data_uri(sample), regex_parts(sample), "{:?}", sample);
    }
}

#[test]
fn image_block_is_made_of_what_was_captured() {
    match image_block(Some(("image/webp".to_string(), "UklGR".to_string()))) {
        Some(ContentBlock::Image { media_type, data }) => {
            assert_eq!(media_type, "image/webp");
            assert_eq!(data, "UklGR");
        }
        other => panic!("{:?}", other),
    }
    assert!(image_block(None).is_none());
}
