//! The request builder: from a conversation and the model's settings to the
//! request that goes over the wire.

use crate::attachment::{AttachmentType, AttachmentView, MessageAttachment};
use crate::bindings::{capture_pair, captured_pair, pair_text};
use crate::config::{decimal_i32, model_setting, parse_i32, setting, AssistantModelConfig, SettingView};
use crate::error::AppError;
use crate::text::same_text;
use vstd::prelude::*;
use vstd::string::*;

verus! {

/// One turn of a conversation.
#[derive(Debug)]
pub struct ConversationTurn {
    pub role: String,
    pub text: String,
    pub attachments: Vec<MessageAttachment>,
}

/// A `ConversationTurn` by its characters.
#[verifier::ext_equal]
pub struct TurnView {
    pub role: Seq<char>,
    pub text: Seq<char>,
    pub attachments: Seq<AttachmentView>,
}

impl DeepView for ConversationTurn {
    type V = TurnView;

    open spec fn deep_view(&self) -> TurnView {
        TurnView {
            role: self.role@,
            text: self.text@,
            attachments: self.attachments.deep_view(),
        }
    }
}

/// One block of a message that is made of blocks.
#[derive(Debug)]
pub enum ContentBlock {
    /// An image, by its media type and its payload in base64.
    Image { media_type: String, data: String },
    /// Text.
    Text { text: String },
}

/// A `ContentBlock` by its characters.
#[verifier::ext_equal]
pub enum BlockView {
    Image { media_type: Seq<char>, data: Seq<char> },
    Text { text: Seq<char> },
}

impl DeepView for ContentBlock {
    type V = BlockView;

    open spec fn deep_view(&self) -> BlockView {
        match self {
            ContentBlock::Image { media_type, data } => BlockView::Image {
                media_type: media_type@,
                data: data@,
            },
            ContentBlock::Text { text } => BlockView::Text { text: text@ },
        }
    }
}

/// What a message holds: plain text, or blocks.
#[derive(Debug)]
pub enum MessageContent {
    Text(String),
    Blocks(Vec<ContentBlock>),
}

/// A `MessageContent` by its characters.
#[verifier::ext_equal]
pub enum ContentView {
    Text(Seq<char>),
    Blocks(Seq<BlockView>),
}

impl DeepView for MessageContent {
    type V = ContentView;

    open spec fn deep_view(&self) -> ContentView {
        match self {
            MessageContent::Text(text) => ContentView::Text(text@),
            MessageContent::Blocks(blocks) => ContentView::Blocks(blocks.deep_view()),
        }
    }
}

/// One message of a request.
#[derive(Debug)]
pub struct WireMessage {
    pub role: String,
    pub content: MessageContent,
}

/// A `WireMessage` by its characters.
#[verifier::ext_equal]
pub struct MessageView {
    pub role: Seq<char>,
    pub content: ContentView,
}

impl DeepView for WireMessage {
    type V = MessageView;

    open spec fn deep_view(&self) -> MessageView {
        MessageView { role: self.role@, content: self.content.deep_view() }
    }
}

/// A request as the provider takes it, but for the two sampling parameters,
/// which are fractions.
#[derive(Debug)]
pub struct WireRequest {
    pub model: Option<String>,
    pub system: Option<String>,
    pub max_tokens: i32,
    pub messages: Vec<WireMessage>,
    pub stream: bool,
}

/// A `WireRequest` by its characters.
#[verifier::ext_equal]
pub struct RequestView {
    pub model: Option<Seq<char>>,
    pub system: Option<Seq<char>>,
    pub max_tokens: i32,
    pub messages: Seq<MessageView>,
    pub stream: bool,
}

impl DeepView for WireRequest {
    type V = RequestView;

    open spec fn deep_view(&self) -> RequestView {
        RequestView {
            model: self.model.deep_view(),
            system: self.system.deep_view(),
            max_tokens: self.max_tokens,
            messages: self.messages.deep_view(),
            stream: self.stream,
        }
    }
}

/// The number of tokens asked for where the settings name none.
pub const DEFAULT_MAX_TOKENS: i32 = 2000;

/// The sampling temperature where the settings name none, in decimal.
pub const DEFAULT_TEMPERATURE: &'static str = "0.75";

/// The nucleus sampling bound where the settings name none, in decimal.
pub const DEFAULT_TOP_P: &'static str = "1.0";

/// The media type and the payload of a data URI: what the expression
/// `data:(?P<media_type>[^;]+);base64,(?P<data>.+)` captures in `content`.
pub open spec fn data_uri_parts(content: Seq<char>) -> Option<(Seq<char>, Seq<char>)> {
    captured_pair(
        "data:(?P<media_type>[^;]+);base64,(?P<data>.+)"@,
        "media_type"@,
        "data"@,
        content,
    )
}

/// The image block for what was captured from a data URI.
pub open spec fn block_of_parts(parts: Option<(Seq<char>, Seq<char>)>) -> Option<BlockView> {
    match parts {
        Some((media_type, data)) => Some(BlockView::Image { media_type, data }),
        None => None,
    }
}

/// The image blocks for the image attachments among `attachments`, in
/// order; `None` where the content of one of them is no data URI.
pub open spec fn image_blocks(attachments: Seq<AttachmentView>) -> Option<Seq<BlockView>>
    decreases attachments.len(),
{
    if attachments.len() == 0 {
        Some(Seq::empty())
    } else {
        let last = attachments.last();
        match image_blocks(attachments.drop_last()) {
            None => None,
            Some(blocks) => if last.attachment_type == AttachmentType::Image {
                match block_of_parts(data_uri_parts(last.attachment_content)) {
                    Some(block) => Some(blocks.push(block)),
                    None => None,
                }
            } else {
                Some(blocks)
            },
        }
    }
}

/// What the message for `turn` holds: its text, where none of its
/// attachments is an image; else the blocks of its images and then a block
/// with its text. Attachments that are no images are not sent: a turn that
/// has only such is sent as one without attachments.
pub open spec fn content_of(turn: TurnView) -> Option<ContentView> {
    match image_blocks(turn.attachments) {
        Some(blocks) => if blocks.len() == 0 {
            Some(ContentView::Text(turn.text))
        } else {
            Some(ContentView::Blocks(blocks.push(BlockView::Text { text: turn.text })))
        },
        None => None,
    }
}

/// The messages for `turns`: one for each turn that is not of the system's
/// role, in order.
pub open spec fn wire_messages(turns: Seq<TurnView>) -> Option<Seq<MessageView>>
    decreases turns.len(),
{
    if turns.len() == 0 {
        Some(Seq::empty())
    } else {
        let last = turns.last();
        match wire_messages(turns.drop_last()) {
            None => None,
            Some(messages) => if last.role == "system"@ {
                Some(messages)
            } else {
                match content_of(last) {
                    Some(content) => Some(messages.push(MessageView { role: last.role, content })),
                    None => None,
                }
            },
        }
    }
}

/// The system prompt: the text of the first turn of the system's role.
pub open spec fn system_prompt(turns: Seq<TurnView>) -> Option<Seq<char>>
    decreases turns.len(),
{
    if turns.len() == 0 {
        None
    } else if turns.first().role == "system"@ {
        Some(turns.first().text)
    } else {
        system_prompt(turns.drop_first())
    }
}

/// The number of tokens to ask for: what the settings give as `max_tokens`,
/// where that is a 32-bit integer, and else the default.
pub open spec fn max_tokens_of(settings: Seq<SettingView>) -> i32 {
    match setting(settings, "max_tokens"@) {
        Some(text) => match decimal_i32(text) {
            Some(n) => n,
            None => DEFAULT_MAX_TOKENS,
        },
        None => DEFAULT_MAX_TOKENS,
    }
}

/// The request for a conversation. The model is what the settings give as
/// `model`, and is left out where they give none. A conversation with an
/// image attachment whose content is no data URI has no request.
pub open spec fn request_for(turns: Seq<TurnView>, settings: Seq<SettingView>, stream: bool)
    -> Result<RequestView, AppError> {
    match wire_messages(turns) {
        Some(messages) => Ok(
            RequestView {
                model: setting(settings, "model"@),
                system: system_prompt(turns),
                max_tokens: max_tokens_of(settings),
                messages,
                stream,
            },
        ),
        None => Err(AppError::UnsupportedType),
    }
}

/// The image block for what was captured from a data URI.
pub fn image_block(parts: Option<(String, String)>) -> (block: Option<ContentBlock>)
    ensures
        block.deep_view() == block_of_parts(pair_text(parts)),
{
    match parts {
        Some((media_type, data)) => Some(ContentBlock::Image { media_type, data }),
        None => None,
    }
}

/// The media type and the payload of the data URI `content`.
pub fn split_data_uri(content: &str) -> (parts: Option<(String, String)>)
    ensures
        pair_text(parts) == data_uri_parts(content@),
{
    capture_pair(
        "data:(?P<media_type>[^;]+);base64,(?P<data>.+)",
        "media_type",
        "data",
        content,
    )
}

/// The image blocks for the image attachments among `attachments`.
pub fn build_image_blocks(attachments: &Vec<MessageAttachment>) -> (blocks: Option<
    Vec<ContentBlock>,
>)
    ensures
        blocks.deep_view() == image_blocks(attachments.deep_view()),
{
    let mut blocks: Vec<ContentBlock> = Vec::new();
    let mut i: usize = 0;
    assert(attachments.deep_view().take(0) =~= Seq::empty());
    assert(blocks.deep_view() =~= Seq::empty());
    while i < attachments.len()
        invariant
            i <= attachments@.len(),
            Some(blocks.deep_view()) == image_blocks(attachments.deep_view().take(i as int)),
        ensures
            i == attachments@.len(),
            Some(blocks.deep_view()) == image_blocks(attachments.deep_view().take(i as int)),
        decreases attachments@.len() - i,
    {
        let ghost before = blocks.deep_view();
        assert(attachments.deep_view().take(i + 1).drop_last() =~= attachments.deep_view().take(
            i as int,
        ));
        assert(attachments.deep_view().take(i + 1).last() == attachments@[i as int].deep_view());
        if attachments[i].attachment_type == AttachmentType::Image {
            match image_block(split_data_uri(attachments[i].attachment_content.as_str())) {
                Some(block) => {
                    let ghost added = block.deep_view();
                    blocks.push(block);
                    assert(blocks.deep_view() =~= before.push(added));
                },
                None => {
                    proof {
                        lemma_image_blocks_fail(attachments.deep_view(), i as int + 1);
                    }
                    return None;
                },
            }
        }
        i = i + 1;
    }
    assert(attachments.deep_view().take(i as int) =~= attachments.deep_view());
    Some(blocks)
}

/// Where the image blocks of a front part of some attachments fail, those
/// of all of them fail.
pub proof fn lemma_image_blocks_fail(attachments: Seq<AttachmentView>, n: int)
    requires
        0 <= n <= attachments.len(),
        image_blocks(attachments.take(n)) is None,
    ensures
        image_blocks(attachments) is None,
    decreases attachments.len() - n,
{
    if n < attachments.len() {
        assert(attachments.take(n + 1).drop_last() =~= attachments.take(n));
        lemma_image_blocks_fail(attachments, n + 1);
    } else {
        assert(attachments.take(n) =~= attachments);
    }
}

/// Where the messages of a front part of a conversation fail, those of the
/// whole fail.
pub proof fn lemma_wire_messages_fail(turns: Seq<TurnView>, n: int)
    requires
        0 <= n <= turns.len(),
        wire_messages(turns.take(n)) is None,
    ensures
        wire_messages(turns) is None,
    decreases turns.len() - n,
{
    if n < turns.len() {
        assert(turns.take(n + 1).drop_last() =~= turns.take(n));
        lemma_wire_messages_fail(turns, n + 1);
    } else {
        assert(turns.take(n) =~= turns);
    }
}

/// What the message for `turn` holds.
pub fn build_content(turn: &ConversationTurn) -> (content: Option<MessageContent>)
    ensures
        content.deep_view() == content_of(turn.deep_view()),
{
    match build_image_blocks(&turn.attachments) {
        Some(mut blocks) => {
            let ghost before = blocks.deep_view();
            assert(before.len() == blocks@.len());
            if blocks.len() == 0 {
                Some(MessageContent::Text(turn.text.clone()))
            } else {
                blocks.push(ContentBlock::Text { text: turn.text.clone() });
                assert(blocks.deep_view() =~= before.push(BlockView::Text { text: turn.text@ }));
                Some(MessageContent::Blocks(blocks))
            }
        },
        None => None,
    }
}

/// The messages for `turns`.
pub fn build_messages(turns: &Vec<ConversationTurn>) -> (messages: Option<Vec<WireMessage>>)
    ensures
        messages.deep_view() == wire_messages(turns.deep_view()),
{
    let mut messages: Vec<WireMessage> = Vec::new();
    let mut i: usize = 0;
    assert(turns.deep_view().take(0) =~= Seq::empty());
    assert(messages.deep_view() =~= Seq::empty());
    while i < turns.len()
        invariant
            i <= turns@.len(),
            Some(messages.deep_view()) == wire_messages(turns.deep_view().take(i as int)),
        ensures
            i == turns@.len(),
            Some(messages.deep_view()) == wire_messages(turns.deep_view().take(i as int)),
        decreases turns@.len() - i,
    {
        let ghost before = messages.deep_view();
        assert(turns.deep_view().take(i + 1).drop_last() =~= turns.deep_view().take(i as int));
        assert(turns.deep_view().take(i + 1).last() == turns@[i as int].deep_view());
        if !same_text(turns[i].role.as_str(), "system") {
            match build_content(&turns[i]) {
                Some(content) => {
                    let message = WireMessage { role: turns[i].role.clone(), content };
                    let ghost added = message.deep_view();
                    messages.push(message);
                    assert(messages.deep_view() =~= before.push(added));
                },
                None => {
                    proof {
                        lemma_wire_messages_fail(turns.deep_view(), i as int + 1);
                    }
                    return None;
                },
            }
        }
        i = i + 1;
    }
    assert(turns.deep_view().take(i as int) =~= turns.deep_view());
    Some(messages)
}

/// The system prompt of a conversation.
pub fn find_system_prompt(turns: &Vec<ConversationTurn>) -> (prompt: Option<String>)
    ensures
        prompt.deep_view() == system_prompt(turns.deep_view()),
{
    let mut i: usize = 0;
    assert(turns.deep_view().skip(0) =~= turns.deep_view());
    while i < turns.len()
        invariant
            i <= turns@.len(),
            system_prompt(turns.deep_view()) == system_prompt(turns.deep_view().skip(i as int)),
        decreases turns@.len() - i,
    {
        assert(turns.deep_view().skip(i as int).drop_first() =~= turns.deep_view().skip(i + 1));
        assert(turns.deep_view().skip(i as int).first() == turns@[i as int].deep_view());
        if same_text(turns[i].role.as_str(), "system") {
            return Some(turns[i].text.clone());
        }
        i = i + 1;
    }
    None
}

/// The number of tokens to ask for.
pub fn max_tokens(settings: &Vec<AssistantModelConfig>) -> (n: i32)
    ensures
        n == max_tokens_of(settings.deep_view()),
{
    match model_setting(settings, "max_tokens") {
        Some(text) => match parse_i32(text) {
            Some(n) => n,
            None => DEFAULT_MAX_TOKENS,
        },
        None => DEFAULT_MAX_TOKENS,
    }
}

/// Builds the request for a conversation.
pub fn build_request(
    turns: &Vec<ConversationTurn>,
    settings: &Vec<AssistantModelConfig>,
    stream: bool,
) -> (request: Result<WireRequest, AppError>)
    ensures
        match request {
            Ok(r) => Ok::<RequestView, AppError>(r.deep_view()),
            Err(e) => Err(e),
        } == request_for(turns.deep_view(), settings.deep_view(), stream),
{
    let messages = match build_messages(turns) {
        Some(messages) => messages,
        None => {
            return Err(AppError::UnsupportedType);
        },
    };
    let model = match model_setting(settings, "model") {
        Some(text) => Some(String::from_str(text)),
        None => None,
    };
    Ok(
        WireRequest {
            model,
            system: find_system_prompt(turns),
            max_tokens: max_tokens(settings),
            messages,
            stream,
        },
    )
}

/// The turns that become messages: those that are not of the system's
/// role.
pub open spec fn speaking_turns(turns: Seq<TurnView>) -> Seq<TurnView> {
    turns.filter(|turn: TurnView| turn.role != "system"@)
}

/// Whether `attachment` is an image whose content is no data URI.
pub open spec fn is_broken_image(attachment: AttachmentView) -> bool {
    attachment.attachment_type == AttachmentType::Image && data_uri_parts(
        attachment.attachment_content,
    ) is None
}

/// Image blocks fail exactly where an image is broken.
pub proof fn law_broken_image_has_no_blocks(attachments: Seq<AttachmentView>)
    ensures
        image_blocks(attachments) is None <==> exists|i: int|
            0 <= i < attachments.len() && is_broken_image(#[trigger] attachments[i]),
    decreases attachments.len(),
{
    if attachments.len() > 0 {
        let front = attachments.drop_last();
        law_broken_image_has_no_blocks(front);
        if exists|i: int| 0 <= i < front.len() && is_broken_image(#[trigger] front[i]) {
            let i = choose|i: int| 0 <= i < front.len() && is_broken_image(#[trigger] front[i]);
            assert(is_broken_image(attachments[i]));
        }
        if is_broken_image(attachments.last()) {
            assert(is_broken_image(attachments[attachments.len() - 1]));
        }
        if exists|i: int| 0 <= i < attachments.len() && is_broken_image(#[trigger] attachments[i]) {
            let i = choose|i: int|
                0 <= i < attachments.len() && is_broken_image(#[trigger] attachments[i]);
            if i < front.len() {
                assert(is_broken_image(front[i]));
            }
        }
    }
}

/// The system's turns are carried apart: a request has one message for
/// each turn that is not of the system's role, in order, with the role and
/// the content of that turn, and none for a turn of the system's role.
pub proof fn law_system_turns_are_carried_apart(turns: Seq<TurnView>)
    ensures
        wire_messages(turns) matches Some(messages) ==> {
            &&& messages.len() == speaking_turns(turns).len()
            &&& forall|i: int|
                0 <= i < messages.len() ==> {
                    &&& (#[trigger] messages[i]).role == speaking_turns(turns)[i].role
                    &&& messages[i].role != "system"@
                    &&& Some(messages[i].content) == content_of(speaking_turns(turns)[i])
                }
        },
    decreases turns.len(),
{
    reveal(Seq::filter);
    if turns.len() > 0 {
        law_system_turns_are_carried_apart(turns.drop_last());
    }
}

/// There is one image block for each image, and none for any other
/// attachment.
pub proof fn lemma_image_blocks_count(attachments: Seq<AttachmentView>)
    ensures
        image_blocks(attachments) matches Some(blocks) ==> blocks.len() == attachments.filter(
            |a: AttachmentView| a.attachment_type == AttachmentType::Image,
        ).len(),
    decreases attachments.len(),
{
    reveal(Seq::filter);
    if attachments.len() > 0 {
        lemma_image_blocks_count(attachments.drop_last());
    }
}

/// Attachments that are no images are ignored: a turn none of whose
/// attachments is an image is sent as plain text, as a turn without
/// attachments is, and nothing of its attachments is in what is sent; a
/// turn with an image is sent as blocks, the last of them its text.
pub proof fn law_other_attachments_are_ignored(turn: TurnView)
    ensures
        (forall|i: int|
            0 <= i < turn.attachments.len() ==> (#[trigger] turn.attachments[i]).attachment_type
                != AttachmentType::Image) ==> content_of(turn) == Some(
            ContentView::Text(turn.text),
        ),
        (exists|i: int|
            0 <= i < turn.attachments.len() && (#[trigger] turn.attachments[i]).attachment_type
                == AttachmentType::Image) ==> (content_of(turn) matches Some(content)
            ==> content matches ContentView::Blocks(blocks) && blocks.len() >= 2 && blocks.last()
            == (BlockView::Text { text: turn.text })),
{
    lemma_image_blocks_count(turn.attachments);
    law_broken_image_has_no_blocks(turn.attachments);
    lemma_images_among(turn.attachments);
}

/// The images among some attachments are none exactly where no attachment
/// is an image.
proof fn lemma_images_among(attachments: Seq<AttachmentView>)
    ensures
        attachments.filter(|a: AttachmentView| a.attachment_type == AttachmentType::Image).len()
            == 0 <==> forall|i: int|
            0 <= i < attachments.len() ==> (#[trigger] attachments[i]).attachment_type
                != AttachmentType::Image,
    decreases attachments.len(),
{
    reveal(Seq::filter);
    if attachments.len() > 0 {
        let front = attachments.drop_last();
        lemma_images_among(front);
        let only_others = forall|i: int|
            0 <= i < attachments.len() ==> (#[trigger] attachments[i]).attachment_type
                != AttachmentType::Image;
        if only_others {
            assert forall|i: int| 0 <= i < front.len() implies (#[trigger] front[i]).attachment_type
                != AttachmentType::Image by {
                assert(front[i] == attachments[i]);
            }
            assert(attachments[attachments.len() - 1].attachment_type != AttachmentType::Image);
        } else {
            if attachments.last().attachment_type != AttachmentType::Image {
                let i = choose|i: int|
                    0 <= i < attachments.len() && (#[trigger] attachments[i]).attachment_type
                        == AttachmentType::Image;
                assert(front[i] == attachments[i]);
            }
        }
    }
}

} // verus!
