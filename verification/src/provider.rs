//! The Anthropic provider: where its requests go, what they carry, how the
//! reply is read, and the models it offers.

use crate::config::{provider_setting, setting, AssistantModelConfig, LLMProviderConfig, SettingView};
use crate::decoder::{DecoderState, StreamingDecoder};
use crate::error::AppError;
use crate::json::Json;
use crate::request::{build_request, request_for, ConversationTurn, RequestView, WireRequest};
use crate::text::{trim_end_char, without_trailing};
use vstd::prelude::*;
use vstd::string::*;

verus! {

/// A model that a provider offers.
#[derive(Debug)]
pub struct LlmModel {
    pub id: i64,
    pub name: String,
    pub llm_provider_id: i64,
    pub code: String,
    pub description: String,
    pub vision_support: bool,
    pub audio_support: bool,
    pub video_support: bool,
}

/// An `LlmModel` by its characters.
#[verifier::ext_equal]
pub struct ModelView {
    pub id: i64,
    pub name: Seq<char>,
    pub llm_provider_id: i64,
    pub code: Seq<char>,
    pub description: Seq<char>,
    pub vision_support: bool,
    pub audio_support: bool,
    pub video_support: bool,
}

impl DeepView for LlmModel {
    type V = ModelView;

    open spec fn deep_view(&self) -> ModelView {
        ModelView {
            id: self.id,
            name: self.name@,
            llm_provider_id: self.llm_provider_id,
            code: self.code@,
            description: self.description@,
            vision_support: self.vision_support,
            audio_support: self.audio_support,
            video_support: self.video_support,
        }
    }
}

/// The provider's identifier among the providers.
pub const ANTHROPIC_PROVIDER_ID: i64 = 2;

/// A model of this provider: all of them read images, none audio or video.
pub open spec fn anthropic_model(name: Seq<char>, code: Seq<char>, description: Seq<char>)
    -> ModelView {
    ModelView {
        id: 0,
        name,
        llm_provider_id: ANTHROPIC_PROVIDER_ID,
        code,
        description,
        vision_support: true,
        audio_support: false,
        video_support: false,
    }
}

/// The name of the provider's line of models: as it is shown in the names
/// of its models, and as it is written in their codes.
#[derive(Debug)]
pub struct ModelFamily {
    pub name: String,
    pub code: String,
}

/// A `ModelFamily` by its characters.
#[verifier::ext_equal]
pub struct FamilyView {
    pub name: Seq<char>,
    pub code: Seq<char>,
}

impl DeepView for ModelFamily {
    type V = FamilyView;

    open spec fn deep_view(&self) -> FamilyView {
        FamilyView { name: self.name@, code: self.code@ }
    }
}

/// One entry of the provider's catalog: a model's name, the code that
/// stands for it on the wire, and what it is good for.
#[verifier::ext_equal]
pub struct EntryView {
    pub name: Seq<char>,
    pub code: Seq<char>,
    pub description: Seq<char>,
}

/// The entry for the model `model` of a line of models: its name is the
/// line's name, a space, and the model's; its code is the line's code, a
/// hyphen, and the model's tag.
pub open spec fn catalog_entry(
    family: FamilyView,
    model: Seq<char>,
    tag: Seq<char>,
    description: Seq<char>,
) -> EntryView {
    EntryView { name: family.name + " "@ + model, code: family.code + "-"@ + tag, description }
}

/// The provider's catalog: the four entries, in order.
pub open spec fn anthropic_catalog(family: FamilyView) -> Seq<EntryView> {
    seq![
        catalog_entry(
            family,
            "3 Opus"@,
            "3-opus-20240229"@,
            "Powerful model for highly complex tasks"@,
        ),
        catalog_entry(family, "3.5 Sonnet"@, "3-5-sonnet-20240620"@, "Most intelligent model"@),
        catalog_entry(
            family,
            "3 Sonnet"@,
            "3-sonnet-20240229"@,
            "Balance of intelligence and speed"@,
        ),
        catalog_entry(
            family,
            "3 Haiku"@,
            "3-haiku-20240307"@,
            "Fastest and most compact model for near-instant responsiveness"@,
        ),
    ]
}

/// The models that the provider offers: one for each entry of its catalog,
/// in order.
pub open spec fn models_of(catalog: Seq<EntryView>) -> Seq<ModelView> {
    catalog.map_values(|e: EntryView| anthropic_model(e.name, e.code, e.description))
}

/// The code of an entry holds the third character of the model's tag
/// behind the line's code, the hyphen and two characters of the tag.
proof fn lemma_code_holds_tag(
    family: FamilyView,
    model: Seq<char>,
    tag: Seq<char>,
    description: Seq<char>,
)
    requires
        tag.len() > 2,
    ensures
        catalog_entry(family, model, tag, description).code.len() == family.code.len() + 1
            + tag.len(),
        catalog_entry(family, model, tag, description).code[family.code.len() as int + 3] == tag[2],
{
    reveal_strlit("-");
}

/// The catalog is fixed: whatever the line of models is called, the
/// provider offers four models, in one order; their codes differ from one
/// another, each has a description, each reads images and neither audio nor
/// video, and each has the provider's identifier and no identifier of its
/// own.
pub proof fn law_catalog_is_fixed(family: FamilyView)
    ensures
        models_of(anthropic_catalog(family)).len() == 4,
        forall|i: int, j: int|
            0 <= i < j < 4 ==> (#[trigger] models_of(anthropic_catalog(family))[i]).code != (
            #[trigger] models_of(anthropic_catalog(family))[j]).code,
        forall|i: int|
            0 <= i < 4 ==> {
                let model = #[trigger] models_of(anthropic_catalog(family))[i];
                &&& model.description.len() > 0
                &&& model.id == 0
                &&& model.llm_provider_id == ANTHROPIC_PROVIDER_ID
                &&& model.vision_support
                &&& !model.audio_support
                &&& !model.video_support
            },
{
    reveal_strlit("3-opus-20240229");
    reveal_strlit("3-5-sonnet-20240620");
    reveal_strlit("3-sonnet-20240229");
    reveal_strlit("3-haiku-20240307");
    reveal_strlit("Powerful model for highly complex tasks");
    reveal_strlit("Most intelligent model");
    reveal_strlit("Balance of intelligence and speed");
    reveal_strlit("Fastest and most compact model for near-instant responsiveness");
    lemma_code_holds_tag(
        family,
        "3 Opus"@,
        "3-opus-20240229"@,
        "Powerful model for highly complex tasks"@,
    );
    lemma_code_holds_tag(family, "3.5 Sonnet"@, "3-5-sonnet-20240620"@, "Most intelligent model"@);
    lemma_code_holds_tag(
        family,
        "3 Sonnet"@,
        "3-sonnet-20240229"@,
        "Balance of intelligence and speed"@,
    );
    lemma_code_holds_tag(
        family,
        "3 Haiku"@,
        "3-haiku-20240307"@,
        "Fastest and most compact model for near-instant responsiveness"@,
    );
    let models = models_of(anthropic_catalog(family));
    let at = family.code.len() as int + 3;
    assert(models[0].code[at] == 'o');
    assert(models[1].code[at] == '5');
    assert(models[2].code[at] == 's');
    assert(models[3].code[at] == 'h');
}

/// Where requests go: the endpoint that the settings give, or the
/// provider's own where they give none, without the slashes it ends with,
/// and then the path of the messages interface.
pub open spec fn messages_url_of(settings: Seq<SettingView>) -> Seq<char> {
    let endpoint = match setting(settings, "endpoint"@) {
        Some(endpoint) => endpoint,
        None => "https://api.anthropic.com"@,
    };
    without_trailing(endpoint, '/') + "/v1/messages"@
}

/// The text of a complete reply: the text of the first block of its
/// content, where the reply has one and it is a string.
pub open spec fn reply_text_of(body: Json) -> Option<Seq<char>> {
    match body.member("content"@) {
        Some(content) => match content.item(0) {
            Some(block) => match block.member("text"@) {
                Some(text) => text.text(),
                None => None,
            },
            None => None,
        },
        None => None,
    }
}

/// What became of a request for a complete reply.
#[derive(Debug)]
pub enum Exchange {
    /// The caller asked to stop before the reply was there.
    Cancelled,
    /// The request could not be sent, or the response could not be read.
    Failed,
    /// The body of the response.
    Replied(Json),
}

/// What became of sending a request for a streamed reply.
#[derive(Debug, Clone, Copy, PartialEq, Eq, Structural)]
pub enum Sending {
    /// The caller asked to stop before the request was answered.
    Cancelled,
    /// The request could not be sent.
    Failed,
    /// The response has begun.
    Answered,
}

/// What a chat returns for an exchange: the reply's text; or why there is
/// none.
pub open spec fn chat_result_of(exchange: Exchange) -> Result<Seq<char>, AppError> {
    match exchange {
        Exchange::Cancelled => Err(AppError::Cancelled),
        Exchange::Failed => Err(AppError::Transport),
        Exchange::Replied(body) => match reply_text_of(body) {
            Some(text) => Ok(text),
            None => Err(AppError::MissingContent),
        },
    }
}

/// The text of a complete reply.
pub fn reply_text(body: &Json) -> (text: Option<&str>)
    ensures
        text.deep_view() == reply_text_of(*body),
{
    match body.get("content") {
        Some(content) => match content.at(0) {
            Some(block) => match block.get("text") {
                Some(text) => text.as_str(),
                None => None,
            },
            None => None,
        },
        None => None,
    }
}

/// The Anthropic provider, as it was set up.
#[derive(Debug)]
pub struct AnthropicProvider {
    llm_provider_config: Vec<LLMProviderConfig>,
}

impl View for AnthropicProvider {
    type V = Seq<SettingView>;

    closed spec fn view(&self) -> Seq<SettingView> {
        self.llm_provider_config.deep_view()
    }
}

fn entry(family: &ModelFamily, model: &str, tag: &str, description: &str) -> (made: LlmModel)
    ensures
        made.deep_view() == anthropic_model(
            catalog_entry(family.deep_view(), model@, tag@, description@).name,
            catalog_entry(family.deep_view(), model@, tag@, description@).code,
            description@,
        ),
{
    LlmModel {
        id: 0,
        name: family.name.clone().concat(" ").concat(model),
        llm_provider_id: ANTHROPIC_PROVIDER_ID,
        code: family.code.clone().concat("-").concat(tag),
        description: String::from_str(description),
        vision_support: true,
        audio_support: false,
        video_support: false,
    }
}

impl AnthropicProvider {
    /// The provider with the settings `llm_provider_config`.
    pub fn new(llm_provider_config: Vec<LLMProviderConfig>) -> (provider: AnthropicProvider)
        ensures
            provider@ == llm_provider_config.deep_view(),
    {
        AnthropicProvider { llm_provider_config }
    }

    /// Where requests go.
    pub fn messages_url(&self) -> (url: String)
        ensures
            url@ == messages_url_of(self@),
    {
        let endpoint = match provider_setting(&self.llm_provider_config, "endpoint") {
            Some(endpoint) => endpoint,
            None => "https://api.anthropic.com",
        };
        String::from_str(trim_end_char(endpoint, '/')).concat("/v1/messages")
    }

    /// The credential that requests carry, where the settings give one.
    pub fn api_key(&self) -> (key: Option<String>)
        ensures
            key.deep_view() == setting(self@, "api_key"@),
    {
        match provider_setting(&self.llm_provider_config, "api_key") {
            Some(key) => Some(String::from_str(key)),
            None => None,
        }
    }

    /// The request for a complete reply to a conversation.
    pub fn chat_request(
        &self,
        messages: &Vec<ConversationTurn>,
        model_config: &Vec<AssistantModelConfig>,
    ) -> (request: Result<WireRequest, AppError>)
        ensures
            match request {
                Ok(r) => Ok::<RequestView, AppError>(r.deep_view()),
                Err(e) => Err(e),
            } == request_for(messages.deep_view(), model_config.deep_view(), false),
    {
        build_request(messages, model_config, false)
    }

    /// The request for a streamed reply to a conversation.
    pub fn chat_stream_request(
        &self,
        messages: &Vec<ConversationTurn>,
        model_config: &Vec<AssistantModelConfig>,
    ) -> (request: Result<WireRequest, AppError>)
        ensures
            match request {
                Ok(r) => Ok::<RequestView, AppError>(r.deep_view()),
                Err(e) => Err(e),
            } == request_for(messages.deep_view(), model_config.deep_view(), true),
    {
        build_request(messages, model_config, true)
    }

    /// What a chat returns for an exchange.
    pub fn chat(&self, exchange: &Exchange) -> (reply: Result<String, AppError>)
        ensures
            match reply {
                Ok(text) => Ok::<Seq<char>, AppError>(text@),
                Err(e) => Err(e),
            } == chat_result_of(*exchange),
    {
        match exchange {
            Exchange::Cancelled => Err(AppError::Cancelled),
            Exchange::Failed => Err(AppError::Transport),
            Exchange::Replied(body) => match reply_text(body) {
                Some(text) => Ok(String::from_str(text)),
                None => Err(AppError::MissingContent),
            },
        }
    }

    /// The decoder for the streamed reply to message `message_id`, once
    /// the request was answered. A request that was cancelled while it was
    /// being sent, or that could not be sent, has no stream, and so no
    /// update: the chat fails.
    pub fn chat_stream(&self, message_id: i64, sending: Sending) -> (stream: Result<
        StreamingDecoder,
        AppError,
    >)
        ensures
            match stream {
                Ok(decoder) => sending == Sending::Answered && decoder@ == DecoderState::start(
                    message_id,
                ),
                Err(e) => match sending {
                    Sending::Cancelled => e == AppError::Cancelled,
                    Sending::Failed => e == AppError::Transport,
                    Sending::Answered => false,
                },
            },
    {
        match sending {
            Sending::Cancelled => Err(AppError::Cancelled),
            Sending::Failed => Err(AppError::Transport),
            Sending::Answered => Ok(StreamingDecoder::new(message_id)),
        }
    }

    /// The models that the provider offers. It has no interface to ask
    /// for them: they are the four of its catalog, named after the line of
    /// models `family`.
    pub fn models(&self, family: &ModelFamily) -> (models: Vec<LlmModel>)
        ensures
            models.deep_view() == models_of(anthropic_catalog(family.deep_view())),
    {
        let mut models: Vec<LlmModel> = Vec::new();
        models.push(entry(family, "3 Opus", "3-opus-20240229", "Powerful model for highly complex tasks"));
        models.push(entry(family, "3.5 Sonnet", "3-5-sonnet-20240620", "Most intelligent model"));
        models.push(entry(family, "3 Sonnet", "3-sonnet-20240229", "Balance of intelligence and speed"));
        models.push(
            entry(
                family,
                "3 Haiku",
                "3-haiku-20240307",
                "Fastest and most compact model for near-instant responsiveness",
            ),
        );
        assert(models.deep_view() =~= models_of(anthropic_catalog(family.deep_view())));
        models
    }
}

} // verus!
