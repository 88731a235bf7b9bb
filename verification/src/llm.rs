//! Messages exchanged with a language model.

use crate::text::{view_opt, view_opt_str};
use vstd::prelude::*;

verus! {

/// Who speaks in a conversation.
#[derive(Debug, Clone, Copy, PartialEq, Eq, Structural)]
pub enum Role {
    System,
    User,
    Assistant,
    Tool,
}

/// The address of an image.
#[derive(Debug, Clone, PartialEq, Eq)]
pub struct ImageUrl {
    pub url: String,
    /// The detail asked for: `auto`, `low` or `high`.
    pub detail: Option<String>,
}

/// One part of a message made of several.
#[derive(Debug, Clone, PartialEq, Eq)]
pub enum ContentPart {
    Text { text: String },
    ImageUrl { image_url: ImageUrl },
}

/// The mathematical value of a content part.
pub enum ContentPartView {
    Text { text: Seq<char> },
    ImageUrl { url: Seq<char>, detail: Option<Seq<char>> },
}

impl View for ContentPart {
    type V = ContentPartView;

    open spec fn view(&self) -> ContentPartView {
        match self {
            ContentPart::Text { text } => ContentPartView::Text { text: text@ },
            ContentPart::ImageUrl { image_url } => ContentPartView::ImageUrl {
                url: image_url.url@,
                detail: view_opt(image_url.detail),
            },
        }
    }
}

impl ContentPart {
    /// A part of text.
    pub fn text(text: &str) -> (r: Self)
        ensures
            r@ == (ContentPartView::Text { text: text@ }),
    {
        ContentPart::Text { text: text.to_owned() }
    }

    /// A part with an image, no detail asked for.
    pub fn image_url(url: &str) -> (r: Self)
        ensures
            r@ == (ContentPartView::ImageUrl { url: url@, detail: None }),
    {
        ContentPart::ImageUrl { image_url: ImageUrl { url: url.to_owned(), detail: None } }
    }

    /// A part with an image and the detail asked for.
    pub fn image_url_with_detail(url: &str, detail: &str) -> (r: Self)
        ensures
            r@ == (ContentPartView::ImageUrl { url: url@, detail: Some(detail@) }),
    {
        ContentPart::ImageUrl {
            image_url: ImageUrl { url: url.to_owned(), detail: Some(detail.to_owned()) },
        }
    }
}

/// The views of a list of parts.
pub open spec fn view_parts(parts: Seq<ContentPart>) -> Seq<ContentPartView> {
    Seq::new(parts.len(), |i: int| parts[i]@)
}

/// The content of a message: plain text, or parts.
#[derive(Debug, Clone, PartialEq, Eq)]
pub enum MessageContent {
    Text(String),
    Parts(Vec<ContentPart>),
}

/// The mathematical value of a content.
pub enum MessageContentView {
    Text(Seq<char>),
    Parts(Seq<ContentPartView>),
}

impl View for MessageContent {
    type V = MessageContentView;

    open spec fn view(&self) -> MessageContentView {
        match self {
            MessageContent::Text(s) => MessageContentView::Text(s@),
            MessageContent::Parts(parts) => MessageContentView::Parts(view_parts(parts@)),
        }
    }
}

/// The text of the first part of text.
pub open spec fn first_text(parts: Seq<ContentPartView>) -> Option<Seq<char>>
    decreases parts.len(),
{
    if parts.len() == 0 {
        None
    } else {
        match parts[0] {
            ContentPartView::Text { text } => Some(text),
            _ => first_text(parts.drop_first()),
        }
    }
}

/// The text of a content: itself, or that of its first part of text.
pub open spec fn text_of(content: MessageContentView) -> Option<Seq<char>> {
    match content {
        MessageContentView::Text(s) => Some(s),
        MessageContentView::Parts(parts) => first_text(parts),
    }
}

impl MessageContent {
    /// Plain text.
    pub fn text(text: &str) -> (r: Self)
        ensures
            r@ == MessageContentView::Text(text@),
    {
        MessageContent::Text(text.to_owned())
    }

    /// A content of parts.
    pub fn multimodal(parts: Vec<ContentPart>) -> (r: Self)
        ensures
            r@ == MessageContentView::Parts(view_parts(parts@)),
    {
        MessageContent::Parts(parts)
    }

    /// A text and one image.
    pub fn text_and_image(text: &str, image_url: &str) -> (r: Self)
        ensures
            r@ == MessageContentView::Parts(
                seq![
                    ContentPartView::Text { text: text@ },
                    ContentPartView::ImageUrl { url: image_url@, detail: None },
                ],
            ),
    {
        let mut parts: Vec<ContentPart> = Vec::new();
        parts.push(ContentPart::text(text));
        parts.push(ContentPart::image_url(image_url));
        assert(view_parts(parts@) =~= seq![
            ContentPartView::Text { text: text@ },
            ContentPartView::ImageUrl { url: image_url@, detail: None },
        ]);
        MessageContent::Parts(parts)
    }

    /// The text of the content: the first part of text where it is made of
    /// parts.
    pub fn as_text(&self) -> (r: Option<&str>)
        ensures
            view_opt_str(r) == text_of(self@),
    {
        match self {
            MessageContent::Text(s) => Some(s.as_str()),
            MessageContent::Parts(parts) => {
                let mut i: usize = 0;
                assert(view_parts(parts@).skip(0) == view_parts(parts@));
                while i < parts.len()
                    invariant
                        i <= parts.len(),
                        self@ == MessageContentView::Parts(view_parts(parts@)),
                        first_text(view_parts(parts@)) == first_text(
                            view_parts(parts@).skip(i as int),
                        ),
                    decreases parts.len() - i,
                {
                    assert(view_parts(parts@).skip(i as int)[0] == parts@[i as int]@);
                    assert(view_parts(parts@).skip(i as int).drop_first() == view_parts(
                        parts@,
                    ).skip(i + 1));
                    match &parts[i] {
                        ContentPart::Text { text } => {
                            return Some(text.as_str());
                        },
                        _ => {},
                    }
                    i = i + 1;
                }
                None
            },
        }
    }
}

/// A block of reasoning of a model that thinks before it answers.
#[derive(Debug, Clone, PartialEq, Eq)]
pub struct ReasoningContent {
    /// The reasoning; it may be left out or blacked out.
    pub content: Option<String>,
    /// The signature with which the model takes up its thought again.
    pub thought_signature: Option<String>,
    /// The kind of block, as a rule `thinking`.
    pub reasoning_type: Option<String>,
}

impl ReasoningContent {
    /// Whether the block must be sent back with the next request: it has a
    /// signature.
    pub fn needs_preservation(&self) -> (r: bool)
        ensures
            r == self.thought_signature is Some,
    {
        self.thought_signature.is_some()
    }
}

/// The call of a function.
#[derive(Debug, Clone, PartialEq, Eq)]
pub struct FunctionCall {
    pub name: String,
    /// The arguments, as JSON text; empty for a function without arguments.
    pub arguments: String,
}

/// A tool call asked for by the model.
#[derive(Debug, Clone, PartialEq, Eq)]
pub struct ToolCall {
    pub id: String,
    pub call_type: String,
    pub function: FunctionCall,
}

/// One message of a conversation.
#[derive(Debug, Clone, PartialEq, Eq)]
pub struct ChatMessage {
    pub role: Role,
    pub content: Option<MessageContent>,
    pub tool_calls: Option<Vec<ToolCall>>,
    pub tool_call_id: Option<String>,
    /// The reasoning of the model, kept to be sent back.
    pub reasoning: Option<Vec<ReasoningContent>>,
}

/// One of the blocks has a signature.
pub open spec fn any_signed(blocks: Seq<ReasoningContent>) -> bool {
    exists|i: int| 0 <= i < blocks.len() && (#[trigger] blocks[i]).thought_signature is Some
}

impl ChatMessage {
    /// A message of plain text.
    pub fn new(role: Role, content: &str) -> (r: Self)
        ensures
            r.role == role,
            r.content matches Some(c) && c@ == MessageContentView::Text(content@),
            r.tool_calls is None,
            r.tool_call_id is None,
            r.reasoning is None,
    {
        ChatMessage {
            role,
            content: Some(MessageContent::text(content)),
            tool_calls: None,
            tool_call_id: None,
            reasoning: None,
        }
    }

    /// A message of a text and an image.
    pub fn with_image(role: Role, text: &str, image_url: &str) -> (r: Self)
        ensures
            r.role == role,
            r.content matches Some(c) && c@ == MessageContentView::Parts(
                seq![
                    ContentPartView::Text { text: text@ },
                    ContentPartView::ImageUrl { url: image_url@, detail: None },
                ],
            ),
            r.tool_calls is None,
            r.tool_call_id is None,
            r.reasoning is None,
    {
        ChatMessage {
            role,
            content: Some(MessageContent::text_and_image(text, image_url)),
            tool_calls: None,
            tool_call_id: None,
            reasoning: None,
        }
    }

    /// The text of the message, if it has one.
    pub fn text_content(&self) -> (r: Option<&str>)
        ensures
            view_opt_str(r) == (match self.content {
                Some(c) => text_of(c@),
                None => None,
            }),
    {
        match &self.content {
            Some(c) => c.as_text(),
            None => None,
        }
    }

    /// The message with blocks of reasoning attached; an empty list leaves
    /// the message as it is.
    pub fn with_reasoning(self, reasoning: Vec<ReasoningContent>) -> (r: Self)
        ensures
            r.role == self.role,
            r.content == self.content,
            r.tool_calls == self.tool_calls,
            r.tool_call_id == self.tool_call_id,
            reasoning@.len() > 0 ==> r.reasoning == Some(reasoning),
            reasoning@.len() == 0 ==> r.reasoning == self.reasoning,
    {
        let mut m = self;
        if reasoning.len() > 0 {
            m.reasoning = Some(reasoning);
        }
        m
    }

    /// Whether the message holds reasoning that must be sent back.
    pub fn has_reasoning(&self) -> (r: bool)
        ensures
            r == (self.reasoning matches Some(blocks) && any_signed(blocks@)),
    {
        match &self.reasoning {
            None => false,
            Some(blocks) => {
                let mut i: usize = 0;
                while i < blocks.len()
                    invariant
                        i <= blocks.len(),
                        self.reasoning == Some(*blocks),
                        forall|j: int|
                            0 <= j < i ==> !((#[trigger] blocks@[j]).thought_signature is Some),
                    decreases blocks.len() - i,
                {
                    if blocks[i].needs_preservation() {
                        return true;
                    }
                    i = i + 1;
                }
                false
            },
        }
    }
}

/// How many tokens a request took.
#[derive(Debug, Clone, Copy, PartialEq, Eq)]
pub struct TokenUsage {
    pub prompt_tokens: u64,
    pub completion_tokens: u64,
    pub total_tokens: u64,
}

impl TokenUsage {
    /// A usage whose total is the sum of its parts, or the greatest number
    /// where the sum does not fit.
    pub fn new(prompt_tokens: u64, completion_tokens: u64) -> (r: Self)
        ensures
            r.prompt_tokens == prompt_tokens,
            r.completion_tokens == completion_tokens,
            r.total_tokens == (if prompt_tokens + completion_tokens > u64::MAX {
                u64::MAX
            } else {
                (prompt_tokens + completion_tokens) as u64
            }),
    {
        let total = if prompt_tokens > u64::MAX - completion_tokens {
            u64::MAX
        } else {
            prompt_tokens + completion_tokens
        };
        TokenUsage { prompt_tokens, completion_tokens, total_tokens: total }
    }
}

/// The answer of a model.
#[derive(Debug, Clone, PartialEq, Eq)]
pub struct ChatResponse {
    pub content: Option<String>,
    pub tool_calls: Option<Vec<ToolCall>>,
    pub finish_reason: Option<String>,
    pub usage: Option<TokenUsage>,
    pub model: Option<String>,
    pub reasoning: Option<Vec<ReasoningContent>>,
}

} // verus!
