//! Chat: messages, the non-streaming output, and the mapping of streamed chat
//! records into events.

use crate::logprobs::Distribution;
use crate::stream::StreamTask;
use vstd::prelude::*;

verus! {

/// One message of a conversation.
#[derive(Debug, PartialEq, Eq)]
pub struct Message {
    pub role: String,
    pub content: String,
}

impl Message {
    /// A message with the given role and content.
    pub fn new(role: &str, content: &str) -> (m: Message)
        ensures
            m.role@ == role@,
            m.content@ == content@,
    {
        Message { role: String::from_str(role), content: String::from_str(content) }
    }

    /// A message of the user.
    pub fn user(content: &str) -> (m: Message)
        ensures
            m.role@ == "user"@,
            m.content@ == content@,
    {
        Message::new("user", content)
    }

    /// A message of the assistant.
    pub fn assistant(content: &str) -> (m: Message)
        ensures
            m.role@ == "assistant"@,
            m.content@ == content@,
    {
        Message::new("assistant", content)
    }

    /// A system message.
    pub fn system(content: &str) -> (m: Message)
        ensures
            m.role@ == "system"@,
            m.content@ == content@,
    {
        Message::new("system", content)
    }
}

/// Token counts of a request.
#[derive(Clone, Copy, Debug, PartialEq, Eq, Structural)]
pub struct Usage {
    pub prompt_tokens: u32,
    pub completion_tokens: u32,
}

/// The answer of a chat request.
#[derive(Debug)]
pub struct ChatOutput {
    pub message: Message,
    pub finish_reason: String,
    /// The logprobs of the sampled and top tokens, where the task asked for them.
    pub logprobs: Vec<Distribution>,
    pub usage: Usage,
}

impl ChatOutput {
    pub fn new(
        message: Message,
        finish_reason: String,
        logprobs: Vec<Distribution>,
        usage: Usage,
    ) -> (r: ChatOutput)
        ensures
            r == (ChatOutput { message, finish_reason, logprobs, usage }),
    {
        ChatOutput { message, finish_reason, logprobs, usage }
    }
}

/// One choice of a chat response.
#[derive(Debug)]
pub struct ResponseChoice {
    pub message: Message,
    pub finish_reason: String,
    pub logprobs: Option<LogprobContent>,
}

/// Logprobs of the tokens of a choice.
#[derive(Debug)]
pub struct LogprobContent {
    pub content: Vec<Distribution>,
}

/// The body of a chat response.
#[derive(Debug)]
pub struct ChatResponse {
    pub choices: Vec<ResponseChoice>,
    pub usage: Usage,
}

/// The logprobs that a choice carries; none where it carries no logprob content.
pub open spec fn content_of(logprobs: Option<LogprobContent>) -> Seq<Distribution> {
    match logprobs {
        Some(c) => c.content@,
        None => Seq::empty(),
    }
}

/// The logprobs of a choice, empty where it carries none.
fn content_or_empty(logprobs: Option<LogprobContent>) -> (r: Vec<Distribution>)
    ensures
        r@ == content_of(logprobs),
{
    match logprobs {
        Some(c) => c.content,
        None => Vec::new(),
    }
}

/// The output of a chat response: its first choice, with the usage of the request.
pub fn chat_output(response: ChatResponse) -> (r: ChatOutput)
    requires
        response.choices@.len() > 0,
    ensures
        r.message == response.choices@[0].message,
        r.finish_reason == response.choices@[0].finish_reason,
        r.logprobs@ == content_of(response.choices@[0].logprobs),
        r.usage == response.usage,
{
    let mut choices = response.choices;
    let ResponseChoice { message, finish_reason, logprobs } = choices.remove(0);
    ChatOutput::new(message, finish_reason, content_or_empty(logprobs), response.usage)
}

/// The delta of a streamed chat chunk.
#[derive(Debug)]
pub struct StreamMessage {
    /// The role; present on the first chunk of a message only.
    pub role: Option<String>,
    /// The content; empty on the first chunk of a message.
    pub content: String,
}

/// One choice of a streamed chat chunk.
#[derive(Debug)]
pub enum DeserializedChatChunk {
    Delta {
        /// Chat completion chunk generated by the model.
        delta: StreamMessage,
        logprobs: Option<LogprobContent>,
    },
    /// The last chunk of a message.
    Finished {
        /// The reason the model stopped generating tokens.
        finish_reason: String,
    },
}

/// A record of a chat stream: either the usage of the request, or one choice.
#[derive(Debug)]
pub struct StreamChatResponse {
    pub choices: Vec<DeserializedChatChunk>,
    pub usage: Option<Usage>,
}

/// Events of a chat stream.
#[derive(Debug)]
pub enum ChatEvent {
    /// A message starts; the chunk announced its role.
    MessageStart { role: String },
    /// Content of the message.
    MessageDelta {
        content: String,
        /// Logprobs of the content's tokens, where the task asked for them.
        logprobs: Vec<Distribution>,
    },
    /// The message ends.
    MessageEnd { stop_reason: String },
    /// Token counts of the whole request.
    Summary { usage: Usage },
}

/// Maps chat stream records into [`ChatEvent`]s.
#[derive(Debug)]
pub struct ChatStream;

/// Whether `event` is what a chat record gives; `None` where it gives nothing.
///
/// A chunk that announces a role starts a message, whatever content it carries.
pub open spec fn chat_event_of(response: StreamChatResponse, event: Option<ChatEvent>) -> bool {
    match response.usage {
        Some(usage) => event == Some(ChatEvent::Summary { usage }),
        None => if response.choices@.len() == 0 {
            event is None
        } else {
            match response.choices@.last() {
                DeserializedChatChunk::Delta { delta, logprobs } => match delta.role {
                    Some(role) => event == Some(ChatEvent::MessageStart { role }),
                    None => event matches Some(ChatEvent::MessageDelta { content: c, logprobs: l })
                        && c == delta.content && l@ == content_of(logprobs),
                },
                DeserializedChatChunk::Finished { finish_reason } => event == Some(
                    ChatEvent::MessageEnd { stop_reason: finish_reason },
                ),
            }
        },
    }
}

impl StreamTask for ChatStream {
    type Output = ChatEvent;

    type ResponseBody = StreamChatResponse;

    open spec fn gives_event(&self, response: StreamChatResponse) -> bool {
        response.usage is Some || response.choices@.len() > 0
    }

    open spec fn is_event_for(&self, response: StreamChatResponse, event: ChatEvent) -> bool {
        chat_event_of(response, Some(event))
    }

    fn body_to_output(&self, response: StreamChatResponse) -> (r: Option<ChatEvent>) {
        let StreamChatResponse { mut choices, usage } = response;
        if let Some(usage) = usage {
            return Some(ChatEvent::Summary { usage });
        }
        // The service sends exactly one choice per chunk; the last is the one that counts.
        match choices.pop() {
            None => None,
            Some(DeserializedChatChunk::Delta { delta, logprobs }) => match delta.role {
                Some(role) => Some(ChatEvent::MessageStart { role }),
                None => Some(
                    ChatEvent::MessageDelta {
                        content: delta.content,
                        logprobs: content_or_empty(logprobs),
                    },
                ),
            },
            Some(DeserializedChatChunk::Finished { finish_reason }) => Some(
                ChatEvent::MessageEnd { stop_reason: finish_reason },
            ),
        }
    }
}

} // verus!
