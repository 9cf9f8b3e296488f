//! Client library for a remote inference service.
//!
//! The heart of the library is the streaming pipeline: a response body arrives as byte
//! chunks that need not line up with server-sent events; [`sse::SseStream`] reassembles
//! the frames, [`stream::StreamDriver`] extracts their payloads and stops at the end
//! marker, and a [`stream::StreamTask`] maps each decoded record into at most one
//! event for the caller. Around it stand the tasks, their outputs, and the
//! classification of errors.

pub mod authentication;
pub mod chat;
pub mod completion;
pub mod error;
pub mod explanation;
pub mod how;
pub mod http;
pub mod image_preprocessing;
pub mod logprobs;
pub mod model;
pub mod prompt;
pub mod semantic_embedding;
pub mod sse;
pub mod stream;
pub mod tokenization;
pub mod tracing;

pub use self::{
    authentication::Authentication,
    chat::{
        chat_output, ChatEvent, ChatOutput, ChatResponse, ChatStream, DeserializedChatChunk,
        LogprobContent, Message, ResponseChoice, StreamChatResponse, StreamMessage, Usage,
    },
    completion::{
        completion_logprobs_to_canonical, completion_output, CompletionEvent, CompletionOutput,
        CompletionStream, DeserializedCompletion, DeserializedCompletionEvent, ResponseCompletion,
        Stopping,
    },
    error::{translate_http_error, Error},
    explanation::{Granularity, PromptGranularity, TaskExplanation},
    how::How,
    http::{tokenizer_outcome, MethodJob},
    logprobs::{Distribution, Logprob, Logprobs},
    model::{CompletionType, EmbeddingType, ModelSettings, ModelStatus, WorkerType},
    prompt::{Modality, Prompt},
    semantic_embedding::{
        SemanticRepresentation, TaskBatchSemanticEmbedding, TaskSemanticEmbedding,
        TaskSemanticEmbeddingWithInstruction,
    },
    sse::SseStream,
    stream::{stream_item, StreamDriver, StreamTask},
    tokenization::{
        DetokenizationOutput, ResponseDetokenization, ResponseTokenization, TaskDetokenization,
        TaskTokenization, TokenizationOutput,
    },
    tracing::TraceContext,
};
