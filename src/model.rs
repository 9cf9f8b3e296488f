//! Settings of the models that the service offers.

use vstd::prelude::*;

verus! {

/// Availability of a model.
#[derive(Clone, Copy, Debug, PartialEq, Eq, Structural)]
pub enum ModelStatus {
    /// Configured, and a matching worker serves it.
    Available,
    /// Configured, but no worker has shown recent activity to serve it.
    Unavailable,
}

/// The kind of worker that serves a model.
#[derive(Clone, Copy, Debug, PartialEq, Eq, Structural)]
pub enum WorkerType {
    Luminous,
    Vllm,
    Translation,
    Transcription,
}

/// Completion support of a model.
#[derive(Clone, Copy, Debug, PartialEq, Eq, Structural)]
pub enum CompletionType {
    /// Completion requests are rejected (`none` on the wire).
    Unsupported,
    /// The model supports completions.
    Full,
}

/// Embedding support of a model.
#[derive(Clone, Copy, Debug, PartialEq, Eq, Structural)]
pub enum EmbeddingType {
    /// Embedding requests are rejected (`none` on the wire).
    Unsupported,
    /// Raw embeddings, through the `/embed` route.
    Raw,
    /// Semantic embeddings, through the `/semantic_embed` route.
    Semantic,
    /// Instructed embeddings, through the `/instructable_embed` route.
    Instructable,
}

/// The settings of one model.
#[derive(Debug)]
pub struct ModelSettings {
    pub name: String,
    pub description: String,
    pub status: ModelStatus,
    pub embedding_type: EmbeddingType,
    /// Whether the chat route serves this model.
    pub chat: bool,
    /// Whether the model is aligned.
    pub aligned: bool,
    pub completion_type: CompletionType,
    /// A prompt template for this model.
    pub prompt_template: String,
    pub semantic_embedding: bool,
    /// The largest context the model takes, in tokens.
    pub max_context_size: u32,
    /// Whether multimodal prompts are available.
    pub multimodal: bool,
    pub worker_type: WorkerType,
}

} // verus!
