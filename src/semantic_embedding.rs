//! Semantic embedding tasks.

use crate::prompt::Prompt;
use vstd::prelude::*;

verus! {

/// Model used for semantic embeddings where the task names none.
pub const DEFAULT_EMBEDDING_MODEL: &'static str = "luminous-base";

/// Model used for instructed embeddings where the task names none.
pub const DEFAULT_EMBEDDING_MODEL_WITH_INSTRUCTION: &'static str = "pharia-1-embedding-4608-control";

/// The semantic representation that fits a use case.
#[derive(Clone, Copy, Debug, PartialEq, Eq, Structural)]
pub enum SemanticRepresentation {
    /// For comparing prompts with each other: clustering, classification, similarity.
    Symmetric,
    /// Larger texts that queries are compared against, as in search.
    Document,
    /// Short texts, such as questions, compared against documents.
    Query,
}

/// Embedding of one prompt, for downstream tasks such as search or classification.
#[derive(Debug)]
pub struct TaskSemanticEmbedding {
    /// The prompt to embed.
    pub prompt: Prompt,
    /// The representation to embed the prompt with.
    pub representation: SemanticRepresentation,
    /// The size of a compressed embedding; `None` for the full one. 128 is supported by
    /// every model.
    pub compress_to_size: Option<u32>,
}

/// Embeddings of several prompts.
#[derive(Debug)]
pub struct TaskBatchSemanticEmbedding {
    /// The prompts to embed.
    pub prompts: Vec<Prompt>,
    /// The representation to embed the prompts with.
    pub representation: SemanticRepresentation,
    /// The size of compressed embeddings; `None` for the full ones.
    pub compress_to_size: Option<u32>,
}

/// Embedding of a prompt, steered by an instruction.
#[derive(Debug)]
pub struct TaskSemanticEmbeddingWithInstruction<'a> {
    /// The instruction; may be empty.
    pub instruction: &'a str,
    /// The prompt to embed.
    pub prompt: Prompt,
    /// Whether to return a normalized embedding.
    pub normalize: Option<bool>,
}

} // verus!
