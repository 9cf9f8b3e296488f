//! Explanation tasks: how parts of a prompt influenced a target.

use crate::prompt::Prompt;
use vstd::prelude::*;

verus! {

/// Input for an explanation request.
#[derive(Debug)]
pub struct TaskExplanation<'a> {
    /// The prompt, typically the input of an earlier completion.
    pub prompt: Prompt,
    /// The text to explain, typically the output of that completion.
    pub target: &'a str,
    /// Granularity of the explanation.
    pub granularity: Granularity,
}

/// Granularity parameters of an explanation.
#[derive(Debug)]
pub struct Granularity {
    /// Granularity of the parts of the prompt that each get a score.
    prompt: PromptGranularity,
}

impl Granularity {
    /// The granularity of the parts of the prompt that each get a score.
    pub closed spec fn prompt(&self) -> PromptGranularity {
        self.prompt
    }

    /// This granularity with the prompt granularity set to `prompt_granularity`.
    pub fn with_prompt_granularity(self, prompt_granularity: PromptGranularity) -> (r: Self)
        ensures
            r.prompt() == prompt_granularity,
    {
        Granularity { prompt: prompt_granularity }
    }

    /// The prompt granularity, for the request body.
    pub fn prompt_granularity(&self) -> (r: PromptGranularity)
        ensures
            r == self.prompt(),
    {
        self.prompt
    }
}

impl Default for Granularity {
    fn default() -> (r: Granularity)
        ensures
            r.prompt() == PromptGranularity::Auto,
    {
        Granularity { prompt: PromptGranularity::Auto }
    }
}

/// At which granularity the target is explained in terms of the prompt.
#[derive(Clone, Copy, Debug, PartialEq, Eq, Structural)]
pub enum PromptGranularity {
    /// The service picks the granularity that gives about thirty parts.
    Auto,
    Word,
    Sentence,
    Paragraph,
}

impl Default for PromptGranularity {
    fn default() -> (r: PromptGranularity)
        ensures
            r == PromptGranularity::Auto,
    {
        PromptGranularity::Auto
    }
}

impl PromptGranularity {
    /// Whether the service picks the granularity; the request then leaves it out.
    pub fn is_auto(&self) -> (r: bool)
        ensures
            r == (*self == PromptGranularity::Auto),
    {
        *self == PromptGranularity::Auto
    }
}

} // verus!
