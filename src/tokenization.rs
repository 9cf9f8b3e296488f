//! Tokenization and detokenization tasks.

use vstd::prelude::*;

verus! {

/// Input for a tokenization request.
#[derive(Debug)]
pub struct TaskTokenization<'a> {
    /// The text to convert into tokens.
    pub prompt: &'a str,
    /// Whether to return text tokens.
    pub tokens: bool,
    /// Whether to return numeric token ids.
    pub token_ids: bool,
}

impl<'a> TaskTokenization<'a> {
    pub fn new(prompt: &'a str, tokens: bool, token_ids: bool) -> (r: TaskTokenization<'a>)
        ensures
            r.prompt == prompt,
            r.tokens == tokens,
            r.token_ids == token_ids,
    {
        TaskTokenization { prompt, tokens, token_ids }
    }
}

impl<'a> From<&'a str> for TaskTokenization<'a> {
    /// Asks for both text tokens and token ids.
    fn from(prompt: &'a str) -> (r: TaskTokenization<'a>) {
        TaskTokenization { prompt, tokens: true, token_ids: true }
    }
}

impl<'a> vstd::std_specs::convert::FromSpecImpl<&'a str> for TaskTokenization<'a> {
    open spec fn obeys_from_spec() -> bool {
        true
    }

    open spec fn from_spec(prompt: &'a str) -> TaskTokenization<'a> {
        TaskTokenization { prompt, tokens: true, token_ids: true }
    }
}

/// The body of a tokenization response.
#[derive(Debug)]
pub struct ResponseTokenization {
    pub tokens: Option<Vec<String>>,
    pub token_ids: Option<Vec<u32>>,
}

/// The result of a tokenization request.
#[derive(Debug)]
pub struct TokenizationOutput {
    pub tokens: Option<Vec<String>>,
    pub token_ids: Option<Vec<u32>>,
}

impl From<ResponseTokenization> for TokenizationOutput {
    fn from(response: ResponseTokenization) -> (r: TokenizationOutput) {
        TokenizationOutput { tokens: response.tokens, token_ids: response.token_ids }
    }
}

impl vstd::std_specs::convert::FromSpecImpl<ResponseTokenization> for TokenizationOutput {
    open spec fn obeys_from_spec() -> bool {
        true
    }

    open spec fn from_spec(response: ResponseTokenization) -> TokenizationOutput {
        TokenizationOutput { tokens: response.tokens, token_ids: response.token_ids }
    }
}

/// Input for a detokenization request.
#[derive(Debug)]
pub struct TaskDetokenization<'a> {
    /// The token ids to turn into text.
    pub token_ids: &'a [u32],
}

/// The body of a detokenization response.
#[derive(Debug)]
pub struct ResponseDetokenization {
    pub result: String,
}

/// The result of a detokenization request.
#[derive(Debug)]
pub struct DetokenizationOutput {
    pub result: String,
}

impl From<ResponseDetokenization> for DetokenizationOutput {
    fn from(response: ResponseDetokenization) -> (r: DetokenizationOutput) {
        DetokenizationOutput { result: response.result }
    }
}

impl vstd::std_specs::convert::FromSpecImpl<ResponseDetokenization> for DetokenizationOutput {
    open spec fn obeys_from_spec() -> bool {
        true
    }

    open spec fn from_spec(response: ResponseDetokenization) -> DetokenizationOutput {
        DetokenizationOutput { result: response.result }
    }
}

} // verus!
