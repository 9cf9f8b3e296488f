//! Pieces of the HTTP exchange that are decided by the library: jobs, and the outcome
//! of reading a tokenizer description.

use crate::error::Error;
use vstd::prelude::*;

verus! {

#[verifier::external_type_specification]
#[verifier::external_body]
pub struct ExTokenizer(tokenizers::Tokenizer);

/// A task together with the model it is to be executed with.
#[derive(Debug)]
pub struct MethodJob<'a, T> {
    /// Name of the model, e.g. "luminous-base".
    pub model: &'a str,
    /// The task to execute.
    pub task: &'a T,
}

impl<'a, T> MethodJob<'a, T> {
    /// The task `task`, to be executed with `model`.
    pub fn new(task: &'a T, model: &'a str) -> (r: MethodJob<'a, T>)
        ensures
            r.model == model,
            r.task == task,
    {
        MethodJob { model, task }
    }
}

/// The outcome of reading a tokenizer description (`read`, the tokenizer or the text of
/// the reader's error): the tokenizer, or an [`Error::InvalidTokenizer`] that keeps the
/// cause.
pub fn tokenizer_outcome(read: Result<tokenizers::Tokenizer, String>) -> (r: Result<
    tokenizers::Tokenizer,
    Error,
>)
    ensures
        read matches Ok(t) ==> r == Ok::<tokenizers::Tokenizer, Error>(t),
        read matches Err(cause) ==> r == Err::<tokenizers::Tokenizer, Error>(
            Error::InvalidTokenizer { deserialization_error: cause },
        ),
{
    match read {
        Ok(tokenizer) => Ok(tokenizer),
        Err(cause) => Err(Error::InvalidTokenizer { deserialization_error: cause }),
    }
}

} // verus!
