//! Log-probabilities of tokens, as requested from and returned by the service.

use vstd::prelude::*;

verus! {

/// Which log-probabilities the caller wants returned.
#[derive(Clone, Copy, Debug, PartialEq, Eq, Structural)]
pub enum Logprobs {
    /// Do not return any logprobs.
    No,
    /// Return only the logprob of the tokens which have actually been sampled.
    Sampled,
    /// Return the sampled token and the given number of most likely tokens (0 to 20).
    Top(u8),
}

impl Logprobs {
    /// Value of the chat request's `logprobs` parameter.
    pub fn logprobs(self) -> (r: bool)
        ensures
            r == !(self is No),
    {
        match self {
            Logprobs::No => false,
            Logprobs::Sampled | Logprobs::Top(_) => true,
        }
    }

    /// Value of the chat request's `top_logprobs` parameter.
    pub fn top_logprobs(self) -> (r: Option<u8>)
        ensures
            r == (match self {
                Logprobs::Top(n) => Some(n),
                _ => None::<u8>,
            }),
    {
        match self {
            Logprobs::No | Logprobs::Sampled => None,
            Logprobs::Top(n) => Some(n),
        }
    }

    /// Value of the completion request's `log_probs` parameter.
    pub fn to_logprobs_num(self) -> (r: Option<u8>)
        ensures
            r == (match self {
                Logprobs::No => None::<u8>,
                Logprobs::Sampled => Some(0u8),
                Logprobs::Top(n) => Some(n),
            }),
    {
        match self {
            Logprobs::No => None,
            Logprobs::Sampled => Some(0),
            Logprobs::Top(n) => Some(n),
        }
    }

    /// Whether the completion request asks for the completion tokens.
    pub fn to_tokens(self) -> (r: bool)
        ensures
            r == !(self is No),
    {
        match self {
            Logprobs::No => false,
            Logprobs::Sampled | Logprobs::Top(_) => true,
        }
    }
}

/// Logarithmic probability of one token.
///
/// The probability is kept as the bit pattern of the IEEE 754 double the service sent
/// (`f64::to_bits`), so that the library can order probabilities exactly.
#[derive(Debug)]
pub struct Logprob {
    /// Binary representation of the token, usually UTF-8.
    pub token: Vec<u8>,
    /// Bit pattern of the natural logarithm of the token's probability.
    pub logprob_bits: u64,
}

#[verifier::external_type_specification]
#[verifier::external_body]
pub struct ExUtf8Error(core::str::Utf8Error);

/// Relies on `std::str::from_utf8`: the bytes as text where they are valid UTF-8, an error
/// otherwise.
#[verifier::external_body]
fn str_from_utf8(b: &[u8]) -> (r: Result<&str, core::str::Utf8Error>)
    ensures
        r is Ok <==> vstd::utf8::valid_utf8(b@),
        r matches Ok(s) ==> s@ == vstd::utf8::decode_utf8(b@),
{
    core::str::from_utf8(b)
}

impl Logprob {
    /// The token as text, where its bytes are valid UTF-8.
    pub fn token_as_str(&self) -> (r: Result<&str, core::str::Utf8Error>)
        ensures
            r is Ok <==> vstd::utf8::valid_utf8(self.token@),
            r matches Ok(s) ==> s@ == vstd::utf8::decode_utf8(self.token@),
    {
        str_from_utf8(self.token.as_slice())
    }
}

/// Log-probability information for one position of the output.
#[derive(Debug)]
pub struct Distribution {
    /// The token that was sampled.
    pub sampled: Logprob,
    /// The most likely tokens, most likely first; filled where the caller asked for
    /// [`Logprobs::Top`].
    pub top: Vec<Logprob>,
}

} // verus!
