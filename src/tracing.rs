//! W3C trace context, propagated through HTTP headers for distributed tracing.

use vstd::prelude::*;

verus! {

/// Trace context that is propagated through HTTP headers.
#[derive(Clone, Debug, PartialEq, Eq, Hash)]
pub struct TraceContext {
    /// Identifier of the whole trace.
    trace_id: u128,
    /// Identifier of the parent span.
    span_id: u64,
    /// Whether the caller may have recorded the trace.
    sampled: bool,
    /// Vendor-specific trace state.
    state: Option<String>,
}

/// The hexadecimal digit of `d`, lower case.
pub open spec fn hex_digit(d: nat) -> char {
    if d < 10 {
        ((d + 48) as u8) as char
    } else {
        ((d + 87) as u8) as char
    }
}

/// The lowest `width` hexadecimal digits of `value`, most significant first.
pub open spec fn hex_fixed(value: nat, width: nat) -> Seq<char>
    decreases width,
{
    if width == 0 {
        Seq::empty()
    } else {
        hex_fixed(value / 16, (width - 1) as nat).push(hex_digit(value % 16))
    }
}

/// The version of the trace context format that is supported.
pub const SUPPORTED_VERSION: u8 = 0;

/// The `traceparent` header value: version, trace id, parent id and flags, in hex.
pub open spec fn traceparent_of(trace_id: u128, span_id: u64, flags: u8) -> Seq<char> {
    hex_fixed(SUPPORTED_VERSION as nat, 2) + seq!['-'] + hex_fixed(trace_id as nat, 32) + seq![
        '-',
    ] + hex_fixed(span_id as nat, 16) + seq!['-'] + hex_fixed(flags as nat, 2)
}

/// Relies on `String::push`: appends one character.
#[verifier::external_body]
fn push_char(s: &mut String, c: char)
    ensures
        final(s)@ == old(s)@.push(c),
{
    s.push(c);
}

fn hex_char(d: u8) -> (c: char)
    requires
        d < 16,
    ensures
        c == hex_digit(d as nat),
{
    if d < 10 {
        (d + 48) as char
    } else {
        (d + 87) as char
    }
}

/// Appends the lowest `width` hexadecimal digits of `value`.
fn push_hex(s: &mut String, value: u128, width: usize)
    ensures
        final(s)@ == old(s)@ + hex_fixed(value as nat, width as nat),
    decreases width,
{
    if width > 0 {
        push_hex(s, value / 16, width - 1);
        push_char(s, hex_char((value % 16) as u8));
        proof {
            assert(old(s)@ + hex_fixed(value as nat, width as nat) =~= old(s)@ + hex_fixed(
                (value / 16) as nat,
                (width - 1) as nat,
            ) + seq![hex_digit((value % 16) as nat)]);
        }
    } else {
        proof {
            assert(old(s)@ + Seq::<char>::empty() =~= old(s)@);
        }
    }
}

impl TraceContext {
    pub closed spec fn trace_id(&self) -> u128 {
        self.trace_id
    }

    pub closed spec fn span_id(&self) -> u64 {
        self.span_id
    }

    pub closed spec fn sampled(&self) -> bool {
        self.sampled
    }

    pub closed spec fn state(&self) -> Option<String> {
        self.state
    }

    /// A trace context; version 0 of the format knows the `sampled` flag only.
    pub fn new(trace_id: u128, span_id: u64, sampled: bool, state: Option<String>) -> (r: Self)
        ensures
            r.trace_id() == trace_id,
            r.span_id() == span_id,
            r.sampled() == sampled,
            r.state() == state,
    {
        TraceContext { trace_id, span_id, sampled, state }
    }

    /// A trace context with the `sampled` flag set.
    pub fn new_sampled(trace_id: u128, span_id: u64, state: Option<String>) -> (r: Self)
        ensures
            r.trace_id() == trace_id,
            r.span_id() == span_id,
            r.sampled(),
            r.state() == state,
    {
        Self::new(trace_id, span_id, true, state)
    }

    /// A trace context with the `sampled` flag unset.
    pub fn new_unsampled(trace_id: u128, span_id: u64, state: Option<String>) -> (r: Self)
        ensures
            r.trace_id() == trace_id,
            r.span_id() == span_id,
            !r.sampled(),
            r.state() == state,
    {
        Self::new(trace_id, span_id, false, state)
    }

    /// The trace flags: version 0 of the format knows the `sampled` flag only.
    pub fn trace_flags(&self) -> (r: u8)
        ensures
            r == (if self.sampled() {
                1u8
            } else {
                0u8
            }),
    {
        if self.sampled {
            0x01
        } else {
            0x00
        }
    }

    /// The value of the `traceparent` header.
    pub fn traceparent(&self) -> (r: String)
        ensures
            r@ == traceparent_of(
                self.trace_id(),
                self.span_id(),
                if self.sampled() {
                    1u8
                } else {
                    0u8
                },
            ),
    {
        let mut s = String::new();
        push_hex(&mut s, SUPPORTED_VERSION as u128, 2);
        push_char(&mut s, '-');
        push_hex(&mut s, self.trace_id, 32);
        push_char(&mut s, '-');
        push_hex(&mut s, self.span_id as u128, 16);
        push_char(&mut s, '-');
        push_hex(&mut s, self.trace_flags() as u128, 2);
        proof {
            assert(s@ =~= traceparent_of(
                self.trace_id,
                self.span_id,
                if self.sampled {
                    1u8
                } else {
                    0u8
                },
            ));
        }
        s
    }

    /// The context as W3C trace context headers: `traceparent`, then `tracestate` where
    /// the state is present and not empty.
    pub fn as_w3c_headers(&self) -> (r: Vec<(&'static str, String)>)
        ensures
            r@.len() == if self.state() matches Some(st) && st@.len() > 0 {
                2int
            } else {
                1int
            },
            r@[0].0@ == "traceparent"@,
            r@[0].1@ == traceparent_of(
                self.trace_id(),
                self.span_id(),
                if self.sampled() {
                    1u8
                } else {
                    0u8
                },
            ),
            r@.len() == 2 ==> r@[1].0@ == "tracestate"@ && r@[1].1@ == self.state()->Some_0@,
    {
        let mut headers: Vec<(&'static str, String)> = Vec::new();
        headers.push(("traceparent", self.traceparent()));
        if let Some(state) = &self.state {
            // Empty trace state headers must be accepted but should not be sent.
            if !state.as_str().is_empty() {
                headers.push(("tracestate", state.clone()));
            }
        }
        headers
    }
}

} // verus!
