//! Completion: stopping conditions, the non-streaming output, the mapping of
//! streamed completion records into events, and the canonical form of the
//! log-probabilities the completion endpoint returns.

use crate::chat::Usage;
use crate::logprobs::{Distribution, Logprob, Logprobs};
use crate::stream::StreamTask;
use vstd::prelude::*;

verus! {

/// Position of a probability in the total order of IEEE 754 doubles (that of
/// `f64::total_cmp`), given its bit pattern.
pub open spec fn total_key(bits: u64) -> int {
    if bits < 0x8000_0000_0000_0000 {
        bits as int
    } else {
        0x7fff_ffff_ffff_ffff - bits as int
    }
}

/// Inserts `e` into a list ordered most likely first, after every entry at least as likely.
pub open spec fn insert_desc(sorted: Seq<Logprob>, e: Logprob) -> Seq<Logprob>
    decreases sorted.len(),
{
    if sorted.len() == 0 {
        seq![e]
    } else if total_key(sorted[0].logprob_bits) < total_key(e.logprob_bits) {
        seq![e] + sorted
    } else {
        seq![sorted[0]] + insert_desc(sorted.skip(1), e)
    }
}

/// The entries ordered most likely first; entries of equal probability keep their order.
pub open spec fn sort_desc(s: Seq<Logprob>) -> Seq<Logprob>
    decreases s.len(),
{
    if s.len() == 0 {
        Seq::empty()
    } else {
        insert_desc(sort_desc(s.drop_last()), s.last())
    }
}

/// Whether entries are ordered most likely first.
pub open spec fn is_sorted_desc(s: Seq<Logprob>) -> bool {
    forall|i: int, j: int|
        0 <= i < j < s.len() ==> total_key(#[trigger] s[i].logprob_bits) >= total_key(
            #[trigger] s[j].logprob_bits,
        )
}

proof fn lemma_insert_desc_bounded(s: Seq<Logprob>, e: Logprob, bound: int)
    requires
        forall|k: int| 0 <= k < s.len() ==> total_key(#[trigger] s[k].logprob_bits) <= bound,
        total_key(e.logprob_bits) <= bound,
    ensures
        forall|k: int|
            0 <= k < insert_desc(s, e).len() ==> total_key(
                #[trigger] insert_desc(s, e)[k].logprob_bits,
            ) <= bound,
    decreases s.len(),
{
    if s.len() > 0 && total_key(s[0].logprob_bits) >= total_key(e.logprob_bits) {
        let rest = s.skip(1);
        assert forall|k: int| 0 <= k < rest.len() implies total_key(
            #[trigger] rest[k].logprob_bits,
        ) <= bound by {
            assert(rest[k] == s[k + 1]);
        }
        lemma_insert_desc_bounded(rest, e, bound);
        let r = insert_desc(s, e);
        assert forall|k: int| 0 <= k < r.len() implies total_key(#[trigger] r[k].logprob_bits)
            <= bound by {
            if k > 0 {
                assert(r[k] == insert_desc(rest, e)[k - 1]);
            }
        }
    }
}

proof fn lemma_insert_desc_sorted(s: Seq<Logprob>, e: Logprob)
    requires
        is_sorted_desc(s),
    ensures
        is_sorted_desc(insert_desc(s, e)),
    decreases s.len(),
{
    if s.len() > 0 {
        let r = insert_desc(s, e);
        if total_key(s[0].logprob_bits) < total_key(e.logprob_bits) {
            assert forall|i: int, j: int| 0 <= i < j < r.len() implies total_key(
                #[trigger] r[i].logprob_bits,
            ) >= total_key(#[trigger] r[j].logprob_bits) by {
                assert(r[j] == s[j - 1]);
                if i > 0 {
                    assert(r[i] == s[i - 1]);
                } else if j > 1 {
                    assert(total_key(s[0].logprob_bits) >= total_key(s[j - 1].logprob_bits));
                }
            }
        } else {
            let rest = s.skip(1);
            assert forall|i: int, j: int| 0 <= i < j < rest.len() implies total_key(
                #[trigger] rest[i].logprob_bits,
            ) >= total_key(#[trigger] rest[j].logprob_bits) by {
                assert(rest[i] == s[i + 1]);
                assert(rest[j] == s[j + 1]);
            }
            lemma_insert_desc_sorted(rest, e);
            let b = total_key(s[0].logprob_bits);
            assert forall|k: int| 0 <= k < rest.len() implies total_key(
                #[trigger] rest[k].logprob_bits,
            ) <= b by {
                assert(rest[k] == s[k + 1]);
            }
            lemma_insert_desc_bounded(rest, e, b);
            assert forall|i: int, j: int| 0 <= i < j < r.len() implies total_key(
                #[trigger] r[i].logprob_bits,
            ) >= total_key(#[trigger] r[j].logprob_bits) by {
                assert(r[j] == insert_desc(rest, e)[j - 1]);
                if i > 0 {
                    assert(r[i] == insert_desc(rest, e)[i - 1]);
                }
            }
        }
    }
}

/// The most likely entries come first: the order that the canonical form reports the
/// top entries in never puts an entry before a more likely one.
pub proof fn lemma_sort_desc_sorted(s: Seq<Logprob>)
    ensures
        is_sorted_desc(sort_desc(s)),
        sort_desc(s).len() == s.len(),
    decreases s.len(),
{
    lemma_sort_desc_len(s);
    if s.len() > 0 {
        lemma_sort_desc_sorted(s.drop_last());
        lemma_insert_desc_sorted(sort_desc(s.drop_last()), s.last());
    }
}

/// The multiset of one entry.
proof fn lemma_single_multiset(e: Logprob)
    ensures
        seq![e].to_multiset() == vstd::multiset::Multiset::<Logprob>::empty().insert(e),
{
    broadcast use vstd::multiset::group_multiset_axioms;

    let none = Seq::<Logprob>::empty();
    none.to_multiset_ensures();
    vstd::multiset::lemma_multiset_empty_len(none.to_multiset());
    assert(none.push(e) =~= seq![e]);
}

proof fn lemma_insert_desc_multiset(s: Seq<Logprob>, e: Logprob)
    ensures
        insert_desc(s, e).to_multiset() == s.to_multiset().insert(e),
    decreases s.len(),
{
    broadcast use vstd::multiset::group_multiset_axioms;

    lemma_single_multiset(e);
    if s.len() == 0 {
        s.to_multiset_ensures();
        vstd::multiset::lemma_multiset_empty_len(s.to_multiset());
    } else if total_key(s[0].logprob_bits) < total_key(e.logprob_bits) {
        vstd::seq_lib::lemma_multiset_commutative(seq![e], s);
        assert((seq![e] + s).to_multiset() =~= s.to_multiset().insert(e));
    } else {
        let rest = s.skip(1);
        lemma_insert_desc_multiset(rest, e);
        lemma_single_multiset(s[0]);
        vstd::seq_lib::lemma_multiset_commutative(seq![s[0]], insert_desc(rest, e));
        vstd::seq_lib::lemma_multiset_commutative(seq![s[0]], rest);
        assert(s =~= seq![s[0]] + rest);
        assert((seq![s[0]] + insert_desc(rest, e)).to_multiset() =~= s.to_multiset().insert(e));
    }
}

/// Ordering loses and adds nothing: the ordered entries are a permutation of the entries,
/// so the first `n` of them are `n` most likely entries.
pub proof fn lemma_sort_desc_permutes(s: Seq<Logprob>)
    ensures
        sort_desc(s).to_multiset() == s.to_multiset(),
    decreases s.len(),
{
    broadcast use vstd::multiset::group_multiset_axioms;

    if s.len() == 0 {
        assert(sort_desc(s) =~= s);
    } else {
        lemma_sort_desc_permutes(s.drop_last());
        lemma_insert_desc_multiset(sort_desc(s.drop_last()), s.last());
        s.drop_last().to_multiset_ensures();
        assert(s.drop_last().push(s.last()) =~= s);
    }
}

/// Whether no two entries are for the same token, as the entries of a map are.
pub open spec fn distinct_tokens(entries: Seq<Logprob>) -> bool {
    forall|j: int, k: int|
        0 <= j < k < entries.len() ==> #[trigger] entries[j].token@ != #[trigger] entries[k].token@
}

/// With distinct tokens, the logprob found for a token is that of its one entry.
pub proof fn lemma_lookup_finds_the_entry(entries: Seq<Logprob>, k: int)
    requires
        distinct_tokens(entries),
        0 <= k < entries.len(),
    ensures
        lookup(entries, entries[k].token@) == Some(entries[k].logprob_bits),
    decreases k,
{
    if k > 0 {
        let rest = entries.skip(1);
        assert(entries[0].token@ != entries[k].token@);
        assert forall|j: int, l: int| 0 <= j < l < rest.len() implies #[trigger] rest[j].token@
            != #[trigger] rest[l].token@ by {
            assert(rest[j] == entries[j + 1]);
            assert(rest[l] == entries[l + 1]);
        }
        assert(rest[k - 1] == entries[k]);
        lemma_lookup_finds_the_entry(rest, k - 1);
    }
}

/// The logprob of the first entry for `token`.
pub open spec fn lookup(entries: Seq<Logprob>, token: Seq<u8>) -> Option<u64>
    decreases entries.len(),
{
    if entries.len() == 0 {
        None
    } else if entries[0].token@ == token {
        Some(entries[0].logprob_bits)
    } else {
        lookup(entries.skip(1), token)
    }
}

/// Bit pattern of the quiet NaN reported for a sampled token that has no logprob.
pub const NAN_BITS: u64 = 0x7ff8_0000_0000_0000;

/// Key of a probability in the total order of doubles.
fn total_key_of(bits: u64) -> (k: i64)
    ensures
        k as int == total_key(bits),
{
    if bits < 0x8000_0000_0000_0000 {
        bits as i64
    } else {
        -1 - ((bits - 0x8000_0000_0000_0000) as i64)
    }
}

/// Inserts `e` into a list ordered most likely first.
fn insert_sorted(sorted: &mut Vec<Logprob>, e: Logprob)
    ensures
        final(sorted)@ == insert_desc(old(sorted)@, e),
{
    let key = total_key_of(e.logprob_bits);
    let mut j: usize = 0;
    proof {
        assert(sorted@.take(0) + sorted@.skip(0) =~= sorted@);
        assert(sorted@.take(0) + insert_desc(sorted@.skip(0), e) =~= insert_desc(sorted@, e));
    }
    while j < sorted.len() && total_key_of(sorted[j].logprob_bits) >= key
        invariant
            j <= sorted@.len(),
            key == total_key(e.logprob_bits),
            insert_desc(sorted@, e) == sorted@.take(j as int) + insert_desc(
                sorted@.skip(j as int),
                e,
            ),
        decreases sorted@.len() - j,
    {
        proof {
            let rest = sorted@.skip(j as int);
            assert(rest[0] == sorted@[j as int]);
            assert(rest.skip(1) =~= sorted@.skip(j + 1));
            assert(sorted@.take(j as int) + (seq![rest[0]] + insert_desc(rest.skip(1), e))
                =~= sorted@.take(j + 1) + insert_desc(sorted@.skip(j + 1), e));
        }
        j += 1;
    }
    proof {
        let rest = sorted@.skip(j as int);
        if j < sorted@.len() {
            assert(rest[0] == sorted@[j as int]);
        }
        assert(insert_desc(rest, e) =~= seq![e] + rest);
        assert(sorted@.insert(j as int, e) =~= sorted@.take(j as int) + (seq![e] + rest));
    }
    sorted.insert(j, e);
}

/// Orders entries most likely first, keeping the order of entries of equal probability.
fn sort_by_logprob_desc(entries: Vec<Logprob>) -> (r: Vec<Logprob>)
    ensures
        r@ == sort_desc(entries@),
{
    let ghost orig = entries@;
    let mut rest = entries;
    let mut sorted: Vec<Logprob> = Vec::new();
    proof {
        assert(orig.take(0) =~= Seq::<Logprob>::empty());
        assert(orig.skip(0) =~= orig);
    }
    while rest.len() > 0
        invariant
            rest@ == orig.skip(orig.len() - rest@.len()),
            rest@.len() <= orig.len(),
            sorted@ == sort_desc(orig.take(orig.len() - rest@.len())),
        decreases rest@.len(),
    {
        let ghost i = orig.len() - rest@.len();
        let e = rest.remove(0);
        proof {
            assert(e == orig[i]);
            assert(rest@ =~= orig.skip(i + 1));
            assert(orig.take(i + 1).drop_last() =~= orig.take(i));
        }
        insert_sorted(&mut sorted, e);
    }
    proof {
        assert(orig.take(orig.len() as int) =~= orig);
    }
    sorted
}

/// Whether two byte strings are equal.
fn bytes_equal(a: &Vec<u8>, b: &Vec<u8>) -> (r: bool)
    ensures
        r == (a@ == b@),
{
    if a.len() != b.len() {
        return false;
    }
    let mut i: usize = 0;
    while i < a.len()
        invariant
            a@.len() == b@.len(),
            i <= a@.len(),
            forall|k: int| 0 <= k < i ==> a@[k] == b@[k],
        decreases a@.len() - i,
    {
        if a[i] != b[i] {
            return false;
        }
        i += 1;
    }
    proof {
        assert(a@ =~= b@);
    }
    true
}

/// The logprob of the first entry for `token`.
fn find_logprob(entries: &Vec<Logprob>, token: &Vec<u8>) -> (r: Option<u64>)
    ensures
        r == lookup(entries@, token@),
{
    let mut i: usize = 0;
    proof {
        assert(entries@.skip(0) =~= entries@);
    }
    while i < entries.len()
        invariant
            i <= entries@.len(),
            lookup(entries@, token@) == lookup(entries@.skip(i as int), token@),
        decreases entries@.len() - i,
    {
        let ghost rest = entries@.skip(i as int);
        proof {
            assert(rest[0] == entries@[i as int]);
            assert(rest.skip(1) =~= entries@.skip(i + 1));
        }
        if bytes_equal(&entries[i].token, token) {
            return Some(entries[i].logprob_bits);
        }
        i += 1;
    }
    None
}

/// Whether `d` is the canonical distribution for a sampled token and the entries the
/// service sent for its position: the sampled token with its own logprob (NaN where the
/// entries hold none), and at most `n` entries, most likely first.
pub open spec fn is_canonical(d: Distribution, entries: Seq<Logprob>, token: Vec<u8>, n: u8) -> bool {
    &&& d.sampled.token == token
    &&& d.sampled.logprob_bits == (match lookup(entries, token@) {
        Some(bits) => bits,
        None => NAN_BITS,
    })
    &&& d.top@ == sort_desc(entries).take(
        if n as int <= entries.len() {
            n as int
        } else {
            entries.len() as int
        },
    )
}

proof fn lemma_sort_desc_len(s: Seq<Logprob>)
    ensures
        sort_desc(s).len() == s.len(),
    decreases s.len(),
{
    if s.len() > 0 {
        lemma_sort_desc_len(s.drop_last());
        lemma_insert_desc_len(sort_desc(s.drop_last()), s.last());
    }
}

proof fn lemma_insert_desc_len(s: Seq<Logprob>, e: Logprob)
    ensures
        insert_desc(s, e).len() == s.len() + 1,
    decreases s.len(),
{
    if s.len() > 0 {
        lemma_insert_desc_len(s.skip(1), e);
    }
}

/// The canonical distribution for one position.
///
/// The service always lists the sampled token among the entries, also where it is not
/// among the `n` most likely; since the sampled token is reported on its own, only the
/// `n` most likely entries are kept.
fn to_distribution(entries: Vec<Logprob>, token: Vec<u8>, n: u8) -> (d: Distribution)
    ensures
        is_canonical(d, entries@, token, n),
{
    let ghost orig = entries@;
    let logprob_bits = match find_logprob(&entries, &token) {
        Some(bits) => bits,
        None => NAN_BITS,
    };
    let mut top = sort_by_logprob_desc(entries);
    proof {
        lemma_sort_desc_len(orig);
    }
    top.truncate(n as usize);
    proof {
        if n as int > orig.len() {
            assert(sort_desc(orig).take(orig.len() as int) =~= sort_desc(orig));
        }
    }
    Distribution { sampled: Logprob { token, logprob_bits }, top }
}

/// Puts the log-probabilities of the completion endpoint into canonical form: one
/// distribution per completion token, pairing the token with the entries at its position.
pub fn completion_logprobs_to_canonical(
    log_probs: Vec<Vec<Logprob>>,
    completion_tokens: Vec<Vec<u8>>,
    num_expected_top_logprobs: u8,
) -> (r: Vec<Distribution>)
    ensures
        r@.len() == if log_probs@.len() <= completion_tokens@.len() {
            log_probs@.len()
        } else {
            completion_tokens@.len()
        },
        forall|i: int|
            0 <= i < r@.len() ==> is_canonical(
                #[trigger] r@[i],
                log_probs@[i]@,
                completion_tokens@[i],
                num_expected_top_logprobs,
            ),
{
    let ghost probs = log_probs@;
    let ghost tokens = completion_tokens@;
    let mut log_probs = log_probs;
    let mut completion_tokens = completion_tokens;
    let mut r: Vec<Distribution> = Vec::new();
    while log_probs.len() > 0 && completion_tokens.len() > 0
        invariant
            log_probs@.len() <= probs.len(),
            r@.len() == probs.len() - log_probs@.len(),
            r@.len() == tokens.len() - completion_tokens@.len(),
            log_probs@ == probs.skip(r@.len() as int),
            completion_tokens@ == tokens.skip(r@.len() as int),
            forall|i: int|
                0 <= i < r@.len() ==> is_canonical(
                    #[trigger] r@[i],
                    probs[i]@,
                    tokens[i],
                    num_expected_top_logprobs,
                ),
        decreases log_probs@.len(),
    {
        let ghost k = r@.len() as int;
        let entries = log_probs.remove(0);
        let token = completion_tokens.remove(0);
        proof {
            assert(entries == probs[k]);
            assert(token == tokens[k]);
            assert(log_probs@ =~= probs.skip(k + 1));
            assert(completion_tokens@ =~= tokens.skip(k + 1));
        }
        let d = to_distribution(entries, token, num_expected_top_logprobs);
        r.push(d);
    }
    r
}


/// Controls the conditions under which the model stops generating text.
#[derive(Debug)]
pub struct Stopping<'a> {
    /// The maximum number of tokens to be generated; `None` leaves the limit to the model.
    pub maximum_tokens: Option<u32>,
    /// Strings which stop generation once generated.
    pub stop_sequences: &'a [&'a str],
}

impl<'a> Stopping<'a> {
    /// Stop once the model has generated `maximum_tokens` tokens.
    pub fn from_maximum_tokens(maximum_tokens: u32) -> (r: Stopping<'a>)
        ensures
            r.maximum_tokens == Some(maximum_tokens),
            r.stop_sequences@.len() == 0,
    {
        Stopping { maximum_tokens: Some(maximum_tokens), stop_sequences: &[] }
    }

    /// Stop once one of `stop_sequences` has been generated.
    pub fn from_stop_sequences(stop_sequences: &'a [&'a str]) -> (r: Stopping<'a>)
        ensures
            r.maximum_tokens is None,
            r.stop_sequences == stop_sequences,
    {
        Stopping { maximum_tokens: None, stop_sequences }
    }
}

/// One completion of a non-streaming completion response.
#[derive(Debug)]
pub struct DeserializedCompletion {
    pub completion: String,
    pub finish_reason: String,
    /// The completion with special tokens still included, where the task asked for it.
    pub raw_completion: Option<String>,
    /// For each completion token, the entries the service sent for its position.
    pub log_probs: Vec<Vec<Logprob>>,
    pub completion_tokens: Vec<Vec<u8>>,
}

/// The body of a non-streaming completion response.
#[derive(Debug)]
pub struct ResponseCompletion {
    pub model_version: String,
    pub completions: Vec<DeserializedCompletion>,
    pub num_tokens_prompt_total: u32,
    pub num_tokens_generated: u32,
}

/// Completion and meta information returned by a completion task.
#[derive(Debug)]
pub struct CompletionOutput {
    pub completion: String,
    pub finish_reason: String,
    pub logprobs: Vec<Distribution>,
    pub usage: Usage,
}

/// The text to report: the raw completion where the task asked for special tokens and
/// the service sent it, otherwise the completion.
pub open spec fn reported_text(special_tokens: bool, completion: String, raw: Option<String>) -> String {
    if special_tokens && raw is Some {
        raw->Some_0
    } else {
        completion
    }
}

/// Whether `logprobs` is the canonical form of the entries and tokens of a completion.
pub open spec fn canonical_logprobs(
    logprobs: Seq<Distribution>,
    entries: Seq<Vec<Logprob>>,
    tokens: Seq<Vec<u8>>,
    n: u8,
) -> bool {
    &&& logprobs.len() == if entries.len() <= tokens.len() {
        entries.len()
    } else {
        tokens.len()
    }
    &&& forall|i: int|
        0 <= i < logprobs.len() ==> is_canonical(#[trigger] logprobs[i], entries[i]@, tokens[i], n)
}

/// The number of most likely entries to keep for a setting of [`Logprobs`].
pub open spec fn top_count(logprobs: Logprobs) -> u8 {
    match logprobs {
        Logprobs::Top(n) => n,
        _ => 0,
    }
}

/// The output of a completion response: its first completion, with the usage of the
/// request.
pub fn completion_output(
    response: ResponseCompletion,
    special_tokens: bool,
    logprobs: Logprobs,
) -> (r: CompletionOutput)
    requires
        response.completions@.len() > 0,
    ensures
        ({
            let c = response.completions@[0];
            &&& r.completion == reported_text(special_tokens, c.completion, c.raw_completion)
            &&& r.finish_reason == c.finish_reason
            &&& canonical_logprobs(
                r.logprobs@,
                c.log_probs@,
                c.completion_tokens@,
                top_count(logprobs),
            )
            &&& r.usage == (Usage {
                prompt_tokens: response.num_tokens_prompt_total,
                completion_tokens: response.num_tokens_generated,
            })
        }),
{
    let ResponseCompletion {
        model_version: _,
        mut completions,
        num_tokens_prompt_total,
        num_tokens_generated,
    } = response;
    let DeserializedCompletion {
        completion,
        finish_reason,
        raw_completion,
        log_probs,
        completion_tokens,
    } = completions.remove(0);
    let completion = choose_text(special_tokens, completion, raw_completion);
    let n = match logprobs.top_logprobs() {
        Some(n) => n,
        None => 0,
    };
    CompletionOutput {
        completion,
        finish_reason,
        logprobs: completion_logprobs_to_canonical(log_probs, completion_tokens, n),
        usage: Usage {
            prompt_tokens: num_tokens_prompt_total,
            completion_tokens: num_tokens_generated,
        },
    }
}

fn choose_text(special_tokens: bool, completion: String, raw: Option<String>) -> (r: String)
    ensures
        r == reported_text(special_tokens, completion, raw),
{
    if special_tokens {
        match raw {
            Some(text) => text,
            None => completion,
        }
    } else {
        completion
    }
}

/// A record of a completion stream.
#[derive(Debug)]
pub enum DeserializedCompletionEvent {
    StreamChunk {
        /// The completion of the stream.
        completion: String,
        /// Completion with special tokens still included.
        raw_completion: Option<String>,
        /// For each completion token, the entries the service sent for its position.
        log_probs: Vec<Vec<Logprob>>,
        completion_tokens: Vec<Vec<u8>>,
    },
    StreamSummary {
        /// The reason why the model stopped generating new tokens.
        finish_reason: String,
    },
    CompletionSummary {
        /// Number of prompt tokens, over all completion tasks.
        num_tokens_prompt_total: u32,
        /// Number of generated tokens, over all completion tasks.
        num_tokens_generated: u32,
    },
}

/// Events of a completion stream.
#[derive(Debug)]
pub enum CompletionEvent {
    /// A piece of the completion.
    Delta {
        completion: String,
        /// Logprobs of the piece's tokens, where the task asked for them.
        logprobs: Vec<Distribution>,
    },
    /// The model stopped generating.
    Finished { reason: String },
    /// Token counts of the whole request.
    Summary { usage: Usage },
}

/// Maps completion stream records into [`CompletionEvent`]s, with the settings of
/// the task that asked for the stream.
#[derive(Debug)]
pub struct CompletionStream {
    /// Whether the raw completion, special tokens included, is reported.
    pub special_tokens: bool,
    /// The log-probabilities the task asked for.
    pub logprobs: Logprobs,
}

/// Whether `event` is what a completion record gives for the given settings.
pub open spec fn completion_event_of(
    task: CompletionStream,
    response: DeserializedCompletionEvent,
    event: CompletionEvent,
) -> bool {
    match response {
        DeserializedCompletionEvent::StreamChunk {
            completion,
            raw_completion,
            log_probs,
            completion_tokens,
        } => event matches CompletionEvent::Delta { completion: c, logprobs: l } && c
            == reported_text(task.special_tokens, completion, raw_completion) && canonical_logprobs(
            l@,
            log_probs@,
            completion_tokens@,
            top_count(task.logprobs),
        ),
        DeserializedCompletionEvent::StreamSummary { finish_reason } => event
            == CompletionEvent::Finished { reason: finish_reason },
        DeserializedCompletionEvent::CompletionSummary {
            num_tokens_prompt_total,
            num_tokens_generated,
        } => event == CompletionEvent::Summary {
            usage: Usage {
                prompt_tokens: num_tokens_prompt_total,
                completion_tokens: num_tokens_generated,
            },
        },
    }
}

impl StreamTask for CompletionStream {
    type Output = CompletionEvent;

    type ResponseBody = DeserializedCompletionEvent;

    open spec fn gives_event(&self, response: DeserializedCompletionEvent) -> bool {
        true
    }

    open spec fn is_event_for(
        &self,
        response: DeserializedCompletionEvent,
        event: CompletionEvent,
    ) -> bool {
        completion_event_of(*self, response, event)
    }

    fn body_to_output(&self, response: DeserializedCompletionEvent) -> (r: Option<CompletionEvent>) {
        let event = match response {
            DeserializedCompletionEvent::StreamChunk {
                completion,
                raw_completion,
                log_probs,
                completion_tokens,
            } => {
                let n = match self.logprobs.top_logprobs() {
                    Some(n) => n,
                    None => 0,
                };
                CompletionEvent::Delta {
                    completion: choose_text(self.special_tokens, completion, raw_completion),
                    logprobs: completion_logprobs_to_canonical(log_probs, completion_tokens, n),
                }
            },
            DeserializedCompletionEvent::StreamSummary { finish_reason } => {
                CompletionEvent::Finished { reason: finish_reason }
            },
            DeserializedCompletionEvent::CompletionSummary {
                num_tokens_prompt_total,
                num_tokens_generated,
            } => CompletionEvent::Summary {
                usage: Usage {
                    prompt_tokens: num_tokens_prompt_total,
                    completion_tokens: num_tokens_generated,
                },
            },
        };
        Some(event)
    }
}

} // verus!
