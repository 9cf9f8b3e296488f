//! The streaming pipeline: frames become payloads, payloads become decoded records
//! (outside the library), and records become the caller's events.

use crate::error::Error;
use crate::sse::{
    concat, data_field, data_of, frames_between, frames_of, lemma_frames_grow, settled, views,
    SseStream,
};
use vstd::prelude::*;

verus! {

/// What every streaming task supplies: the shape of the records the service streams and
/// the mapping of one record into at most one event for the caller.
pub trait StreamTask {
    /// Event handed to the caller.
    type Output;

    /// Record the service streams, one per frame.
    type ResponseBody;

    /// Whether a record gives the caller an event.
    spec fn gives_event(&self, response: Self::ResponseBody) -> bool;

    /// Whether `event` is the event for a record.
    spec fn is_event_for(&self, response: Self::ResponseBody, event: Self::Output) -> bool;

    /// Maps one record; `None` when the record gives the caller nothing.
    fn body_to_output(&self, response: Self::ResponseBody) -> (r: Option<Self::Output>)
        ensures
            r is Some <==> self.gives_event(response),
            r matches Some(event) ==> self.is_event_for(response, event),
    ;
}

/// The payload that ends a stream: `[DONE]`.
pub open spec fn end_marker() -> Seq<u8> {
    seq![91u8, 68, 79, 78, 69, 93]
}

/// The text of bytes read as UTF-8, each invalid sequence replaced.
pub uninterp spec fn utf8_lossy(b: Seq<u8>) -> Seq<char>;

/// Whether all bytes are ASCII.
pub open spec fn is_ascii_bytes(b: Seq<u8>) -> bool {
    forall|i: int| 0 <= i < b.len() ==> b[i] < 128
}

/// The characters of ASCII bytes, one for each byte.
pub open spec fn ascii_chars(b: Seq<u8>) -> Seq<char> {
    b.map_values(|x: u8| x as char)
}

/// Relies on `String::from_utf8_lossy`: the text of the bytes, a function of the bytes
/// alone; valid UTF-8, and so ASCII, comes out unchanged.
#[verifier::external_body]
fn text_of(b: &[u8]) -> (r: String)
    ensures
        r@ == utf8_lossy(b@),
        is_ascii_bytes(b@) ==> r@ == ascii_chars(b@),
{
    String::from_utf8_lossy(b).into_owned()
}

/// The payloads of a run of frames, up to the end marker, and whether the marker came.
/// Frames without a data field give nothing; frames after the marker are not read.
pub open spec fn scan_payloads(frames: Seq<Seq<u8>>) -> (Seq<Seq<u8>>, bool)
    decreases frames.len(),
{
    if frames.len() == 0 {
        (Seq::empty(), false)
    } else {
        match data_field(frames[0]) {
            None => scan_payloads(frames.skip(1)),
            Some(p) => if p == end_marker() {
                (Seq::empty(), true)
            } else {
                (seq![p] + scan_payloads(frames.skip(1)).0, scan_payloads(frames.skip(1)).1)
            },
        }
    }
}

/// Whether a payload is the end marker.
fn is_end_marker(v: &Vec<u8>) -> (r: bool)
    ensures
        r == (v@ == end_marker()),
{
    let r = v.len() == 6 && v[0] == 91 && v[1] == 68 && v[2] == 79 && v[3] == 78 && v[4] == 69
        && v[5] == 93;
    proof {
        if v@.len() == 6 {
            assert(r == (v@ =~= end_marker()));
        }
    }
    r
}

/// For each payload that a run of frames gives, the position of its frame.
pub open spec fn payload_sources(frames: Seq<Seq<u8>>) -> Seq<int>
    decreases frames.len(),
{
    if frames.len() == 0 {
        Seq::empty()
    } else {
        let later = payload_sources(frames.skip(1)).map_values(|i: int| i + 1);
        match data_field(frames[0]) {
            None => later,
            Some(p) => if p == end_marker() {
                Seq::empty()
            } else {
                seq![0int] + later
            },
        }
    }
}

/// Payloads come out in the order of their frames: each payload is the data field of its
/// frame, and the positions of their frames strictly increase.
pub proof fn lemma_payloads_keep_frame_order(frames: Seq<Seq<u8>>)
    ensures
        payload_sources(frames).len() == scan_payloads(frames).0.len(),
        forall|k: int|
            0 <= k < payload_sources(frames).len() ==> {
                let i = #[trigger] payload_sources(frames)[k];
                &&& 0 <= i < frames.len()
                &&& data_field(frames[i]) == Some(scan_payloads(frames).0[k])
            },
        forall|k: int, l: int|
            0 <= k < l < payload_sources(frames).len() ==> #[trigger] payload_sources(frames)[k]
                < #[trigger] payload_sources(frames)[l],
    decreases frames.len(),
{
    if frames.len() > 0 {
        let rest = frames.skip(1);
        lemma_payloads_keep_frame_order(rest);
        let inner = payload_sources(rest);
        let later = inner.map_values(|i: int| i + 1);
        let src = payload_sources(frames);
        let out = scan_payloads(frames).0;
        let rest_out = scan_payloads(rest).0;
        match data_field(frames[0]) {
            None => {
                assert(src == later);
                assert(out == rest_out);
                assert forall|k: int| 0 <= k < src.len() implies {
                    let i = #[trigger] src[k];
                    &&& 0 <= i < frames.len()
                    &&& data_field(frames[i]) == Some(out[k])
                } by {
                    assert(src[k] == inner[k] + 1);
                    assert(frames[inner[k] + 1] == rest[inner[k]]);
                }
                assert forall|k: int, l: int| 0 <= k < l < src.len() implies #[trigger] src[k]
                    < #[trigger] src[l] by {
                    assert(src[k] == inner[k] + 1);
                    assert(src[l] == inner[l] + 1);
                }
            },
            Some(p) => {
                if p != end_marker() {
                    assert(src == seq![0int] + later);
                    assert(out == seq![p] + rest_out);
                    assert forall|k: int| 0 <= k < src.len() implies {
                        let i = #[trigger] src[k];
                        &&& 0 <= i < frames.len()
                        &&& data_field(frames[i]) == Some(out[k])
                    } by {
                        if k > 0 {
                            assert(src[k] == inner[k - 1] + 1);
                            assert(out[k] == rest_out[k - 1]);
                            assert(frames[inner[k - 1] + 1] == rest[inner[k - 1]]);
                        }
                    }
                    assert forall|k: int, l: int| 0 <= k < l < src.len() implies #[trigger] src[k]
                        < #[trigger] src[l] by {
                        assert(src[l] == inner[l - 1] + 1);
                        if k > 0 {
                            assert(src[k] == inner[k - 1] + 1);
                        } else {
                            assert(inner[l - 1] >= 0);
                        }
                    }
                }
            },
        }
    }
}

/// The text of a payload: its characters where it is ASCII, its lossy UTF-8 reading
/// otherwise (the two agree on ASCII).
pub open spec fn payload_text(p: Seq<u8>) -> Seq<char> {
    if is_ascii_bytes(p) {
        ascii_chars(p)
    } else {
        utf8_lossy(p)
    }
}

/// The texts of a list of payloads.
pub open spec fn texts(payloads: Seq<Seq<u8>>) -> Seq<Seq<char>> {
    payloads.map_values(|p: Seq<u8>| payload_text(p))
}

/// The views of a list of strings.
pub open spec fn string_views(v: Seq<String>) -> Seq<Seq<char>> {
    v.map_values(|s: String| s@)
}

/// Drives one stream: takes the chunks of the response body as they come and hands out
/// the payloads to decode, in order, until the end marker or a transport failure.
pub struct StreamDriver {
    sse: SseStream,
    done: bool,
}

impl StreamDriver {
    /// The assembler is well formed.
    pub closed spec fn wf(&self) -> bool {
        self.sse.wf()
    }

    /// All bytes taken from the transport while streaming.
    pub closed spec fn received(&self) -> Seq<u8> {
        self.sse.received()
    }

    /// Whether the stream has ended: nothing more is handed out.
    pub closed spec fn ended(&self) -> bool {
        self.done
    }

    /// A driver at the start of a stream.
    pub fn new() -> (d: StreamDriver)
        ensures
            d.wf(),
            !d.ended(),
            d.received() == Seq::<u8>::empty(),
    {
        StreamDriver { sse: SseStream::new(), done: false }
    }

    /// Whether the stream has ended.
    pub fn is_done(&self) -> (r: bool)
        ensures
            r == self.ended(),
    {
        self.done
    }

    /// Takes the next chunk and returns the payloads of the frames it completes, in
    /// order. A frame whose payload is the end marker ends the stream: it gives nothing,
    /// and neither do the frames after it nor any later chunk.
    pub fn on_chunk(&mut self, chunk: &[u8]) -> (payloads: Vec<String>)
        requires
            old(self).wf(),
        ensures
            final(self).wf(),
            old(self).ended() ==> payloads@.len() == 0 && final(self).ended()
                && final(self).received() == old(self).received(),
            !old(self).ended() ==> {
                let scanned = scan_payloads(frames_between(old(self).received(), chunk@));
                &&& string_views(payloads@) == texts(scanned.0)
                &&& final(self).ended() == scanned.1
                &&& final(self).received() == old(self).received() + chunk@
            },
    {
        let mut payloads: Vec<String> = Vec::new();
        if self.done {
            return payloads;
        }
        let ghost before = self.sse.received();
        let frames = self.sse.feed(chunk);
        let ghost fs = frames_between(before, chunk@);
        let mut k: usize = 0;
        let ghost mut collected: Seq<Seq<u8>> = Seq::empty();
        proof {
            assert(fs.skip(0) =~= fs);
            assert(collected + scan_payloads(fs).0 =~= scan_payloads(fs).0);
        }
        while k < frames.len()
            invariant_except_break
                k <= frames@.len(),
                !self.done,
            invariant
                self.sse.wf(),
                self.sse.received() == before + chunk@,
                fs.len() == frames@.len(),
                forall|j: int| 0 <= j < fs.len() ==> fs[j] == (#[trigger] frames@[j])@,
                string_views(payloads@) == texts(collected),
                scan_payloads(fs).0 == collected + scan_payloads(fs.skip(k as int)).0,
                scan_payloads(fs).1 == scan_payloads(fs.skip(k as int)).1,
            ensures
                scan_payloads(fs).0 == collected,
                scan_payloads(fs).1 == self.done,
            decreases frames@.len() - k,
        {
            let ghost rest = fs.skip(k as int);
            proof {
                assert(rest[0] == frames@[k as int]@);
                assert(rest.skip(1) =~= fs.skip(k + 1));
            }
            match data_of(&frames[k]) {
                None => {},
                Some(v) => {
                    if is_end_marker(&v) {
                        self.done = true;
                        proof {
                            assert(collected + Seq::<Seq<u8>>::empty() =~= collected);
                        }
                        break ;
                    }
                    let ghost prev = payloads@;
                    payloads.push(text_of(v.as_slice()));
                    proof {
                        assert(string_views(payloads@) =~= string_views(prev).push(payload_text(v@)));
                        assert(texts(collected.push(v@)) =~= texts(collected).push(payload_text(v@)));
                        assert(collected + (seq![v@] + scan_payloads(fs.skip(k + 1)).0) =~= collected.push(v@) + scan_payloads(fs.skip(k + 1)).0);
                        collected = collected.push(v@);
                    }
                },
            }
            k += 1;
        }
        payloads
    }

    /// The transport failed: the stream ends, and the failure is the last item the caller
    /// sees.
    pub fn on_transport_error(&mut self)
        requires
            old(self).wf(),
        ensures
            final(self).wf(),
            final(self).ended(),
            final(self).received() == old(self).received(),
    {
        self.done = true;
    }
}

/// A payload and the outcome of decoding it into the task's record (the record, or the
/// text of the decoder's error).
#[derive(Debug)]
pub struct Decoded<B> {
    pub payload: String,
    pub result: Result<B, String>,
}

/// Whether `item` is what a decoded payload gives the caller: the task's event, if the
/// record gives one, or the decode failure, which does not end the stream.
pub open spec fn item_for<T: StreamTask>(
    task: &T,
    decoded: Decoded<T::ResponseBody>,
    item: Option<Result<T::Output, Error>>,
) -> bool {
    match decoded.result {
        Ok(body) => match item {
            None => !task.gives_event(body),
            Some(Ok(event)) => task.gives_event(body) && task.is_event_for(body, event),
            Some(Err(_)) => false,
        },
        Err(cause) => item == Some(
            Err::<T::Output, Error>(
                Error::InvalidStream { deserialization_error: cause, payload: decoded.payload },
            ),
        ),
    }
}

/// Turns the outcome of decoding one payload into the item for the caller, if any.
pub fn stream_item<T: StreamTask>(task: &T, decoded: Decoded<T::ResponseBody>) -> (r: Option<
    Result<T::Output, Error>,
>)
    ensures
        item_for(task, decoded, r),
{
    let Decoded { payload, result } = decoded;
    match result {
        Ok(body) => match task.body_to_output(body) {
            Some(event) => Some(Ok(event)),
            None => None,
        },
        Err(cause) => Some(Err(Error::InvalidStream { deserialization_error: cause, payload })),
    }
}

/// The items handed out, in order, given what each payload gave.
pub open spec fn stream_items<X>(outcomes: Seq<Option<X>>) -> Seq<X>
    decreases outcomes.len(),
{
    if outcomes.len() == 0 {
        Seq::empty()
    } else {
        stream_items(outcomes.drop_last()) + match outcomes.last() {
            Some(item) => seq![item],
            None => Seq::empty(),
        }
    }
}

/// For each item handed out, the position of the payload it came from.
pub open spec fn item_sources<X>(outcomes: Seq<Option<X>>) -> Seq<int>
    decreases outcomes.len(),
{
    if outcomes.len() == 0 {
        Seq::empty()
    } else {
        item_sources(outcomes.drop_last()) + match outcomes.last() {
            Some(_) => seq![outcomes.len() - 1],
            None => Seq::empty(),
        }
    }
}

/// Items come out in the order of the payloads they come from: each item is the one its
/// payload gave, and the positions of their payloads strictly increase.
pub proof fn lemma_items_keep_order<X>(outcomes: Seq<Option<X>>)
    ensures
        item_sources(outcomes).len() == stream_items(outcomes).len(),
        forall|k: int|
            0 <= k < stream_items(outcomes).len() ==> {
                let i = #[trigger] item_sources(outcomes)[k];
                &&& 0 <= i < outcomes.len()
                &&& outcomes[i] == Some(stream_items(outcomes)[k])
            },
        forall|k: int, l: int|
            0 <= k < l < item_sources(outcomes).len() ==> #[trigger] item_sources(outcomes)[k]
                < #[trigger] item_sources(outcomes)[l],
    decreases outcomes.len(),
{
    if outcomes.len() > 0 {
        let init = outcomes.drop_last();
        lemma_items_keep_order(init);
        let items = stream_items(outcomes);
        let sources = item_sources(outcomes);
        let n = stream_items(init).len();
        assert forall|k: int| 0 <= k < items.len() implies {
            let i = #[trigger] sources[k];
            &&& 0 <= i < outcomes.len()
            &&& outcomes[i] == Some(items[k])
        } by {
            if k < n {
                assert(sources[k] == item_sources(init)[k]);
                assert(items[k] == stream_items(init)[k]);
                assert(outcomes[sources[k]] == init[sources[k]]);
            }
        }
        assert forall|k: int, l: int| 0 <= k < l < sources.len() implies #[trigger] sources[k]
            < #[trigger] sources[l] by {
            if l < n {
                assert(sources[k] == item_sources(init)[k]);
                assert(sources[l] == item_sources(init)[l]);
            } else {
                assert(sources[k] == item_sources(init)[k]);
            }
        }
    }
}

/// Number of payloads that failed to decode.
pub open spec fn decode_failures<B>(decoded: Seq<Decoded<B>>) -> nat
    decreases decoded.len(),
{
    if decoded.len() == 0 {
        0
    } else {
        decode_failures(decoded.drop_last()) + if decoded.last().result is Err {
            1nat
        } else {
            0nat
        }
    }
}

/// Number of payloads that decoded to a record giving an event.
pub open spec fn events_present<T: StreamTask>(
    task: &T,
    decoded: Seq<Decoded<T::ResponseBody>>,
) -> nat
    decreases decoded.len(),
{
    if decoded.len() == 0 {
        0
    } else {
        events_present(task, decoded.drop_last()) + match decoded.last().result {
            Ok(body) => if task.gives_event(body) {
                1nat
            } else {
                0nat
            },
            Err(_) => 0nat,
        }
    }
}

/// Number of successful items.
pub open spec fn ok_items<O>(items: Seq<Result<O, Error>>) -> nat
    decreases items.len(),
{
    if items.len() == 0 {
        0
    } else {
        ok_items(items.drop_last()) + if items.last() is Ok {
            1nat
        } else {
            0nat
        }
    }
}

/// Number of failed items.
pub open spec fn failed_items<O>(items: Seq<Result<O, Error>>) -> nat
    decreases items.len(),
{
    if items.len() == 0 {
        0
    } else {
        failed_items(items.drop_last()) + if items.last() is Err {
            1nat
        } else {
            0nat
        }
    }
}

/// A payload that fails to decode costs the stream nothing else: every event that the
/// other payloads give is handed out, and each failure is one failed item.
pub proof fn lemma_decode_failures_are_not_fatal<T: StreamTask>(
    task: &T,
    decoded: Seq<Decoded<T::ResponseBody>>,
    outcomes: Seq<Option<Result<T::Output, Error>>>,
)
    requires
        outcomes.len() == decoded.len(),
        forall|i: int| 0 <= i < decoded.len() ==> item_for(task, decoded[i], #[trigger] outcomes[i]),
    ensures
        ok_items(stream_items(outcomes)) == events_present(task, decoded),
        failed_items(stream_items(outcomes)) == decode_failures(decoded),
    decreases decoded.len(),
{
    if decoded.len() > 0 {
        let init = decoded.drop_last();
        let outs = outcomes.drop_last();
        assert forall|i: int| 0 <= i < init.len() implies item_for(task, init[i], #[trigger] outs[i]) by {
            assert(init[i] == decoded[i]);
            assert(outs[i] == outcomes[i]);
        }
        lemma_decode_failures_are_not_fatal(task, init, outs);
        assert(item_for(task, decoded.last(), outcomes.last()));
        let items = stream_items(outcomes);
        match outcomes.last() {
            Some(item) => {
                assert(items.drop_last() =~= stream_items(outs));
            },
            None => {
                assert(items =~= stream_items(outs));
            },
        }
    }
}

/// The end marker gives no payload and ends the stream: what a run of frames holding it
/// gives is what the frames before it give.
pub proof fn lemma_end_marker_ends_stream(frames: Seq<Seq<u8>>, k: int)
    requires
        0 <= k < frames.len(),
        data_field(frames[k]) == Some(end_marker()),
    ensures
        scan_payloads(frames).1,
        scan_payloads(frames).0 == scan_payloads(frames.take(k)).0,
        forall|j: int|
            0 <= j < scan_payloads(frames).0.len() ==> #[trigger] scan_payloads(frames).0[j]
                != end_marker(),
    decreases k,
{
    lemma_payloads_are_not_marker(frames);
    if k > 0 {
        assert(frames.skip(1)[k - 1] == frames[k]);
        lemma_end_marker_ends_stream(frames.skip(1), k - 1);
        assert(frames.take(k).skip(1) =~= frames.skip(1).take(k - 1));
        assert(frames.take(k)[0] == frames[0]);
    }
}

proof fn lemma_payloads_are_not_marker(frames: Seq<Seq<u8>>)
    ensures
        forall|j: int|
            0 <= j < scan_payloads(frames).0.len() ==> #[trigger] scan_payloads(frames).0[j]
                != end_marker(),
    decreases frames.len(),
{
    if frames.len() > 0 {
        lemma_payloads_are_not_marker(frames.skip(1));
        match data_field(frames[0]) {
            None => {
                assert(scan_payloads(frames) == scan_payloads(frames.skip(1)));
            },
            Some(p) => {
                if p == end_marker() {
                    assert(scan_payloads(frames).0.len() == 0);
                } else {
                    let out = scan_payloads(frames).0;
                    assert forall|j: int| 0 <= j < out.len() implies #[trigger] out[j]
                        != end_marker() by {
                        if j > 0 {
                            assert(out[j] == scan_payloads(frames.skip(1)).0[j - 1]);
                        }
                    }
                }
            },
        }
    }
}


proof fn lemma_scan_append(a: Seq<Seq<u8>>, b: Seq<Seq<u8>>)
    ensures
        scan_payloads(a + b) == (if scan_payloads(a).1 {
            scan_payloads(a)
        } else {
            (scan_payloads(a).0 + scan_payloads(b).0, scan_payloads(b).1)
        }),
    decreases a.len(),
{
    if a.len() == 0 {
        assert(a + b =~= b);
        assert(Seq::<Seq<u8>>::empty() + scan_payloads(b).0 =~= scan_payloads(b).0);
    } else {
        assert((a + b)[0] == a[0]);
        assert((a + b).skip(1) =~= a.skip(1) + b);
        lemma_scan_append(a.skip(1), b);
        match data_field(a[0]) {
            None => {},
            Some(p) => {
                if p != end_marker() {
                    let rest = scan_payloads(a.skip(1));
                    if !rest.1 {
                        assert(seq![p] + (rest.0 + scan_payloads(b).0) =~= (seq![p] + rest.0)
                            + scan_payloads(b).0);
                    }
                }
            },
        }
    }
}

/// The payloads handed out, and whether the stream has ended, while the chunks are given
/// one by one to a fresh driver: once the stream has ended, later chunks give nothing.
pub open spec fn payloads_fed(chunks: Seq<Seq<u8>>) -> (Seq<Seq<u8>>, bool)
    decreases chunks.len(),
{
    if chunks.len() == 0 {
        (Seq::empty(), false)
    } else {
        let before = payloads_fed(chunks.drop_last());
        if before.1 {
            before
        } else {
            let now = scan_payloads(frames_between(concat(chunks.drop_last()), chunks.last()));
            (before.0 + now.0, now.1)
        }
    }
}

/// However the response body is split into chunks, the driver hands out the payloads of
/// the whole body's frames up to the end marker, and ends exactly when the marker came.
pub proof fn lemma_payloads_do_not_depend_on_chunking(chunks: Seq<Seq<u8>>)
    ensures
        payloads_fed(chunks) == scan_payloads(frames_of(settled(concat(chunks)))),
    decreases chunks.len(),
{
    if chunks.len() == 0 {
        let empty = Seq::<u8>::empty();
        assert(crate::sse::normalize(empty) =~= empty);
        assert(crate::sse::terminator_from(empty, 0) is None);
        assert(frames_of(settled(empty)) =~= Seq::<Seq<u8>>::empty());
    } else {
        let init = chunks.drop_last();
        lemma_payloads_do_not_depend_on_chunking(init);
        lemma_frames_grow(concat(init), chunks.last());
        lemma_scan_append(
            frames_of(settled(concat(init))),
            frames_between(concat(init), chunks.last()),
        );
    }
}


/// The payloads a fresh driver hands out, in order, for a response body given in chunks:
/// those of the whole body's frames, up to the end marker.
pub fn payloads_of_body(chunks: &Vec<Vec<u8>>) -> (r: Vec<String>)
    ensures
        string_views(r@) == texts(payloads_fed(views(chunks@)).0),
        string_views(r@) == texts(scan_payloads(frames_of(settled(concat(views(chunks@))))).0),
{
    let ghost cs = views(chunks@);
    let mut driver = StreamDriver::new();
    let mut out: Vec<String> = Vec::new();
    let mut i: usize = 0;
    proof {
        assert(cs.take(0) =~= Seq::<Seq<u8>>::empty());
        assert(string_views(out@) =~= texts(Seq::<Seq<u8>>::empty()));
    }
    while i < chunks.len()
        invariant
            cs == views(chunks@),
            i <= chunks@.len(),
            driver.wf(),
            driver.ended() == payloads_fed(cs.take(i as int)).1,
            !driver.ended() ==> driver.received() == concat(cs.take(i as int)),
            string_views(out@) == texts(payloads_fed(cs.take(i as int)).0),
        decreases chunks@.len() - i,
    {
        let ghost prev = out@;
        let ghost before = payloads_fed(cs.take(i as int));
        let mut payloads = driver.on_chunk(chunks[i].as_slice());
        let ghost got = payloads@;
        out.append(&mut payloads);
        proof {
            let next = cs.take(i + 1);
            assert(next.drop_last() =~= cs.take(i as int));
            assert(next.last() == chunks@[i as int]@);
            assert(string_views(out@) =~= string_views(prev) + string_views(got));
            if !before.1 {
                let now = scan_payloads(frames_between(concat(cs.take(i as int)), next.last()));
                assert(texts(before.0 + now.0) =~= texts(before.0) + texts(now.0));
            } else {
                assert(string_views(got) =~= Seq::<Seq<char>>::empty());
            }
        }
        i += 1;
    }
    proof {
        assert(cs.take(chunks@.len() as int) =~= cs);
        lemma_payloads_do_not_depend_on_chunking(cs);
    }
    out
}

/// The items handed out, in order, for a run of decoded payloads: each payload gives its
/// event, if its record gives one, or its decode failure, and the stream goes on after a
/// failure.
pub fn stream_outputs<T: StreamTask>(task: &T, decoded: Vec<Decoded<T::ResponseBody>>) -> (r: Vec<
    Result<T::Output, Error>,
>)
    ensures
        exists|outcomes: Seq<Option<Result<T::Output, Error>>>|
            {
                &&& outcomes.len() == decoded@.len()
                &&& forall|i: int|
                    0 <= i < decoded@.len() ==> item_for(task, decoded@[i], #[trigger] outcomes[i])
                &&& r@ == stream_items(outcomes)
            },
        ok_items(r@) == events_present(task, decoded@),
        failed_items(r@) == decode_failures(decoded@),
{
    let ghost all = decoded@;
    let mut rest = decoded;
    let mut out: Vec<Result<T::Output, Error>> = Vec::new();
    let ghost mut outcomes: Seq<Option<Result<T::Output, Error>>> = Seq::empty();
    proof {
        assert(all.skip(0) =~= all);
    }
    while rest.len() > 0
        invariant
            rest@.len() <= all.len(),
            outcomes.len() == all.len() - rest@.len(),
            rest@ == all.skip(outcomes.len() as int),
            forall|i: int| 0 <= i < outcomes.len() ==> item_for(task, all[i], #[trigger] outcomes[i]),
            out@ == stream_items(outcomes),
        decreases rest@.len(),
    {
        let ghost k = outcomes.len() as int;
        let d = rest.remove(0);
        proof {
            assert(d == all[k]);
            assert(rest@ =~= all.skip(k + 1));
        }
        let item = stream_item(task, d);
        let ghost prev = outcomes;
        proof {
            outcomes = outcomes.push(item);
            assert(outcomes.drop_last() =~= prev);
        }
        match item {
            Some(x) => {
                out.push(x);
            },
            None => {},
        }
        proof {
            assert(out@ =~= stream_items(outcomes));
        }
    }
    proof {
        lemma_decode_failures_are_not_fatal(task, all, outcomes);
    }
    out
}

} // verus!
