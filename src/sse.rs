//! Reassembly of server-sent events from a byte stream that arrives in
//! arbitrary chunks.
//!
//! Line endings are normalised (a CR LF pair counts as one LF) and a frame
//! ends at the first blank line, i.e. at the first LF LF pair of the
//! normalised text.

use vstd::prelude::*;

verus! {

/// Carriage return.
pub const CR: u8 = 13;

/// Line feed.
pub const LF: u8 = 10;

/// The text with every CR LF pair replaced by a single LF, scanning from the front.
pub open spec fn normalize(s: Seq<u8>) -> Seq<u8>
    decreases s.len(),
{
    if s.len() == 0 {
        Seq::empty()
    } else if s.len() >= 2 && s[0] == CR && s[1] == LF {
        seq![LF] + normalize(s.skip(2))
    } else {
        seq![s[0]] + normalize(s.skip(1))
    }
}

/// Whether the bytes end with a carriage return, whose meaning waits on the next byte.
pub open spec fn ends_with_cr(s: Seq<u8>) -> bool {
    s.len() > 0 && s.last() == CR
}

/// The carriage return held back at the end of `s`, if any.
pub open spec fn carry(s: Seq<u8>) -> Seq<u8> {
    if ends_with_cr(s) {
        seq![CR]
    } else {
        Seq::empty()
    }
}

/// The normalised text of everything received so far that no later byte can change.
pub open spec fn settled(s: Seq<u8>) -> Seq<u8> {
    if ends_with_cr(s) {
        normalize(s.drop_last())
    } else {
        normalize(s)
    }
}

proof fn lemma_normalize_append(p: Seq<u8>, q: Seq<u8>)
    requires
        !(ends_with_cr(p) && q.len() > 0 && q[0] == LF),
    ensures
        normalize(p + q) == normalize(p) + normalize(q),
    decreases p.len(),
{
    if p.len() == 0 {
        assert(p + q =~= q);
    } else if p.len() >= 2 && p[0] == CR && p[1] == LF {
        assert((p + q).skip(2) =~= p.skip(2) + q);
        if p.skip(2).len() > 0 {
            assert(p.skip(2).last() == p.last());
        }
        lemma_normalize_append(p.skip(2), q);
        assert(normalize(p + q) =~= normalize(p) + normalize(q));
    } else if p.len() == 1 {
        assert((p + q).skip(1) =~= q);
        if q.len() > 0 {
            assert((p + q)[1] == q[0]);
        }
        assert(p.skip(1) =~= Seq::<u8>::empty());
        assert(normalize(p.skip(1)) =~= Seq::<u8>::empty());
        assert(normalize(p) =~= seq![p[0]]);
        assert(normalize(p + q) =~= normalize(p) + normalize(q));
    } else {
        assert((p + q).skip(1) =~= p.skip(1) + q);
        assert(p.skip(1).last() == p.last());
        lemma_normalize_append(p.skip(1), q);
        assert(normalize(p + q) =~= normalize(p) + normalize(q));
    }
}

/// The settled text only grows: what arrives later extends it at the end.
pub proof fn lemma_settled_append(a: Seq<u8>, b: Seq<u8>)
    ensures
        settled(a + b) == settled(a) + settled(carry(a) + b),
        carry(a + b) == carry(carry(a) + b),
{
    let c = carry(a);
    let a0 = if ends_with_cr(a) { a.drop_last() } else { a };
    assert(a =~= a0 + c);
    assert(a + b =~= a0 + (c + b));
    assert(!ends_with_cr(a0) || c.len() > 0);
    if b.len() == 0 {
        assert(a + b =~= a);
        assert(c + b =~= c);
        if ends_with_cr(a) {
            assert(c.drop_last() =~= Seq::<u8>::empty());
        }
        assert(settled(c) =~= Seq::<u8>::empty());
        assert(settled(a + b) =~= settled(a) + settled(c + b));
    } else {
        let y = c + b;
        let y0 = if ends_with_cr(y) { y.drop_last() } else { y };
        assert((a + b).last() == y.last());
        assert(ends_with_cr(a + b) == ends_with_cr(y));
        if ends_with_cr(y) {
            assert((a + b).drop_last() =~= a0 + y0);
        } else {
            assert(a + b =~= a0 + y0);
        }
        if y0.len() > 0 && c.len() > 0 {
            assert(y0[0] == CR);
        }
        if c.len() == 0 && ends_with_cr(a0) {
            assert(false);
        }
        lemma_normalize_append(a0, y0);
        assert(carry(a + b) =~= carry(c + b));
    }
}


/// Index of the first blank-line terminator (an LF LF pair) at or after `i`.
pub open spec fn terminator_from(t: Seq<u8>, i: int) -> Option<int>
    decreases t.len() - i,
{
    if i + 1 >= t.len() {
        None
    } else if t[i] == LF && t[i + 1] == LF {
        Some(i)
    } else {
        terminator_from(t, i + 1)
    }
}

/// Whether the text holds a blank-line terminator anywhere.
pub open spec fn has_terminator(t: Seq<u8>) -> bool {
    terminator_from(t, 0) is Some
}

/// The complete frames of a normalised text, in order; each one ends with its terminator.
pub open spec fn frames_of(t: Seq<u8>) -> Seq<Seq<u8>>
    decreases t.len(),
{
    match terminator_from(t, 0) {
        Some(i) => if 0 <= i && i + 2 <= t.len() {
            seq![t.take(i + 2)] + frames_of(t.skip(i + 2))
        } else {
            Seq::empty()
        },
        None => Seq::empty(),
    }
}

/// What is left of a normalised text after its complete frames: a partial frame at most.
pub open spec fn rest_of(t: Seq<u8>) -> Seq<u8>
    decreases t.len(),
{
    match terminator_from(t, 0) {
        Some(i) => if 0 <= i && i + 2 <= t.len() {
            rest_of(t.skip(i + 2))
        } else {
            t
        },
        None => t,
    }
}

proof fn lemma_terminator_from_bounds(t: Seq<u8>, i: int)
    requires
        0 <= i,
    ensures
        terminator_from(t, i) matches Some(j) ==> i <= j && j + 2 <= t.len() && t[j as int]
            == LF && t[j + 1] == LF && forall|k: int|
            i <= k < j ==> !(#[trigger] t[k as int] == LF && t[k + 1] == LF),
        terminator_from(t, i) is None ==> forall|k: int|
            i <= k && k + 1 < t.len() ==> !(#[trigger] t[k as int] == LF && t[k + 1] == LF),
    decreases t.len() - i,
{
    if i + 1 < t.len() && !(t[i] == LF && t[i + 1] == LF) {
        lemma_terminator_from_bounds(t, i + 1);
    }
}

proof fn lemma_terminator_from_extend(t: Seq<u8>, z: Seq<u8>, i: int)
    requires
        0 <= i,
        terminator_from(t, i) is Some,
    ensures
        terminator_from(t + z, i) == terminator_from(t, i),
    decreases t.len() - i,
{
    assert((t + z)[i] == t[i]);
    assert((t + z)[i + 1] == t[i + 1]);
    if !(t[i] == LF && t[i + 1] == LF) {
        lemma_terminator_from_extend(t, z, i + 1);
    }
}

proof fn lemma_terminator_from_shift(t: Seq<u8>, s: int, k: int)
    requires
        0 <= s <= t.len(),
        0 <= k,
    ensures
        terminator_from(t, s + k) == (match terminator_from(t.skip(s), k) {
            Some(j) => Some(j + s),
            None => None::<int>,
        }),
    decreases t.len() - s - k,
{
    if s + k + 1 < t.len() {
        assert(t.skip(s)[k as int] == t[s + k]);
        assert(t.skip(s)[k + 1] == t[s + k + 1]);
        if !(t[s + k] == LF && t[s + k + 1] == LF) {
            lemma_terminator_from_shift(t, s, k + 1);
            assert(s + (k + 1) == (s + k) + 1);
        }
    }
}

/// Frames of a text followed by more text: the frames of the first part, then the frames
/// of its remainder followed by the rest.
pub proof fn lemma_frames_append(t: Seq<u8>, z: Seq<u8>)
    ensures
        frames_of(t + z) == frames_of(t) + frames_of(rest_of(t) + z),
        rest_of(t + z) == rest_of(rest_of(t) + z),
    decreases t.len(),
{
    lemma_terminator_from_bounds(t, 0);
    match terminator_from(t, 0) {
        Some(i) => {
            lemma_terminator_from_extend(t, z, 0);
            assert((t + z).take(i + 2) =~= t.take(i + 2));
            assert((t + z).skip(i + 2) =~= t.skip(i + 2) + z);
            lemma_frames_append(t.skip(i + 2), z);
            assert(frames_of(t + z) =~= frames_of(t) + frames_of(rest_of(t) + z));
        },
        None => {
            assert(frames_of(t) =~= Seq::<Seq<u8>>::empty());
            assert(frames_of(t + z) =~= frames_of(t) + frames_of(rest_of(t) + z));
        },
    }
}


/// The frames that a chunk completes, given everything received before it.
pub open spec fn frames_between(before: Seq<u8>, chunk: Seq<u8>) -> Seq<Seq<u8>> {
    frames_of(settled(before + chunk)).skip(frames_of(settled(before)).len() as int)
}

/// The frames of everything received so far extend those of any earlier moment.
pub proof fn lemma_frames_grow(before: Seq<u8>, chunk: Seq<u8>)
    ensures
        frames_of(settled(before + chunk)) == frames_of(settled(before)) + frames_between(
            before,
            chunk,
        ),
        rest_of(settled(before + chunk)) == rest_of(
            rest_of(settled(before)) + settled(carry(before) + chunk),
        ),
{
    lemma_settled_append(before, chunk);
    lemma_frames_append(settled(before), settled(carry(before) + chunk));
    let whole = frames_of(settled(before + chunk));
    let first = frames_of(settled(before));
    assert(whole == first + whole.skip(first.len() as int));
}

proof fn lemma_settled_step(carried: Seq<u8>, c: u8)
    requires
        carried == seq![CR] || carried == Seq::<u8>::empty(),
    ensures
        settled(carried + seq![c]) == (if carried.len() == 0 {
            if c == CR {
                Seq::<u8>::empty()
            } else {
                seq![c]
            }
        } else if c == LF {
            seq![LF]
        } else if c == CR {
            seq![CR]
        } else {
            seq![CR, c]
        }),
        ends_with_cr(carried + seq![c]) == (c == CR),
{
    let s = carried + seq![c];
    assert(s.last() == c);
    assert(normalize(Seq::<u8>::empty()) =~= Seq::<u8>::empty());
    if carried.len() == 0 {
        assert(s =~= seq![c]);
        assert(s.drop_last() =~= Seq::<u8>::empty());
        assert(seq![c].skip(1) =~= Seq::<u8>::empty());
        assert(normalize(seq![c]) =~= seq![c]);
    } else {
        assert(s =~= seq![CR, c]);
        assert(s.drop_last() =~= seq![CR]);
        assert(seq![CR].skip(1) =~= Seq::<u8>::empty());
        assert(normalize(seq![CR]) =~= seq![CR]);
        assert(seq![CR, c].skip(2) =~= Seq::<u8>::empty());
        assert(seq![CR, c].skip(1) =~= seq![c]);
        assert(seq![c].skip(1) =~= Seq::<u8>::empty());
        assert(normalize(seq![c]) =~= seq![c]);
        if c == LF {
            assert(normalize(seq![CR, c]) =~= seq![LF]);
        } else if c != CR {
            assert(normalize(seq![CR, c]) =~= seq![CR, c]);
        }
    }
}

/// The contents of each buffer in a list.
pub open spec fn views(v: Seq<Vec<u8>>) -> Seq<Seq<u8>> {
    v.map_values(|f: Vec<u8>| f@)
}

/// A copy of `v[from..to]`.
fn copy_range(v: &Vec<u8>, from: usize, to: usize) -> (r: Vec<u8>)
    requires
        from <= to <= v@.len(),
    ensures
        r@ == v@.subrange(from as int, to as int),
{
    let mut r: Vec<u8> = Vec::new();
    let mut i: usize = from;
    while i < to
        invariant
            from <= i <= to <= v@.len(),
            r@ == v@.subrange(from as int, i as int),
        decreases to - i,
    {
        r.push(v[i]);
        i += 1;
    }
    r
}

/// End of the first frame that starts at `from`: the position just after the first LF LF
/// pair at or after `from`.
fn find_frame_end(t: &Vec<u8>, from: usize) -> (r: Option<usize>)
    requires
        from <= t@.len(),
    ensures
        r matches Some(e) ==> 2 <= e <= t@.len() && terminator_from(t@, from as int) == Some(
            e - 2,
        ),
        r is None ==> terminator_from(t@, from as int) is None,
{
    let mut i: usize = from;
    while t.len() - i > 1
        invariant
            from <= i <= t@.len(),
            terminator_from(t@, from as int) == terminator_from(t@, i as int),
        decreases t@.len() - i,
    {
        if t[i] == LF && t[i + 1] == LF {
            return Some(i + 2);
        }
        i += 1;
    }
    None
}

/// Reassembles frames from chunks of a byte stream.
///
/// The buffer only ever holds the start of one frame: every complete frame is handed out
/// by the call to [`SseStream::feed`] that completes it.
pub struct SseStream {
    buffer: Vec<u8>,
    pending_cr: bool,
    received: Ghost<Seq<u8>>,
}

impl SseStream {
    /// All bytes fed so far, in order.
    pub closed spec fn received(&self) -> Seq<u8> {
        self.received@
    }

    /// The text held back: what follows the last complete frame.
    pub closed spec fn buffered(&self) -> Seq<u8> {
        self.buffer@
    }

    /// The buffer holds what follows the last complete frame of the settled text, and a
    /// trailing carriage return is held back.
    pub closed spec fn wf(&self) -> bool {
        &&& self.buffer@ == rest_of(settled(self.received@))
        &&& self.pending_cr == ends_with_cr(self.received@)
    }

    /// An assembler that has received nothing.
    pub fn new() -> (s: SseStream)
        ensures
            s.wf(),
            s.received() == Seq::<u8>::empty(),
            s.buffered() == Seq::<u8>::empty(),
    {
        let s = SseStream { buffer: Vec::new(), pending_cr: false, received: Ghost(Seq::empty()) };
        proof {
            assert(normalize(Seq::<u8>::empty()) =~= Seq::<u8>::empty());
            assert(terminator_from(Seq::<u8>::empty(), 0) is None);
        }
        s
    }

    /// Takes the next chunk of the stream and returns the frames that it completes, in
    /// order; each frame ends with its blank line.
    pub fn feed(&mut self, chunk: &[u8]) -> (frames: Vec<Vec<u8>>)
        requires
            old(self).wf(),
        ensures
            final(self).wf(),
            final(self).received() == old(self).received() + chunk@,
            views(frames@) == frames_between(old(self).received(), chunk@),
            final(self).buffered() == rest_of(settled(final(self).received())),
            !has_terminator(final(self).buffered()),
            forall|k: int|
                0 <= k < frames@.len() ==> terminator_from(#[trigger] frames@[k]@, 0) == Some(
                    frames@[k]@.len() - 2,
                ),
    {
        let ghost before = self.received@;
        let mut text: Vec<u8> = Vec::new();
        std::mem::swap(&mut text, &mut self.buffer);
        let pending = append_settled(&mut text, self.pending_cr, chunk);
        proof {
            lemma_frames_grow(before, chunk@);
            lemma_settled_append(before, chunk@);
            lemma_frames_append(settled(before), settled(carry(before) + chunk@));
        }
        let (frames, rest) = split_frames(&text);
        self.buffer = rest;
        self.pending_cr = pending;
        self.received = Ghost(before + chunk@);
        proof {
            let f0 = frames_of(settled(before));
            let all = frames_of(settled(before + chunk@));
            assert(all == f0 + views(frames@));
            assert(frames_between(before, chunk@) =~= views(frames@));
            lemma_frames_are_complete(settled(before + chunk@));
            assert forall|k: int| 0 <= k < frames@.len() implies terminator_from(
                #[trigger] frames@[k]@,
                0,
            ) == Some(frames@[k]@.len() - 2) by {
                assert(frames@[k]@ == views(frames@)[k]);
                assert(all[f0.len() + k] == views(frames@)[k]);
            }
        }
        frames
    }
}

/// Appends the settled text of `chunk`, preceded by the carriage return held back if
/// `carried_cr`, and returns whether a carriage return is held back now.
fn append_settled(text: &mut Vec<u8>, carried_cr: bool, chunk: &[u8]) -> (pending: bool)
    ensures
        ({
            let carried = if carried_cr {
                seq![CR]
            } else {
                Seq::<u8>::empty()
            };
            &&& final(text)@ == old(text)@ + settled(carried + chunk@)
            &&& pending == ends_with_cr(carried + chunk@)
        }),
{
    let ghost carried = if carried_cr {
        seq![CR]
    } else {
        Seq::<u8>::empty()
    };
    let ghost start = text@;
    let mut pending = carried_cr;
    proof {
        assert(carried + chunk@.take(0) =~= carried);
        assert(normalize(Seq::<u8>::empty()) =~= Seq::<u8>::empty());
        if carried_cr {
            assert(carried.drop_last() =~= Seq::<u8>::empty());
        }
        assert(text@ =~= start + settled(carried + chunk@.take(0)));
    }
    let mut i: usize = 0;
    while i < chunk.len()
        invariant
            i <= chunk@.len(),
            text@ == start + settled(carried + chunk@.take(i as int)),
            pending == ends_with_cr(carried + chunk@.take(i as int)),
        decreases chunk@.len() - i,
    {
        let c = chunk[i];
        let ghost a = carried + chunk@.take(i as int);
        proof {
            lemma_settled_append(a, seq![c]);
            lemma_settled_step(carry(a), c);
            assert(a + seq![c] =~= carried + chunk@.take(i + 1));
        }
        if pending {
            if c == LF {
                text.push(LF);
                pending = false;
            } else if c == CR {
                text.push(CR);
            } else {
                text.push(CR);
                text.push(c);
                pending = false;
            }
        } else if c == CR {
            pending = true;
        } else {
            text.push(c);
        }
        proof {
            assert(text@ =~= start + settled(carried + chunk@.take(i + 1)));
        }
        i += 1;
    }
    proof {
        assert(chunk@.take(chunk@.len() as int) =~= chunk@);
    }
    pending
}

/// The complete frames of a normalised text, and what follows them.
fn split_frames(text: &Vec<u8>) -> (r: (Vec<Vec<u8>>, Vec<u8>))
    ensures
        views(r.0@) == frames_of(text@),
        r.1@ == rest_of(text@),
{
    let ghost whole = text@;
    let mut frames: Vec<Vec<u8>> = Vec::new();
    let mut start: usize = 0;
    proof {
        assert(whole.skip(0) =~= whole);
        assert(views(frames@) + frames_of(whole) =~= frames_of(whole));
    }
    loop
        invariant
            text@ == whole,
            start <= whole.len(),
            frames_of(whole) == views(frames@) + frames_of(whole.skip(start as int)),
            rest_of(whole) == rest_of(whole.skip(start as int)),
        ensures
            start <= whole.len(),
            frames_of(whole) == views(frames@),
            rest_of(whole) == whole.skip(start as int),
        decreases whole.len() - start,
    {
        proof {
            lemma_terminator_from_shift(whole, start as int, 0);
        }
        match find_frame_end(text, start) {
            Some(stop) => {
                let ghost end = stop - 2;
                proof {
                    lemma_terminator_from_bounds(whole, start as int);
                }
                let frame = copy_range(text, start, stop);
                proof {
                    let t = whole.skip(start as int);
                    let j = end - start;
                    assert(t.take(j + 2) =~= frame@);
                    assert(t.skip(j + 2) =~= whole.skip(end + 2));
                    assert(frames_of(t) == seq![frame@] + frames_of(whole.skip(end + 2)));
                }
                let ghost prev = frames@;
                frames.push(frame);
                proof {
                    assert(frames@ =~= prev.push(frame));
                    assert(views(frames@) =~= views(prev) + seq![frame@]);
                    assert(frames_of(whole) =~= views(frames@) + frames_of(whole.skip(end + 2)));
                }
                start = stop;
            },
            None => {
                proof {
                    let t = whole.skip(start as int);
                    assert(frames_of(t) =~= Seq::<Seq<u8>>::empty());
                    assert(rest_of(t) == t);
                    assert(frames_of(whole) =~= views(frames@));
                }
                break ;
            },
        }
    }
    let rest = copy_range(text, start, text.len());
    proof {
        assert(whole.skip(start as int) =~= rest@);
    }
    (frames, rest)
}


/// The bytes of a list of chunks, one after the other.
pub open spec fn concat(chunks: Seq<Seq<u8>>) -> Seq<u8>
    decreases chunks.len(),
{
    if chunks.len() == 0 {
        Seq::empty()
    } else {
        concat(chunks.drop_last()) + chunks.last()
    }
}

/// The frames handed out, in order, while the chunks are fed one by one to a fresh assembler.
pub open spec fn frames_fed(chunks: Seq<Seq<u8>>) -> Seq<Seq<u8>>
    decreases chunks.len(),
{
    if chunks.len() == 0 {
        Seq::empty()
    } else {
        frames_fed(chunks.drop_last()) + frames_between(concat(chunks.drop_last()), chunks.last())
    }
}

/// However a byte stream is split into chunks, the frames handed out are those of the
/// whole stream fed as one chunk.
pub proof fn lemma_chunking_does_not_matter(chunks: Seq<Seq<u8>>)
    ensures
        frames_fed(chunks) == frames_between(Seq::empty(), concat(chunks)),
        frames_fed(chunks) == frames_of(settled(concat(chunks))),
    decreases chunks.len(),
{
    let empty = Seq::<u8>::empty();
    assert(normalize(empty) =~= empty);
    assert(terminator_from(empty, 0) is None);
    assert(frames_of(settled(empty)) =~= Seq::<Seq<u8>>::empty());
    assert(empty + concat(chunks) =~= concat(chunks));
    let all = frames_of(settled(concat(chunks)));
    assert(all.skip(0) =~= all);
    if chunks.len() > 0 {
        let init = chunks.drop_last();
        lemma_chunking_does_not_matter(init);
        lemma_frames_grow(concat(init), chunks.last());
    }
}

/// The frames a fresh assembler hands out, in order, when given the chunks one by one.
pub fn frames_of_chunks(chunks: &Vec<Vec<u8>>) -> (r: Vec<Vec<u8>>)
    ensures
        views(r@) == frames_fed(views(chunks@)),
        views(r@) == frames_of(settled(concat(views(chunks@)))),
{
    let ghost cs = views(chunks@);
    let mut sse = SseStream::new();
    let mut out: Vec<Vec<u8>> = Vec::new();
    let mut i: usize = 0;
    proof {
        assert(cs.take(0) =~= Seq::<Seq<u8>>::empty());
        assert(views(out@) =~= Seq::<Seq<u8>>::empty());
    }
    while i < chunks.len()
        invariant
            cs == views(chunks@),
            i <= chunks@.len(),
            sse.wf(),
            sse.received() == concat(cs.take(i as int)),
            views(out@) == frames_fed(cs.take(i as int)),
        decreases chunks@.len() - i,
    {
        let ghost prev = out@;
        let mut frames = sse.feed(chunks[i].as_slice());
        let ghost got = frames@;
        out.append(&mut frames);
        proof {
            let next = cs.take(i + 1);
            assert(next.drop_last() =~= cs.take(i as int));
            assert(next.last() == chunks@[i as int]@);
            assert(views(out@) =~= views(prev) + views(got));
        }
        i += 1;
    }
    proof {
        assert(cs.take(chunks@.len() as int) =~= cs);
        lemma_chunking_does_not_matter(cs);
    }
    out
}

proof fn lemma_first_terminator_in_prefix(t: Seq<u8>, n: int, m: int, j: int)
    requires
        0 <= m,
        terminator_from(t, m) == Some(j),
        j + 2 <= n <= t.len(),
    ensures
        terminator_from(t.take(n), m) == Some(j),
    decreases j - m,
{
    lemma_terminator_from_bounds(t, m);
    assert(t.take(n)[m] == t[m]);
    assert(t.take(n)[m + 1] == t[m + 1]);
    if !(t[m] == LF && t[m + 1] == LF) {
        lemma_first_terminator_in_prefix(t, n, m + 1, j);
    }
}

/// Frames are complete and whole: each ends with a blank line and holds no earlier one,
/// nothing comes out of text without a terminator, and what stays behind holds none.
pub proof fn lemma_frames_are_complete(t: Seq<u8>)
    ensures
        !has_terminator(t) ==> frames_of(t).len() == 0,
        forall|k: int|
            0 <= k < frames_of(t).len() ==> terminator_from(#[trigger] frames_of(t)[k], 0) == Some(
                frames_of(t)[k].len() - 2,
            ),
        !has_terminator(rest_of(t)),
    decreases t.len(),
{
    lemma_terminator_from_bounds(t, 0);
    match terminator_from(t, 0) {
        Some(i) => {
            let rest = t.skip(i + 2);
            lemma_frames_are_complete(rest);
            lemma_first_terminator_in_prefix(t, i + 2, 0, i);
            assert forall|k: int| 0 <= k < frames_of(t).len() implies terminator_from(
                #[trigger] frames_of(t)[k],
                0,
            ) == Some(frames_of(t)[k].len() - 2) by {
                if k > 0 {
                    assert(frames_of(t)[k] == frames_of(rest)[k - 1]);
                }
            }
        },
        None => {},
    }
}

/// The assembler never hands out a frame while the text received holds no blank line.
pub proof fn lemma_no_frame_before_terminator(received: Seq<u8>)
    ensures
        !has_terminator(settled(received)) ==> frames_of(settled(received)).len() == 0,
        !has_terminator(rest_of(settled(received))),
{
    lemma_frames_are_complete(settled(received));
}

/// The "data: " field prefix.
pub open spec fn data_prefix() -> Seq<u8> {
    seq![100u8, 97, 116, 97, 58, 32]
}

/// Length of the first line: the bytes before the first LF.
pub open spec fn line_len(t: Seq<u8>) -> nat
    decreases t.len(),
{
    if t.len() == 0 || t[0] == LF {
        0
    } else {
        1 + line_len(t.skip(1))
    }
}

/// The first line without its ending; a CR before the LF belongs to the ending.
pub open spec fn first_line(t: Seq<u8>) -> Seq<u8> {
    let e = line_len(t) as int;
    if e < t.len() && e > 0 && t[e - 1] == CR {
        t.take(e - 1)
    } else {
        t.take(e)
    }
}

/// The value of the first line of a frame that starts with the data field prefix.
pub open spec fn data_field(t: Seq<u8>) -> Option<Seq<u8>>
    decreases t.len(),
{
    let line = first_line(t);
    let e = line_len(t);
    if t.len() == 0 {
        None
    } else if line.len() >= 6 && line.take(6) == data_prefix() {
        Some(line.skip(6))
    } else if e < t.len() {
        data_field(t.skip(e + 1 as int))
    } else {
        None
    }
}

/// Length of the line that starts at `p`.
fn line_length(t: &Vec<u8>, p: usize) -> (n: usize)
    requires
        p <= t@.len(),
    ensures
        n == line_len(t@.skip(p as int)),
        p + n <= t@.len(),
{
    let mut j: usize = p;
    proof {
        assert(t@.skip(p as int) =~= t@.skip(j as int));
    }
    while j < t.len() && t[j] != LF
        invariant
            p <= j <= t@.len(),
            line_len(t@.skip(p as int)) == (j - p) + line_len(t@.skip(j as int)),
        decreases t@.len() - j,
    {
        proof {
            assert(t@.skip(j as int)[0] == t@[j as int]);
            assert(t@.skip(j as int).skip(1) =~= t@.skip(j + 1));
        }
        j += 1;
    }
    proof {
        if j < t.len() {
            assert(t@.skip(j as int)[0] == LF);
        }
    }
    j - p
}

/// The payload of a frame: the value of its first data field, if it has one.
pub fn data_of(frame: &Vec<u8>) -> (r: Option<Vec<u8>>)
    ensures
        r matches Some(v) ==> data_field(frame@) == Some(v@),
        r is None ==> data_field(frame@) is None,
{
    let mut p: usize = 0;
    proof {
        assert(frame@.skip(0) =~= frame@);
    }
    while p < frame.len()
        invariant
            p <= frame@.len(),
            data_field(frame@) == data_field(frame@.skip(p as int)),
        decreases frame@.len() - p,
    {
        let ghost t = frame@.skip(p as int);
        let e = line_length(frame, p);
        let mut end = p + e;
        if e > 0 && p + e < frame.len() && frame[p + e - 1] == CR {
            end = end - 1;
        }
        proof {
            assert(first_line(t) =~= frame@.subrange(p as int, end as int));
        }
        let is_data = end - p >= 6 && frame[p] == 100 && frame[p + 1] == 97 && frame[p + 2] == 116
            && frame[p + 3] == 97 && frame[p + 4] == 58 && frame[p + 5] == 32;
        proof {
            let line = first_line(t);
            if line.len() >= 6 {
                assert(is_data == (line.take(6) =~= data_prefix()));
            }
        }
        if is_data {
            let v = copy_range(frame, p + 6, end);
            proof {
                assert(first_line(t).skip(6) =~= v@);
            }
            return Some(v);
        }
        if p + e == frame.len() {
            return None;
        }
        proof {
            assert(t.skip(e + 1) =~= frame@.skip(p + e + 1));
        }
        p = p + e + 1;
    }
    proof {
        assert(frame@.skip(p as int).len() == 0);
    }
    None
}

} // verus!
