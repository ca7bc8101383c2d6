//! Incremental frame reassembly from a chunked byte stream.
//!
//! The host reads the serial link in chunks of arbitrary size: one frame
//! may span several chunks and one chunk may carry several frames.  The
//! decoder accumulates bytes until a literal zero terminator, hands the
//! accumulated body to the frame decoder, and resets.  If the accumulator
//! fills without a terminator the accumulation is discarded, so memory
//! stays bounded and scanning resynchronizes at the next terminator.
//!
//! The decoder's behaviour is a pure fold over the byte stream
//! (`run_buf`/`emitted`), so the records it emits can never depend on how
//! the stream was cut into chunks.

use vstd::prelude::*;
use crate::frame::{decode_frame, decode_frame_spec};
use crate::record::{record_wf, Thermistor, ThermistorView};

verus! {

/// Size of the accumulation window: a frame body longer than this
/// (terminator excluded) is discarded as noise.
pub const ACCUMULATOR_CAPACITY: usize = 512;

/// What one accumulated byte does to the accumulation buffer: a zero
/// terminates the frame and empties the buffer; a byte that would overflow
/// the window empties it too; any other byte is appended.
pub open spec fn step_buf(buf: Seq<u8>, b: u8) -> Seq<u8> {
    if b == 0 {
        Seq::empty()
    } else if buf.len() >= ACCUMULATOR_CAPACITY - 1 {
        Seq::empty()
    } else {
        buf.push(b)
    }
}

/// Buffer contents after accumulating a whole byte sequence.
pub open spec fn run_buf(buf: Seq<u8>, s: Seq<u8>) -> Seq<u8>
    decreases s.len(),
{
    if s.len() == 0 {
        buf
    } else {
        run_buf(step_buf(buf, s[0]), s.skip(1))
    }
}

/// Records emitted while accumulating a byte sequence: at each terminator,
/// the frame body gathered so far is decoded; bodies the frame decoder
/// rejects are dropped.
pub open spec fn emitted(buf: Seq<u8>, s: Seq<u8>) -> Seq<ThermistorView>
    decreases s.len(),
{
    if s.len() == 0 {
        Seq::empty()
    } else {
        let rest = emitted(step_buf(buf, s[0]), s.skip(1));
        if s[0] == 0 {
            match decode_frame_spec(buf) {
                Option::Some(r) => seq![r] + rest,
                Option::None => rest,
            }
        } else {
            rest
        }
    }
}

/// Accumulating a concatenation is accumulating the pieces in turn.
pub proof fn lemma_run_buf_concat(buf: Seq<u8>, a: Seq<u8>, b: Seq<u8>)
    ensures
        run_buf(buf, a + b) == run_buf(run_buf(buf, a), b),
    decreases a.len(),
{
    if a.len() == 0 {
        assert(a + b =~= b);
    } else {
        assert((a + b).skip(1) =~= a.skip(1) + b);
        lemma_run_buf_concat(step_buf(buf, a[0]), a.skip(1), b);
    }
}

/// The records emitted over a concatenation are the records emitted over
/// the first piece followed by those emitted over the second, in order.
pub proof fn lemma_emitted_concat(buf: Seq<u8>, a: Seq<u8>, b: Seq<u8>)
    ensures
        emitted(buf, a + b) =~= emitted(buf, a) + emitted(run_buf(buf, a), b),
    decreases a.len(),
{
    if a.len() == 0 {
        assert(a + b =~= b);
    } else {
        assert((a + b).skip(1) =~= a.skip(1) + b);
        lemma_emitted_concat(step_buf(buf, a[0]), a.skip(1), b);
    }
}

/// Records emitted when a stream is fed as a sequence of chunks, each
/// chunk accumulated from the buffer state the previous chunks left.
pub open spec fn emitted_chunks(buf: Seq<u8>, chunks: Seq<Seq<u8>>) -> Seq<ThermistorView>
    decreases chunks.len(),
{
    if chunks.len() == 0 {
        Seq::empty()
    } else {
        emitted(buf, chunks[0]) + emitted_chunks(run_buf(buf, chunks[0]), chunks.skip(1))
    }
}

/// Chunk boundaries never affect the decoded record sequence: feeding any
/// chunking of a byte stream emits exactly the records that feeding the
/// whole stream at once emits, in the same order.
pub proof fn lemma_chunking_invariance(buf: Seq<u8>, chunks: Seq<Seq<u8>>)
    ensures
        emitted_chunks(buf, chunks) =~= emitted(buf, chunks.flatten()),
    decreases chunks.len(),
{
    if chunks.len() == 0 {
        assert(chunks.flatten() =~= Seq::<u8>::empty());
    } else {
        assert(chunks.flatten() =~= chunks[0] + chunks.skip(1).flatten());
        lemma_chunking_invariance(run_buf(buf, chunks[0]), chunks.skip(1));
        lemma_emitted_concat(buf, chunks[0], chunks.skip(1).flatten());
    }
}

/// Accumulating one more byte after a prefix.
proof fn lemma_run_buf_snoc(buf: Seq<u8>, s: Seq<u8>, i: int)
    requires
        0 <= i < s.len(),
    ensures
        run_buf(buf, s.take(i + 1)) == step_buf(run_buf(buf, s.take(i)), s[i]),
        s[i] == 0 ==> emitted(buf, s.take(i + 1)) =~= emitted(buf, s.take(i)) + (match
        decode_frame_spec(run_buf(buf, s.take(i))) {
            Option::Some(r) => seq![r],
            Option::None => Seq::<ThermistorView>::empty(),
        }),
        s[i] != 0 ==> emitted(buf, s.take(i + 1)) =~= emitted(buf, s.take(i)),
{
    assert(s.take(i + 1) =~= s.take(i) + seq![s[i]]);
    lemma_run_buf_concat(buf, s.take(i), seq![s[i]]);
    lemma_emitted_concat(buf, s.take(i), seq![s[i]]);
    assert(seq![s[i]].skip(1) =~= Seq::<u8>::empty());
    let cur = run_buf(buf, s.take(i));
    assert(seq![s[i]][0] == s[i]);
    assert(run_buf(step_buf(cur, s[i]), Seq::<u8>::empty()) == step_buf(cur, s[i]));
    assert(emitted(step_buf(cur, s[i]), Seq::<u8>::empty()) == Seq::<ThermistorView>::empty());
    assert(emitted(cur, seq![s[i]]) =~= (if s[i] == 0 {
        match decode_frame_spec(cur) {
            Option::Some(r) => seq![r],
            Option::None => Seq::<ThermistorView>::empty(),
        }
    } else {
        Seq::<ThermistorView>::empty()
    }));
}

/// Host-side incremental decoder: accumulates the body of the frame in
/// flight between feed calls.
pub struct StreamDecoder {
    buf: Vec<u8>,
}

impl View for StreamDecoder {
    type V = Seq<u8>;

    closed spec fn view(&self) -> Seq<u8> {
        self.buf@
    }
}

/// Answer of one feed call: everything consumed without an event, or the
/// index of the first unconsumed byte after a frame terminator (good or
/// undecodable) or after an accumulator overflow.
pub enum FeedResult {
    /// The whole chunk was accumulated; no terminator, no overflow.
    Consumed,
    /// The accumulator filled without a terminator; the accumulation was
    /// discarded.  The unconsumed suffix of the chunk starts here.
    OverFull(usize),
    /// A terminator arrived but the accumulated body did not decode; the
    /// frame was dropped.  The unconsumed suffix of the chunk starts here.
    DeserError(usize),
    /// A terminator arrived and the accumulated body decoded to this
    /// record.  The unconsumed suffix of the chunk starts here.
    Success(Thermistor, usize),
}

/// How many bytes of the chunk a feed call consumed.
pub open spec fn feed_consumed(res: FeedResult, chunk_len: int) -> int {
    match res {
        FeedResult::Consumed => chunk_len,
        FeedResult::OverFull(k) => k as int,
        FeedResult::DeserError(k) => k as int,
        FeedResult::Success(_, k) => k as int,
    }
}

/// A byte position at which a feed call stops: a terminator, or a byte
/// that overflows the window that `buf_len` bytes already occupy.
pub open spec fn event_at(buf_len: int, chunk: Seq<u8>, i: int) -> bool {
    chunk[i] == 0 || buf_len + i >= ACCUMULATOR_CAPACITY - 1
}

/// No feed event strictly before position `j`.
pub open spec fn no_event_before(buf_len: int, chunk: Seq<u8>, j: int) -> bool {
    forall|i: int| 0 <= i < j ==> !event_at(buf_len, chunk, i)
}

impl StreamDecoder {
    /// The accumulated body always leaves room to notice an overflow.
    pub open spec fn wf(&self) -> bool {
        self@.len() <= ACCUMULATOR_CAPACITY - 1
    }

    /// A fresh decoder with an empty accumulator.
    pub fn new() -> (d: StreamDecoder)
        ensures
            d@ == Seq::<u8>::empty(),
            d.wf(),
    {
        StreamDecoder { buf: Vec::new() }
    }

    /// Feeds one chunk, stopping at the first event.  The consumed prefix
    /// advances the accumulator exactly as the byte-stream fold does, and
    /// the emitted records over that prefix are exactly the returned
    /// record (on success) or none; the caller re-feeds the unconsumed
    /// suffix.
    pub fn feed(&mut self, chunk: &[u8]) -> (res: FeedResult)
        requires
            old(self).wf(),
        ensures
            final(self).wf(),
            0 <= feed_consumed(res, chunk@.len() as int) <= chunk@.len(),
            final(self)@ == run_buf(old(self)@, chunk@.take(feed_consumed(res, chunk@.len() as int))),
            emitted(old(self)@, chunk@.take(feed_consumed(res, chunk@.len() as int))) =~= match res {
                FeedResult::Success(rec, _) => seq![rec@],
                _ => Seq::<ThermistorView>::empty(),
            },
            res is Consumed ==> no_event_before(old(self)@.len() as int, chunk@, chunk@.len() as int),
            res matches FeedResult::OverFull(k) ==> 1 <= k <= chunk@.len() && chunk@[k - 1] != 0
                && old(self)@.len() + k - 1 == ACCUMULATOR_CAPACITY - 1 && no_event_before(
                old(self)@.len() as int,
                chunk@,
                k - 1,
            ),
            res matches FeedResult::DeserError(k) ==> 1 <= k <= chunk@.len() && chunk@[k - 1] == 0
                && decode_frame_spec(old(self)@ + chunk@.take(k - 1)) is None && no_event_before(
                old(self)@.len() as int,
                chunk@,
                k - 1,
            ),
            res matches FeedResult::Success(rec, k) ==> 1 <= k <= chunk@.len() && chunk@[k - 1] == 0
                && decode_frame_spec(old(self)@ + chunk@.take(k - 1)) == Some(rec@) && record_wf(
                rec@,
            ) && no_event_before(old(self)@.len() as int, chunk@, k - 1),
    {
        let ghost buf0 = self.buf@;
        let mut i: usize = 0;
        while i < chunk.len()
            invariant
                buf0 == old(self)@,
                self.buf@.len() <= ACCUMULATOR_CAPACITY - 1,
                0 <= i <= chunk@.len(),
                self.buf@ == buf0 + chunk@.take(i as int),
                self.buf@ == run_buf(buf0, chunk@.take(i as int)),
                emitted(buf0, chunk@.take(i as int)) =~= Seq::<ThermistorView>::empty(),
                no_event_before(buf0.len() as int, chunk@, i as int),
            decreases chunk@.len() - i,
        {
            let b = chunk[i];
            if b == 0 {
                let rec = decode_frame(self.buf.as_slice());
                self.buf.clear();
                proof {
                    lemma_run_buf_snoc(buf0, chunk@, i as int);
                    let ghost cur = run_buf(buf0, chunk@.take(i as int));
                    assert(chunk@[i as int] == 0);
                    assert(self.buf@ =~= Seq::<u8>::empty());
                    assert(run_buf(buf0, chunk@.take(i as int + 1)) == step_buf(cur, 0u8));
                    assert(step_buf(cur, 0u8) =~= Seq::<u8>::empty());
                    assert(emitted(buf0, chunk@.take(i as int + 1)) =~= (match decode_frame_spec(
                        cur,
                    ) {
                        Option::Some(r) => seq![r],
                        Option::None => Seq::<ThermistorView>::empty(),
                    }));
                }
                return match rec {
                    Some(r) => FeedResult::Success(r, i + 1),
                    None => FeedResult::DeserError(i + 1),
                };
            } else if self.buf.len() >= ACCUMULATOR_CAPACITY - 1 {
                self.buf.clear();
                proof {
                    lemma_run_buf_snoc(buf0, chunk@, i as int);
                }
                return FeedResult::OverFull(i + 1);
            } else {
                self.buf.push(b);
                proof {
                    lemma_run_buf_snoc(buf0, chunk@, i as int);
                    assert(buf0 + chunk@.take(i as int + 1) =~= (buf0 + chunk@.take(
                        i as int,
                    )).push(b));
                }
            }
            i += 1;
        }
        proof {
            assert(chunk@.take(chunk@.len() as int) =~= chunk@);
        }
        FeedResult::Consumed
    }

    /// Feeds one chunk to completion and collects every record it
    /// completes, in emission order.
    pub fn feed_all(&mut self, chunk: &[u8]) -> (recs: Vec<Thermistor>)
        requires
            old(self).wf(),
        ensures
            final(self).wf(),
            final(self)@ == run_buf(old(self)@, chunk@),
            recs@.map_values(|r: Thermistor| r@) =~= emitted(old(self)@, chunk@),
    {
        let ghost buf0 = self.buf@;
        let mut recs: Vec<Thermistor> = Vec::new();
        let mut i: usize = 0;
        while i < chunk.len()
            invariant
                buf0 == old(self)@,
                self.wf(),
                0 <= i <= chunk@.len(),
                self.buf@ == run_buf(buf0, chunk@.take(i as int)),
                recs@.map_values(|r: Thermistor| r@) =~= emitted(buf0, chunk@.take(i as int)),
            decreases chunk@.len() - i,
        {
            let b = chunk[i];
            proof {
                lemma_run_buf_snoc(buf0, chunk@, i as int);
            }
            if b == 0 {
                let rec = decode_frame(self.buf.as_slice());
                self.buf.clear();
                match rec {
                    Some(r) => {
                        recs.push(r);
                        proof {
                            assert(recs@.map_values(|r: Thermistor| r@) =~= emitted(
                                buf0,
                                chunk@.take(i as int + 1),
                            ));
                        }
                    },
                    None => {},
                }
            } else if self.buf.len() >= ACCUMULATOR_CAPACITY - 1 {
                self.buf.clear();
            } else {
                self.buf.push(b);
                proof {
                    assert(run_buf(buf0, chunk@.take(i as int)).push(b) =~= self.buf@);
                }
            }
            i += 1;
        }
        proof {
            assert(chunk@.take(chunk@.len() as int) =~= chunk@);
        }
        recs
    }
}

} // verus!
