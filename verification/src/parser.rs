//! The stream parser of one traffic direction: a frame decoder and the
//! message classifier, composed.
//!
//! `ingest` feeds a chunk into the decoder and drains every complete frame
//! through the classifier in arrival order — order matters, because
//! correlation depends on requests being classified before their responses.
//! It never blocks and never refuses partial data; a malformed frame
//! disables this direction's parsing for the rest of the session while the
//! byte relay around it goes on untouched.

use vstd::prelude::*;

use crate::decoder::FrameDecoder;
use crate::stats::classify;
use crate::stats::classify_record;
use crate::stats::classify_table;
use crate::stats::CorrTable;
use crate::stats::Direction;
use crate::stats::StatsRecord;
use crate::wire::header_of;
use crate::wire::le32_at;
use crate::wire::lemma_le32_take;
use crate::wire::lemma_stream_extend;
use crate::wire::stream_frames;
use crate::wire::stream_poisoned;
use crate::wire::stream_rest;

verus! {

/// The statistics records produced by classifying `frames`, in order,
/// starting from correlation table `t` with capacity `cap`, all at arrival
/// time `now`.
pub open spec fn run_records(
    dir: Direction,
    frames: Seq<Seq<u8>>,
    now: u64,
    t: Seq<(u32, u64)>,
    cap: nat,
) -> Seq<StatsRecord>
    decreases frames.len(),
{
    if frames.len() == 0 {
        Seq::empty()
    } else {
        let h = header_of(frames[0]);
        seq![classify_record(dir, h, now, t)] + run_records(
            dir,
            frames.drop_first(),
            now,
            classify_table(dir, h, now, t, cap),
            cap,
        )
    }
}

/// The correlation table left behind by classifying `frames` in order.
pub open spec fn run_table(
    dir: Direction,
    frames: Seq<Seq<u8>>,
    now: u64,
    t: Seq<(u32, u64)>,
    cap: nat,
) -> Seq<(u32, u64)>
    decreases frames.len(),
{
    if frames.len() == 0 {
        t
    } else {
        run_table(
            dir,
            frames.drop_first(),
            now,
            classify_table(dir, header_of(frames[0]), now, t, cap),
            cap,
        )
    }
}

/// Law (one record per frame): classifying a sequence of frames emits
/// exactly one statistics record for each.
pub proof fn lemma_one_record_per_frame(
    dir: Direction,
    frames: Seq<Seq<u8>>,
    now: u64,
    t: Seq<(u32, u64)>,
    cap: nat,
)
    ensures
        run_records(dir, frames, now, t, cap).len() == frames.len(),
    decreases frames.len(),
{
    if frames.len() > 0 {
        let h = header_of(frames[0]);
        lemma_one_record_per_frame(
            dir,
            frames.drop_first(),
            now,
            classify_table(dir, h, now, t, cap),
            cap,
        );
    }
}

/// Classifying one more frame extends the record sequence by exactly one
/// record, computed against the table the earlier frames left behind.
pub proof fn lemma_run_push(
    dir: Direction,
    frames: Seq<Seq<u8>>,
    f: Seq<u8>,
    now: u64,
    t: Seq<(u32, u64)>,
    cap: nat,
)
    ensures
        run_records(dir, frames.push(f), now, t, cap) == run_records(dir, frames, now, t, cap).push(
            classify_record(dir, header_of(f), now, run_table(dir, frames, now, t, cap)),
        ),
        run_table(dir, frames.push(f), now, t, cap) == classify_table(
            dir,
            header_of(f),
            now,
            run_table(dir, frames, now, t, cap),
            cap,
        ),
    decreases frames.len(),
{
    let p = frames.push(f);
    if frames.len() == 0 {
        let tf = classify_table(dir, header_of(f), now, t, cap);
        assert(p[0] == f);
        assert(p.drop_first() =~= Seq::<Seq<u8>>::empty());
        assert(run_records(dir, p.drop_first(), now, tf, cap) == Seq::<StatsRecord>::empty());
        assert(run_table(dir, p.drop_first(), now, tf, cap) == tf);
        assert(run_records(dir, frames, now, t, cap) == Seq::<StatsRecord>::empty());
        assert(run_table(dir, frames, now, t, cap) == t);
        assert(run_records(dir, p, now, t, cap) =~= run_records(dir, frames, now, t, cap).push(
            classify_record(dir, header_of(f), now, run_table(dir, frames, now, t, cap)),
        ));
    } else {
        let h = header_of(frames[0]);
        let t2 = classify_table(dir, h, now, t, cap);
        assert(p[0] == frames[0]);
        assert(p.drop_first() =~= frames.drop_first().push(f));
        lemma_run_push(dir, frames.drop_first(), f, now, t2, cap);
        assert(run_records(dir, p, now, t, cap) =~= run_records(dir, frames, now, t, cap).push(
            classify_record(dir, header_of(f), now, run_table(dir, frames, now, t, cap)),
        ));
        assert(run_table(dir, p, now, t, cap) == classify_table(
            dir,
            header_of(f),
            now,
            run_table(dir, frames, now, t, cap),
            cap,
        ));
    }
}

/// Classifying two frame sequences one after the other equals classifying
/// their concatenation.
pub proof fn lemma_run_concat(
    dir: Direction,
    fs1: Seq<Seq<u8>>,
    fs2: Seq<Seq<u8>>,
    now: u64,
    t: Seq<(u32, u64)>,
    cap: nat,
)
    ensures
        run_records(dir, fs1 + fs2, now, t, cap) == run_records(dir, fs1, now, t, cap)
            + run_records(dir, fs2, now, run_table(dir, fs1, now, t, cap), cap),
        run_table(dir, fs1 + fs2, now, t, cap) == run_table(
            dir,
            fs2,
            now,
            run_table(dir, fs1, now, t, cap),
            cap,
        ),
    decreases fs1.len(),
{
    if fs1.len() == 0 {
        assert(fs1 + fs2 =~= fs2);
        assert(run_records(dir, fs1, now, t, cap) + run_records(dir, fs2, now, t, cap)
            =~= run_records(dir, fs2, now, t, cap));
    } else {
        let h = header_of(fs1[0]);
        let t2 = classify_table(dir, h, now, t, cap);
        assert((fs1 + fs2)[0] == fs1[0]);
        assert((fs1 + fs2).drop_first() =~= fs1.drop_first() + fs2);
        lemma_run_concat(dir, fs1.drop_first(), fs2, now, t2, cap);
        assert(run_records(dir, fs1 + fs2, now, t, cap) =~= run_records(dir, fs1, now, t, cap)
            + run_records(dir, fs2, now, run_table(dir, fs1, now, t, cap), cap));
    }
}

/// Law (frame reassembly is chunking-independent): ingesting the bytes
/// `s + t` in one call yields the same statistics records and the same
/// final table as ingesting `s` first — leaving the unparsed rest buffered —
/// and then `t`. Splitting further only repeats the law, so any
/// fragmentation of the stream, down to byte-by-byte, classifies alike; and
/// past a malformed frame, later bytes add no records at all.
pub proof fn lemma_chunked_ingest_equivalence(
    dir: Direction,
    s: Seq<u8>,
    t: Seq<u8>,
    now: u64,
    tbl: Seq<(u32, u64)>,
    cap: nat,
)
    ensures
        !stream_poisoned(s) ==> {
            &&& run_records(dir, stream_frames(s + t), now, tbl, cap) == run_records(
                dir,
                stream_frames(s),
                now,
                tbl,
                cap,
            ) + run_records(
                dir,
                stream_frames(stream_rest(s) + t),
                now,
                run_table(dir, stream_frames(s), now, tbl, cap),
                cap,
            )
            &&& run_table(dir, stream_frames(s + t), now, tbl, cap) == run_table(
                dir,
                stream_frames(stream_rest(s) + t),
                now,
                run_table(dir, stream_frames(s), now, tbl, cap),
                cap,
            )
        },
        stream_poisoned(s) ==> run_records(dir, stream_frames(s + t), now, tbl, cap) == run_records(
            dir,
            stream_frames(s),
            now,
            tbl,
            cap,
        ),
{
    lemma_stream_extend(s, t);
    if !stream_poisoned(s) {
        lemma_run_concat(dir, stream_frames(s), stream_frames(stream_rest(s) + t), now, tbl, cap);
    }
}

/// The statistics records produced by feeding the chunks of `cs` one
/// ingest call at a time, starting from a parser that buffers `b` and — when
/// `failed` — has already been disabled, with correlation table `t`. This is
/// the step-by-step model of repeated `ingest` calls.
pub open spec fn feed_records(
    dir: Direction,
    b: Seq<u8>,
    failed: bool,
    t: Seq<(u32, u64)>,
    cs: Seq<Seq<u8>>,
    now: u64,
    cap: nat,
) -> Seq<StatsRecord>
    decreases cs.len(),
{
    if cs.len() == 0 {
        Seq::empty()
    } else if failed {
        Seq::empty()
    } else {
        let s = b + cs[0];
        run_records(dir, stream_frames(s), now, t, cap) + feed_records(
            dir,
            stream_rest(s),
            stream_poisoned(s),
            run_table(dir, stream_frames(s), now, t, cap),
            cs.drop_first(),
            now,
            cap,
        )
    }
}

/// Law (frame reassembly idempotence): however the byte stream is cut into
/// chunks — one call, byte-by-byte, or anything between — feeding the chunks
/// one ingest call at a time emits exactly the statistics records of the
/// concatenated stream. The starting buffer `b` is any quiescent leftover of
/// earlier parsing: no complete frame, no poison.
pub proof fn lemma_reassembly_independence(
    dir: Direction,
    b: Seq<u8>,
    cs: Seq<Seq<u8>>,
    now: u64,
    t: Seq<(u32, u64)>,
    cap: nat,
)
    requires
        stream_frames(b) == Seq::<Seq<u8>>::empty(),
        !stream_poisoned(b),
    ensures
        feed_records(dir, b, false, t, cs, now, cap) == run_records(
            dir,
            stream_frames(b + cs.flatten()),
            now,
            t,
            cap,
        ),
    decreases cs.len(),
{
    if cs.len() == 0 {
        assert(b + cs.flatten() =~= b);
    } else {
        let c0 = cs[0];
        let s1 = b + c0;
        let f2 = cs.drop_first().flatten();
        assert(cs.first() == c0);
        assert(b + cs.flatten() =~= s1 + f2);
        lemma_chunked_ingest_equivalence(dir, s1, f2, now, t, cap);
        let t1 = run_table(dir, stream_frames(s1), now, t, cap);
        if !stream_poisoned(s1) {
            crate::wire::lemma_rest_quiescent(s1);
            lemma_reassembly_independence(dir, stream_rest(s1), cs.drop_first(), now, t1, cap);
            assert(feed_records(dir, b, false, t, cs, now, cap) == run_records(
                dir,
                stream_frames(s1),
                now,
                t,
                cap,
            ) + run_records(dir, stream_frames(stream_rest(s1) + f2), now, t1, cap));
        } else {
            assert(feed_records(dir, stream_rest(s1), true, t1, cs.drop_first(), now, cap)
                == Seq::<StatsRecord>::empty());
            assert(run_records(dir, stream_frames(s1), now, t, cap) + Seq::<StatsRecord>::empty()
                =~= run_records(dir, stream_frames(s1), now, t, cap));
        }
    }
}

/// The parser of one traffic direction.
pub struct StreamParser {
    /// Reassembles frames out of this direction's byte stream.
    pub dec: FrameDecoder,
    /// Which way the bytes travel.
    pub direction: Direction,
}

impl StreamParser {
    /// Bytes buffered but not yet cut into frames.
    pub open spec fn buffered(self) -> Seq<u8> {
        self.dec.buf@
    }

    /// Whether a malformed frame has permanently disabled this direction.
    pub open spec fn is_failed(self) -> bool {
        self.dec.failed
    }

    /// A fresh parser for one direction.
    pub fn new(direction: Direction) -> (p: StreamParser)
        ensures
            p.buffered() == Seq::<u8>::empty(),
            !p.is_failed(),
            p.direction == direction,
    {
        StreamParser { dec: FrameDecoder::new(), direction }
    }

    /// Feeds a chunk and drains every complete frame through the classifier
    /// in arrival order, emitting one statistics record per frame. A parser
    /// disabled by an earlier malformed frame ingests nothing; one that
    /// meets a malformed frame now emits the records of the frames before
    /// it and is disabled from then on.
    pub fn ingest(&mut self, chunk: &Vec<u8>, now: u64, table: &mut CorrTable) -> (out: Vec<
        StatsRecord,
    >)
        requires
            old(table).wf(),
        ensures
            final(self).direction == old(self).direction,
            final(table).wf(),
            final(table).capacity == old(table).capacity,
            old(self).is_failed() ==> {
                &&& out@ == Seq::<StatsRecord>::empty()
                &&& final(self).buffered() == old(self).buffered()
                &&& final(self).is_failed()
                &&& final(table).entries@ == old(table).entries@
            },
            !old(self).is_failed() ==> {
                let s = old(self).buffered() + chunk@;
                let cap = old(table).capacity as nat;
                &&& out@ == run_records(
                    old(self).direction,
                    stream_frames(s),
                    now,
                    old(table).entries@,
                    cap,
                )
                &&& final(table).entries@ == run_table(
                    old(self).direction,
                    stream_frames(s),
                    now,
                    old(table).entries@,
                    cap,
                )
                &&& final(self).buffered() == stream_rest(s)
                &&& final(self).is_failed() == stream_poisoned(s)
            },
    {
        let mut out: Vec<StatsRecord> = Vec::new();
        if self.dec.failed {
            return out;
        }
        self.dec.feed(chunk);
        let ghost s = self.dec.buf@;
        let ghost t0 = table.entries@;
        let ghost cap = table.capacity as nat;
        let ghost dir = self.direction;
        let ghost mut done: Seq<Seq<u8>> = Seq::empty();
        proof {
            assert(done + stream_frames(s) =~= stream_frames(s));
        }
        loop
            invariant
                old(table).wf(),
                table.wf(),
                table.capacity == old(table).capacity,
                cap == old(table).capacity as nat,
                t0 == old(table).entries@,
                dir == old(self).direction,
                self.direction == dir,
                !old(self).is_failed(),
                s == old(self).buffered() + chunk@,
                !self.dec.failed,
                stream_frames(s) == done + stream_frames(self.dec.buf@),
                stream_rest(s) == stream_rest(self.dec.buf@),
                stream_poisoned(s) == stream_poisoned(self.dec.buf@),
                out@ == run_records(dir, done, now, t0, cap),
                table.entries@ == run_table(dir, done, now, t0, cap),
            decreases self.dec.buf@.len(),
        {
            let ghost b = self.dec.buf@;
            let next = self.dec.next_frame();
            match next {
                Option::Some(frame) => {
                    proof {
                        let l = le32_at(b, 0) as int;
                        lemma_le32_take(b, l, 0);
                        lemma_le32_take(b, l, 4);
                        lemma_le32_take(b, l, 8);
                        lemma_le32_take(b, l, 12);
                        assert(header_of(b.take(l)) == header_of(b));
                        assert(stream_frames(b) == seq![b.take(l)] + stream_frames(b.skip(l)));
                        assert(stream_rest(b) == stream_rest(b.skip(l)));
                        assert(stream_poisoned(b) == stream_poisoned(b.skip(l)));
                        lemma_run_push(dir, done, b.take(l), now, t0, cap);
                    }
                    let rec = classify(self.direction, &frame.header, now, table);
                    out.push(rec);
                    proof {
                        let l = le32_at(b, 0) as int;
                        done = done.push(b.take(l));
                        assert(stream_frames(s) =~= done + stream_frames(self.dec.buf@));
                    }
                },
                Option::None => {
                    proof {
                        if self.dec.failed {
                            assert(stream_poisoned(b));
                            assert(stream_frames(b) =~= Seq::<Seq<u8>>::empty());
                            assert(stream_rest(b) == b);
                            assert(stream_frames(s) =~= done);
                        } else {
                            assert(stream_frames(b) =~= Seq::<Seq<u8>>::empty());
                            assert(!stream_poisoned(b));
                            assert(stream_rest(b) == b);
                            assert(stream_frames(s) =~= done);
                        }
                    }
                    return out;
                },
            }
        }
    }
}

} // verus!
