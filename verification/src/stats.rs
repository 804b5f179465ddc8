//! The message classifier: turns each complete frame into one statistics
//! record and correlates requests with their responses.
//!
//! Frames travelling client-to-backend are requests: their identifier and
//! arrival time go into a bounded correlation table, oldest entry evicted
//! first when the table is full. Frames travelling backend-to-client are
//! responses: when the table still holds the request they answer, the record
//! carries the elapsed time and the entry is removed; otherwise the latency
//! is unknown — never an error.

use vstd::prelude::*;

use crate::wire::MessageHeader;

verus! {

/// The direction a chunk of traffic travels through the relay.
#[derive(Clone, Copy, PartialEq, Eq, Structural, Debug)]
pub enum Direction {
    /// From the client towards the backend: requests.
    ClientToBackend,
    /// From the backend towards the client: responses.
    BackendToClient,
}

/// The operation named by a frame's operation code.
#[derive(Clone, Copy, PartialEq, Eq, Structural, Debug)]
pub enum OpKind {
    Reply,
    Update,
    Insert,
    Query,
    GetMore,
    Delete,
    KillCursors,
    Compressed,
    Msg,
    Other,
}

/// The operation kind encoded by an operation code.
pub open spec fn op_kind_of(code: u32) -> OpKind {
    if code == 1 {
        OpKind::Reply
    } else if code == 2001 {
        OpKind::Update
    } else if code == 2002 {
        OpKind::Insert
    } else if code == 2004 {
        OpKind::Query
    } else if code == 2005 {
        OpKind::GetMore
    } else if code == 2006 {
        OpKind::Delete
    } else if code == 2007 {
        OpKind::KillCursors
    } else if code == 2012 {
        OpKind::Compressed
    } else if code == 2013 {
        OpKind::Msg
    } else {
        OpKind::Other
    }
}

/// Maps an operation code to its operation kind.
pub fn classify_op(code: u32) -> (k: OpKind)
    ensures
        k == op_kind_of(code),
{
    if code == 1 {
        OpKind::Reply
    } else if code == 2001 {
        OpKind::Update
    } else if code == 2002 {
        OpKind::Insert
    } else if code == 2004 {
        OpKind::Query
    } else if code == 2005 {
        OpKind::GetMore
    } else if code == 2006 {
        OpKind::Delete
    } else if code == 2007 {
        OpKind::KillCursors
    } else if code == 2012 {
        OpKind::Compressed
    } else if code == 2013 {
        OpKind::Msg
    } else {
        OpKind::Other
    }
}

/// How long a request waited for its response, when that could be measured.
#[derive(Clone, Copy, PartialEq, Eq, Structural, Debug)]
pub enum LatencyInfo {
    /// Response matched a pending request; elapsed time between the two.
    Measured(u64),
    /// No pending request matched (relay started mid-session, entry
    /// evicted, or the frame is itself a request).
    Unknown,
}

/// One statistics record, emitted per classified frame.
#[derive(Clone, Copy, PartialEq, Eq, Structural, Debug)]
pub struct StatsRecord {
    /// Direction the frame travelled.
    pub direction: Direction,
    /// Operation kind from the frame header.
    pub op: OpKind,
    /// Declared length of the frame in bytes.
    pub frame_len: u32,
    /// Arrival time handed in by the caller.
    pub timestamp: u64,
    /// Elapsed request-to-response time, when known.
    pub latency: LatencyInfo,
}

/// The correlation table after recording a request: the new entry goes at
/// the back; when the table is full the oldest entry (the front) makes room.
/// A table of capacity zero records nothing.
pub open spec fn tbl_insert(t: Seq<(u32, u64)>, cap: nat, id: u32, ts: u64) -> Seq<(u32, u64)> {
    if cap == 0 {
        t
    } else if t.len() < cap {
        t.push((id, ts))
    } else {
        t.drop_first().push((id, ts))
    }
}

/// Index of the oldest entry with identifier `id`, or -1 when none is
/// pending.
pub open spec fn tbl_find(t: Seq<(u32, u64)>, id: u32) -> int
    decreases t.len(),
{
    if t.len() == 0 {
        -1
    } else if t[0].0 == id {
        0
    } else if tbl_find(t.drop_first(), id) < 0 {
        -1
    } else {
        tbl_find(t.drop_first(), id) + 1
    }
}

/// `tbl_find` returns exactly the position of the oldest matching entry,
/// and -1 exactly when no entry matches.
pub proof fn lemma_tbl_find_spec(t: Seq<(u32, u64)>, id: u32)
    ensures
        tbl_find(t, id) < 0 ==> forall|j: int| 0 <= j < t.len() ==> (#[trigger] t[j]).0 != id,
        tbl_find(t, id) >= 0 ==> {
            &&& tbl_find(t, id) < t.len()
            &&& t[tbl_find(t, id)].0 == id
            &&& forall|j: int| 0 <= j < tbl_find(t, id) ==> (#[trigger] t[j]).0 != id
        },
    decreases t.len(),
{
    if t.len() == 0 {
    } else if t[0].0 == id {
    } else {
        let d = t.drop_first();
        lemma_tbl_find_spec(d, id);
        if tbl_find(t, id) < 0 {
            assert forall|j: int| 0 <= j < t.len() implies (#[trigger] t[j]).0 != id by {
                if j > 0 {
                    assert(t[j] == d[j - 1]);
                }
            }
        } else {
            let i = tbl_find(t, id);
            assert(t[i] == d[i - 1]);
            assert forall|j: int| 0 <= j < i implies (#[trigger] t[j]).0 != id by {
                if j > 0 {
                    assert(t[j] == d[j - 1]);
                }
            }
        }
    }
}

/// The converse: an oldest matching position determines `tbl_find`.
pub proof fn lemma_tbl_find_at(t: Seq<(u32, u64)>, id: u32, i: int)
    requires
        0 <= i < t.len(),
        t[i].0 == id,
        forall|j: int| 0 <= j < i ==> (#[trigger] t[j]).0 != id,
    ensures
        tbl_find(t, id) == i,
    decreases t.len(),
{
    if i == 0 {
    } else {
        let d = t.drop_first();
        assert(forall|j: int| 0 <= j < t.len() - 1 ==> #[trigger] d[j] == t[j + 1]);
        lemma_tbl_find_at(d, id, i - 1);
    }
}

/// The bounded request/response correlation table of one session: in-flight
/// request identifiers with their arrival times, oldest first.
pub struct CorrTable {
    /// Pending entries, in arrival order.
    pub entries: Vec<(u32, u64)>,
    /// Upper bound on how many entries are kept.
    pub capacity: usize,
}

impl CorrTable {
    /// The table never outgrows its capacity.
    pub open spec fn wf(self) -> bool {
        self.entries@.len() <= self.capacity
    }

    /// An empty table with the given capacity.
    pub fn new(capacity: usize) -> (t: CorrTable)
        ensures
            t.entries@ == Seq::<(u32, u64)>::empty(),
            t.capacity == capacity,
            t.wf(),
    {
        CorrTable { entries: Vec::new(), capacity }
    }

    /// Records an in-flight request, evicting the oldest entry when full.
    pub fn record_request(&mut self, id: u32, ts: u64)
        requires
            old(self).wf(),
        ensures
            final(self).entries@ == tbl_insert(old(self).entries@, old(self).capacity as nat, id, ts),
            final(self).capacity == old(self).capacity,
            final(self).wf(),
    {
        if self.capacity == 0 {
            return ;
        }
        if self.entries.len() >= self.capacity {
            self.entries.remove(0);
            proof {
                assert(self.entries@ =~= old(self).entries@.drop_first());
            }
        }
        self.entries.push((id, ts));
    }

    /// Takes the oldest pending entry with identifier `id` out of the table
    /// and returns its arrival time; returns nothing, and changes nothing,
    /// when no entry matches.
    pub fn match_response(&mut self, id: u32) -> (r: Option<u64>)
        requires
            old(self).wf(),
        ensures
            final(self).capacity == old(self).capacity,
            final(self).wf(),
            tbl_find(old(self).entries@, id) < 0 ==> {
                &&& r is None
                &&& final(self).entries@ == old(self).entries@
            },
            tbl_find(old(self).entries@, id) >= 0 ==> {
                let i = tbl_find(old(self).entries@, id);
                &&& r == Option::Some(old(self).entries@[i].1)
                &&& final(self).entries@ == old(self).entries@.remove(i)
            },
    {
        let mut i: usize = 0;
        while i < self.entries.len()
            invariant
                i <= self.entries@.len(),
                *self == *old(self),
                old(self).wf(),
                forall|j: int| 0 <= j < i ==> (#[trigger] self.entries@[j]).0 != id,
            decreases self.entries@.len() - i,
        {
            if self.entries[i].0 == id {
                let ts = self.entries[i].1;
                self.entries.remove(i);
                proof {
                    lemma_tbl_find_at(old(self).entries@, id, i as int);
                    assert(self.entries@.len() == old(self).entries@.len() - 1);
                }
                return Option::Some(ts);
            }
            i = i + 1;
        }
        proof {
            lemma_tbl_find_spec(self.entries@, id);
            if tbl_find(self.entries@, id) >= 0 {
                assert(self.entries@[tbl_find(self.entries@, id)].0 == id);
            }
        }
        Option::None
    }
}

/// The statistics record a frame with header `h` yields, arriving at `now`
/// in direction `dir` while the correlation table holds `t`.
pub open spec fn classify_record(dir: Direction, h: MessageHeader, now: u64, t: Seq<(u32, u64)>) -> StatsRecord {
    StatsRecord {
        direction: dir,
        op: op_kind_of(h.op_code),
        frame_len: h.length,
        timestamp: now,
        latency: if dir == Direction::BackendToClient && tbl_find(t, h.response_to) >= 0 {
            let ts = t[tbl_find(t, h.response_to)].1;
            LatencyInfo::Measured(if now >= ts { (now - ts) as u64 } else { 0 })
        } else {
            LatencyInfo::Unknown
        },
    }
}

/// The correlation table after classifying that same frame.
pub open spec fn classify_table(
    dir: Direction,
    h: MessageHeader,
    now: u64,
    t: Seq<(u32, u64)>,
    cap: nat,
) -> Seq<(u32, u64)> {
    match dir {
        Direction::ClientToBackend => tbl_insert(t, cap, h.request_id, now),
        Direction::BackendToClient => if tbl_find(t, h.response_to) >= 0 {
            t.remove(tbl_find(t, h.response_to))
        } else {
            t
        },
    }
}

/// Classifies one frame: emits its statistics record and updates the
/// correlation table. Pure bookkeeping — no I/O, no other state.
pub fn classify(dir: Direction, header: &MessageHeader, now: u64, table: &mut CorrTable) -> (r: StatsRecord)
    requires
        old(table).wf(),
    ensures
        final(table).wf(),
        final(table).capacity == old(table).capacity,
        r == classify_record(dir, *header, now, old(table).entries@),
        final(table).entries@ == classify_table(
            dir,
            *header,
            now,
            old(table).entries@,
            old(table).capacity as nat,
        ),
{
    match dir {
        Direction::ClientToBackend => {
            table.record_request(header.request_id, now);
            StatsRecord {
                direction: dir,
                op: classify_op(header.op_code),
                frame_len: header.length,
                timestamp: now,
                latency: LatencyInfo::Unknown,
            }
        },
        Direction::BackendToClient => {
            let found = table.match_response(header.response_to);
            let lat = match found {
                Option::Some(ts) => LatencyInfo::Measured(
                    if now >= ts {
                        now - ts
                    } else {
                        0
                    },
                ),
                Option::None => LatencyInfo::Unknown,
            };
            StatsRecord {
                direction: dir,
                op: classify_op(header.op_code),
                frame_len: header.length,
                timestamp: now,
                latency: lat,
            }
        },
    }
}

/// Law (bounded correlation table): recording a request never grows the
/// table past its capacity, however many unmatched requests are in flight.
pub proof fn lemma_table_bounded(t: Seq<(u32, u64)>, cap: nat, id: u32, ts: u64)
    requires
        t.len() <= cap,
    ensures
        tbl_insert(t, cap, id, ts).len() <= cap,
{
}

/// Law (correlation, matched): a request with a fresh identifier followed —
/// with room in the table and no eviction in between — by a response whose
/// correlation identifier equals it yields a measured latency of exactly the
/// elapsed time, which is never negative.
pub proof fn lemma_correlation_matched(
    h_req: MessageHeader,
    h_resp: MessageHeader,
    t0: Seq<(u32, u64)>,
    cap: nat,
    t_req: u64,
    t_resp: u64,
)
    requires
        cap >= 1,
        t0.len() <= cap,
        tbl_find(t0, h_req.request_id) < 0,
        h_resp.response_to == h_req.request_id,
        t_resp >= t_req,
    ensures
        ({
            let t1 = classify_table(Direction::ClientToBackend, h_req, t_req, t0, cap);
            classify_record(Direction::BackendToClient, h_resp, t_resp, t1).latency
                == LatencyInfo::Measured((t_resp - t_req) as u64)
        }),
{
    let id = h_req.request_id;
    let t1 = classify_table(Direction::ClientToBackend, h_req, t_req, t0, cap);
    lemma_tbl_find_spec(t0, id);
    let base = if t0.len() < cap {
        t0
    } else {
        t0.drop_first()
    };
    assert(forall|j: int| 0 <= j < base.len() ==> (#[trigger] base[j]).0 != id) by {
        if t0.len() >= cap {
            assert(forall|j: int|
                0 <= j < t0.len() - 1 ==> #[trigger] t0.drop_first()[j] == t0[j + 1]);
        }
    }
    assert(t1 == base.push((id, t_req)));
    assert(forall|j: int| 0 <= j < base.len() ==> (#[trigger] t1[j]).0 != id);
    assert(t1[base.len() as int] == (id, t_req));
    lemma_tbl_find_at(t1, id, base.len() as int);
}

/// Law (correlation, unmatched): a response with no pending request of the
/// same identifier yields a record with latency unknown — not an error —
/// and leaves the table unchanged.
pub proof fn lemma_correlation_unmatched(h_resp: MessageHeader, t: Seq<(u32, u64)>, cap: nat, now: u64)
    requires
        tbl_find(t, h_resp.response_to) < 0,
    ensures
        classify_record(Direction::BackendToClient, h_resp, now, t).latency == LatencyInfo::Unknown,
        classify_table(Direction::BackendToClient, h_resp, now, t, cap) == t,
{
}

/// Law (eviction makes late responses unmatched): when a full table takes a
/// new request, the evicted identifier — pending only at the front — is no
/// longer found, so its eventual response is treated as unmatched.
pub proof fn lemma_evicted_entry_forgotten(t: Seq<(u32, u64)>, cap: nat, id: u32, ts: u64)
    requires
        cap >= 1,
        t.len() == cap,
        id != t[0].0,
        forall|j: int| 1 <= j < t.len() ==> (#[trigger] t[j]).0 != t[0].0,
    ensures
        tbl_find(tbl_insert(t, cap, id, ts), t[0].0) < 0,
{
    let evicted = t[0].0;
    let t1 = tbl_insert(t, cap, id, ts);
    assert(forall|j: int| 0 <= j < t.len() - 1 ==> #[trigger] t.drop_first()[j] == t[j + 1]);
    assert(forall|j: int| 0 <= j < t1.len() ==> (#[trigger] t1[j]).0 != evicted);
    lemma_tbl_find_spec(t1, evicted);
    if tbl_find(t1, evicted) >= 0 {
        assert(t1[tbl_find(t1, evicted)].0 == evicted);
    }
}

} // verus!
