//! The relay session: one client connection, one backend connection, the two
//! stream parsers, and the state machine driving half-close and teardown.
//!
//! The session is handed every chunk read from either socket and answers
//! with the identical bytes to forward to the peer plus the statistics
//! records the chunk yielded; it is handed every end-of-stream and failure
//! event and answers with the action to take on the sockets. Parsing is a
//! passive observer: whatever state the parsers are in, the bytes to
//! forward equal the bytes received.

use vstd::prelude::*;

use crate::parser::run_records;
use crate::parser::run_table;
use crate::parser::StreamParser;
use crate::stats::CorrTable;
use crate::stats::Direction;
use crate::stats::StatsRecord;
use crate::wire::stream_frames;
use crate::wire::stream_poisoned;
use crate::wire::stream_rest;
use crate::wire::copy_range;

verus! {

/// Where the session stands between fully open and torn down.
#[derive(Clone, Copy, PartialEq, Eq, Structural, Debug)]
pub enum SessionState {
    /// Both directions open.
    Active,
    /// The client reached end-of-stream; backend-to-client still flows.
    HalfClosedClient,
    /// The backend reached end-of-stream; client-to-backend still flows.
    HalfClosedBackend,
    /// Terminal: both directions done, or an unrecoverable failure.
    Closed,
}

/// What a socket reported.
#[derive(Clone, Copy, PartialEq, Eq, Structural, Debug)]
pub enum SessionEvent {
    /// Reading from the client returned end-of-stream.
    ClientEof,
    /// Reading from the backend returned end-of-stream.
    BackendEof,
    /// An unrecoverable error on either socket.
    IoFailure,
}

/// What the caller must do to the sockets after an event.
#[derive(Clone, Copy, PartialEq, Eq, Structural, Debug)]
pub enum SessionAction {
    /// Close the write side towards the backend (propagate client EOF).
    ShutBackendWrite,
    /// Close the write side towards the client (propagate backend EOF).
    ShutClientWrite,
    /// Release both sockets; the session is over.
    TearDown,
    /// Nothing to do.
    KeepGoing,
}

/// The session state machine: next state and required action for an event.
pub open spec fn step_spec(s: SessionState, e: SessionEvent) -> (SessionState, SessionAction) {
    match (s, e) {
        (SessionState::Active, SessionEvent::ClientEof) => (
            SessionState::HalfClosedClient,
            SessionAction::ShutBackendWrite,
        ),
        (SessionState::Active, SessionEvent::BackendEof) => (
            SessionState::HalfClosedBackend,
            SessionAction::ShutClientWrite,
        ),
        (SessionState::HalfClosedClient, SessionEvent::BackendEof) => (
            SessionState::Closed,
            SessionAction::TearDown,
        ),
        (SessionState::HalfClosedClient, SessionEvent::ClientEof) => (
            SessionState::HalfClosedClient,
            SessionAction::KeepGoing,
        ),
        (SessionState::HalfClosedBackend, SessionEvent::ClientEof) => (
            SessionState::Closed,
            SessionAction::TearDown,
        ),
        (SessionState::HalfClosedBackend, SessionEvent::BackendEof) => (
            SessionState::HalfClosedBackend,
            SessionAction::KeepGoing,
        ),
        (SessionState::Closed, _) => (SessionState::Closed, SessionAction::KeepGoing),
        (_, SessionEvent::IoFailure) => (SessionState::Closed, SessionAction::TearDown),
    }
}

/// Computes the state machine step.
pub fn session_step(s: SessionState, e: SessionEvent) -> (r: (SessionState, SessionAction))
    ensures
        r == step_spec(s, e),
{
    match (s, e) {
        (SessionState::Active, SessionEvent::ClientEof) => (
            SessionState::HalfClosedClient,
            SessionAction::ShutBackendWrite,
        ),
        (SessionState::Active, SessionEvent::BackendEof) => (
            SessionState::HalfClosedBackend,
            SessionAction::ShutClientWrite,
        ),
        (SessionState::HalfClosedClient, SessionEvent::BackendEof) => (
            SessionState::Closed,
            SessionAction::TearDown,
        ),
        (SessionState::HalfClosedClient, SessionEvent::ClientEof) => (
            SessionState::HalfClosedClient,
            SessionAction::KeepGoing,
        ),
        (SessionState::HalfClosedBackend, SessionEvent::ClientEof) => (
            SessionState::Closed,
            SessionAction::TearDown,
        ),
        (SessionState::HalfClosedBackend, SessionEvent::BackendEof) => (
            SessionState::HalfClosedBackend,
            SessionAction::KeepGoing,
        ),
        (SessionState::Closed, _) => (SessionState::Closed, SessionAction::KeepGoing),
        (_, SessionEvent::IoFailure) => (SessionState::Closed, SessionAction::TearDown),
    }
}

/// One relay session: state, the two per-direction parsers, the shared
/// correlation table, and the ghost history of every byte seen and
/// forwarded, against which byte fidelity is stated.
pub struct RelaySession {
    /// Where the session stands.
    pub state: SessionState,
    /// Parses the client-to-backend stream.
    pub client_parser: StreamParser,
    /// Parses the backend-to-client stream.
    pub backend_parser: StreamParser,
    /// In-flight requests awaiting their responses.
    pub table: CorrTable,
    /// Every byte received from the client, in order.
    pub client_bytes_in: Ghost<Seq<u8>>,
    /// Every byte received from the backend, in order.
    pub backend_bytes_in: Ghost<Seq<u8>>,
    /// Every byte handed out for forwarding to the backend, in order.
    pub bytes_to_backend: Ghost<Seq<u8>>,
    /// Every byte handed out for forwarding to the client, in order.
    pub bytes_to_client: Ghost<Seq<u8>>,
}

impl RelaySession {
    /// The session invariant: the table is bounded, each parser watches its
    /// own direction, and each output stream is exactly its input stream.
    pub open spec fn wf(self) -> bool {
        &&& self.table.wf()
        &&& self.client_parser.direction == Direction::ClientToBackend
        &&& self.backend_parser.direction == Direction::BackendToClient
        &&& self.bytes_to_backend@ == self.client_bytes_in@
        &&& self.bytes_to_client@ == self.backend_bytes_in@
    }

    /// A fresh session with the given correlation-table capacity.
    pub fn new(table_capacity: usize) -> (s: RelaySession)
        ensures
            s.wf(),
            s.state == SessionState::Active,
            s.table.entries@ == Seq::<(u32, u64)>::empty(),
            s.table.capacity == table_capacity,
            !s.client_parser.is_failed(),
            !s.backend_parser.is_failed(),
            s.client_parser.buffered() == Seq::<u8>::empty(),
            s.backend_parser.buffered() == Seq::<u8>::empty(),
            s.client_bytes_in@ == Seq::<u8>::empty(),
            s.backend_bytes_in@ == Seq::<u8>::empty(),
    {
        RelaySession {
            state: SessionState::Active,
            client_parser: StreamParser::new(Direction::ClientToBackend),
            backend_parser: StreamParser::new(Direction::BackendToClient),
            table: CorrTable::new(table_capacity),
            client_bytes_in: Ghost(Seq::empty()),
            backend_bytes_in: Ghost(Seq::empty()),
            bytes_to_backend: Ghost(Seq::empty()),
            bytes_to_client: Ghost(Seq::empty()),
        }
    }

    /// Takes a chunk read from the client: returns the identical bytes to
    /// forward to the backend — whatever the parsers' state — and the
    /// statistics records the chunk yielded.
    pub fn on_client_data(&mut self, chunk: &Vec<u8>, now: u64) -> (r: (Vec<u8>, Vec<StatsRecord>))
        requires
            old(self).wf(),
            old(self).state == SessionState::Active || old(self).state
                == SessionState::HalfClosedBackend,
        ensures
            final(self).wf(),
            r.0@ == chunk@,
            final(self).state == old(self).state,
            final(self).client_bytes_in@ == old(self).client_bytes_in@ + chunk@,
            final(self).bytes_to_backend@ == old(self).bytes_to_backend@ + r.0@,
            final(self).backend_bytes_in@ == old(self).backend_bytes_in@,
            final(self).bytes_to_client@ == old(self).bytes_to_client@,
            final(self).backend_parser == old(self).backend_parser,
            final(self).table.capacity == old(self).table.capacity,
            old(self).client_parser.is_failed() ==> {
                &&& r.1@ == Seq::<StatsRecord>::empty()
                &&& final(self).client_parser.is_failed()
                &&& final(self).table.entries@ == old(self).table.entries@
            },
            !old(self).client_parser.is_failed() ==> {
                let s = old(self).client_parser.buffered() + chunk@;
                let cap = old(self).table.capacity as nat;
                &&& r.1@ == run_records(
                    Direction::ClientToBackend,
                    stream_frames(s),
                    now,
                    old(self).table.entries@,
                    cap,
                )
                &&& final(self).table.entries@ == run_table(
                    Direction::ClientToBackend,
                    stream_frames(s),
                    now,
                    old(self).table.entries@,
                    cap,
                )
                &&& final(self).client_parser.buffered() == stream_rest(s)
                &&& final(self).client_parser.is_failed() == stream_poisoned(s)
            },
    {
        let fwd = copy_range(chunk, 0, chunk.len());
        proof {
            assert(fwd@ =~= chunk@);
        }
        let recs = self.client_parser.ingest(chunk, now, &mut self.table);
        self.client_bytes_in = Ghost(self.client_bytes_in@ + chunk@);
        self.bytes_to_backend = Ghost(self.bytes_to_backend@ + chunk@);
        (fwd, recs)
    }

    /// Takes a chunk read from the backend: returns the identical bytes to
    /// forward to the client — whatever the parsers' state — and the
    /// statistics records the chunk yielded.
    pub fn on_backend_data(&mut self, chunk: &Vec<u8>, now: u64) -> (r: (Vec<u8>, Vec<StatsRecord>))
        requires
            old(self).wf(),
            old(self).state == SessionState::Active || old(self).state
                == SessionState::HalfClosedClient,
        ensures
            final(self).wf(),
            r.0@ == chunk@,
            final(self).state == old(self).state,
            final(self).backend_bytes_in@ == old(self).backend_bytes_in@ + chunk@,
            final(self).bytes_to_client@ == old(self).bytes_to_client@ + r.0@,
            final(self).client_bytes_in@ == old(self).client_bytes_in@,
            final(self).bytes_to_backend@ == old(self).bytes_to_backend@,
            final(self).client_parser == old(self).client_parser,
            final(self).table.capacity == old(self).table.capacity,
            old(self).backend_parser.is_failed() ==> {
                &&& r.1@ == Seq::<StatsRecord>::empty()
                &&& final(self).backend_parser.is_failed()
                &&& final(self).table.entries@ == old(self).table.entries@
            },
            !old(self).backend_parser.is_failed() ==> {
                let s = old(self).backend_parser.buffered() + chunk@;
                let cap = old(self).table.capacity as nat;
                &&& r.1@ == run_records(
                    Direction::BackendToClient,
                    stream_frames(s),
                    now,
                    old(self).table.entries@,
                    cap,
                )
                &&& final(self).table.entries@ == run_table(
                    Direction::BackendToClient,
                    stream_frames(s),
                    now,
                    old(self).table.entries@,
                    cap,
                )
                &&& final(self).backend_parser.buffered() == stream_rest(s)
                &&& final(self).backend_parser.is_failed() == stream_poisoned(s)
            },
    {
        let fwd = copy_range(chunk, 0, chunk.len());
        proof {
            assert(fwd@ =~= chunk@);
        }
        let recs = self.backend_parser.ingest(chunk, now, &mut self.table);
        self.backend_bytes_in = Ghost(self.backend_bytes_in@ + chunk@);
        self.bytes_to_client = Ghost(self.bytes_to_client@ + chunk@);
        (fwd, recs)
    }

    /// Takes an end-of-stream or failure event: moves the state machine and
    /// returns the socket action the caller must perform. Nothing else of
    /// the session changes.
    pub fn handle_event(&mut self, event: SessionEvent) -> (a: SessionAction)
        requires
            old(self).wf(),
        ensures
            final(self).wf(),
            (final(self).state, a) == step_spec(old(self).state, event),
            final(self).client_parser == old(self).client_parser,
            final(self).backend_parser == old(self).backend_parser,
            final(self).table == old(self).table,
            final(self).client_bytes_in@ == old(self).client_bytes_in@,
            final(self).backend_bytes_in@ == old(self).backend_bytes_in@,
            final(self).bytes_to_backend@ == old(self).bytes_to_backend@,
            final(self).bytes_to_client@ == old(self).bytes_to_client@,
    {
        let (next, action) = session_step(self.state, event);
        self.state = next;
        action
    }

    /// Whether the session has reached its terminal state.
    pub fn is_closed(&self) -> (r: bool)
        ensures
            r == (self.state == SessionState::Closed),
    {
        match self.state {
            SessionState::Closed => true,
            _ => false,
        }
    }
}

/// Law (byte fidelity): in every well-formed session state, the bytes handed
/// out for forwarding to each peer are exactly the bytes received from the
/// other, in the same order — however the transport fragmented them, and
/// whatever the parsers did.
pub proof fn lemma_byte_fidelity(s: RelaySession)
    requires
        s.wf(),
    ensures
        s.bytes_to_backend@ == s.client_bytes_in@,
        s.bytes_to_client@ == s.backend_bytes_in@,
{
}

/// Law (half-close propagation): client end-of-stream in an active session
/// only closes the write side towards the backend; the session stays open
/// for backend-to-client traffic, and reaches the terminal state exactly
/// when the backend closes too.
pub proof fn lemma_half_close_propagation()
    ensures
        step_spec(SessionState::Active, SessionEvent::ClientEof) == (
            SessionState::HalfClosedClient,
            SessionAction::ShutBackendWrite,
        ),
        step_spec(SessionState::HalfClosedClient, SessionEvent::BackendEof) == (
            SessionState::Closed,
            SessionAction::TearDown,
        ),
        step_spec(SessionState::HalfClosedClient, SessionEvent::ClientEof).0
            != SessionState::Closed,
{
}

} // verus!
