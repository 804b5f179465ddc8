// The relay session: byte fidelity, fail-open parsing, half-close and
// teardown.

use mongo_relay::session::RelaySession;
use mongo_relay::session::SessionAction;
use mongo_relay::session::SessionEvent;
use mongo_relay::session::SessionState;
use mongo_relay::session::session_step;
use mongo_relay::stats::LatencyInfo;

fn push_le32(v: &mut Vec<u8>, x: u32) {
    v.push((x & 0xff) as u8);
    v.push(((x >> 8) & 0xff) as u8);
    v.push(((x >> 16) & 0xff) as u8);
    v.push(((x >> 24) & 0xff) as u8);
}

fn raw_header(len: u32, req: u32, resp: u32, op: u32) -> Vec<u8> {
    let mut v = Vec::new();
    push_le32(&mut v, len);
    push_le32(&mut v, req);
    push_le32(&mut v, resp);
    push_le32(&mut v, op);
    v
}

fn frame(req: u32, resp: u32, op: u32, payload: &[u8]) -> Vec<u8> {
    let mut v = raw_header(16 + payload.len() as u32, req, resp, op);
    for b in payload {
        v.push(*b);
    }
    v
}

#[test]
fn bytes_forwarded_identically_across_fragmentation() {
    let mut stream = frame(5, 0, 2004, &[1, 2, 3, 4, 5, 6, 7]);
    stream.extend(frame(6, 0, 2013, &[8, 9]));

    // Slice the same stream three different ways; the forwarded bytes must
    // re-assemble to the identical stream every time.
    let cuts: [&[usize]; 3] = [&[], &[1, 2, 3, 20], &[15, 16, 17]];
    for cut in cuts {
        let mut session = RelaySession::new(8);
        let mut forwarded = Vec::new();
        let mut start = 0;
        let mut bounds: Vec<usize> = cut.to_vec();
        bounds.push(stream.len());
        for end in bounds {
            let chunk = stream[start..end].to_vec();
            let (fwd, _) = session.on_client_data(&chunk, 1);
            assert_eq!(fwd, chunk);
            forwarded.extend(fwd);
            start = end;
        }
        assert_eq!(forwarded, stream);
    }
}

#[test]
fn backend_bytes_forwarded_identically() {
    let mut session = RelaySession::new(8);
    let chunk = frame(1, 5, 1, &[4, 4, 4]);
    let (fwd, recs) = session.on_backend_data(&chunk, 9);
    assert_eq!(fwd, chunk);
    assert_eq!(recs.len(), 1);
    assert_eq!(recs[0].latency, LatencyInfo::Unknown);
}

#[test]
fn malformed_frame_stops_stats_but_not_forwarding() {
    let mut session = RelaySession::new(8);

    // A declared length below the header size poisons this direction.
    let bad = raw_header(5, 1, 0, 2004);
    let (fwd, recs) = session.on_client_data(&bad, 1);
    assert_eq!(fwd, bad);
    assert!(recs.is_empty());

    // Later perfectly valid frames yield no records any more ...
    let good = frame(2, 0, 2004, &[1, 2]);
    let (fwd2, recs2) = session.on_client_data(&good, 2);
    assert!(recs2.is_empty());
    // ... but the raw bytes are still forwarded byte-for-byte.
    assert_eq!(fwd2, good);

    // The other direction is untouched by the poisoned one.
    let reply = frame(9, 2, 1, &[]);
    let (fwd3, recs3) = session.on_backend_data(&reply, 3);
    assert_eq!(fwd3, reply);
    assert_eq!(recs3.len(), 1);
}

#[test]
fn half_close_lets_backend_finish() {
    let mut session = RelaySession::new(8);

    let (_, reqs) = session.on_client_data(&frame(7, 0, 2004, &[]), 10);
    assert_eq!(reqs.len(), 1);

    // Client EOF: propagate by closing the backend's write side only.
    let action = session.handle_event(SessionEvent::ClientEof);
    assert_eq!(action, SessionAction::ShutBackendWrite);
    assert!(!session.is_closed());

    // The backend's remaining data still flows to the client, and the
    // response still correlates with the request sent before the EOF.
    let reply = frame(1, 7, 1, &[1]);
    let (fwd, recs) = session.on_backend_data(&reply, 25);
    assert_eq!(fwd, reply);
    assert_eq!(recs[0].latency, LatencyInfo::Measured(15));

    // Only when the backend also closes does the session terminate.
    let action = session.handle_event(SessionEvent::BackendEof);
    assert_eq!(action, SessionAction::TearDown);
    assert!(session.is_closed());
}

#[test]
fn backend_eof_mirrors_client_eof() {
    let mut session = RelaySession::new(8);
    let action = session.handle_event(SessionEvent::BackendEof);
    assert_eq!(action, SessionAction::ShutClientWrite);
    assert!(!session.is_closed());
    let action = session.handle_event(SessionEvent::ClientEof);
    assert_eq!(action, SessionAction::TearDown);
    assert!(session.is_closed());
}

#[test]
fn io_failure_tears_down_from_any_state() {
    let mut session = RelaySession::new(8);
    assert_eq!(session.handle_event(SessionEvent::IoFailure), SessionAction::TearDown);
    assert!(session.is_closed());

    let mut half = RelaySession::new(8);
    half.handle_event(SessionEvent::ClientEof);
    assert_eq!(half.handle_event(SessionEvent::IoFailure), SessionAction::TearDown);
    assert!(half.is_closed());
}

#[test]
fn closed_session_ignores_further_events() {
    assert_eq!(
        session_step(SessionState::Closed, SessionEvent::ClientEof),
        (SessionState::Closed, SessionAction::KeepGoing)
    );
    assert_eq!(
        session_step(SessionState::Closed, SessionEvent::IoFailure),
        (SessionState::Closed, SessionAction::KeepGoing)
    );
    assert_eq!(
        session_step(SessionState::HalfClosedClient, SessionEvent::ClientEof),
        (SessionState::HalfClosedClient, SessionAction::KeepGoing)
    );
}

#[test]
fn request_and_response_split_across_sessions_of_chunks() {
    // A request split byte-by-byte still correlates with its response.
    let mut session = RelaySession::new(8);
    let req = frame(11, 0, 2013, &[1, 2, 3]);
    for b in &req {
        let (fwd, _) = session.on_client_data(&vec![*b], 40);
        assert_eq!(fwd, vec![*b]);
    }
    let (_, recs) = session.on_backend_data(&frame(1, 11, 2013, &[]), 65);
    assert_eq!(recs.len(), 1);
    assert_eq!(recs[0].latency, LatencyInfo::Measured(25));
}
