// Frame decoding and classification, exercised over concrete wire bytes.

use mongo_relay::decoder::FrameDecoder;
use mongo_relay::parser::StreamParser;
use mongo_relay::stats::classify_op;
use mongo_relay::stats::CorrTable;
use mongo_relay::stats::Direction;
use mongo_relay::stats::LatencyInfo;
use mongo_relay::stats::OpKind;
use mongo_relay::stats::StatsRecord;

fn push_le32(v: &mut Vec<u8>, x: u32) {
    v.push((x & 0xff) as u8);
    v.push(((x >> 8) & 0xff) as u8);
    v.push(((x >> 16) & 0xff) as u8);
    v.push(((x >> 24) & 0xff) as u8);
}

fn raw_header(len: u32, req: u32, resp: u32, op: u32) -> Vec<u8> {
    let mut v = Vec::new();
    push_le32(&mut v, len);
    push_le32(&mut v, req);
    push_le32(&mut v, resp);
    push_le32(&mut v, op);
    v
}

fn frame(req: u32, resp: u32, op: u32, payload: &[u8]) -> Vec<u8> {
    let mut v = raw_header(16 + payload.len() as u32, req, resp, op);
    for b in payload {
        v.push(*b);
    }
    v
}

#[test]
fn decoder_yields_single_frame() {
    let mut d = FrameDecoder::new();
    d.feed(&frame(7, 0, 2004, &[1, 2, 3]));
    let f = d.next_frame().expect("one complete frame buffered");
    assert_eq!(f.header.length, 19);
    assert_eq!(f.header.request_id, 7);
    assert_eq!(f.header.response_to, 0);
    assert_eq!(f.header.op_code, 2004);
    assert_eq!(f.payload, vec![1, 2, 3]);
    assert!(d.next_frame().is_none());
}

#[test]
fn decoder_waits_for_completion() {
    let whole = frame(9, 0, 2013, &[5, 6, 7, 8]);
    let mut d = FrameDecoder::new();
    d.feed(&whole[..10].to_vec());
    assert!(d.next_frame().is_none());
    assert!(d.next_frame().is_none());
    d.feed(&whole[10..].to_vec());
    let f = d.next_frame().expect("frame completed by second chunk");
    assert_eq!(f.header.request_id, 9);
    assert_eq!(f.payload, vec![5, 6, 7, 8]);
}

#[test]
fn decoder_accepts_header_only_frame() {
    let mut d = FrameDecoder::new();
    d.feed(&frame(3, 0, 2007, &[]));
    let f = d.next_frame().expect("a 16-byte frame is complete");
    assert_eq!(f.header.length, 16);
    assert!(f.payload.is_empty());
}

#[test]
fn decoder_malformed_length_disables_for_good() {
    let mut d = FrameDecoder::new();
    d.feed(&raw_header(15, 1, 0, 2004));
    assert!(d.next_frame().is_none());
    // Valid bytes after the malformed frame must never be decoded.
    d.feed(&frame(2, 0, 2004, &[]));
    assert!(d.next_frame().is_none());
}

#[test]
fn decoder_zero_length_is_malformed() {
    let mut d = FrameDecoder::new();
    d.feed(&raw_header(0, 1, 0, 2004));
    assert!(d.next_frame().is_none());
    d.feed(&frame(2, 0, 2004, &[]));
    assert!(d.next_frame().is_none());
}

fn ingest_all(chunks: &[Vec<u8>], now: u64, capacity: usize) -> Vec<StatsRecord> {
    let mut p = StreamParser::new(Direction::ClientToBackend);
    let mut t = CorrTable::new(capacity);
    let mut out = Vec::new();
    for c in chunks {
        let mut recs = p.ingest(c, now, &mut t);
        out.append(&mut recs);
    }
    out
}

#[test]
fn ingest_whole_equals_byte_by_byte() {
    let mut stream = Vec::new();
    stream.extend(frame(1, 0, 2004, &[10, 20]));
    stream.extend(frame(2, 0, 2013, &[]));
    stream.extend(frame(3, 0, 2002, &[9; 33]));

    let whole = ingest_all(&[stream.clone()], 77, 16);
    let split: Vec<Vec<u8>> = stream.iter().map(|b| vec![*b]).collect();
    let trickled = ingest_all(&split, 77, 16);

    assert_eq!(whole.len(), 3);
    assert_eq!(whole, trickled);
}

#[test]
fn three_frames_in_one_chunk_yield_three_records_in_order() {
    let mut chunk = Vec::new();
    chunk.extend(frame(1, 0, 2004, &[1]));
    chunk.extend(frame(2, 0, 2013, &[2, 2]));
    chunk.extend(frame(3, 0, 2006, &[3, 3, 3]));

    let recs = ingest_all(&[chunk], 5, 16);
    assert_eq!(recs.len(), 3);
    assert_eq!(recs[0].op, OpKind::Query);
    assert_eq!(recs[1].op, OpKind::Msg);
    assert_eq!(recs[2].op, OpKind::Delete);
    assert_eq!(recs[0].frame_len, 17);
    assert_eq!(recs[1].frame_len, 18);
    assert_eq!(recs[2].frame_len, 19);
    for r in &recs {
        assert_eq!(r.direction, Direction::ClientToBackend);
        assert_eq!(r.timestamp, 5);
        assert_eq!(r.latency, LatencyInfo::Unknown);
    }
}

#[test]
fn matched_response_measures_latency() {
    let mut requests = StreamParser::new(Direction::ClientToBackend);
    let mut responses = StreamParser::new(Direction::BackendToClient);
    let mut table = CorrTable::new(32);

    let sent = requests.ingest(&frame(42, 0, 2004, &[1]), 100, &mut table);
    assert_eq!(sent.len(), 1);
    assert_eq!(sent[0].latency, LatencyInfo::Unknown);

    let got = responses.ingest(&frame(900, 42, 1, &[2, 3]), 250, &mut table);
    assert_eq!(got.len(), 1);
    assert_eq!(got[0].direction, Direction::BackendToClient);
    assert_eq!(got[0].op, OpKind::Reply);
    assert_eq!(got[0].latency, LatencyInfo::Measured(150));
}

#[test]
fn unmatched_response_has_unknown_latency() {
    let mut responses = StreamParser::new(Direction::BackendToClient);
    let mut table = CorrTable::new(32);
    let got = responses.ingest(&frame(900, 42, 1, &[]), 250, &mut table);
    assert_eq!(got.len(), 1);
    assert_eq!(got[0].latency, LatencyInfo::Unknown);
}

#[test]
fn response_repeated_matches_only_once() {
    let mut requests = StreamParser::new(Direction::ClientToBackend);
    let mut responses = StreamParser::new(Direction::BackendToClient);
    let mut table = CorrTable::new(32);

    requests.ingest(&frame(42, 0, 2004, &[]), 10, &mut table);
    let first = responses.ingest(&frame(1, 42, 1, &[]), 30, &mut table);
    let second = responses.ingest(&frame(2, 42, 1, &[]), 40, &mut table);
    assert_eq!(first[0].latency, LatencyInfo::Measured(20));
    assert_eq!(second[0].latency, LatencyInfo::Unknown);
}

#[test]
fn clock_going_backwards_clamps_latency_to_zero() {
    let mut requests = StreamParser::new(Direction::ClientToBackend);
    let mut responses = StreamParser::new(Direction::BackendToClient);
    let mut table = CorrTable::new(32);

    requests.ingest(&frame(8, 0, 2004, &[]), 500, &mut table);
    let got = responses.ingest(&frame(1, 8, 1, &[]), 100, &mut table);
    assert_eq!(got[0].latency, LatencyInfo::Measured(0));
}

#[test]
fn table_evicts_oldest_when_full() {
    let mut requests = StreamParser::new(Direction::ClientToBackend);
    let mut responses = StreamParser::new(Direction::BackendToClient);
    let mut table = CorrTable::new(2);

    requests.ingest(&frame(1, 0, 2004, &[]), 10, &mut table);
    requests.ingest(&frame(2, 0, 2004, &[]), 11, &mut table);
    requests.ingest(&frame(3, 0, 2004, &[]), 12, &mut table);

    // The oldest entry (request 1) was evicted; its late response is
    // unmatched, the younger ones still measure.
    let late = responses.ingest(&frame(7, 1, 1, &[]), 20, &mut table);
    assert_eq!(late[0].latency, LatencyInfo::Unknown);
    let young = responses.ingest(&frame(8, 3, 1, &[]), 20, &mut table);
    assert_eq!(young[0].latency, LatencyInfo::Measured(8));
}

#[test]
fn zero_capacity_table_records_nothing() {
    let mut requests = StreamParser::new(Direction::ClientToBackend);
    let mut responses = StreamParser::new(Direction::BackendToClient);
    let mut table = CorrTable::new(0);

    requests.ingest(&frame(1, 0, 2004, &[]), 10, &mut table);
    let got = responses.ingest(&frame(2, 1, 1, &[]), 20, &mut table);
    assert_eq!(got[0].latency, LatencyInfo::Unknown);
}

#[test]
fn op_kind_mapping_is_exact() {
    assert_eq!(classify_op(1), OpKind::Reply);
    assert_eq!(classify_op(2001), OpKind::Update);
    assert_eq!(classify_op(2002), OpKind::Insert);
    assert_eq!(classify_op(2004), OpKind::Query);
    assert_eq!(classify_op(2005), OpKind::GetMore);
    assert_eq!(classify_op(2006), OpKind::Delete);
    assert_eq!(classify_op(2007), OpKind::KillCursors);
    assert_eq!(classify_op(2012), OpKind::Compressed);
    assert_eq!(classify_op(2013), OpKind::Msg);
    assert_eq!(classify_op(0), OpKind::Other);
    assert_eq!(classify_op(1234), OpKind::Other);
}
