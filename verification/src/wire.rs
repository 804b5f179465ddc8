//! The wire format: length-prefixed frames and the mathematical model of a
//! parsed byte stream.
//!
//! Every message on the wire starts with a 16-byte header of four
//! little-endian 32-bit fields: the declared length of the whole frame
//! (header included), the request identifier, the correlation identifier
//! naming the request a response answers, and the operation code. The
//! declared length is the single source of truth for framing: a stream is cut
//! into frames by reading it and nothing else, and a declared length below
//! the header size poisons the stream for good (no resynchronisation is ever
//! attempted).

use vstd::prelude::*;

verus! {

/// Size in bytes of the fixed wire-protocol message header.
pub const HEADER_LEN: usize = 16;

/// The unsigned 32-bit value stored little-endian at offset `off` of `s`.
pub open spec fn le32_at(s: Seq<u8>, off: int) -> u32
    recommends
        0 <= off,
        off + 4 <= s.len(),
{
    ((s[off] as int) + (s[off + 1] as int) * 0x100 + (s[off + 2] as int) * 0x10000 + (s[off + 3]
        as int) * 0x1000000) as u32
}

/// The four header fields of a frame, as plain values.
#[derive(Clone, Copy, PartialEq, Eq, Structural, Debug)]
pub struct MessageHeader {
    /// Declared length of the whole frame, header included.
    pub length: u32,
    /// Identifier the sender gave this message.
    pub request_id: u32,
    /// Identifier of the request this message answers (responses only).
    pub response_to: u32,
    /// Operation code.
    pub op_code: u32,
}

/// The header encoded at the front of `s`.
pub open spec fn header_of(s: Seq<u8>) -> MessageHeader
    recommends
        s.len() >= HEADER_LEN,
{
    MessageHeader {
        length: le32_at(s, 0),
        request_id: le32_at(s, 4),
        response_to: le32_at(s, 8),
        op_code: le32_at(s, 12),
    }
}

/// `s` is exactly one well-formed frame: long enough to carry a header, and
/// its declared length equals its actual length.
pub open spec fn is_frame(s: Seq<u8>) -> bool {
    &&& s.len() >= HEADER_LEN
    &&& header_of(s).length == s.len()
}

/// One complete frame taken off the stream: its header fields and the opaque
/// payload that follows the header.
pub struct Frame {
    /// The four fixed header fields.
    pub header: MessageHeader,
    /// The bytes after the header; the relay never interprets them.
    pub payload: Vec<u8>,
}

/// The sequence of complete frames at the front of the byte stream `s`,
/// in order. Parsing stops at the first incomplete frame and, permanently,
/// at the first declared length below the header size.
pub open spec fn stream_frames(s: Seq<u8>) -> Seq<Seq<u8>>
    decreases s.len(),
{
    if s.len() < 4 {
        Seq::empty()
    } else {
        let l = le32_at(s, 0) as int;
        if l < HEADER_LEN {
            Seq::empty()
        } else if s.len() < l {
            Seq::empty()
        } else {
            seq![s.take(l)] + stream_frames(s.skip(l))
        }
    }
}

/// Whether the stream `s` exposes a malformed declared length (below the
/// header size) at the point where parsing stops.
pub open spec fn stream_poisoned(s: Seq<u8>) -> bool
    decreases s.len(),
{
    if s.len() < 4 {
        false
    } else {
        let l = le32_at(s, 0) as int;
        if l < HEADER_LEN {
            true
        } else if s.len() < l {
            false
        } else {
            stream_poisoned(s.skip(l))
        }
    }
}

/// The bytes of `s` left over after removing the complete frames at its
/// front: an incomplete trailing frame, or everything from a malformed
/// length on.
pub open spec fn stream_rest(s: Seq<u8>) -> Seq<u8>
    decreases s.len(),
{
    if s.len() < 4 {
        s
    } else {
        let l = le32_at(s, 0) as int;
        if l < HEADER_LEN {
            s
        } else if s.len() < l {
            s
        } else {
            stream_rest(s.skip(l))
        }
    }
}

/// A value read inside the first `n` bytes of `s` is unchanged by `take`.
pub proof fn lemma_le32_take(s: Seq<u8>, n: int, off: int)
    requires
        0 <= off,
        off + 4 <= n,
        n <= s.len(),
    ensures
        le32_at(s.take(n), off) == le32_at(s, off),
{
    assert(s.take(n)[off] == s[off]);
    assert(s.take(n)[off + 1] == s[off + 1]);
    assert(s.take(n)[off + 2] == s[off + 2]);
    assert(s.take(n)[off + 3] == s[off + 3]);
}

/// A value read inside `a` is unchanged by appending `b`.
pub proof fn lemma_le32_append(a: Seq<u8>, b: Seq<u8>, off: int)
    requires
        0 <= off,
        off + 4 <= a.len(),
    ensures
        le32_at(a + b, off) == le32_at(a, off),
{
    assert((a + b)[off] == a[off]);
    assert((a + b)[off + 1] == a[off + 1]);
    assert((a + b)[off + 2] == a[off + 2]);
    assert((a + b)[off + 3] == a[off + 3]);
}

/// A well-formed frame at the front of a stream is parsed off as-is, and the
/// parse of what follows is independent of it.
pub proof fn lemma_frame_prepend(f: Seq<u8>, r: Seq<u8>)
    requires
        is_frame(f),
    ensures
        stream_frames(f + r) == seq![f] + stream_frames(r),
        stream_rest(f + r) == stream_rest(r),
        stream_poisoned(f + r) == stream_poisoned(r),
{
    let s = f + r;
    lemma_le32_append(f, r, 0);
    let l = le32_at(s, 0) as int;
    assert(l == f.len());
    assert(s.take(l) =~= f);
    assert(s.skip(l) =~= r);
}

/// Growing a stream never disturbs what is already parsed: the frames of
/// `s + t` are the frames of `s` followed by whatever the leftover of `s`
/// and the new bytes `t` yield together, and a poisoned stream stays
/// poisoned with no further frames, whatever arrives after it.
pub proof fn lemma_stream_extend(s: Seq<u8>, t: Seq<u8>)
    ensures
        stream_poisoned(s) ==> {
            &&& stream_frames(s + t) == stream_frames(s)
            &&& stream_poisoned(s + t)
        },
        !stream_poisoned(s) ==> {
            &&& stream_frames(s + t) == stream_frames(s) + stream_frames(stream_rest(s) + t)
            &&& stream_rest(s + t) == stream_rest(stream_rest(s) + t)
            &&& stream_poisoned(s + t) == stream_poisoned(stream_rest(s) + t)
        },
    decreases s.len(),
{
    if s.len() < 4 {
        assert(stream_rest(s) == s);
        assert(stream_rest(s) + t =~= s + t);
        assert(stream_frames(s) + stream_frames(s + t) =~= stream_frames(s + t));
    } else {
        lemma_le32_append(s, t, 0);
        let l = le32_at(s, 0) as int;
        if l < HEADER_LEN {
            assert(stream_poisoned(s));
            assert(stream_frames(s + t) =~= stream_frames(s));
            assert(stream_poisoned(s + t));
        } else if s.len() < l {
            assert(stream_rest(s) == s);
            assert(stream_rest(s) + t =~= s + t);
            assert(stream_frames(s) + stream_frames(s + t) =~= stream_frames(s + t));
        } else {
            let f = s.take(l);
            let s2 = s.skip(l);
            lemma_le32_take(s, l, 0);
            assert(is_frame(f));
            assert(s + t =~= f + (s2 + t));
            lemma_frame_prepend(f, s2 + t);
            lemma_stream_extend(s2, t);
            assert(stream_frames(s) == seq![f] + stream_frames(s2));
            assert(stream_rest(s) == stream_rest(s2));
            if stream_poisoned(s2) {
                assert(stream_frames(s + t) =~= stream_frames(s));
            } else {
                assert(seq![f] + (stream_frames(s2) + stream_frames(stream_rest(s2) + t)) =~= (
                seq![f] + stream_frames(s2)) + stream_frames(stream_rest(s2) + t));
            }
        }
    }
}

/// What parsing leaves over is itself quiescent: it holds no complete frame,
/// and it is poisoned exactly when the whole stream is.
pub proof fn lemma_rest_quiescent(s: Seq<u8>)
    ensures
        stream_frames(stream_rest(s)) == Seq::<Seq<u8>>::empty(),
        stream_poisoned(stream_rest(s)) == stream_poisoned(s),
    decreases s.len(),
{
    if s.len() < 4 {
        assert(stream_frames(stream_rest(s)) =~= Seq::<Seq<u8>>::empty());
    } else {
        let l = le32_at(s, 0) as int;
        if l < HEADER_LEN {
            assert(stream_frames(stream_rest(s)) =~= Seq::<Seq<u8>>::empty());
        } else if s.len() < l {
            assert(stream_frames(stream_rest(s)) =~= Seq::<Seq<u8>>::empty());
        } else {
            lemma_rest_quiescent(s.skip(l));
        }
    }
}

/// Law (fail-open, decoding half): once a stream is poisoned by a malformed
/// declared length, no bytes that arrive later ever yield another frame, and
/// the poison never clears.
pub proof fn lemma_poison_is_permanent(s: Seq<u8>, t: Seq<u8>)
    requires
        stream_poisoned(s),
    ensures
        stream_poisoned(s + t),
        stream_frames(s + t) == stream_frames(s),
{
    lemma_stream_extend(s, t);
}

/// Reads the little-endian 32-bit value at offset `off` of `v`.
pub fn read_le32(v: &Vec<u8>, off: usize) -> (r: u32)
    requires
        off + 4 <= v@.len(),
    ensures
        r == le32_at(v@, off as int),
{
    let n = v.len();
    assert(off + 4 <= n);
    let b0 = v[off] as u32;
    let b1 = v[off + 1] as u32;
    let b2 = v[off + 2] as u32;
    let b3 = v[off + 3] as u32;
    b0 + b1 * 0x100 + b2 * 0x10000 + b3 * 0x1000000
}

/// Copies `v[start..end]` into a fresh vector.
pub fn copy_range(v: &Vec<u8>, start: usize, end: usize) -> (r: Vec<u8>)
    requires
        start <= end,
        end <= v@.len(),
    ensures
        r@ == v@.subrange(start as int, end as int),
{
    let mut r: Vec<u8> = Vec::new();
    let mut i: usize = start;
    while i < end
        invariant
            start <= i <= end,
            end <= v@.len(),
            r@ == v@.subrange(start as int, i as int),
        decreases end - i,
    {
        r.push(v[i]);
        proof {
            assert(v@.subrange(start as int, i as int).push(v@[i as int]) =~= v@.subrange(
                start as int,
                i + 1 as int,
            ));
        }
        i = i + 1;
    }
    r
}

} // verus!
