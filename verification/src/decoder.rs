//! The frame decoder: an append-only parse buffer that yields complete
//! frames one at a time.
//!
//! `feed` appends a chunk of the byte stream; `next_frame` removes and
//! returns the oldest complete frame, or returns nothing when the buffer
//! holds less than one frame. A declared length below the header size marks
//! the decoder failed for good: from then on it yields nothing, whatever is
//! fed, and never guesses a recovery point.

use vstd::prelude::*;

use crate::wire::le32_at;
use crate::wire::header_of;
use crate::wire::copy_range;
use crate::wire::read_le32;
use crate::wire::Frame;
use crate::wire::MessageHeader;
use crate::wire::HEADER_LEN;

verus! {

/// A resumable decoder for one direction of the byte stream.
pub struct FrameDecoder {
    /// Bytes read off the socket but not yet cut into frames.
    pub buf: Vec<u8>,
    /// Set once a malformed declared length was seen; never cleared.
    pub failed: bool,
}

impl FrameDecoder {
    /// A decoder with an empty parse buffer.
    pub fn new() -> (d: FrameDecoder)
        ensures
            d.buf@ == Seq::<u8>::empty(),
            !d.failed,
    {
        FrameDecoder { buf: Vec::new(), failed: false }
    }

    /// Appends a chunk of the stream to the parse buffer.
    pub fn feed(&mut self, chunk: &Vec<u8>)
        ensures
            final(self).buf@ == old(self).buf@ + chunk@,
            final(self).failed == old(self).failed,
    {
        let mut i: usize = 0;
        while i < chunk.len()
            invariant
                i <= chunk@.len(),
                self.buf@ == old(self).buf@ + chunk@.take(i as int),
                self.failed == old(self).failed,
            decreases chunk@.len() - i,
        {
            self.buf.push(chunk[i]);
            proof {
                assert((old(self).buf@ + chunk@.take(i as int)).push(chunk@[i as int]) =~= old(
                    self,
                ).buf@ + chunk@.take(i + 1 as int));
            }
            i = i + 1;
        }
        proof {
            assert(chunk@.take(chunk@.len() as int) =~= chunk@);
        }
    }

    /// Removes and returns the oldest complete frame of the buffer, if the
    /// buffer holds at least the declared length worth of bytes. Returns
    /// nothing — leaving the buffer untouched, so the call can be repeated
    /// as more data arrives — while the front frame is still incomplete, and
    /// marks the decoder failed instead when the declared length at the
    /// front is below the header size.
    pub fn next_frame(&mut self) -> (r: Option<Frame>)
        ensures
            ({
                let b = old(self).buf@;
                if old(self).failed {
                    &&& r is None
                    &&& final(self).buf@ == b
                    &&& final(self).failed
                } else if b.len() < 4 {
                    &&& r is None
                    &&& final(self).buf@ == b
                    &&& !final(self).failed
                } else if (le32_at(b, 0) as int) < HEADER_LEN {
                    &&& r is None
                    &&& final(self).buf@ == b
                    &&& final(self).failed
                } else if b.len() < le32_at(b, 0) as int {
                    &&& r is None
                    &&& final(self).buf@ == b
                    &&& !final(self).failed
                } else {
                    let l = le32_at(b, 0) as int;
                    &&& r is Some
                    &&& r->Some_0.header == header_of(b)
                    &&& r->Some_0.payload@ == b.subrange(HEADER_LEN as int, l)
                    &&& final(self).buf@ == b.skip(l)
                    &&& !final(self).failed
                }
            }),
    {
        if self.failed {
            return Option::None;
        }
        if self.buf.len() < 4 {
            return Option::None;
        }
        let declared = read_le32(&self.buf, 0);
        if declared < HEADER_LEN as u32 {
            self.failed = true;
            return Option::None;
        }
        let l = declared as usize;
        if self.buf.len() < l {
            return Option::None;
        }
        let header = MessageHeader {
            length: declared,
            request_id: read_le32(&self.buf, 4),
            response_to: read_le32(&self.buf, 8),
            op_code: read_le32(&self.buf, 12),
        };
        let payload = copy_range(&self.buf, HEADER_LEN, l);
        let rest = copy_range(&self.buf, l, self.buf.len());
        self.buf = rest;
        proof {
            assert(self.buf@ =~= old(self).buf@.skip(l as int));
        }
        Option::Some(Frame { header, payload })
    }
}

} // verus!
