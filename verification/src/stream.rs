//! The deterministic byte-stream decoder.
//!
//! A [`ByteStream`] turns an opaque input buffer into primitive typed values.
//! Multi-byte values are read little-endian, a fixed number of bytes per
//! value.  Exhaustion is governed by a policy: a bounded stream stops cleanly
//! once its byte budget is consumed, while a cyclic stream wraps its cursor
//! back to the start of the buffer and decodes indefinitely.  Decoding is a
//! pure function of the buffer and the cursor, which makes every run that
//! starts from the same bytes reproducible.

use vstd::prelude::*;

verus! {

/// What happens when the stream runs out of fresh bytes.
#[derive(Clone, Copy, PartialEq, Eq, Structural, Debug)]
pub enum ExhaustionPolicy {
    /// Stop cleanly once the configured byte budget is consumed.
    Bounded,
    /// Wrap the cursor back to offset zero and reuse bytes indefinitely.
    Cyclic,
}

/// The mathematical state of a [`ByteStream`]: the immutable source bytes,
/// the cursor, the budget of readable bytes (`limit`, meaningful only for
/// bounded streams) and the exhaustion policy.
pub struct StreamModel {
    pub data: Seq<u8>,
    pub cursor: nat,
    pub limit: nat,
    pub cyclic: bool,
}

/// A well-formed stream state: a cyclic stream has a non-empty buffer and a
/// cursor strictly inside it; a bounded stream has its cursor within the
/// budget and the budget within the buffer.
pub open spec fn stream_wf(s: StreamModel) -> bool {
    &&& s.data.len() <= usize::MAX
    &&& if s.cyclic {
        s.data.len() > 0 && s.cursor < s.data.len()
    } else {
        s.cursor <= s.limit && s.limit <= s.data.len()
    }
}

/// Whether one more byte can be decoded from state `s`.
pub open spec fn stream_can_read(s: StreamModel) -> bool {
    s.cyclic || s.cursor < s.limit
}

/// Reading one byte: the decoded byte, if any, and the successor state.
/// An exhausted bounded stream returns `None` and is left unchanged.
pub open spec fn stream_read_byte(s: StreamModel) -> (Option<u8>, StreamModel) {
    if stream_can_read(s) {
        let byte = s.data[s.cursor as int];
        let next = if s.cyclic {
            if s.cursor + 1 == s.data.len() {
                0
            } else {
                s.cursor + 1
            }
        } else {
            s.cursor + 1
        };
        (Some(byte), StreamModel { cursor: next as nat, ..s })
    } else {
        (None, s)
    }
}

/// Reading one little-endian `u16` (two bytes).  If the stream exhausts
/// before both bytes are read, the read fails and the state is unchanged.
pub open spec fn stream_read_u16(s: StreamModel) -> (Option<u16>, StreamModel) {
    let (lo, s1) = stream_read_byte(s);
    let (hi, s2) = stream_read_byte(s1);
    match (lo, hi) {
        (Some(low), Some(high)) => (Some((low + high * 256) as u16), s2),
        _ => (None, s),
    }
}

/// The state of a fresh bounded stream over `data` with byte budget
/// `max_bytes`.
pub open spec fn spec_bounded_stream(data: Seq<u8>, max_bytes: usize) -> StreamModel {
    StreamModel {
        data,
        cursor: 0,
        limit: if (max_bytes as int) < data.len() {
            max_bytes as nat
        } else {
            data.len()
        },
        cyclic: false,
    }
}

/// The state of a fresh cyclic stream over `data` (meaningful only for a
/// non-empty buffer).
pub open spec fn spec_cyclic_stream(data: Seq<u8>) -> StreamModel {
    StreamModel { data, cursor: 0, limit: data.len(), cyclic: true }
}

/// A deterministic decoder over a raw byte buffer.
pub struct ByteStream {
    data: Vec<u8>,
    cursor: usize,
    limit: usize,
    policy: ExhaustionPolicy,
}

impl View for ByteStream {
    type V = StreamModel;

    closed spec fn view(&self) -> StreamModel {
        StreamModel {
            data: self.data@,
            cursor: self.cursor as nat,
            limit: self.limit as nat,
            cyclic: self.policy is Cyclic,
        }
    }
}

impl ByteStream {
    /// A bounded stream over `data`: at most `max_bytes` bytes (and never
    /// more than the buffer holds) are decoded, then every read reports
    /// exhaustion.
    pub fn new_bounded(data: Vec<u8>, max_bytes: usize) -> (r: ByteStream)
        ensures
            stream_wf(r@),
            r@ == spec_bounded_stream(data@, max_bytes),
    {
        let limit: usize = if max_bytes < data.len() {
            max_bytes
        } else {
            data.len()
        };
        ByteStream { data, cursor: 0, limit, policy: ExhaustionPolicy::Bounded }
    }

    /// A cyclic stream over `data`, which decodes indefinitely by wrapping
    /// the cursor; an empty buffer offers nothing to wrap over, so `None`.
    pub fn new_cyclic(data: Vec<u8>) -> (r: Option<ByteStream>)
        ensures
            r is Some <==> data@.len() > 0,
            r matches Some(s) ==> stream_wf(s@) && s@ == spec_cyclic_stream(data@),
    {
        if data.len() == 0 {
            None
        } else {
            let limit: usize = data.len();
            Some(ByteStream { data, cursor: 0, limit, policy: ExhaustionPolicy::Cyclic })
        }
    }

    /// The configured exhaustion policy.
    pub fn policy(&self) -> (r: ExhaustionPolicy)
        ensures
            r is Cyclic <==> self@.cyclic,
    {
        self.policy
    }

    /// Decode the next byte, or report exhaustion.
    pub fn next_byte(&mut self) -> (r: Option<u8>)
        requires
            stream_wf(old(self)@),
        ensures
            stream_wf(final(self)@),
            (r, final(self)@) == stream_read_byte(old(self)@),
    {
        match self.policy {
            ExhaustionPolicy::Bounded => {
                if self.cursor < self.limit {
                    let byte = self.data[self.cursor];
                    self.cursor = self.cursor + 1;
                    Some(byte)
                } else {
                    None
                }
            },
            ExhaustionPolicy::Cyclic => {
                proof {
                    assert(old(self)@.cyclic);
                    assert(self.cursor < self.data.len());
                }
                let byte = self.data[self.cursor];
                self.cursor = if self.cursor + 1 == self.data.len() {
                    0
                } else {
                    self.cursor + 1
                };
                Some(byte)
            },
        }
    }

    /// Decode the next little-endian `u16`, or report exhaustion.  A stream
    /// that exhausts mid-value is left at its starting position.
    pub fn next_u16(&mut self) -> (r: Option<u16>)
        requires
            stream_wf(old(self)@),
        ensures
            stream_wf(final(self)@),
            (r, final(self)@) == stream_read_u16(old(self)@),
    {
        let saved_cursor: usize = self.cursor;
        let lo = self.next_byte();
        match lo {
            None => None,
            Some(lo) => {
                let hi = self.next_byte();
                match hi {
                    None => {
                        self.cursor = saved_cursor;
                        None
                    },
                    Some(hi) => Some(lo as u16 + hi as u16 * 256),
                }
            },
        }
    }
}

} // verus!
