use vstd::prelude::*;
use crate::config::{AT_CMD, READ_BUF_SIZE};

verus! {

/// When the serial transport closes a frame: on a given byte, or once a
/// given number of bytes has come in, whichever happens first.
#[derive(Clone, Copy, Debug, PartialEq, Eq)]
pub struct FrameTrigger {
    /// Byte that closes a frame early.
    pub trigger_byte: u8,
    /// Number of buffered bytes at which a frame is closed by force.
    pub threshold: usize,
}

impl FrameTrigger {
    /// True when none of the first `k` bytes of `stream` is the trigger byte.
    pub open spec fn quiet(&self, stream: Seq<u8>, k: int) -> bool {
        forall|i: int| 0 <= i < k ==> #[trigger] stream[i] != self.trigger_byte
    }

    /// True when the frame that `stream` starts with ends before position
    /// `k`: no trigger byte came earlier, and either the trigger byte stands
    /// at `k` or `k` bytes fill the buffer.
    pub open spec fn closes_at(&self, stream: Seq<u8>, k: int) -> bool {
        &&& 0 <= k <= stream.len()
        &&& k <= self.threshold
        &&& self.quiet(stream, k)
        &&& (k == self.threshold || (k < stream.len() && stream[k] == self.trigger_byte))
    }

    /// True when `stream` does not yet hold a whole frame.
    pub open spec fn incomplete(&self, stream: Seq<u8>) -> bool {
        stream.len() < self.threshold && self.quiet(stream, stream.len() as int)
    }

    /// The trigger of the serial link as it is configured at start-up.
    pub fn configured() -> (t: Self)
        ensures
            t.trigger_byte == AT_CMD,
            t.threshold == READ_BUF_SIZE,
    {
        FrameTrigger { trigger_byte: AT_CMD, threshold: READ_BUF_SIZE }
    }

    /// Finds where the first frame of `stream` ends, if the stream holds a
    /// whole frame.
    pub fn boundary(&self, stream: &[u8]) -> (r: Option<usize>)
        ensures
            r matches Some(k) ==> self.closes_at(stream@, k as int),
            r is None <==> self.incomplete(stream@),
    {
        let mut k: usize = 0;
        while k < stream.len() && k < self.threshold
            invariant
                k <= stream@.len(),
                k <= self.threshold,
                self.quiet(stream@, k as int),
            decreases stream@.len() - k,
        {
            if stream[k] == self.trigger_byte {
                return Some(k);
            }
            k += 1;
        }
        if k == self.threshold {
            Some(k)
        } else {
            None
        }
    }

    /// Number of bytes handed over by the read that ends a frame at `k`: the
    /// frame, and the trigger byte where that closed it.
    pub open spec fn delivered(&self, k: int) -> int {
        if k < self.threshold {
            k + 1
        } else {
            k
        }
    }

    /// Number of bytes that the read closing the first frame of `stream`
    /// hands over, if the stream holds a whole frame.
    pub fn read_len(&self, stream: &[u8]) -> (r: Option<usize>)
        ensures
            r is None <==> self.incomplete(stream@),
            r matches Some(n) ==> n <= stream@.len() && exists|k: int|
                #[trigger] self.closes_at(stream@, k) && n == self.delivered(k),
    {
        match self.boundary(stream) {
            None => None,
            Some(k) => {
                if k < self.threshold {
                    Some(k + 1)
                } else {
                    Some(k)
                }
            },
        }
    }

    /// A stream has at most one place where its first frame ends.
    pub proof fn lemma_one_boundary(&self, stream: Seq<u8>, j: int, k: int)
        requires
            self.closes_at(stream, j),
        ensures
            self.closes_at(stream, k) ==> j == k,
            !self.incomplete(stream),
    {
        if self.closes_at(stream, k) {
            if j < k {
                assert(stream[j] != self.trigger_byte);
            }
            if k < j {
                assert(stream[k] != self.trigger_byte);
            }
        }
        if j < self.threshold {
            assert(stream[j] == self.trigger_byte);
        }
    }

    /// The first trigger byte of a stream, standing before the threshold,
    /// ends the frame where it stands: what follows it belongs to no part of
    /// that frame.
    pub proof fn lemma_trigger_closes_frame(&self, stream: Seq<u8>, k: int)
        requires
            0 <= k < stream.len(),
            k < self.threshold,
            stream[k] == self.trigger_byte,
            self.quiet(stream, k),
        ensures
            self.closes_at(stream, k),
            forall|j: int| self.closes_at(stream, j) ==> j == k,
    {
        assert forall|j: int| self.closes_at(stream, j) implies j == k by {
            self.lemma_one_boundary(stream, k, j);
        }
    }

    /// A stream that fills the buffer without a trigger byte ends its frame
    /// at the threshold.
    pub proof fn lemma_threshold_closes_frame(&self, stream: Seq<u8>)
        requires
            stream.len() == self.threshold,
            self.quiet(stream, stream.len() as int),
        ensures
            self.closes_at(stream, self.threshold as int),
            forall|j: int| self.closes_at(stream, j) ==> j == self.threshold,
    {
        assert forall|j: int| self.closes_at(stream, j) implies j == self.threshold by {
            self.lemma_one_boundary(stream, self.threshold as int, j);
        }
    }
}

} // verus!
