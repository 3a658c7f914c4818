//! Bounded body collection: the only path by which request bodies enter the
//! core, enforcing a byte ceiling chunk by chunk.
//!
//! The ceiling is enforced on the bytes actually received, never on a
//! declared `Content-Length`, so an adversarial length header cannot reserve
//! or overflow anything.

use vstd::prelude::*;
use crate::errors::GatewayError;

verus! {

/// Default maximum body size: 2 MiB.
pub const DEFAULT_MAX_BODY_SIZE: usize = 2 * 1024 * 1024;

/// Streaming body collector with a hard byte ceiling.
pub struct BoundedBodyReader {
    /// The ceiling in bytes.
    pub max_size: usize,
    /// Bytes collected so far; never longer than `max_size`.
    pub data: Vec<u8>,
}

impl BoundedBodyReader {
    /// Collector well-formedness: the collected bytes never exceed the
    /// ceiling.
    pub open spec fn wf(&self) -> bool {
        self.data@.len() <= self.max_size
    }

    /// A fresh collector for the given ceiling.
    pub fn new(max_size: usize) -> (r: BoundedBodyReader)
        ensures
            r.wf(),
            r.max_size == max_size,
            r.data@.len() == 0,
    {
        BoundedBodyReader { max_size, data: Vec::new() }
    }

    /// Accept one body chunk. The chunk is kept exactly when it still fits
    /// under the ceiling; otherwise nothing is kept and the caller receives
    /// `PayloadTooLarge`.
    pub fn push_chunk(&mut self, chunk: &[u8]) -> (r: Result<(), GatewayError>)
        requires
            old(self).wf(),
        ensures
            final(self).wf(),
            final(self).max_size == old(self).max_size,
            r.is_ok() <==> old(self).data@.len() + chunk@.len() <= old(self).max_size,
            r.is_ok() ==> final(self).data@ == old(self).data@ + chunk@,
            r.is_err() ==> final(self).data@ == old(self).data@
                && (match r {
                    Err(GatewayError::PayloadTooLarge { size, limit }) =>
                        size == crate::ratelimit::spec_sat64(
                            old(self).data@.len() + chunk@.len() as int)
                            && limit == old(self).max_size,
                    _ => false,
                }),
    {
        if chunk.len() > self.max_size - self.data.len() {
            let total: u128 = (self.data.len() as u128) + (chunk.len() as u128);
            let size: u64 = if total > u64::MAX as u128 {
                u64::MAX
            } else {
                total as u64
            };
            return Err(GatewayError::PayloadTooLarge {
                size,
                limit: self.max_size as u64,
            });
        }
        let mut i: usize = 0;
        while i < chunk.len()
            invariant
                i <= chunk@.len(),
                old(self).data@.len() + chunk@.len() <= old(self).max_size,
                self.max_size == old(self).max_size,
                self.data@ == old(self).data@ + chunk@.subrange(0, i as int),
            decreases chunk@.len() - i,
        {
            self.data.push(chunk[i]);
            proof {
                assert(old(self).data@ + chunk@.subrange(0, i as int + 1)
                    =~= (old(self).data@ + chunk@.subrange(0, i as int)).push(chunk@[i as int]));
            }
            i += 1;
        }
        proof {
            assert(chunk@.subrange(0, chunk@.len() as int) =~= chunk@);
        }
        Ok(())
    }

    /// Bytes collected so far.
    pub fn len(&self) -> (n: usize)
        ensures
            n == self.data@.len(),
    {
        self.data.len()
    }

    /// Hand the collected body to the caller; by the collector's invariant
    /// it never exceeds the ceiling.
    pub fn into_body(self) -> (r: Vec<u8>)
        requires
            self.wf(),
        ensures
            r@ == self.data@,
            r@.len() <= self.max_size,
    {
        self.data
    }
}

/// The bounded reader never yields more than `max_size` bytes: every
/// well-formed collector state, hence everything `into_body` can return, is
/// within the ceiling, whatever chunks arrived.
pub proof fn lemma_body_reader_bounded(r: BoundedBodyReader)
    requires
        r.wf(),
    ensures
        r.data@.len() <= r.max_size,
{
}

/// Copy of a byte range out of a payload.
pub fn slice_payload(data: &Vec<u8>, start: usize, end: usize) -> (r: Vec<u8>)
    requires
        start <= end <= data@.len(),
    ensures
        r@ == data@.subrange(start as int, end as int),
{
    let mut out: Vec<u8> = Vec::new();
    let mut i: usize = start;
    while i < end
        invariant
            start <= i <= end <= data@.len(),
            out@ == data@.subrange(start as int, i as int),
        decreases end - i,
    {
        out.push(data[i]);
        proof {
            assert(data@.subrange(start as int, i as int + 1)
                =~= data@.subrange(start as int, i as int).push(data@[i as int]));
        }
        i += 1;
    }
    out
}

/// Split a payload at a position into its left and right parts.
pub fn split_payload(data: Vec<u8>, mid: usize) -> (r: (Vec<u8>, Vec<u8>))
    requires
        mid <= data@.len(),
    ensures
        r.0@ == data@.subrange(0, mid as int),
        r.1@ == data@.subrange(mid as int, data@.len() as int),
{
    let left = slice_payload(&data, 0, mid);
    let right = slice_payload(&data, mid, data.len());
    (left, right)
}

/// Does the payload begin with the given byte prefix?
pub fn payload_starts_with(data: &Vec<u8>, prefix: &[u8]) -> (r: bool)
    ensures
        r == (data@.len() >= prefix@.len()
            && data@.subrange(0, prefix@.len() as int) == prefix@),
{
    if data.len() < prefix.len() {
        return false;
    }
    let mut i: usize = 0;
    while i < prefix.len()
        invariant
            prefix@.len() <= data@.len(),
            i <= prefix@.len(),
            forall|j: int| 0 <= j < i ==> data@[j] == prefix@[j],
        decreases prefix@.len() - i,
    {
        if data[i] != prefix[i] {
            proof {
                if data@.subrange(0, prefix@.len() as int) == prefix@ {
                    assert(data@.subrange(0, prefix@.len() as int)[i as int] == prefix@[i as int]);
                }
            }
            return false;
        }
        i += 1;
    }
    proof {
        assert(data@.subrange(0, prefix@.len() as int) =~= prefix@);
    }
    true
}

} // verus!
