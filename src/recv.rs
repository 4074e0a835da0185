//! The receive pump's own decisions: how a coalesced datagram splits into
//! the datagrams it carries, and what to do after each poll of the socket.
use vstd::prelude::*;
use crate::limiter::{finished, worked, WorkLimiter};
use bytes::BytesMut;

verus! {

/// The segments of a received buffer of `len` bytes coalesced with segment
/// size `stride`: consecutive, covering it exactly, each `stride` long but
/// the last, which may be shorter.
pub open spec fn is_segmentation(r: Seq<(usize, usize)>, len: usize, stride: usize) -> bool {
    &&& (r.len() == 0 <==> len == 0)
    &&& r.len() > 0 ==> r[0].0 == 0 && r[r.len() - 1].1 == len
    &&& forall|i: int| 0 <= i < r.len() ==> r[i].0 < r[i].1 && r[i].1 - r[i].0 <= stride
    &&& forall|i: int|
        0 <= i < r.len() - 1 ==> r[i].1 - r[i].0 == stride && #[trigger] r[i].1 == r[i + 1].0
}

#[verifier::external_type_specification]
#[verifier::external_body]
pub struct ExBytesMut(BytesMut);

/// The bytes that a buffer holds.
pub uninterp spec fn buf_bytes(b: BytesMut) -> Seq<u8>;

/// Relies on `BytesMut::from(&[u8])`: a buffer holding a copy of the slice.
#[verifier::external_body]
fn buf_from(s: &[u8]) -> (r: BytesMut)
    ensures
        buf_bytes(r) == s@,
{
    BytesMut::from(s)
}

/// Relies on `BytesMut::len`: the number of bytes held.
#[verifier::external_body]
fn buf_len(b: &BytesMut) -> (r: usize)
    ensures
        r == buf_bytes(*b).len(),
{
    b.len()
}

/// Relies on `BytesMut::split_to`: the first `at` bytes are returned and the
/// rest stay; it panics when `at` exceeds the length.
#[verifier::external_body]
fn buf_split_to(b: &mut BytesMut, at: usize) -> (r: BytesMut)
    requires
        at <= buf_bytes(*old(b)).len(),
    ensures
        buf_bytes(r) == buf_bytes(*old(b)).take(at as int),
        buf_bytes(*final(b)) == buf_bytes(*old(b)).skip(at as int),
{
    b.split_to(at)
}

/// `r` holds the segments of `data` at the positions `bounds`.
pub open spec fn segments_at(r: Seq<BytesMut>, data: Seq<u8>, bounds: Seq<(usize, usize)>) -> bool {
    &&& r.len() == bounds.len()
    &&& forall|i: int| 0 <= i < r.len() ==> buf_bytes(#[trigger] r[i]) == data.subrange(bounds[i].0 as int, bounds[i].1 as int)
}

/// Splits a received datagram, coalesced with segment size `stride`, into
/// the datagrams it carries: consecutive runs of `stride` bytes, the last
/// possibly shorter, covering it exactly.
pub fn split_datagram(data: &[u8], stride: usize) -> (r: Vec<BytesMut>)
    requires
        stride > 0,
    ensures
        exists|bounds: Seq<(usize, usize)>| is_segmentation(bounds, data@.len() as usize, stride) && segments_at(r@, data@, bounds),
{
    let len = data.len();
    let mut rest = buf_from(data);
    let mut r: Vec<BytesMut> = Vec::new();
    let ghost mut b: Seq<(usize, usize)> = Seq::empty();
    let ghost mut start: usize = 0;
    while buf_len(&rest) > 0
        invariant
            stride > 0,
            len == data@.len(),
            start <= len,
            buf_bytes(rest) == data@.skip(start as int),
            (b.len() == 0 <==> start == 0),
            b.len() > 0 ==> b[0].0 == 0 && b[b.len() - 1].1 == start,
            forall|i: int| 0 <= i < b.len() ==> b[i].0 < b[i].1 && b[i].1 - b[i].0 <= stride,
            forall|i: int|
                0 <= i < b.len() - 1 ==> b[i].1 - b[i].0 == stride && #[trigger] b[i].1 == b[i + 1].0,
            b.len() > 0 && start < len ==> b[b.len() - 1].1 - b[b.len() - 1].0 == stride,
            segments_at(r@, data@, b),
        decreases len - start,
    {
        let n = buf_len(&rest);
        let take: usize = if stride < n { stride } else { n };
        let seg = buf_split_to(&mut rest, take);
        proof {
            assert(buf_bytes(seg) =~= data@.subrange(start as int, start + take));
            assert(buf_bytes(rest) =~= data@.skip(start + take));
            b = b.push((start, (start + take) as usize));
            start = (start + take) as usize;
        }
        let ghost old_r = r@;
        r.push(seg);
        proof {
            assert forall|i: int| 0 <= i < r@.len() implies buf_bytes(#[trigger] r@[i]) == data@.subrange(b[i].0 as int, b[i].1 as int) by {
                if i < r@.len() - 1 {
                    assert(r@[i] == old_r[i]);
                }
            }
        }
    }
    proof {
        assert(buf_bytes(rest).len() == 0);
        assert(is_segmentation(b, data@.len() as usize, stride));
    }
    r
}

/// What one poll of the socket for received datagrams gave.
#[derive(Clone, Copy, Debug, PartialEq, Eq, Structural)]
pub enum RecvPoll {
    /// Nothing to read now.
    Pending,
    /// This many datagrams were read (and have been handed on).
    Received(u64),
    /// The platform reported a reset from the peer.
    ConnectionReset,
    /// Any other I/O error.
    Failed,
}

/// What the receive pump does next.
#[derive(Clone, Copy, Debug, PartialEq, Eq, Structural)]
pub enum RecvStep {
    /// Poll the socket again.
    Continue,
    /// Stop: the socket is parked or drained; no re-poll needed.
    Park,
    /// Stop: the limiter vetoed more work; ask to be polled again.
    Yield,
    /// Stop the endpoint with the error.
    Fail,
}

/// Decides the receive pump's next step after one poll of the socket.
/// Received datagrams count one unit of work each; a reset, which may be
/// spoofed, is ignored; other errors are fatal.
pub fn recv_step(limiter: &mut WorkLimiter, poll: RecvPoll, now: u64) -> (r: RecvStep)
    requires
        old(limiter).wf(),
    ensures
        final(limiter).wf(),
        final(limiter).budget == old(limiter).budget,
        match poll {
            RecvPoll::ConnectionReset => r == RecvStep::Continue && *final(limiter) == *old(limiter),
            RecvPoll::Failed => r == RecvStep::Fail && *final(limiter) == *old(limiter),
            RecvPoll::Pending => r == RecvStep::Park && *final(limiter) == finished(*old(limiter), now),
            RecvPoll::Received(n) => {
                let w = worked(*old(limiter), n);
                &&& w.allows(now) ==> r == RecvStep::Continue && *final(limiter) == w
                &&& !w.allows(now) ==> r == RecvStep::Yield && *final(limiter) == finished(w, now)
            },
        },
{
    match poll {
        RecvPoll::Pending => {
            limiter.finish_cycle(now);
            RecvStep::Park
        },
        RecvPoll::ConnectionReset => RecvStep::Continue,
        RecvPoll::Failed => RecvStep::Fail,
        RecvPoll::Received(n) => {
            limiter.record_work(n);
            if limiter.allow_work(now) {
                RecvStep::Continue
            } else {
                limiter.finish_cycle(now);
                RecvStep::Yield
            }
        },
    }
}

} // verus!
