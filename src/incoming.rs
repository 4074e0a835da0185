//! The accept stream: connections admitted by the endpoint, in order, until
//! the endpoint is closed or its driver is lost.
use vstd::prelude::*;
use std::collections::VecDeque;

verus! {

/// What one poll of the accept stream gives.
#[derive(Clone, Copy, Debug, PartialEq, Eq, Structural)]
pub enum IncomingPoll {
    /// The next admitted connection, by handle.
    Ready(u64),
    /// The stream has ended.
    Ended,
    /// Nothing yet: the reader is parked until woken.
    Pending,
}

/// Connections awaiting acceptance, oldest first, and whether a reader is
/// parked on the stream.
#[derive(Debug)]
pub struct Incoming {
    pub queue: VecDeque<u64>,
    pub reader_parked: bool,
}

impl Incoming {
    pub fn new() -> (r: Incoming)
        ensures
            r.queue@.len() == 0,
            !r.reader_parked,
    {
        Incoming { queue: VecDeque::new(), reader_parked: false }
    }

    /// Appends a newly admitted connection.
    pub fn push(&mut self, h: u64)
        ensures
            final(self).queue@ == old(self).queue@.push(h),
            final(self).reader_parked == old(self).reader_parked,
    {
        self.queue.push_back(h);
    }

    /// Polls the stream. A lost driver ends it; otherwise the oldest
    /// connection comes first; with none left, a closed endpoint ends it, and
    /// an open one parks the reader.
    pub fn next(&mut self, driver_lost: bool, closed: bool) -> (r: IncomingPoll)
        ensures
            driver_lost ==> r == IncomingPoll::Ended && final(self).queue@ == old(self).queue@
                && final(self).reader_parked == old(self).reader_parked,
            !driver_lost && old(self).queue@.len() > 0 ==> r == IncomingPoll::Ready(old(self).queue@[0])
                && final(self).queue@ == old(self).queue@.drop_first()
                && final(self).reader_parked == old(self).reader_parked,
            !driver_lost && old(self).queue@.len() == 0 && closed ==> r == IncomingPoll::Ended
                && final(self).queue@ == old(self).queue@ && final(self).reader_parked == old(self).reader_parked,
            !driver_lost && old(self).queue@.len() == 0 && !closed ==> r == IncomingPoll::Pending
                && final(self).queue@.len() == 0 && final(self).reader_parked,
    {
        if driver_lost {
            IncomingPoll::Ended
        } else if let Some(h) = self.queue.pop_front() {
            proof {
                assert(self.queue@ =~= old(self).queue@.drop_first());
            }
            IncomingPoll::Ready(h)
        } else if closed {
            IncomingPoll::Ended
        } else {
            self.reader_parked = true;
            IncomingPoll::Pending
        }
    }

    /// Takes the parked reader, if any: returns whether it must be woken.
    pub fn take_reader(&mut self) -> (r: bool)
        ensures
            r == old(self).reader_parked,
            !final(self).reader_parked,
            final(self).queue@ == old(self).queue@,
    {
        let r = self.reader_parked;
        self.reader_parked = false;
        r
    }
}

/// Admitted connections leave the accept stream in the order they were
/// admitted: a stream holding `q` that then admits `h` yields every
/// connection of `q` first, then `h`, each once.
pub proof fn lemma_accept_order(q: Seq<u64>, h: u64, k: int)
    requires
        0 <= k <= q.len(),
    ensures
        q.push(h).skip(k).len() > 0,
        q.push(h).skip(k)[0] == if k < q.len() { q[k] } else { h },
        k == q.len() ==> q.push(h).skip(k) == seq![h],
{
    if k == q.len() {
        assert(q.push(h).skip(k) =~= seq![h]);
    }
}

} // verus!
