//! The live connections of an endpoint, keyed by connection handle, with the
//! close that the endpoint applies to every connection it admits later.
use vstd::prelude::*;
use bytes::Bytes;

verus! {

/// An application close: error code and reason phrase.
#[derive(Clone, Debug, PartialEq, Eq)]
pub struct CloseReason {
    pub code: u64,
    pub reason: Bytes,
}

/// What the endpoint keeps of one live connection.
#[derive(Clone, Debug, PartialEq, Eq)]
pub struct Connection {
    /// Handle assigned by the QUIC endpoint; stable for the connection's life.
    pub handle: u64,
    /// The close applied to the connection, if any; the first one stands.
    pub close: Option<CloseReason>,
    /// Deadline of the connection's timer entry, if one is scheduled.
    pub timer_deadline: Option<u64>,
    /// Set while the connection has signalled pending work that the driver
    /// has not yet picked up.
    pub is_dirty: bool,
}

/// The mathematical value of a close: code and reason bytes.
pub open spec fn close_view(c: Option<CloseReason>) -> Option<(u64, Seq<u8>)> {
    match c {
        Some(r) => Some((r.code, bytes_view(r.reason))),
        None => None,
    }
}

#[verifier::external_type_specification]
#[verifier::external_body]
pub struct ExBytes(Bytes);

/// The bytes that a shared buffer holds.
pub uninterp spec fn bytes_view(b: Bytes) -> Seq<u8>;

/// Relies on `Bytes::copy_from_slice`: a buffer holding a copy of the slice.
#[verifier::external_body]
fn bytes_copy(s: &[u8]) -> (r: Bytes)
    ensures
        bytes_view(r) == s@,
{
    Bytes::copy_from_slice(s)
}

/// Relies on `Bytes::clone`: another handle on the same bytes.
pub assume_specification[ <Bytes as Clone>::clone ](b: &Bytes) -> (r: Bytes)
    ensures
        bytes_view(r) == bytes_view(*b),
;

/// A copy of a close.
pub fn copy_close(c: &Option<CloseReason>) -> (r: Option<CloseReason>)
    ensures
        close_view(r) == close_view(*c),
{
    match c {
        Some(x) => Some(CloseReason { code: x.code, reason: x.reason.clone() }),
        None => None,
    }
}

/// The value of a connection record.
pub struct ConnView {
    pub handle: u64,
    pub close: Option<(u64, Seq<u8>)>,
    pub timer_deadline: Option<u64>,
    pub is_dirty: bool,
}

impl Connection {
    pub open spec fn view(&self) -> ConnView {
        ConnView {
            handle: self.handle,
            close: close_view(self.close),
            timer_deadline: self.timer_deadline,
            is_dirty: self.is_dirty,
        }
    }
}

/// The value of a connection set: its records in order, and its recorded close.
pub type SetView = (Seq<ConnView>, Option<(u64, Seq<u8>)>);

/// A connection after a close with `code` and `reason`: the first close stands.
pub open spec fn closed_conn(c: ConnView, code: u64, reason: Seq<u8>) -> ConnView {
    ConnView { close: if c.close is Some { c.close } else { Some((code, reason)) }, ..c }
}

/// A connection set after an endpoint close with `code` and `reason`: every
/// connection is closed, and the close is recorded for later admissions,
/// unless one was recorded already.
pub open spec fn close_spec(v: SetView, code: u64, reason: Seq<u8>) -> SetView {
    (
        v.0.map_values(|c: ConnView| closed_conn(c, code, reason)),
        if v.1 is Some { v.1 } else { Some((code, reason)) },
    )
}

/// Closing an endpoint twice leaves its connections and its recorded close
/// as the first close left them.
pub proof fn lemma_close_idempotent(v: SetView, c1: u64, r1: Seq<u8>, c2: u64, r2: Seq<u8>)
    ensures
        close_spec(close_spec(v, c1, r1), c2, r2) == close_spec(v, c1, r1),
{
    let once = close_spec(v, c1, r1);
    let twice = close_spec(once, c2, r2);
    assert(twice.0 =~= once.0);
}

/// The connection set: live connections, each handle at most once, and the
/// close recorded by the endpoint, if it was closed.
#[derive(Debug)]
pub struct ConnectionSet {
    pub refs: Vec<Connection>,
    pub close: Option<CloseReason>,
}

/// Whether handle `h` is held in `s`.
pub open spec fn holds(s: Seq<Connection>, h: u64) -> bool {
    exists|i: int| 0 <= i < s.len() && (#[trigger] s[i]).handle == h
}

/// No handle is held twice.
pub open spec fn unique_handles(s: Seq<Connection>) -> bool {
    forall|i: int, j: int|
        0 <= i < s.len() && 0 <= j < s.len() && i != j ==> (#[trigger] s[i]).handle != (#[trigger] s[j]).handle
}

/// Whether a connection's handle is outside `d`.
pub open spec fn not_in(d: Seq<u64>) -> spec_fn(Connection) -> bool {
    |c: Connection| !d.contains(c.handle)
}

impl ConnectionSet {
    pub open spec fn wf(&self) -> bool {
        unique_handles(self.refs@)
    }

    pub open spec fn contains(&self, h: u64) -> bool {
        holds(self.refs@, h)
    }

    pub open spec fn view(&self) -> SetView {
        (self.refs@.map_values(|c: Connection| c.view()), close_view(self.close))
    }

    /// Closes every connection with `code` and `reason`, but those closed
    /// already, and records the close for connections admitted later, unless
    /// one is recorded already.
    pub fn close_all(&mut self, code: u64, reason: &[u8])
        requires
            old(self).wf(),
        ensures
            final(self).wf(),
            final(self).view() == close_spec(old(self).view(), code, reason@),
            forall|h: u64| final(self).contains(h) <==> old(self).contains(h),
    {
        let shared = bytes_copy(reason);
        let n = self.refs.len();
        let mut i: usize = 0;
        while i < n
            invariant
                bytes_view(shared) == reason@,
                n == self.refs@.len(),
                n == old(self).refs@.len(),
                i <= n,
                self.close == old(self).close,
                forall|j: int| 0 <= j < i ==> (#[trigger] self.refs@[j]).view() == closed_conn(old(self).refs@[j].view(), code, reason@),
                forall|j: int| i <= j < n ==> (#[trigger] self.refs@[j]) == old(self).refs@[j],
            decreases n - i,
        {
            if self.refs[i].close.is_none() {
                let cr = CloseReason { code, reason: shared.clone() };
                let c = Connection { handle: self.refs[i].handle, close: Some(cr), timer_deadline: self.refs[i].timer_deadline, is_dirty: self.refs[i].is_dirty };
                self.refs.set(i, c);
            }
            i = i + 1;
        }
        if self.close.is_none() {
            self.close = Some(CloseReason { code, reason: shared });
        }
        assert(self.view().0 =~= close_spec(old(self).view(), code, reason@).0);
        assert forall|j: int| 0 <= j < n implies (#[trigger] self.refs@[j]).handle == old(self).refs@[j].handle by {
            assert(self.refs@[j].view() == closed_conn(old(self).refs@[j].view(), code, reason@));
        }
        assert forall|h: u64| self.contains(h) <==> old(self).contains(h) by {
            if old(self).contains(h) {
                let j = choose|j: int| 0 <= j < old(self).refs@.len() && (#[trigger] old(self).refs@[j]).handle == h;
                assert(self.refs@[j].handle == h);
            }
            if self.contains(h) {
                let j = choose|j: int| 0 <= j < self.refs@.len() && (#[trigger] self.refs@[j]).handle == h;
                assert(old(self).refs@[j].handle == h);
            }
        }
    }

    /// An empty set with no close recorded.
    pub fn new() -> (r: ConnectionSet)
        ensures
            r.wf(),
            r.refs@.len() == 0,
            r.close is None,
    {
        ConnectionSet { refs: Vec::new(), close: None }
    }

    pub fn is_empty(&self) -> (r: bool)
        ensures
            r == (self.refs@.len() == 0),
            r == (forall|h: u64| !self.contains(h)),
    {
        if self.refs.len() > 0 {
            assert(self.contains(self.refs@[0].handle));
        }
        self.refs.len() == 0
    }

    /// The position of handle `h`, if it is held.
    pub fn find(&self, h: u64) -> (r: Option<usize>)
        ensures
            match r {
                Some(i) => i < self.refs@.len() && self.refs@[i as int].handle == h,
                None => !self.contains(h),
            },
    {
        let mut i: usize = 0;
        while i < self.refs.len()
            invariant
                i <= self.refs@.len(),
                forall|j: int| 0 <= j < i ==> (#[trigger] self.refs@[j]).handle != h,
            decreases self.refs@.len() - i,
        {
            if self.refs[i].handle == h {
                return Some(i);
            }
            i = i + 1;
        }
        None
    }

    /// Admits a connection under handle `h`, replacing any held under the
    /// same handle. A recorded close is applied to it at once. Returns the
    /// close that was applied.
    pub fn insert(&mut self, h: u64) -> (r: Option<CloseReason>)
        requires
            old(self).wf(),
        ensures
            final(self).wf(),
            final(self).contains(h),
            close_view(r) == close_view(old(self).close),
            final(self).close == old(self).close,
            forall|g: u64| g != h ==> (final(self).contains(g) <==> old(self).contains(g)),
            forall|i: int|
                0 <= i < final(self).refs@.len() && (#[trigger] final(self).refs@[i]).handle == h
                    ==> {
                    &&& close_view(final(self).refs@[i].close) == close_view(old(self).close)
                    &&& final(self).refs@[i].timer_deadline is None
                    &&& !final(self).refs@[i].is_dirty
                },
            forall|i: int|
                0 <= i < old(self).refs@.len() && (#[trigger] old(self).refs@[i]).handle != h
                    ==> final(self).refs@.contains(old(self).refs@[i]),
            old(self).contains(h) ==> final(self).refs@.len() == old(self).refs@.len(),
            !old(self).contains(h) ==> final(self).refs@.len() == old(self).refs@.len() + 1
                && final(self).refs@[old(self).refs@.len() as int].handle == h,
            forall|i: int|
                0 <= i < old(self).refs@.len() && (#[trigger] old(self).refs@[i]).handle != h
                    ==> final(self).refs@[i] == old(self).refs@[i],
    {
        let conn = Connection {
            handle: h,
            close: copy_close(&self.close),
            timer_deadline: None,
            is_dirty: false,
        };
        let r = copy_close(&self.close);
        match self.find(h) {
            Some(i) => {
                self.refs.set(i, conn);
                assert forall|g: u64| g != h implies (self.contains(g) <==> old(self).contains(g)) by {
                    if old(self).contains(g) {
                        let j = choose|j: int| 0 <= j < old(self).refs@.len() && (#[trigger] old(self).refs@[j]).handle == g;
                        assert(self.refs@[j].handle == g);
                    }
                    if self.contains(g) {
                        let j = choose|j: int| 0 <= j < self.refs@.len() && (#[trigger] self.refs@[j]).handle == g;
                        assert(old(self).refs@[j].handle == g);
                    }
                }
                assert(self.refs@[i as int].handle == h);
                assert forall|k: int|
                    0 <= k < old(self).refs@.len() && (#[trigger] old(self).refs@[k]).handle != h
                        implies self.refs@.contains(old(self).refs@[k]) by {
                    assert(self.refs@[k] == old(self).refs@[k]);
                }
            },
            None => {
                self.refs.push(conn);
                assert(self.refs@[old(self).refs@.len() as int].handle == h);
                assert forall|g: u64| g != h implies (self.contains(g) <==> old(self).contains(g)) by {
                    if old(self).contains(g) {
                        let j = choose|j: int| 0 <= j < old(self).refs@.len() && (#[trigger] old(self).refs@[j]).handle == g;
                        assert(self.refs@[j].handle == g);
                    }
                    if self.contains(g) {
                        let j = choose|j: int| 0 <= j < self.refs@.len() && (#[trigger] self.refs@[j]).handle == g;
                        assert(old(self).refs@[j].handle == g);
                    }
                }
                assert forall|k: int|
                    0 <= k < old(self).refs@.len() && (#[trigger] old(self).refs@[k]).handle != h
                        implies self.refs@.contains(old(self).refs@[k]) by {
                    assert(self.refs@[k] == old(self).refs@[k]);
                }
            },
        }
        r
    }

    /// Sets the timer deadline and dirty flag of the connection at position
    /// `i`; all else stays.
    pub fn update(&mut self, i: usize, timer_deadline: Option<u64>, is_dirty: bool)
        requires
            old(self).wf(),
            i < old(self).refs@.len(),
        ensures
            final(self).wf(),
            final(self).close == old(self).close,
            final(self).refs@.len() == old(self).refs@.len(),
            final(self).refs@[i as int].view() == (ConnView { timer_deadline, is_dirty, ..old(self).refs@[i as int].view() }),
            forall|j: int| 0 <= j < final(self).refs@.len() && j != i ==> final(self).refs@[j] == old(self).refs@[j],
            forall|h: u64| final(self).contains(h) <==> old(self).contains(h),
    {
        let c = Connection {
            handle: self.refs[i].handle,
            close: copy_close(&self.refs[i].close),
            timer_deadline,
            is_dirty,
        };
        self.refs.set(i, c);
        assert forall|h: u64| self.contains(h) <==> old(self).contains(h) by {
            if old(self).contains(h) {
                let j = choose|j: int| 0 <= j < old(self).refs@.len() && (#[trigger] old(self).refs@[j]).handle == h;
                assert(self.refs@[j].handle == h);
            }
            if self.contains(h) {
                let j = choose|j: int| 0 <= j < self.refs@.len() && (#[trigger] self.refs@[j]).handle == h;
                assert(old(self).refs@[j].handle == h);
            }
        }
    }

    /// Removes every connection whose handle is in `drained`; the others keep
    /// their records and their order.
    pub fn remove_all(&mut self, drained: &Vec<u64>)
        requires
            old(self).wf(),
        ensures
            final(self).wf(),
            final(self).close == old(self).close,
            final(self).refs@ == old(self).refs@.filter(not_in(drained@)),
            forall|g: u64| final(self).contains(g) <==> (old(self).contains(g) && !drained@.contains(g)),
    {
        let n = self.refs.len();
        let mut kept: Vec<Connection> = Vec::new();
        let mut rest = self.refs.split_off(0);
        let ghost all = rest@;
        let mut i: usize = 0;
        while i < n
            invariant
                n == all.len(),
                all == old(self).refs@,
                unique_handles(all),
                i <= n,
                rest@ == all.skip(i as int),
                kept@ == all.subrange(0, i as int).filter(not_in(drained@)),
                unique_handles(kept@),
                forall|a: int, k: int| 0 <= a < kept@.len() && i <= k < n ==> (#[trigger] kept@[a]).handle != (#[trigger] all[k]).handle,
            decreases n - i,
        {
            let c = rest.remove(0);
            let mut gone = false;
            let mut j: usize = 0;
            while j < drained.len()
                invariant
                    j <= drained@.len(),
                    gone == drained@.subrange(0, j as int).contains(c.handle),
                decreases drained@.len() - j,
            {
                if drained[j] == c.handle {
                    gone = true;
                }
                proof {
                    assert(drained@.subrange(0, j + 1)[j as int] == drained@[j as int]);
                    let s0 = drained@.subrange(0, j as int);
                    let s1 = drained@.subrange(0, j + 1);
                    assert(s1 =~= s0.push(drained@[j as int]));
                    if s0.contains(c.handle) {
                        let k = choose|k: int| 0 <= k < s0.len() && s0[k] == c.handle;
                        assert(s1[k] == c.handle);
                    }
                    if s1.contains(c.handle) && !s0.contains(c.handle) {
                        let k = choose|k: int| 0 <= k < s1.len() && s1[k] == c.handle;
                        if k < j {
                            assert(s0[k] == c.handle);
                        }
                    }
                }
                j = j + 1;
            }
            proof {
                assert(drained@.subrange(0, drained@.len() as int) =~= drained@);
                assert(c == all[i as int]);
                assert(all.subrange(0, i + 1).drop_last() =~= all.subrange(0, i as int));
                assert(rest@ =~= all.skip(i + 1));
            }
            let ghost before = kept@;
            if !gone {
                kept.push(c);
                proof {
                    assert forall|a: int, b: int|
                        0 <= a < kept@.len() && 0 <= b < kept@.len() && a != b implies (#[trigger] kept@[a]).handle != (#[trigger] kept@[b]).handle by {
                        if a == before.len() {
                            assert(before[b].handle != all[i as int].handle);
                        } else if b == before.len() {
                            assert(before[a].handle != all[i as int].handle);
                        }
                    }
                    assert forall|a: int, k: int| 0 <= a < kept@.len() && i + 1 <= k < n implies (#[trigger] kept@[a]).handle != (#[trigger] all[k]).handle by {
                        if a == before.len() {
                            assert(all[i as int].handle != all[k].handle);
                        } else {
                            assert(before[a] == kept@[a]);
                        }
                    }
                }
            }
            proof {
                reveal(Seq::filter);
                let f = not_in(drained@);
                let sn = all.subrange(0, i + 1);
                assert(sn.len() > 0);
                assert(sn.last() == all[i as int]);
                assert(sn.drop_last() =~= all.subrange(0, i as int));
                assert(f(all[i as int]) == !gone);
                assert(kept@ =~= sn.filter(f));
            }
            i = i + 1;
        }
        proof {
            assert(all.subrange(0, n as int) =~= all);
        }
        self.refs = kept;
        proof {
            let f = not_in(drained@);
            assert forall|g: u64| self.contains(g) <==> (old(self).contains(g) && !drained@.contains(g)) by {
                if self.contains(g) {
                    let a = choose|a: int| 0 <= a < self.refs@.len() && (#[trigger] self.refs@[a]).handle == g;
                    all.lemma_filter_pred(f, a);
                    assert(f(self.refs@[a]));
                    assert(all.filter(f).contains(self.refs@[a]));
                    all.lemma_filter_contains_rev(f, self.refs@[a]);
                    let j = choose|j: int| 0 <= j < all.len() && all[j] == self.refs@[a];
                    assert(old(self).refs@[j].handle == g);
                }
                if old(self).contains(g) && !drained@.contains(g) {
                    let j = choose|j: int| 0 <= j < old(self).refs@.len() && (#[trigger] old(self).refs@[j]).handle == g;
                    assert(f(all[j]));
                    all.lemma_filter_contains(f, j);
                    assert(self.refs@.contains(all[j]));
                    let a = choose|a: int| 0 <= a < self.refs@.len() && self.refs@[a] == all[j];
                    assert(self.refs@[a].handle == g);
                }
            }
        }
    }
}

} // verus!
