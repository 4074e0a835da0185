//! The endpoint's shared state and every decision of its driver: admitting
//! and routing, the outgoing queue, timers, dirty connections, closing and
//! the driver's lifecycle. The socket, the QUIC machines and task wakeups
//! are outside: their results come in as arguments, and each function says
//! what is to be done with them.
use vstd::prelude::*;
use std::collections::VecDeque;
use crate::addr::{ensure_ipv6, ipv6_form, IpAddr, SocketAddr};
use crate::conn::{close_spec, close_view, not_in, CloseReason, ConnView, ConnectionSet};
use crate::incoming::{Incoming, IncomingPoll};
use crate::limiter::WorkLimiter;

verus! {

/// A datagram queued for the socket.
#[derive(Clone, Debug, PartialEq, Eq)]
pub struct Transmit {
    pub destination: SocketAddr,
    pub ecn: Option<u8>,
    pub contents: Vec<u8>,
    pub segment_size: Option<usize>,
    pub src_ip: Option<IpAddr>,
}

/// Why a connection could not be started.
#[derive(Clone, Debug, PartialEq, Eq)]
pub enum ConnectError {
    /// No client configuration was given and none is set by default.
    NoDefaultClientConfig,
    /// The endpoint's driver is gone.
    EndpointStopping,
    /// The address cannot be reached from this socket.
    InvalidRemoteAddress(SocketAddr),
    /// The QUIC endpoint has no room for more connections.
    TooManyConnections,
    /// The server name is not a valid DNS name.
    InvalidDnsName(String),
    /// The configured QUIC version is not supported.
    UnsupportedVersion,
}

/// What the QUIC endpoint made of one received datagram.
#[derive(Clone, Copy, Debug, PartialEq, Eq, Structural)]
pub enum DatagramOutcome {
    /// It was dropped (malformed, stateless reply, unknown).
    Ignored,
    /// It opened a connection with this handle.
    NewConnection(u64),
    /// It carries an event for the connection with this handle.
    ConnectionEvent(u64),
}

/// What became of one received datagram.
#[derive(Debug, PartialEq, Eq)]
pub enum DatagramAction {
    /// Nothing further: it is discarded.
    Discarded,
    /// A connection was admitted and queued for acceptance; the close, if
    /// any, must be applied to it at once.
    Accepted(Option<CloseReason>),
    /// Its event goes to the live connection with this handle, which is woken.
    Delivered(u64),
}

/// What one poll of the socket for sending gave.
#[derive(Clone, Copy, Debug, PartialEq, Eq, Structural)]
pub enum SendPoll {
    /// The socket took this many datagrams from the front of the queue.
    Sent(usize),
    /// The socket is not writable now.
    Pending,
    /// An I/O error.
    Failed,
}

/// What the send pump does next.
#[derive(Clone, Copy, Debug, PartialEq, Eq, Structural)]
pub enum SendStep {
    /// Hand the queue to the socket.
    Send,
    /// Top the queue up and look again.
    Continue,
    /// Stop: nothing to send, or the socket is not writable; no re-poll needed.
    Park,
    /// Stop: the limiter vetoed more work; ask to be polled again.
    Yield,
    /// Stop the endpoint with the error.
    Fail,
}

/// How a driver pass ends.
#[derive(Clone, Copy, Debug, PartialEq, Eq, Structural)]
pub enum PassOutcome {
    /// The driver is done: no user handle and no connection is left.
    Finished,
    /// Work remains: the driver wakes itself.
    Yield,
    /// The driver waits for an outside wakeup.
    Suspend,
}

/// The end of a driver pass: whether the accept stream's reader must be
/// woken, and how the pass ends.
#[derive(Clone, Copy, Debug, PartialEq, Eq, Structural)]
pub struct DriverPoll {
    pub wake_incoming: bool,
    pub outcome: PassOutcome,
}

/// Whether a connection's timer has fired at `now`.
pub open spec fn timer_fired(c: ConnView, now: u64) -> bool {
    c.timer_deadline matches Some(d) && d <= now
}

/// Whether some connection of `s` with handle `h` has a timer fired at `now`.
pub open spec fn fired_in(s: Seq<crate::conn::Connection>, h: u64, now: u64) -> bool {
    exists|i: int| 0 <= i < s.len() && (#[trigger] s[i]).handle == h && timer_fired(s[i].view(), now)
}

/// Largest payload one receive slot is sized for.
pub const MAX_RECV_PAYLOAD: u64 = 65536;

/// Size of the receive buffer: one slot per batch entry, each large enough
/// for `gro_segments` coalesced datagrams of at most
/// `min(max_udp_payload, MAX_RECV_PAYLOAD)` bytes; `None` when that does not
/// fit in a `usize`.
pub fn recv_buf_len(max_udp_payload: u64, gro_segments: usize, batch: usize) -> (r: Option<usize>)
    ensures
        ({
            let m = if max_udp_payload < MAX_RECV_PAYLOAD { max_udp_payload as int } else { MAX_RECV_PAYLOAD as int };
            let total = m * gro_segments * batch;
            &&& total <= usize::MAX ==> r == Some(total as usize)
            &&& total > usize::MAX ==> r is None
        }),
{
    let m: u64 = if max_udp_payload < MAX_RECV_PAYLOAD { max_udp_payload } else { MAX_RECV_PAYLOAD };
    let m: usize = m as usize;
    match m.checked_mul(gro_segments) {
        Some(per_slot) => {
            let r = per_slot.checked_mul(batch);
            proof {
                assert(m * gro_segments * batch == per_slot * batch);
            }
            r
        },
        None => {
            proof {
                if batch > 0 {
                    assert(m * gro_segments * batch >= m * gro_segments) by (nonlinear_arith)
                        requires batch > 0, m * gro_segments >= 0;
                } else {
                    assert(m * gro_segments * batch == 0) by (nonlinear_arith)
                        requires batch == 0;
                }
            }
            if batch == 0 { Some(0) } else { None }
        },
    }
}

/// Records one endpoint event of connection `h` once the QUIC endpoint has
/// taken it: a drained marker queues `h` for retirement, and a reply handed
/// back to the connection means it must be polled again. Returns whether
/// the connection is to be polled again.
pub fn endpoint_event(drained: &mut Vec<u64>, h: u64, is_drained: bool, replied: bool, keep_conn_going: bool) -> (r: bool)
    ensures
        is_drained ==> final(drained)@ == old(drained)@.push(h),
        !is_drained ==> final(drained)@ == old(drained)@,
        r == (keep_conn_going || replied),
{
    if is_drained {
        drained.push(h);
    }
    keep_conn_going || replied
}

/// The shared state of an endpoint. `C` is the client configuration type,
/// carried but never inspected.
pub struct Endpoint<C> {
    /// Whether the bound socket is IPv6 (dual-stack mapping of IPv4 targets).
    pub ipv6: bool,
    /// Set once the driver task is gone; terminal.
    pub driver_lost: bool,
    /// Live user handles, the driver excluded.
    pub ref_count: usize,
    /// Whether the driver's waker is stored.
    pub driver_waker: bool,
    pub default_client_config: Option<C>,
    pub connections: ConnectionSet,
    pub incoming: Incoming,
    /// Datagrams waiting for the socket, oldest first.
    pub outgoing: VecDeque<Transmit>,
    /// Every datagram ever queued, in order.
    pub queued: Ghost<Seq<Transmit>>,
    /// Every datagram handed to the socket and accepted by it, in order.
    pub sent: Ghost<Seq<Transmit>>,
    /// Handles signalled dirty and not yet taken by the driver, in order.
    pub dirty: Vec<u64>,
    /// Batch width of the socket in both directions.
    pub batch_size: usize,
    pub recv_limiter: WorkLimiter,
    pub send_limiter: WorkLimiter,
}

impl<C> Endpoint<C> {
    pub open spec fn wf(&self) -> bool {
        &&& self.connections.wf()
        &&& self.sent@ + self.outgoing@ == self.queued@
        &&& self.batch_size > 0
        &&& self.recv_limiter.wf()
        &&& self.send_limiter.wf()
    }

    /// `self` and `o` agree on the socket family, the lifecycle flags, the
    /// client configuration, the batch width and both limiters.
    pub open spec fn same_settings(&self, o: Self) -> bool {
        &&& self.ipv6 == o.ipv6
        &&& self.driver_lost == o.driver_lost
        &&& self.ref_count == o.ref_count
        &&& self.driver_waker == o.driver_waker
        &&& self.default_client_config == o.default_client_config
        &&& self.batch_size == o.batch_size
        &&& self.recv_limiter == o.recv_limiter
        &&& self.send_limiter == o.send_limiter
    }

    /// `self` and `o` agree on the accept stream.
    pub open spec fn same_accept(&self, o: Self) -> bool {
        &&& self.incoming.queue@ == o.incoming.queue@
        &&& self.incoming.reader_parked == o.incoming.reader_parked
    }

    /// `self` and `o` agree on the connection set.
    pub open spec fn same_conns(&self, o: Self) -> bool {
        &&& self.connections.refs@ == o.connections.refs@
        &&& self.connections.close == o.connections.close
    }

    /// `self` and `o` agree on the outgoing queue and its history.
    pub open spec fn same_send(&self, o: Self) -> bool {
        &&& self.outgoing@ == o.outgoing@
        &&& self.queued@ == o.queued@
        &&& self.sent@ == o.sent@
    }

    pub open spec fn has(&self, h: u64) -> bool {
        self.connections.contains(h)
    }

    /// The address handed to the QUIC endpoint for a connect to `addr`, or
    /// the reason there is none.
    pub open spec fn connect_target(&self, addr: SocketAddr) -> Result<SocketAddr, ConnectError> {
        if self.driver_lost {
            Err(ConnectError::EndpointStopping)
        } else if addr.is_ipv6() && !self.ipv6 {
            Err(ConnectError::InvalidRemoteAddress(addr))
        } else if self.ipv6 {
            Ok(SocketAddr::V6(ipv6_form(addr)))
        } else {
            Ok(addr)
        }
    }

    /// A fresh endpoint on a socket of the given family and batch width,
    /// with the given time budgets for a receive and a send pass.
    pub fn new(ipv6: bool, batch_size: usize, recv_budget: u64, send_budget: u64) -> (r: Endpoint<C>)
        requires
            batch_size > 0,
        ensures
            r.wf(),
            r.ipv6 == ipv6,
            !r.driver_lost,
            r.ref_count == 0,
            !r.driver_waker,
            r.default_client_config is None,
            r.connections.refs@.len() == 0,
            r.connections.close is None,
            r.incoming.queue@.len() == 0,
            !r.incoming.reader_parked,
            r.outgoing@.len() == 0,
            r.queued@.len() == 0,
            r.sent@.len() == 0,
            r.dirty@.len() == 0,
            r.batch_size == batch_size,
            r.recv_limiter.budget == recv_budget,
            r.send_limiter.budget == send_budget,
    {
        Endpoint {
            ipv6,
            driver_lost: false,
            ref_count: 0,
            driver_waker: false,
            default_client_config: None,
            connections: ConnectionSet::new(),
            incoming: Incoming::new(),
            outgoing: VecDeque::new(),
            queued: Ghost(Seq::empty()),
            sent: Ghost(Seq::empty()),
            dirty: Vec::new(),
            batch_size,
            recv_limiter: WorkLimiter::new(recv_budget),
            send_limiter: WorkLimiter::new(send_budget),
        }
    }

    /// Sets the client configuration used by `connect`.
    pub fn set_default_client_config(&mut self, config: C)
        ensures
            final(self).same_accept(*old(self)),
            final(self).same_send(*old(self)),
            final(self).dirty@ == old(self).dirty@,
            final(self).connections.close == old(self).connections.close,
            final(self).ref_count == old(self).ref_count,
            final(self).driver_waker == old(self).driver_waker,
            final(self).batch_size == old(self).batch_size,
            final(self).recv_limiter == old(self).recv_limiter,
            final(self).send_limiter == old(self).send_limiter,
            final(self).default_client_config == Some(config),
            final(self).connections == old(self).connections,
            final(self).ipv6 == old(self).ipv6,
            final(self).driver_lost == old(self).driver_lost,
    {
        self.default_client_config = Some(config);
    }

    /// Checks a connect with an explicit configuration to `addr`: fails when
    /// the driver is lost or an IPv6 target meets an IPv4 socket; otherwise
    /// gives the target, mapped to IPv6 on an IPv6 socket.
    pub fn connect_with(&self, addr: SocketAddr) -> (r: Result<SocketAddr, ConnectError>)
        ensures
            r == self.connect_target(addr),
    {
        if self.driver_lost {
            return Err(ConnectError::EndpointStopping);
        }
        if addr.is_ipv6() && !self.ipv6 {
            return Err(ConnectError::InvalidRemoteAddress(addr));
        }
        if self.ipv6 {
            Ok(SocketAddr::V6(ensure_ipv6(addr)))
        } else {
            Ok(addr)
        }
    }

    /// Checks a connect with the default configuration: as `connect_with`,
    /// but first fails when no default is set.
    pub fn connect(&self, addr: SocketAddr) -> (r: Result<SocketAddr, ConnectError>)
        ensures
            self.default_client_config is None ==> r == Err::<SocketAddr, ConnectError>(ConnectError::NoDefaultClientConfig),
            self.default_client_config is Some ==> r == self.connect_target(addr),
    {
        match &self.default_client_config {
            Some(_) => self.connect_with(addr),
            None => Err(ConnectError::NoDefaultClientConfig),
        }
    }

    /// Takes the QUIC endpoint's answer to a connect: a new handle is
    /// admitted to the connection set (a recorded close applied to it); an
    /// error is passed on.
    pub fn finish_connect(&mut self, outcome: Result<u64, ConnectError>) -> (r: Result<Option<CloseReason>, ConnectError>)
        requires
            old(self).wf(),
        ensures
            final(self).same_settings(*old(self)),
            final(self).same_accept(*old(self)),
            final(self).same_send(*old(self)),
            final(self).dirty@ == old(self).dirty@,
            final(self).connections.close == old(self).connections.close,
            final(self).wf(),
            match outcome {
                Ok(h) => {
                    &&& r matches Ok(c) && close_view(c) == close_view(old(self).connections.close)
                    &&& forall|i: int| 0 <= i < final(self).connections.refs@.len()
                        && (#[trigger] final(self).connections.refs@[i]).handle == h
                        ==> close_view(final(self).connections.refs@[i].close) == close_view(old(self).connections.close)
                        && final(self).connections.refs@[i].timer_deadline is None
                        && !final(self).connections.refs@[i].is_dirty
                    &&& forall|i: int| 0 <= i < old(self).connections.refs@.len()
                        && (#[trigger] old(self).connections.refs@[i]).handle != h
                        ==> final(self).connections.refs@[i] == old(self).connections.refs@[i]
                    &&& (old(self).has(h) ==> final(self).connections.refs@.len() == old(self).connections.refs@.len())
                    &&& (!old(self).has(h) ==> final(self).connections.refs@.len() == old(self).connections.refs@.len() + 1
                        && final(self).connections.refs@[old(self).connections.refs@.len() as int].handle == h)
                    &&& final(self).has(h)
                    &&& forall|g: u64| g != h ==> (final(self).has(g) <==> old(self).has(g))
                },
                Err(e) => r == Err::<Option<CloseReason>, ConnectError>(e) && final(self).connections.refs@ == old(self).connections.refs@,
            },
            final(self).incoming.queue@ == old(self).incoming.queue@,
            final(self).outgoing@ == old(self).outgoing@,
    {
        match outcome {
            Ok(h) => Ok(self.connections.insert(h)),
            Err(e) => Err(e),
        }
    }

    /// Routes one received datagram by what the QUIC endpoint made of it: a new
    /// connection is admitted and queued for acceptance; an event goes to its
    /// live connection; anything else, or an event for a handle no longer
    /// live, is discarded.
    pub fn handle_datagram(&mut self, outcome: DatagramOutcome) -> (r: DatagramAction)
        requires
            old(self).wf(),
        ensures
            final(self).same_settings(*old(self)),
            final(self).same_send(*old(self)),
            final(self).dirty@ == old(self).dirty@,
            final(self).connections.close == old(self).connections.close,
            final(self).wf(),
            final(self).outgoing@ == old(self).outgoing@,
            final(self).incoming.reader_parked == old(self).incoming.reader_parked,
            match outcome {
                DatagramOutcome::NewConnection(h) => {
                    &&& r matches DatagramAction::Accepted(c) && close_view(c) == close_view(old(self).connections.close)
                    &&& forall|i: int| 0 <= i < final(self).connections.refs@.len()
                        && (#[trigger] final(self).connections.refs@[i]).handle == h
                        ==> close_view(final(self).connections.refs@[i].close) == close_view(old(self).connections.close)
                        && final(self).connections.refs@[i].timer_deadline is None
                        && !final(self).connections.refs@[i].is_dirty
                    &&& forall|i: int| 0 <= i < old(self).connections.refs@.len()
                        && (#[trigger] old(self).connections.refs@[i]).handle != h
                        ==> final(self).connections.refs@[i] == old(self).connections.refs@[i]
                    &&& (old(self).has(h) ==> final(self).connections.refs@.len() == old(self).connections.refs@.len())
                    &&& (!old(self).has(h) ==> final(self).connections.refs@.len() == old(self).connections.refs@.len() + 1
                        && final(self).connections.refs@[old(self).connections.refs@.len() as int].handle == h)
                    &&& final(self).incoming.queue@ == old(self).incoming.queue@.push(h)
                    &&& final(self).has(h)
                    &&& forall|g: u64| g != h ==> (final(self).has(g) <==> old(self).has(g))
                },
                DatagramOutcome::ConnectionEvent(h) => {
                    &&& (old(self).has(h) ==> r == DatagramAction::Delivered(h))
                    &&& (!old(self).has(h) ==> r == DatagramAction::Discarded)
                    &&& final(self).incoming.queue@ == old(self).incoming.queue@
                    &&& final(self).connections.refs@ == old(self).connections.refs@
                },
                DatagramOutcome::Ignored => {
                    &&& r == DatagramAction::Discarded
                    &&& final(self).incoming.queue@ == old(self).incoming.queue@
                    &&& final(self).connections.refs@ == old(self).connections.refs@
                },
            },
    {
        match outcome {
            DatagramOutcome::NewConnection(h) => {
                let c = self.connections.insert(h);
                self.incoming.push(h);
                DatagramAction::Accepted(c)
            },
            DatagramOutcome::ConnectionEvent(h) => {
                match self.connections.find(h) {
                    Some(_) => DatagramAction::Delivered(h),
                    None => DatagramAction::Discarded,
                }
            },
            DatagramOutcome::Ignored => DatagramAction::Discarded,
        }
    }

    /// Switches to a socket of the given family. Returns the handles of all
    /// live connections, in order, to be pinged so their peers see the move.
    pub fn rebind(&mut self, ipv6: bool) -> (r: Vec<u64>)
        requires
            old(self).wf(),
        ensures
            final(self).same_accept(*old(self)),
            final(self).same_send(*old(self)),
            final(self).dirty@ == old(self).dirty@,
            final(self).same_conns(*old(self)),
            final(self).driver_lost == old(self).driver_lost,
            final(self).ref_count == old(self).ref_count,
            final(self).driver_waker == old(self).driver_waker,
            final(self).recv_limiter == old(self).recv_limiter,
            final(self).send_limiter == old(self).send_limiter,
            final(self).wf(),
            final(self).ipv6 == ipv6,
            final(self).connections.refs@ == old(self).connections.refs@,
            r@.len() == old(self).connections.refs@.len(),
            forall|i: int| 0 <= i < r@.len() ==> r@[i] == old(self).connections.refs@[i].handle,
    {
        self.ipv6 = ipv6;
        let mut r: Vec<u64> = Vec::new();
        let mut i: usize = 0;
        while i < self.connections.refs.len()
            invariant
                i <= self.connections.refs@.len(),
                r@.len() == i,
                forall|j: int| 0 <= j < i ==> r@[j] == self.connections.refs@[j].handle,
            decreases self.connections.refs@.len() - i,
        {
            r.push(self.connections.refs[i].handle);
            i = i + 1;
        }
        r
    }

    /// Closes the endpoint: every connection is closed with `code` and
    /// `reason` (those closed already keep their close), the close is
    /// recorded for later admissions unless one is, and the parked reader of
    /// the accept stream is released. Returns whether it must be woken.
    pub fn close(&mut self, code: u64, reason: &[u8]) -> (r: bool)
        requires
            old(self).wf(),
        ensures
            final(self).same_settings(*old(self)),
            final(self).same_send(*old(self)),
            final(self).dirty@ == old(self).dirty@,
            final(self).wf(),
            final(self).connections.view() == close_spec(old(self).connections.view(), code, reason@),
            forall|h: u64| final(self).has(h) <==> old(self).has(h),
            r == old(self).incoming.reader_parked,
            !final(self).incoming.reader_parked,
            final(self).incoming.queue@ == old(self).incoming.queue@,
            final(self).outgoing@ == old(self).outgoing@,
    {
        self.connections.close_all(code, reason);
        self.incoming.take_reader()
    }

    /// Whether the endpoint is idle: no connection is live. Waiting for
    /// idleness re-checks this on every wakeup and does not wait when it holds.
    pub fn wait_idle(&self) -> (r: bool)
        ensures
            r == (self.connections.refs@.len() == 0),
            r == (forall|h: u64| !self.has(h)),
    {
        let r = self.connections.is_empty();
        assert(r ==> forall|h: u64| !self.has(h));
        assert(!r ==> self.has(self.connections.refs@[0].handle));
        r
    }

    /// Polls the accept stream.
    pub fn next_incoming(&mut self) -> (r: IncomingPoll)
        requires
            old(self).wf(),
        ensures
            final(self).same_settings(*old(self)),
            final(self).same_conns(*old(self)),
            final(self).same_send(*old(self)),
            final(self).dirty@ == old(self).dirty@,
            final(self).wf(),
            final(self).connections.refs@ == old(self).connections.refs@,
            old(self).driver_lost ==> r == IncomingPoll::Ended,
            !old(self).driver_lost && old(self).incoming.queue@.len() > 0 ==> r == IncomingPoll::Ready(old(self).incoming.queue@[0])
                && final(self).incoming.queue@ == old(self).incoming.queue@.drop_first(),
            !old(self).driver_lost && old(self).incoming.queue@.len() == 0 && old(self).connections.close is Some
                ==> r == IncomingPoll::Ended,
            !old(self).driver_lost && old(self).incoming.queue@.len() == 0 && old(self).connections.close is None
                ==> r == IncomingPoll::Pending && final(self).incoming.reader_parked,
            r is Ended ==> final(self).same_accept(*old(self)),
            r is Pending ==> final(self).incoming.queue@ == old(self).incoming.queue@,
            r is Ready ==> final(self).incoming.reader_parked == old(self).incoming.reader_parked,
    {
        let closed = self.connections.close.is_some();
        self.incoming.next(self.driver_lost, closed)
    }

    /// The accept stream is dropped: its parked reader is forgotten. (The
    /// QUIC endpoint is then told to refuse new connections.)
    pub fn drop_incoming(&mut self)
        requires
            old(self).wf(),
        ensures
            final(self).same_settings(*old(self)),
            final(self).same_conns(*old(self)),
            final(self).same_send(*old(self)),
            final(self).dirty@ == old(self).dirty@,
            final(self).wf(),
            !final(self).incoming.reader_parked,
            final(self).incoming.queue@ == old(self).incoming.queue@,
            final(self).connections.refs@ == old(self).connections.refs@,
    {
        self.incoming.take_reader();
    }

    /// A user handle is cloned.
    pub fn add_ref(&mut self)
        requires
            old(self).wf(),
            old(self).ref_count < usize::MAX,
        ensures
            final(self).default_client_config == old(self).default_client_config,
            final(self).batch_size == old(self).batch_size,
            final(self).recv_limiter == old(self).recv_limiter,
            final(self).send_limiter == old(self).send_limiter,
            final(self).same_accept(*old(self)),
            final(self).same_conns(*old(self)),
            final(self).same_send(*old(self)),
            final(self).dirty@ == old(self).dirty@,
            final(self).ipv6 == old(self).ipv6,
            final(self).driver_lost == old(self).driver_lost,
            final(self).wf(),
            final(self).ref_count == old(self).ref_count + 1,
            final(self).driver_waker == old(self).driver_waker,
    {
        self.ref_count = self.ref_count + 1;
    }

    /// A user handle is dropped. When the last one goes, the stored driver
    /// waker is taken so the driver can see whether it may finish. Returns
    /// whether the driver must be woken.
    pub fn drop_ref(&mut self) -> (r: bool)
        requires
            old(self).wf(),
        ensures
            final(self).default_client_config == old(self).default_client_config,
            final(self).batch_size == old(self).batch_size,
            final(self).recv_limiter == old(self).recv_limiter,
            final(self).send_limiter == old(self).send_limiter,
            final(self).same_accept(*old(self)),
            final(self).same_conns(*old(self)),
            final(self).same_send(*old(self)),
            final(self).dirty@ == old(self).dirty@,
            final(self).ipv6 == old(self).ipv6,
            final(self).driver_lost == old(self).driver_lost,
            final(self).wf(),
            old(self).ref_count == 0 ==> final(self).ref_count == 0 && !r
                && final(self).driver_waker == old(self).driver_waker,
            old(self).ref_count > 0 ==> final(self).ref_count == old(self).ref_count - 1,
            r == (old(self).ref_count == 1 && old(self).driver_waker),
            old(self).ref_count == 1 ==> !final(self).driver_waker,
            old(self).ref_count > 1 ==> final(self).driver_waker == old(self).driver_waker,
    {
        if self.ref_count == 0 {
            return false;
        }
        self.ref_count = self.ref_count - 1;
        if self.ref_count == 0 {
            let w = self.driver_waker;
            self.driver_waker = false;
            w
        } else {
            false
        }
    }

    /// The driver task is dropped: the endpoint stops for good and the parked
    /// reader of the accept stream is released. Returns whether it must be woken.
    pub fn lose_driver(&mut self) -> (r: bool)
        requires
            old(self).wf(),
        ensures
            final(self).default_client_config == old(self).default_client_config,
            final(self).batch_size == old(self).batch_size,
            final(self).recv_limiter == old(self).recv_limiter,
            final(self).send_limiter == old(self).send_limiter,
            final(self).same_conns(*old(self)),
            final(self).same_send(*old(self)),
            final(self).dirty@ == old(self).dirty@,
            final(self).incoming.queue@ == old(self).incoming.queue@,
            final(self).ipv6 == old(self).ipv6,
            final(self).ref_count == old(self).ref_count,
            final(self).driver_waker == old(self).driver_waker,
            final(self).wf(),
            final(self).driver_lost,
            r == old(self).incoming.reader_parked,
            !final(self).incoming.reader_parked,
            final(self).connections.refs@ == old(self).connections.refs@,
    {
        self.driver_lost = true;
        self.incoming.take_reader()
    }
    /// Queues a datagram for the socket, behind those queued before.
    pub fn push_transmit(&mut self, t: Transmit)
        requires
            old(self).wf(),
        ensures
            final(self).same_settings(*old(self)),
            final(self).same_accept(*old(self)),
            final(self).same_conns(*old(self)),
            final(self).dirty@ == old(self).dirty@,
            final(self).wf(),
            final(self).outgoing@ == old(self).outgoing@.push(t),
            final(self).queued@ == old(self).queued@.push(t),
            final(self).sent@ == old(self).sent@,
            final(self).connections.refs@ == old(self).connections.refs@,
            final(self).send_limiter == old(self).send_limiter,
    {
        proof {
            assert(self.sent@ + self.outgoing@.push(t) =~= self.queued@.push(t));
        }
        self.outgoing.push_back(t);
        self.queued = Ghost(self.queued@.push(t));
    }

    /// Whether the queue wants topping up from the QUIC endpoint: it holds
    /// fewer than a batch.
    pub fn wants_transmit(&self) -> (r: bool)
        ensures
            r == (self.outgoing@.len() < self.batch_size),
    {
        self.outgoing.len() < self.batch_size
    }

    /// Begins a receive pass at `now`.
    pub fn begin_recv(&mut self, now: u64)
        requires
            old(self).wf(),
        ensures
            final(self).same_accept(*old(self)),
            final(self).same_conns(*old(self)),
            final(self).same_send(*old(self)),
            final(self).dirty@ == old(self).dirty@,
            final(self).send_limiter == old(self).send_limiter,
            final(self).driver_lost == old(self).driver_lost,
            final(self).ref_count == old(self).ref_count,
            final(self).ipv6 == old(self).ipv6,
            final(self).wf(),
            final(self).recv_limiter.completed == 0,
            final(self).outgoing@ == old(self).outgoing@,
            final(self).connections.refs@ == old(self).connections.refs@,
    {
        self.recv_limiter.start_cycle(now);
    }

    /// Begins a send pass at `now`.
    pub fn begin_send(&mut self, now: u64)
        requires
            old(self).wf(),
        ensures
            final(self).same_accept(*old(self)),
            final(self).same_conns(*old(self)),
            final(self).same_send(*old(self)),
            final(self).dirty@ == old(self).dirty@,
            final(self).recv_limiter == old(self).recv_limiter,
            final(self).driver_lost == old(self).driver_lost,
            final(self).ref_count == old(self).ref_count,
            final(self).ipv6 == old(self).ipv6,
            final(self).wf(),
            final(self).send_limiter.completed == 0,
            final(self).outgoing@ == old(self).outgoing@,
            final(self).sent@ == old(self).sent@,
            final(self).connections.refs@ == old(self).connections.refs@,
    {
        self.send_limiter.start_cycle(now);
    }

    /// With the queue topped up, decides whether to send: an empty queue
    /// ends the pass with nothing to do; a vetoing limiter ends it asking
    /// for a re-poll; otherwise the queue goes to the socket.
    pub fn send_ready(&mut self, now: u64) -> (r: SendStep)
        requires
            old(self).wf(),
        ensures
            final(self).same_accept(*old(self)),
            final(self).same_conns(*old(self)),
            final(self).same_send(*old(self)),
            final(self).dirty@ == old(self).dirty@,
            final(self).recv_limiter == old(self).recv_limiter,
            final(self).driver_lost == old(self).driver_lost,
            final(self).ref_count == old(self).ref_count,
            final(self).ipv6 == old(self).ipv6,
            final(self).wf(),
            final(self).outgoing@ == old(self).outgoing@,
            final(self).sent@ == old(self).sent@,
            final(self).connections.refs@ == old(self).connections.refs@,
            old(self).outgoing@.len() == 0 ==> r == SendStep::Park,
            old(self).outgoing@.len() > 0 && !old(self).send_limiter.allows(now) ==> r == SendStep::Yield,
            old(self).outgoing@.len() > 0 && old(self).send_limiter.allows(now) ==> r == SendStep::Send
                && final(self).send_limiter == old(self).send_limiter,
    {
        if self.outgoing.len() == 0 {
            self.send_limiter.finish_cycle(now);
            SendStep::Park
        } else if !self.send_limiter.allow_work(now) {
            self.send_limiter.finish_cycle(now);
            SendStep::Yield
        } else {
            SendStep::Send
        }
    }

    /// Takes the socket's answer to a send. Datagrams it took leave the
    /// front of the queue in order, one unit of work each; a socket that is
    /// not writable ends the pass; an error stops the endpoint.
    pub fn complete_send(&mut self, poll: SendPoll, now: u64) -> (r: SendStep)
        requires
            old(self).wf(),
        ensures
            final(self).same_accept(*old(self)),
            final(self).dirty@ == old(self).dirty@,
            final(self).connections.close == old(self).connections.close,
            final(self).recv_limiter == old(self).recv_limiter,
            final(self).driver_lost == old(self).driver_lost,
            final(self).ref_count == old(self).ref_count,
            final(self).ipv6 == old(self).ipv6,
            final(self).wf(),
            final(self).queued@ == old(self).queued@,
            final(self).connections.refs@ == old(self).connections.refs@,
            match poll {
                SendPoll::Sent(n) => {
                    let k = if n <= old(self).outgoing@.len() { n as int } else { old(self).outgoing@.len() as int };
                    &&& r == SendStep::Continue
                    &&& final(self).outgoing@ == old(self).outgoing@.skip(k)
                    &&& final(self).sent@ == old(self).sent@ + old(self).outgoing@.take(k)
                },
                SendPoll::Pending => r == SendStep::Park && final(self).outgoing@ == old(self).outgoing@,
                SendPoll::Failed => r == SendStep::Fail && final(self).outgoing@ == old(self).outgoing@,
            },
    {
        match poll {
            SendPoll::Sent(n) => {
                let k: usize = if n <= self.outgoing.len() { n } else { self.outgoing.len() };
                let rest = self.outgoing.split_off(k);
                let ghost taken = self.outgoing@;
                self.outgoing = rest;
                proof {
                    assert(taken =~= old(self).outgoing@.take(k as int));
                    assert(self.outgoing@ =~= old(self).outgoing@.skip(k as int));
                    assert(old(self).sent@ + taken + self.outgoing@ =~= old(self).sent@ + old(self).outgoing@);
                }
                self.sent = Ghost(self.sent@ + taken);
                self.send_limiter.record_work(k as u64);
                SendStep::Continue
            },
            SendPoll::Pending => {
                self.send_limiter.finish_cycle(now);
                SendStep::Park
            },
            SendPoll::Failed => {
                self.send_limiter.finish_cycle(now);
                SendStep::Fail
            },
        }
    }

    /// Takes every timer that has fired at `now`: its deadline is cleared
    /// and its handle returned, for the connection's timeout to be handled
    /// and its task woken.
    pub fn expire_timers(&mut self, now: u64) -> (r: Vec<u64>)
        requires
            old(self).wf(),
        ensures
            r@.no_duplicates(),
            final(self).same_settings(*old(self)),
            final(self).same_accept(*old(self)),
            final(self).same_send(*old(self)),
            final(self).dirty@ == old(self).dirty@,
            final(self).connections.close == old(self).connections.close,
            final(self).wf(),
            final(self).connections.refs@.len() == old(self).connections.refs@.len(),
            forall|i: int| 0 <= i < final(self).connections.refs@.len() ==> (#[trigger] final(self).connections.refs@[i]).view()
                == if timer_fired(old(self).connections.refs@[i].view(), now) {
                    ConnView { timer_deadline: None, ..old(self).connections.refs@[i].view() }
                } else {
                    old(self).connections.refs@[i].view()
                },
            forall|k: int| 0 <= k < r@.len() ==> fired_in(old(self).connections.refs@, #[trigger] r@[k], now),
            forall|i: int| 0 <= i < old(self).connections.refs@.len() && timer_fired((#[trigger] old(self).connections.refs@[i]).view(), now)
                ==> r@.contains(old(self).connections.refs@[i].handle),
            forall|h: u64| final(self).has(h) <==> old(self).has(h),
            final(self).outgoing@ == old(self).outgoing@,
            final(self).incoming.queue@ == old(self).incoming.queue@,
    {
        let mut r: Vec<u64> = Vec::new();
        let n = self.connections.refs.len();
        let mut i: usize = 0;
        while i < n
            invariant
                r@.no_duplicates(),
                forall|q: int, j: int| #![trigger r@[q], old(self).connections.refs@[j]] 0 <= q < r@.len() && i <= j < n ==> r@[q] != old(self).connections.refs@[j].handle,
                self.same_settings(*old(self)),
                self.dirty@ == old(self).dirty@,
                self.incoming.reader_parked == old(self).incoming.reader_parked,
                self.connections.close == old(self).connections.close,
                self.wf(),
                n == self.connections.refs@.len(),
                n == old(self).connections.refs@.len(),
                i <= n,
                self.outgoing@ == old(self).outgoing@,
                self.queued@ == old(self).queued@,
                self.sent@ == old(self).sent@,
                self.incoming.queue@ == old(self).incoming.queue@,
                forall|h: u64| self.has(h) <==> old(self).has(h),
                forall|j: int| 0 <= j < i ==> (#[trigger] self.connections.refs@[j]).view()
                    == if timer_fired(old(self).connections.refs@[j].view(), now) {
                        ConnView { timer_deadline: None, ..old(self).connections.refs@[j].view() }
                    } else {
                        old(self).connections.refs@[j].view()
                    },
                forall|j: int| i <= j < n ==> self.connections.refs@[j] == old(self).connections.refs@[j],
                forall|k: int| #![trigger r@[k]] 0 <= k < r@.len() ==> exists|j: int| 0 <= j < i
                    && (#[trigger] old(self).connections.refs@[j]).handle == r@[k]
                    && timer_fired(old(self).connections.refs@[j].view(), now),
                forall|j: int| 0 <= j < i && timer_fired((#[trigger] old(self).connections.refs@[j]).view(), now)
                    ==> r@.contains(old(self).connections.refs@[j].handle),
            decreases n - i,
        {
            let fired = match self.connections.refs[i].timer_deadline {
                Some(d) => d <= now,
                None => false,
            };
            if fired {
                let h = self.connections.refs[i].handle;
                let dirty = self.connections.refs[i].is_dirty;
                self.connections.update(i, None, dirty);
                let ghost before = r@;
                r.push(h);
                proof {
                    assert forall|p: int, q: int| 0 <= p < r@.len() && 0 <= q < r@.len() && p != q implies r@[p] != r@[q] by {
                        if p == before.len() {
                            assert(before[q] != old(self).connections.refs@[i as int].handle);
                        } else if q == before.len() {
                            assert(before[p] != old(self).connections.refs@[i as int].handle);
                        }
                    }
                    assert forall|q: int, j: int| #![trigger r@[q], old(self).connections.refs@[j]] 0 <= q < r@.len() && i + 1 <= j < n implies r@[q] != old(self).connections.refs@[j].handle by {
                        if q == before.len() {
                            assert(old(self).connections.refs@[i as int].handle != old(self).connections.refs@[j].handle);
                        } else {
                            assert(before[q] == r@[q]);
                        }
                    }
                    assert(r@[r@.len() - 1] == h);
                    assert forall|j: int| 0 <= j < i + 1 && timer_fired((#[trigger] old(self).connections.refs@[j]).view(), now)
                        implies r@.contains(old(self).connections.refs@[j].handle) by {
                        if j == i {
                            assert(r@[r@.len() - 1] == old(self).connections.refs@[j].handle);
                        } else {
                            let x = old(self).connections.refs@[j].handle;
                            assert(before.contains(x));
                            let k = choose|k: int| 0 <= k < before.len() && before[k] == x;
                            assert(r@[k] == x);
                        }
                    }
                    assert forall|k: int| #![trigger r@[k]] 0 <= k < r@.len() implies exists|j: int| 0 <= j < i + 1
                        && (#[trigger] old(self).connections.refs@[j]).handle == r@[k]
                        && timer_fired(old(self).connections.refs@[j].view(), now) by {
                        if k == r@.len() - 1 {
                            assert(old(self).connections.refs@[i as int].handle == r@[k]);
                        }
                    }
                }
            }
            i = i + 1;
        }
        proof {
            assert forall|k: int| 0 <= k < r@.len() implies fired_in(old(self).connections.refs@, #[trigger] r@[k], now) by {
                let j = choose|j: int| 0 <= j < i
                    && (#[trigger] old(self).connections.refs@[j]).handle == r@[k]
                    && timer_fired(old(self).connections.refs@[j].view(), now);
                assert(old(self).connections.refs@[j].handle == r@[k]);
            }
        }
        r
    }

    /// The earliest scheduled timer deadline, if any: the driver sleeps no
    /// later than this.
    pub fn next_deadline(&self) -> (r: Option<u64>)
        ensures
            match r {
                Some(d) => (exists|i: int| 0 <= i < self.connections.refs@.len()
                    && (#[trigger] self.connections.refs@[i]).timer_deadline == Some(d))
                    && forall|i: int| 0 <= i < self.connections.refs@.len()
                        && (#[trigger] self.connections.refs@[i]).timer_deadline is Some
                        ==> d <= self.connections.refs@[i].timer_deadline->0,
                None => forall|i: int| 0 <= i < self.connections.refs@.len()
                    ==> (#[trigger] self.connections.refs@[i]).timer_deadline is None,
            },
    {
        let mut best: Option<u64> = None;
        let mut i: usize = 0;
        while i < self.connections.refs.len()
            invariant
                i <= self.connections.refs@.len(),
                match best {
                    Some(d) => (exists|j: int| 0 <= j < i
                        && (#[trigger] self.connections.refs@[j]).timer_deadline == Some(d))
                        && forall|j: int| 0 <= j < i
                            && (#[trigger] self.connections.refs@[j]).timer_deadline is Some
                            ==> d <= self.connections.refs@[j].timer_deadline->0,
                    None => forall|j: int| 0 <= j < i
                        ==> (#[trigger] self.connections.refs@[j]).timer_deadline is None,
                },
            decreases self.connections.refs@.len() - i,
        {
            match self.connections.refs[i].timer_deadline {
                Some(t) => {
                    match best {
                        Some(d) => {
                            if t < d {
                                best = Some(t);
                            }
                        },
                        None => {
                            best = Some(t);
                        },
                    }
                },
                None => {},
            }
            i = i + 1;
        }
        best
    }

    /// A connection signals pending work. Unless it is dirty already (or no
    /// longer live), it becomes dirty and its handle is queued for the
    /// driver. Returns whether it was queued (and the driver is to be woken).
    pub fn mark_dirty(&mut self, h: u64) -> (r: bool)
        requires
            old(self).wf(),
        ensures
            final(self).same_settings(*old(self)),
            final(self).same_accept(*old(self)),
            final(self).same_send(*old(self)),
            final(self).connections.close == old(self).connections.close,
            final(self).wf(),
            forall|g: u64| final(self).has(g) <==> old(self).has(g),
            final(self).connections.refs@.len() == old(self).connections.refs@.len(),
            forall|i: int| 0 <= i < final(self).connections.refs@.len() ==> (#[trigger] final(self).connections.refs@[i]).view()
                == if old(self).connections.refs@[i].handle == h {
                    ConnView { is_dirty: true, ..old(self).connections.refs@[i].view() }
                } else {
                    old(self).connections.refs@[i].view()
                },
            r ==> final(self).dirty@ == old(self).dirty@.push(h),
            !r ==> final(self).dirty@ == old(self).dirty@,
            r == (exists|i: int| 0 <= i < old(self).connections.refs@.len()
                && (#[trigger] old(self).connections.refs@[i]).handle == h && !old(self).connections.refs@[i].is_dirty),
    {
        match self.connections.find(h) {
            Some(i) => {
                if self.connections.refs[i].is_dirty {
                    proof {
                        assert forall|j: int| 0 <= j < old(self).connections.refs@.len()
                            && (#[trigger] old(self).connections.refs@[j]).handle == h
                            implies old(self).connections.refs@[j].is_dirty by {
                            assert(j == i);
                        }
                    }
                    false
                } else {
                    let d = self.connections.refs[i].timer_deadline;
                    self.connections.update(i, d, true);
                    self.dirty.push(h);
                    true
                }
            },
            None => false,
        }
    }

    /// Takes the handles queued dirty, in order, leaving the queue empty. The
    /// driver processes only this snapshot in one pass, so a pass is bounded
    /// even while connections keep dirtying themselves.
    pub fn take_dirty(&mut self) -> (r: Vec<u64>)
        requires
            old(self).wf(),
        ensures
            final(self).same_settings(*old(self)),
            final(self).same_accept(*old(self)),
            final(self).same_conns(*old(self)),
            final(self).same_send(*old(self)),
            final(self).wf(),
            r@ == old(self).dirty@,
            final(self).dirty@.len() == 0,
            final(self).connections.refs@ == old(self).connections.refs@,
            final(self).outgoing@ == old(self).outgoing@,
    {
        self.dirty.split_off(0)
    }

    /// Begins processing a dirty handle: a live connection has its dirty
    /// flag cleared, so new activity queues it again for the next pass.
    /// Returns whether it is live.
    pub fn begin_dirty(&mut self, h: u64) -> (r: bool)
        requires
            old(self).wf(),
        ensures
            final(self).same_settings(*old(self)),
            final(self).same_accept(*old(self)),
            final(self).same_send(*old(self)),
            final(self).dirty@ == old(self).dirty@,
            final(self).connections.close == old(self).connections.close,
            final(self).wf(),
            r == old(self).has(h),
            forall|g: u64| final(self).has(g) <==> old(self).has(g),
            final(self).connections.refs@.len() == old(self).connections.refs@.len(),
            forall|i: int| 0 <= i < final(self).connections.refs@.len() ==> (#[trigger] final(self).connections.refs@[i]).view()
                == if old(self).connections.refs@[i].handle == h {
                    ConnView { is_dirty: false, ..old(self).connections.refs@[i].view() }
                } else {
                    old(self).connections.refs@[i].view()
                },
    {
        match self.connections.find(h) {
            Some(i) => {
                let d = self.connections.refs[i].timer_deadline;
                self.connections.update(i, d, false);
                true
            },
            None => false,
        }
    }

    /// Takes a live connection's next timeout. A deadline that differs from
    /// the scheduled one replaces it, and the pass must go on so the new
    /// timer is observed; returns whether that happened. No deadline leaves
    /// the schedule as it is.
    pub fn update_timer(&mut self, h: u64, poll_timeout: Option<u64>) -> (r: bool)
        requires
            old(self).wf(),
        ensures
            final(self).same_settings(*old(self)),
            final(self).same_accept(*old(self)),
            final(self).same_send(*old(self)),
            final(self).dirty@ == old(self).dirty@,
            final(self).connections.close == old(self).connections.close,
            final(self).wf(),
            forall|g: u64| final(self).has(g) <==> old(self).has(g),
            final(self).connections.refs@.len() == old(self).connections.refs@.len(),
            forall|i: int| 0 <= i < final(self).connections.refs@.len() ==> (#[trigger] final(self).connections.refs@[i]).view()
                == if old(self).connections.refs@[i].handle == h && poll_timeout is Some {
                    ConnView { timer_deadline: poll_timeout, ..old(self).connections.refs@[i].view() }
                } else {
                    old(self).connections.refs@[i].view()
                },
            r == (exists|i: int| 0 <= i < old(self).connections.refs@.len()
                && (#[trigger] old(self).connections.refs@[i]).handle == h
                && poll_timeout is Some && poll_timeout != old(self).connections.refs@[i].timer_deadline),
    {
        match self.connections.find(h) {
            Some(i) => {
                let cur = self.connections.refs[i].timer_deadline;
                let dirty = self.connections.refs[i].is_dirty;
                let changed = match poll_timeout {
                    Some(t) => match cur {
                        Some(c) => c != t,
                        None => true,
                    },
                    None => false,
                };
                if changed {
                    self.connections.update(i, poll_timeout, dirty);
                }
                proof {
                    assert forall|j: int| 0 <= j < old(self).connections.refs@.len()
                        && (#[trigger] old(self).connections.refs@[j]).handle == h
                        implies j == i by {
                    }
                }
                changed
            },
            None => false,
        }
    }

    /// Retires the connections that reported themselves drained. Returns
    /// whether no connection is left, in which case idle waiters are notified.
    pub fn retire(&mut self, drained: &Vec<u64>) -> (r: bool)
        requires
            old(self).wf(),
        ensures
            final(self).same_settings(*old(self)),
            final(self).same_accept(*old(self)),
            final(self).same_send(*old(self)),
            final(self).dirty@ == old(self).dirty@,
            final(self).connections.close == old(self).connections.close,
            final(self).wf(),
            forall|k: int| 0 <= k < drained@.len() ==> !final(self).has(#[trigger] drained@[k]),
            forall|g: u64| !drained@.contains(g) ==> (final(self).has(g) <==> old(self).has(g)),
            final(self).connections.refs@ == old(self).connections.refs@.filter(not_in(drained@)),
            r == (final(self).connections.refs@.len() == 0),
            r == (forall|i: int| 0 <= i < old(self).connections.refs@.len()
                ==> drained@.contains(#[trigger] old(self).connections.refs@[i].handle)),
            final(self).outgoing@ == old(self).outgoing@,
            final(self).incoming.queue@ == old(self).incoming.queue@,
    {
        self.connections.remove_all(drained);
        let r = self.connections.refs.len() == 0;
        proof {
            assert forall|k: int| 0 <= k < drained@.len() implies !self.has(#[trigger] drained@[k]) by {
                assert(drained@.contains(drained@[k]));
            }
            if r {
                assert forall|j: int| 0 <= j < old(self).connections.refs@.len()
                    implies drained@.contains(#[trigger] old(self).connections.refs@[j].handle) by {
                    let g = old(self).connections.refs@[j].handle;
                    assert(old(self).has(g));
                    if !drained@.contains(g) {
                        assert(self.has(g));
                    }
                }
            } else {
                let g = self.connections.refs@[0].handle;
                assert(self.has(g));
                assert(old(self).has(g) && !drained@.contains(g));
                let j = choose|j: int| 0 <= j < old(self).connections.refs@.len() && (#[trigger] old(self).connections.refs@[j]).handle == g;
                assert(!drained@.contains(old(self).connections.refs@[j].handle));
            }
        }
        r
    }

    /// Stores the driver's waker unless one is stored. Returns whether it was stored now.
    pub fn register_driver(&mut self) -> (r: bool)
        requires
            old(self).wf(),
        ensures
            final(self).default_client_config == old(self).default_client_config,
            final(self).batch_size == old(self).batch_size,
            final(self).recv_limiter == old(self).recv_limiter,
            final(self).send_limiter == old(self).send_limiter,
            final(self).same_accept(*old(self)),
            final(self).same_conns(*old(self)),
            final(self).same_send(*old(self)),
            final(self).dirty@ == old(self).dirty@,
            final(self).ipv6 == old(self).ipv6,
            final(self).driver_lost == old(self).driver_lost,
            final(self).ref_count == old(self).ref_count,
            final(self).wf(),
            r == !old(self).driver_waker,
            final(self).driver_waker,
            final(self).connections.refs@ == old(self).connections.refs@,
    {
        let r = !self.driver_waker;
        self.driver_waker = true;
        r
    }

    /// Ends a driver pass. A waiting accept-stream reader is woken when
    /// connections await acceptance. The driver finishes once no user handle
    /// and no connection is left; otherwise it wakes itself when some pump
    /// asked to go on, and suspends if none did.
    pub fn finish_pass(&mut self, keep_going: bool) -> (r: DriverPoll)
        requires
            old(self).wf(),
        ensures
            final(self).same_settings(*old(self)),
            final(self).same_conns(*old(self)),
            final(self).same_send(*old(self)),
            final(self).dirty@ == old(self).dirty@,
            final(self).wf(),
            r.wake_incoming == (old(self).incoming.queue@.len() > 0 && old(self).incoming.reader_parked),
            r.wake_incoming ==> !final(self).incoming.reader_parked,
            !r.wake_incoming ==> final(self).incoming.reader_parked == old(self).incoming.reader_parked,
            final(self).incoming.queue@ == old(self).incoming.queue@,
            final(self).connections.refs@ == old(self).connections.refs@,
            r.outcome == if old(self).ref_count == 0 && old(self).connections.refs@.len() == 0 {
                PassOutcome::Finished
            } else if keep_going {
                PassOutcome::Yield
            } else {
                PassOutcome::Suspend
            },
    {
        let wake_incoming = if self.incoming.queue.len() > 0 { self.incoming.take_reader() } else { false };
        let outcome = if self.ref_count == 0 && self.connections.refs.len() == 0 {
            PassOutcome::Finished
        } else if keep_going {
            PassOutcome::Yield
        } else {
            PassOutcome::Suspend
        };
        DriverPoll { wake_incoming, outcome }
    }
}

/// Datagrams reach the socket in the order they were queued, each at most
/// once: what the socket took is a prefix of all that was queued, and the
/// rest waits in the queue, in order.
pub proof fn lemma_transmit_order<C>(ep: Endpoint<C>)
    requires
        ep.wf(),
    ensures
        ep.sent@ == ep.queued@.take(ep.sent@.len() as int),
        ep.outgoing@ == ep.queued@.skip(ep.sent@.len() as int),
{
    assert(ep.queued@.take(ep.sent@.len() as int) =~= ep.sent@);
    assert(ep.queued@.skip(ep.sent@.len() as int) =~= ep.outgoing@);
}

} // verus!
