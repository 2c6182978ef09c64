use vstd::prelude::*;
use crate::protocol::{FrameError, Header, Message, parse_header, FORM_RESPONSE};
use crate::table::{Network, RequestId, resolve_post};

verus! {

/// Where a dispatch cycle stands.
#[derive(PartialEq, Eq, Structural, Clone, Copy, Debug)]
pub enum Phase {
    /// No cycle is running.
    Idle,
    /// Waiting for the transport to be established.
    Connecting,
    /// Waiting for the current request frame to be written.
    Sending,
    /// Waiting for the header of the current response.
    AwaitingReply,
    /// Waiting for the payload of the current response, to reconcile it into the table.
    Reconciling,
    /// The last cycle failed and the connection was torn down.
    Failed,
}

/// What the driver must do next on behalf of the dispatcher.
#[derive(PartialEq, Eq, Structural, Clone, Copy, Debug)]
pub enum Action {
    /// The cycle is over.
    Done,
    /// Establish the connection, then report through `on_connect`.
    Connect,
    /// Serialize the pending request stored under this identifier, frame it, write it, and
    /// report through `on_written` (or `on_failure`).
    Send(RequestId),
    /// Read the six header bytes of the reply and report them through `on_header`.
    ReadHeader,
    /// Read exactly this many payload bytes, decode them, and report through `on_response`.
    ReadPayload(u16),
    /// The cycle failed with this error; the connection is to be torn down.
    Abort(FrameError),
}

/// The identifiers of the pending requests that are not in `sent`, in submission order.
pub open spec fn unsent<T>(reqs: Seq<(RequestId, T)>, sent: Seq<RequestId>) -> Seq<RequestId>
    decreases reqs.len(),
{
    if reqs.len() == 0 {
        Seq::empty()
    } else {
        let rest = unsent(reqs.drop_last(), sent);
        if sent.contains(reqs.last().0) {
            rest
        } else {
            rest.push(reqs.last().0)
        }
    }
}

/// A cycle sends in submission order: every queued identifier belongs to a pending request
/// not yet sent, and of two queued identifiers the earlier belongs to the request submitted
/// first. Replies pair with requests by position, so they are reconciled in that order too.
pub proof fn lemma_unsent_in_submission_order<T>(reqs: Seq<(RequestId, T)>, sent: Seq<RequestId>)
    ensures
        forall|a: int|
            0 <= a < unsent(reqs, sent).len() ==> !sent.contains(#[trigger] unsent(reqs, sent)[a])
                && exists|i: int| 0 <= i < reqs.len() && reqs[i].0 == unsent(reqs, sent)[a],
        forall|a: int, b: int|
            0 <= a < b < unsent(reqs, sent).len() ==> exists|i: int, j: int|
                0 <= i < j < reqs.len() && reqs[i].0 == #[trigger] unsent(reqs, sent)[a]
                    && reqs[j].0 == #[trigger] unsent(reqs, sent)[b],
    decreases reqs.len(),
{
    if reqs.len() > 0 {
        let init = reqs.drop_last();
        let rest = unsent(init, sent);
        let q = unsent(reqs, sent);
        let last = reqs.len() - 1;
        lemma_unsent_in_submission_order(init, sent);
        assert forall|a: int| 0 <= a < q.len() implies !sent.contains(#[trigger] q[a])
            && exists|i: int| 0 <= i < reqs.len() && reqs[i].0 == q[a] by {
            if a < rest.len() {
                assert(q[a] == rest[a]);
                let i = choose|i: int| 0 <= i < init.len() && init[i].0 == rest[a];
                assert(reqs[i].0 == q[a]);
            } else {
                assert(reqs[last].0 == q[a]);
            }
        }
        assert forall|a: int, b: int| 0 <= a < b < q.len() implies exists|i: int, j: int|
            0 <= i < j < reqs.len() && reqs[i].0 == #[trigger] q[a] && reqs[j].0
                == #[trigger] q[b] by {
            assert(q[a] == rest[a]);
            if b < rest.len() {
                assert(q[b] == rest[b]);
                let (i, j) = choose|i: int, j: int|
                    0 <= i < j < init.len() && init[i].0 == rest[a] && init[j].0 == rest[b];
                assert(reqs[i].0 == q[a] && reqs[j].0 == q[b]);
            } else {
                let i = choose|i: int| 0 <= i < init.len() && init[i].0 == rest[a];
                assert(reqs[i].0 == q[a] && reqs[last].0 == q[b]);
            }
        }
    }
}

/// The mathematical state of a dispatcher.
pub struct DispatcherView {
    /// Identifiers written on the current connection.
    pub sent: Seq<RequestId>,
    /// The identifiers this cycle sends, in order.
    pub queue: Seq<RequestId>,
    /// Position in `queue` of the current exchange.
    pub next: nat,
    /// Payload length announced by the header of the current reply.
    pub expected: u16,
    /// Whether a live connection is held.
    pub connected: bool,
    pub phase: Phase,
}

/// Starts the exchange at position `next` of the queue: its identifier enters the sent
/// set before its frame is written.
pub open spec fn start_exchange(v: DispatcherView) -> DispatcherView {
    DispatcherView { sent: v.sent.push(v.queue[v.next as int]), phase: Phase::Sending, ..v }
}

/// A failed cycle: the connection is torn down and the sent set, which belongs to it, is
/// cleared, so every identifier still pending is sent again by a later cycle.
pub open spec fn failed(v: DispatcherView) -> DispatcherView {
    DispatcherView { sent: Seq::empty(), connected: false, phase: Phase::Failed, ..v }
}

/// The state machine of the dispatch cycle, invoked by an outside driver that performs
/// each `Action` and reports its outcome back.
pub struct Dispatcher {
    sent: Vec<RequestId>,
    queue: Vec<RequestId>,
    next: usize,
    expected: u16,
    connected: bool,
    phase: Phase,
}

impl View for Dispatcher {
    type V = DispatcherView;

    closed spec fn view(&self) -> DispatcherView {
        DispatcherView {
            sent: self.sent@,
            queue: self.queue@,
            next: self.next as nat,
            expected: self.expected,
            connected: self.connected,
            phase: self.phase,
        }
    }
}

/// The phases in which an exchange is under way.
pub open spec fn in_exchange(p: Phase) -> bool {
    p == Phase::Sending || p == Phase::AwaitingReply || p == Phase::Reconciling
}

impl Dispatcher {
    /// Well-formed: a current exchange exists whenever one is under way or the connection
    /// is being made, and an exchange only runs on a live connection.
    pub open spec fn wf(&self) -> bool {
        &&& self@.next <= self@.queue.len()
        &&& in_exchange(self@.phase) ==> self@.next < self@.queue.len() && self@.connected
        &&& self@.phase == Phase::Connecting ==> self@.next < self@.queue.len()
            && !self@.connected
    }

    /// An idle dispatcher with no connection and nothing sent.
    pub fn new() -> (r: Dispatcher)
        ensures
            r.wf(),
            r@.phase == Phase::Idle,
            r@.sent.len() == 0,
            r@.queue.len() == 0,
            !r@.connected,
    {
        Dispatcher {
            sent: Vec::new(),
            queue: Vec::new(),
            next: 0,
            expected: 0,
            connected: false,
            phase: Phase::Idle,
        }
    }

    pub fn phase(&self) -> (r: Phase)
        ensures
            r == self@.phase,
    {
        self.phase
    }

    pub fn is_connected(&self) -> (r: bool)
        ensures
            r == self@.connected,
    {
        self.connected
    }

    /// Whether `id` has been written on the current connection.
    pub fn is_sent(&self, id: RequestId) -> (r: bool)
        ensures
            r == self@.sent.contains(id),
    {
        let mut i: usize = 0;
        while i < self.sent.len()
            invariant
                i <= self.sent@.len(),
                forall|j: int| 0 <= j < i ==> self.sent@[j] != id,
            decreases self.sent@.len() - i,
        {
            if self.sent[i] == id {
                assert(self.sent@[i as int] == id);
                return true;
            }
            i = i + 1;
        }
        false
    }

    /// The identifiers of `net`'s pending requests not yet sent, in submission order.
    fn collect_unsent<T: Message, U: Message>(&self, net: &Network<T, U>) -> (r: Vec<RequestId>)
        ensures
            r@ == unsent(net@.requests, self@.sent),
    {
        let mut out: Vec<RequestId> = Vec::new();
        let mut i: usize = 0;
        let n = net.pending_count();
        while i < n
            invariant
                n == net@.requests.len(),
                i <= n,
                out@ == unsent(net@.requests.subrange(0, i as int), self@.sent),
            decreases n - i,
        {
            let id = net.pending_id(i);
            proof {
                let reqs = net@.requests.subrange(0, i as int + 1);
                assert(reqs.drop_last() =~= net@.requests.subrange(0, i as int));
            }
            if !self.is_sent(id) {
                out.push(id);
            }
            i = i + 1;
        }
        assert(net@.requests.subrange(0, n as int) =~= net@.requests);
        out
    }

    /// Moves to the exchange at the current position of the queue.
    fn start_current(&mut self) -> (r: Action)
        requires
            old(self)@.next < old(self)@.queue.len(),
            old(self)@.connected,
        ensures
            final(self)@ == start_exchange(old(self)@),
            r == Action::Send(old(self)@.queue[old(self)@.next as int]),
    {
        let id = self.queue[self.next];
        self.sent.push(id);
        self.phase = Phase::Sending;
        Action::Send(id)
    }

    /// Ends the cycle in failure with `error`.
    fn fail(&mut self, error: FrameError) -> (r: Action)
        ensures
            final(self)@ == failed(old(self)@),
            r == Action::Abort(error),
    {
        self.sent = Vec::new();
        self.connected = false;
        self.phase = Phase::Failed;
        Action::Abort(error)
    }

    /// Starts a cycle over `net`. The pending identifiers not yet sent on this connection
    /// form the queue, in submission order. With nothing to send the cycle ends at once,
    /// with no connection activity; otherwise it connects first if no connection is live,
    /// or starts the first exchange.
    pub fn begin<T: Message, U: Message>(&mut self, net: &Network<T, U>) -> (r: Action)
        requires
            old(self).wf(),
            old(self)@.phase == Phase::Idle || old(self)@.phase == Phase::Failed,
        ensures
            final(self).wf(),
            final(self)@.queue == unsent(net@.requests, old(self)@.sent),
            final(self)@.queue.len() == 0 ==> r == Action::Done && final(self)@ == (
            DispatcherView { queue: final(self)@.queue, next: 0, phase: Phase::Idle, ..old(self)@ }),
            final(self)@.queue.len() > 0 && !old(self)@.connected ==> r == Action::Connect
                && final(self)@ == (DispatcherView {
                queue: final(self)@.queue,
                next: 0,
                phase: Phase::Connecting,
                ..old(self)@
            }),
            final(self)@.queue.len() > 0 && old(self)@.connected ==> r == Action::Send(
                final(self)@.queue[0],
            ) && final(self)@ == start_exchange(
                DispatcherView { queue: final(self)@.queue, next: 0, ..old(self)@ },
            ),
    {
        self.queue = self.collect_unsent(net);
        self.next = 0;
        if self.queue.len() == 0 {
            self.phase = Phase::Idle;
            Action::Done
        } else if !self.connected {
            self.phase = Phase::Connecting;
            Action::Connect
        } else {
            self.start_current()
        }
    }

    /// Reports the outcome of connecting. On success the first exchange starts; on failure
    /// the cycle fails with a connection error and nothing has been sent.
    pub fn on_connect(&mut self, ok: bool) -> (r: Action)
        requires
            old(self).wf(),
            old(self)@.phase == Phase::Connecting,
        ensures
            final(self).wf(),
            ok ==> r == Action::Send(old(self)@.queue[old(self)@.next as int]) && final(self)@
                == start_exchange(DispatcherView { connected: true, ..old(self)@ }),
            !ok ==> r == Action::Abort(FrameError::ConnectionError) && final(self)@ == failed(
                old(self)@,
            ),
    {
        if ok {
            self.connected = true;
            self.start_current()
        } else {
            self.fail(FrameError::ConnectionError)
        }
    }

    /// Reports that the current request frame was written: the reply is awaited.
    pub fn on_written(&mut self) -> (r: Action)
        requires
            old(self).wf(),
            old(self)@.phase == Phase::Sending,
        ensures
            final(self).wf(),
            r == Action::ReadHeader,
            final(self)@ == (DispatcherView { phase: Phase::AwaitingReply, ..old(self)@ }),
    {
        self.phase = Phase::AwaitingReply;
        Action::ReadHeader
    }

    /// Reports the header bytes of the reply. A malformed header, or a frame that is not a
    /// response, fails the cycle; otherwise the announced payload is to be read.
    pub fn on_header(&mut self, bytes: &[u8]) -> (r: Action)
        requires
            old(self).wf(),
            old(self)@.phase == Phase::AwaitingReply,
        ensures
            final(self).wf(),
            match parse_header(bytes@) {
                Err(e) => r == Action::Abort(e) && final(self)@ == failed(old(self)@),
                Ok(h) => if h.form == FORM_RESPONSE {
                    r == Action::ReadPayload(h.length) && final(self)@ == (DispatcherView {
                        expected: h.length,
                        phase: Phase::Reconciling,
                        ..old(self)@
                    })
                } else {
                    r == Action::Abort(FrameError::ProtocolViolation) && final(self)@ == failed(
                        old(self)@,
                    )
                },
            },
    {
        let header: Header = match Header::from_bytes(bytes) {
            Ok(h) => h,
            Err(e) => return self.fail(e),
        };
        if header.form != FORM_RESPONSE {
            return self.fail(FrameError::ProtocolViolation);
        }
        self.expected = header.length;
        self.phase = Phase::Reconciling;
        Action::ReadPayload(header.length)
    }

    /// Reports the reply's payload: how many bytes it held and, if they decoded, the
    /// response. A length other than the header announced fails the cycle with a protocol
    /// violation, and a payload that did not decode with a malformed payload. Otherwise the
    /// response is resolved into `net` under the identifier of the current exchange (replies
    /// pair with requests by position), and the next exchange starts, or the cycle ends.
    pub fn on_response<T: Message, U: Message>(
        &mut self,
        net: &mut Network<T, U>,
        payload_len: usize,
        response: Option<U>,
    ) -> (r: Action)
        requires
            old(self).wf(),
            old(net).wf(),
            old(self)@.phase == Phase::Reconciling,
        ensures
            final(self).wf(),
            final(net).wf(),
            payload_len != old(self)@.expected ==> r == Action::Abort(
                FrameError::ProtocolViolation,
            ) && final(self)@ == failed(old(self)@) && final(net)@ == old(net)@,
            payload_len == old(self)@.expected && response is None ==> r == Action::Abort(
                FrameError::MalformedPayload,
            ) && final(self)@ == failed(old(self)@) && final(net)@ == old(net)@,
            payload_len == old(self)@.expected && response is Some ==> {
                let id = old(self)@.queue[old(self)@.next as int];
                let moved = DispatcherView { next: old(self)@.next + 1, ..old(self)@ };
                &&& exists|accepted: bool|
                    resolve_post(old(net)@, id, response->Some_0, accepted, final(net)@)
                &&& moved.next < moved.queue.len() ==> r == Action::Send(
                    moved.queue[moved.next as int],
                ) && final(self)@ == start_exchange(moved)
                &&& moved.next == moved.queue.len() ==> r == Action::Done && final(self)@ == (
                DispatcherView { phase: Phase::Idle, ..moved })
            },
    {
        if payload_len != self.expected as usize {
            return self.fail(FrameError::ProtocolViolation);
        }
        match response {
            None => self.fail(FrameError::MalformedPayload),
            Some(u) => {
                let id = self.queue[self.next];
                let _accepted = net.resolve(id, u);
                let len = self.queue.len();
                self.next = self.next + 1;
                if self.next < len {
                    self.start_current()
                } else {
                    self.phase = Phase::Idle;
                    Action::Done
                }
            },
        }
    }

    /// Reports that the driver could not carry out the current step: the cycle fails with
    /// `error` and the connection is torn down.
    pub fn on_failure(&mut self, error: FrameError) -> (r: Action)
        requires
            old(self).wf(),
            old(self)@.phase == Phase::Connecting || in_exchange(old(self)@.phase),
        ensures
            final(self).wf(),
            r == Action::Abort(error),
            final(self)@ == failed(old(self)@),
    {
        self.fail(error)
    }
}

} // verus!
