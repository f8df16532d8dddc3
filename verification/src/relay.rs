use vstd::prelude::*;

verus! {

/// The single slot of the command relay. A request travels the cycle
/// `Idle -> Pending -> Awaiting -> Done -> Idle`: submitted by a caller,
/// handed to the polling remote agent, fulfilled with the agent's result,
/// and collected by the submitter. At most one request is ever in flight,
/// which is what lets responses be paired with requests although the wire
/// carries no request identifiers.
pub enum RelayState {
    Idle,
    Pending { request: Vec<u8> },
    Awaiting,
    Done { response: Vec<u8> },
}

/// The mathematical content of a relay slot.
pub enum RelayStateView {
    Idle,
    Pending { request: Seq<u8> },
    Awaiting,
    Done { response: Seq<u8> },
}

impl View for RelayState {
    type V = RelayStateView;

    open spec fn view(&self) -> RelayStateView {
        match self {
            RelayState::Idle => RelayStateView::Idle,
            RelayState::Pending { request } => RelayStateView::Pending { request: request@ },
            RelayState::Awaiting => RelayStateView::Awaiting,
            RelayState::Done { response } => RelayStateView::Done { response: response@ },
        }
    }
}

/// A submit is accepted only on a free slot; while any request is
/// outstanding the slot is left untouched and the caller must wait.
pub open spec fn spec_submit(s: RelayStateView, request: Seq<u8>) -> (RelayStateView, bool) {
    if s is Idle {
        (RelayStateView::Pending { request }, true)
    } else {
        (s, false)
    }
}

/// The consumer's poll: a pending request is handed out exactly once and the
/// slot then awaits its result; any other state hands out nothing.
pub open spec fn spec_take_pending(s: RelayStateView) -> (RelayStateView, Option<Seq<u8>>) {
    match s {
        RelayStateView::Pending { request } => (RelayStateView::Awaiting, Some(request)),
        _ => (s, Option::<Seq<u8>>::None),
    }
}

/// A result is accepted only while a handed-out request awaits one;
/// delivering a result at any other time — twice, or with nothing
/// outstanding — is a protocol violation and changes nothing.
pub open spec fn spec_fulfill(s: RelayStateView, response: Seq<u8>) -> (RelayStateView, bool) {
    if s is Awaiting {
        (RelayStateView::Done { response }, true)
    } else {
        (s, false)
    }
}

/// The submitter collects the delivered result, freeing the slot.
pub open spec fn spec_take_response(s: RelayStateView) -> (RelayStateView, Option<Seq<u8>>) {
    match s {
        RelayStateView::Done { response } => (RelayStateView::Idle, Some(response)),
        _ => (s, Option::<Seq<u8>>::None),
    }
}

/// The peer delivered a result when none was awaited, or twice for one
/// request: two logical calls would have overlapped, which the relay's
/// discipline rules out, so the condition is fatal for the bridge.
#[derive(Debug)]
pub struct ProtocolViolation;

/// The capacity-one conduit pairing each submitted request with the one
/// result the remote agent posts back. The surrounding runtime serialises
/// access (one caller at a time holds it) and turns a refused `submit` into
/// waiting; the methods themselves never block.
pub struct RelayChannel {
    pub state: RelayState,
}

impl View for RelayChannel {
    type V = RelayStateView;

    open spec fn view(&self) -> RelayStateView {
        self.state@
    }
}

impl RelayChannel {
    /// A fresh relay with a free slot.
    pub fn new() -> (r: RelayChannel)
        ensures
            r@ is Idle,
    {
        RelayChannel { state: RelayState::Idle }
    }

    /// Offer a request. Accepted (true) only when the slot is free; when a
    /// request is outstanding nothing is overwritten or dropped and the
    /// caller must try again once the slot frees up.
    pub fn submit(&mut self, request: Vec<u8>) -> (accepted: bool)
        ensures
            final(self)@ == spec_submit(old(self)@, request@).0,
            accepted == spec_submit(old(self)@, request@).1,
    {
        match &self.state {
            RelayState::Idle => {
                self.state = RelayState::Pending { request };
                true
            },
            _ => false,
        }
    }

    /// Hand the pending request, if any, to the polling consumer; the slot
    /// then awaits that request's result.
    pub fn take_pending(&mut self) -> (r: Option<Vec<u8>>)
        ensures
            final(self)@ == spec_take_pending(old(self)@).0,
            match r {
                Some(request) => spec_take_pending(old(self)@).1 == Some(request@),
                None => spec_take_pending(old(self)@).1 is None,
            },
    {
        let mut taken = RelayState::Awaiting;
        core::mem::swap(&mut self.state, &mut taken);
        match taken {
            RelayState::Pending { request } => Some(request),
            other => {
                self.state = other;
                None
            },
        }
    }

    /// Deliver the result of the handed-out request. An `Err` means the peer
    /// protocol was violated — nothing was awaited — and the slot is left as
    /// it was; the caller treats that as fatal.
    pub fn fulfill(&mut self, response: Vec<u8>) -> (r: Result<(), ProtocolViolation>)
        ensures
            final(self)@ == spec_fulfill(old(self)@, response@).0,
            r is Ok <==> spec_fulfill(old(self)@, response@).1,
    {
        match &self.state {
            RelayState::Awaiting => {
                self.state = RelayState::Done { response };
                Ok(())
            },
            _ => Err(ProtocolViolation),
        }
    }

    /// Collect the delivered result, freeing the slot for the next request.
    pub fn take_response(&mut self) -> (r: Option<Vec<u8>>)
        ensures
            final(self)@ == spec_take_response(old(self)@).0,
            match r {
                Some(response) => spec_take_response(old(self)@).1 == Some(response@),
                None => spec_take_response(old(self)@).1 is None,
            },
    {
        let mut taken = RelayState::Idle;
        core::mem::swap(&mut self.state, &mut taken);
        match taken {
            RelayState::Done { response } => Some(response),
            other => {
                self.state = other;
                None
            },
        }
    }
}

/// Capacity-one discipline over a whole request's lifetime: a first submit on
/// a free slot is accepted; from then until its response is collected — while
/// it is still pending, while the consumer holds it, and while its result
/// waits uncollected — a second submit is refused and leaves the slot exactly
/// as it was, so the first request is neither overwritten nor dropped; the
/// consumer receives the first request intact and the submitter its response
/// intact; a second delivery for one request is refused; and only once the
/// slot is free again is the next submit accepted.
pub proof fn lemma_second_submit_blocks(r1: Seq<u8>, r2: Seq<u8>, resp: Seq<u8>, resp2: Seq<u8>)
    ensures
        spec_submit(RelayStateView::Idle, r1) == (RelayStateView::Pending { request: r1 }, true),
        spec_submit(RelayStateView::Pending { request: r1 }, r2) == (
            RelayStateView::Pending { request: r1 },
            false,
        ),
        spec_take_pending(RelayStateView::Pending { request: r1 }) == (
            RelayStateView::Awaiting,
            Some(r1),
        ),
        spec_submit(RelayStateView::Awaiting, r2) == (RelayStateView::Awaiting, false),
        spec_fulfill(RelayStateView::Awaiting, resp) == (
            RelayStateView::Done { response: resp },
            true,
        ),
        spec_submit(RelayStateView::Done { response: resp }, r2) == (
            RelayStateView::Done { response: resp },
            false,
        ),
        spec_fulfill(RelayStateView::Done { response: resp }, resp2) == (
            RelayStateView::Done { response: resp },
            false,
        ),
        spec_take_response(RelayStateView::Done { response: resp }) == (
            RelayStateView::Idle,
            Some(resp),
        ),
        spec_submit(RelayStateView::Idle, r2).1 == true,
{
}

} // verus!
