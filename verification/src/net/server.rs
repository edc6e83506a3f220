//! Accepting connections and serving the requests that come in over them.

use super::response::GlueResponse;
use super::Error;
use crate::buffer::bytes_of;
use crate::wire::Frame;
use crate::wire_request::{law_what_each_opcode_asks_for, Conversion, Envelope, PushPayload,
    WireRequest};
use vstd::arithmetic::power2::{lemma2_to64, lemma2_to64_rest, lemma_pow2_unfold, pow2};
use vstd::prelude::*;

verus! {

// ---------------------------------------------------------------------------
// Accepting
// ---------------------------------------------------------------------------

/// How long to wait before accepting is tried again. The wait doubles with
/// each failure in a row; once it is over the maximum, accepting is given up.
pub struct Backoff {
    backoff_ms: u64,
    max_backoff_ms: u64,
}

/// Twice `ms`, as 64 bits hold it.
pub open spec fn doubled(ms: u64) -> u64 {
    (ms * 2 % 0x1_0000_0000_0000_0000) as u64
}

/// Whether a failure is answered with `r` and leaves `next` as the wait.
pub open spec fn failure_moves(wait: u64, max: u64, r: Option<u64>, next: u64) -> bool {
    if wait > max {
        r is None && next == wait
    } else {
        r == Some(wait) && next == doubled(wait)
    }
}

impl Backoff {
    /// The wait that the next failure brings, in milliseconds.
    pub closed spec fn wait(self) -> u64 {
        self.backoff_ms
    }

    /// The longest wait, in milliseconds.
    pub closed spec fn max(self) -> u64 {
        self.max_backoff_ms
    }

    /// Starts with the shortest wait.
    pub fn new(min_backoff_ms: u64, max_backoff_ms: u64) -> (r: Backoff)
        ensures
            r.wait() == min_backoff_ms,
            r.max() == max_backoff_ms,
    {
        Backoff { backoff_ms: min_backoff_ms, max_backoff_ms }
    }

    /// Accepting has failed. Gives the milliseconds to wait before the next
    /// try, or nothing where the failure is to be reported.
    pub fn failed(&mut self) -> (r: Option<u64>)
        ensures
            final(self).max() == old(self).max(),
            old(self).wait() > old(self).max() ==> r is None,
            old(self).wait() > old(self).max() ==> final(self).wait() == old(self).wait(),
            old(self).wait() <= old(self).max() ==> r == Some(old(self).wait()),
            old(self).wait() <= old(self).max() ==> final(self).wait() == doubled(old(self).wait()),
            failure_moves(old(self).wait(), old(self).max(), r, final(self).wait()),
    {
        let backoff = self.backoff_ms;
        if backoff > self.max_backoff_ms {
            return None;
        }
        proof {
            assert((backoff << 1) == (backoff * 2 % 0x1_0000_0000_0000_0000)) by (bit_vector);
        }
        self.backoff_ms = backoff << 1;
        Some(backoff)
    }
}

/// The wait after `failures` failures in a row that were all waited for.
pub open spec fn wait_after(min_backoff_ms: u64, failures: nat) -> u64
    decreases failures,
{
    if failures == 0 {
        min_backoff_ms
    } else {
        doubled(wait_after(min_backoff_ms, (failures - 1) as nat))
    }
}

/// The wait is exponential: after `failures` failures it is the shortest wait
/// times two to the power of `failures`, as long as that fits 64 bits.
pub proof fn law_backoff_is_exponential(min_backoff_ms: u64, failures: nat)
    requires
        min_backoff_ms * pow2(failures) <= u64::MAX,
    ensures
        wait_after(min_backoff_ms, failures) == min_backoff_ms * pow2(failures),
    decreases failures,
{
    if failures == 0 {
        lemma2_to64();
    } else {
        let fewer = (failures - 1) as nat;
        lemma_pow2_unfold(failures);
        let power = pow2(fewer);
        assert(min_backoff_ms * (2 * power) == 2 * (min_backoff_ms * power)) by (nonlinear_arith);
        assert(0 <= min_backoff_ms * power) by (nonlinear_arith);
        law_backoff_is_exponential(min_backoff_ms, fewer);
    }
}

/// Accepting is not tried for ever: with a shortest wait of at least one
/// millisecond and a longest wait below two to the power of 63, the wait
/// passes the longest after at most 63 failures.
pub proof fn law_backoff_gives_up(min_backoff_ms: u64, max_backoff_ms: u64) -> (failures: nat)
    requires
        1 <= min_backoff_ms,
        max_backoff_ms < 0x8000_0000_0000_0000,
    ensures
        failures <= 63,
        wait_after(min_backoff_ms, failures) > max_backoff_ms,
        forall|earlier: nat|
            earlier < failures ==> #[trigger] wait_after(min_backoff_ms, earlier) <= max_backoff_ms,
{
    lemma2_to64();
    lemma_some_wait_is_too_long(min_backoff_ms, max_backoff_ms, 0)
}

/// Failures in a row are waited for twice as long each time, and the one whose
/// wait would be over the longest is reported: the failure with `k` failures
/// before it is given the shortest wait times two to the power of `k`, where
/// that is not over the longest wait, and is reported where it is and those
/// before it were not.
pub proof fn law_failures_in_a_row(
    waits: Seq<u64>,
    results: Seq<Option<u64>>,
    max_backoff_ms: u64,
    k: nat,
)
    requires
        waits.len() == results.len() + 1,
        forall|i: int|
            0 <= i < results.len() ==> failure_moves(
                waits[i],
                max_backoff_ms,
                #[trigger] results[i],
                waits[i + 1],
            ),
        k < results.len(),
        waits[0] * pow2(k) <= u64::MAX,
        forall|i: int| 0 <= i < k ==> (#[trigger] results[i]) is Some,
    ensures
        waits[k as int] == waits[0] * pow2(k),
        results[k as int] == if waits[0] * pow2(k) <= max_backoff_ms {
            Some((waits[0] * pow2(k)) as u64)
        } else {
            None
        },
    decreases k,
{
    if k == 0 {
        lemma2_to64();
    } else {
        let fewer = (k - 1) as nat;
        lemma_pow2_unfold(k);
        let power = pow2(fewer);
        let first = waits[0];
        assert(first * (2 * power) == 2 * (first * power)) by (nonlinear_arith);
        assert(0 <= first * power) by (nonlinear_arith);
        law_failures_in_a_row(waits, results, max_backoff_ms, fewer);
        assert(results[fewer as int] is Some);
    }
    assert(failure_moves(waits[k as int], max_backoff_ms, results[k as int], waits[k as int + 1]));
}

/// Looks for the first wait that is too long, from `failures` on.
proof fn lemma_some_wait_is_too_long(
    min_backoff_ms: u64,
    max_backoff_ms: u64,
    failures: nat,
) -> (first: nat)
    requires
        1 <= min_backoff_ms,
        max_backoff_ms < 0x8000_0000_0000_0000,
        failures <= 63,
        min_backoff_ms * pow2(failures) <= u64::MAX,
        forall|earlier: nat|
            earlier < failures ==> #[trigger] wait_after(min_backoff_ms, earlier) <= max_backoff_ms,
    ensures
        first <= 63,
        wait_after(min_backoff_ms, first) > max_backoff_ms,
        forall|earlier: nat|
            earlier < first ==> #[trigger] wait_after(min_backoff_ms, earlier) <= max_backoff_ms,
    decreases 63 - failures,
{
    law_backoff_is_exponential(min_backoff_ms, failures);
    if wait_after(min_backoff_ms, failures) > max_backoff_ms {
        failures
    } else {
        let power = pow2(failures);
        if failures == 63 {
            lemma2_to64_rest();
            assert(min_backoff_ms * power >= power) by (nonlinear_arith)
                requires
                    min_backoff_ms >= 1,
            ;
            assert(false);
        }
        lemma_pow2_unfold(failures + 1);
        assert(min_backoff_ms * (2 * power) == 2 * (min_backoff_ms * power)) by (nonlinear_arith);
        lemma_some_wait_is_too_long(min_backoff_ms, max_backoff_ms, failures + 1)
    }
}

// ---------------------------------------------------------------------------
// Serving
// ---------------------------------------------------------------------------

/// Where the serving of a connection stands.
pub enum HandlerState {
    /// The shutdown flag is to be looked at.
    Checking,
    /// The next frame, or the shutdown signal, is waited for.
    Reading,
    /// The envelope of a push is to be scanned.
    Scanning(PushPayload),
    /// The request is on its way to the apply thread.
    Dispatching,
    /// The apply thread works on the request.
    Awaiting,
    /// A response is being written, and these are still to come.
    Writing(Vec<GlueResponse>),
    /// The connection is done with.
    Finished,
}

/// What has happened.
pub enum HandlerEvent {
    /// Whether the server is shutting down.
    ShutdownFlag(bool),
    /// The shutdown signal came before a frame did.
    ShutdownSignal,
    /// The peer sent a frame, closed the stream, or reading failed.
    FrameRead(Result<Option<Frame>, Error>),
    /// What the scanner found in the envelope.
    Scanned(Result<Envelope, String>),
    /// Whether the apply thread took the request.
    Dispatched(bool),
    /// The responses, or none where the apply thread dropped the request.
    Replied(Option<Vec<GlueResponse>>),
    /// What came of writing a response.
    Written(Result<(), Error>),
}

/// What is to be done next.
pub enum HandlerAction {
    /// Look whether the server is shutting down.
    CheckShutdown,
    /// Wait for a frame or the shutdown signal.
    AwaitFrame,
    /// Scan the envelope that [`Handler::push`] gives.
    ScanEnvelope,
    /// Hand the request to the apply thread.
    Dispatch(WireRequest),
    /// Wait for the responses.
    AwaitReply,
    /// Write the frame to the peer.
    Write(Frame),
    /// Stop serving the connection.
    Finish(Result<(), Error>),
}

impl HandlerState {
    /// Whether `event` can happen in this state.
    pub open spec fn accepts(self, event: HandlerEvent) -> bool {
        match self {
            HandlerState::Checking => event is ShutdownFlag,
            HandlerState::Reading => event is ShutdownSignal || event is FrameRead,
            HandlerState::Scanning(push) => event matches HandlerEvent::Scanned(scan) && (
            scan matches Ok(envelope) ==> envelope.fits(bytes_of(push.payload).len())),
            HandlerState::Dispatching => event is Dispatched,
            HandlerState::Awaiting => event is Replied,
            HandlerState::Writing(_) => event is Written,
            HandlerState::Finished => false,
        }
    }

    /// Whether the apply thread has, or is about to get, a request of this
    /// connection that it has not answered.
    pub open spec fn in_flight(self) -> bool {
        self is Dispatching || self is Awaiting
    }
}

/// Whether serving goes on with the responses in `pending`: the first one is
/// written, and where there is none the next round begins.
pub open spec fn answers(
    pending: Seq<GlueResponse>,
    next: HandlerState,
    action: HandlerAction,
) -> bool {
    if pending.len() == 0 {
        next is Checking && action is CheckShutdown
    } else {
        &&& next matches HandlerState::Writing(rest)
        &&& rest@ == pending.skip(1)
        &&& action matches HandlerAction::Write(frame)
        &&& frame@ == pending[0].frame()
    }
}

/// Whether serving ends with `result`.
pub open spec fn ends(
    result: Result<(), Error>,
    next: HandlerState,
    action: HandlerAction,
) -> bool {
    next is Finished && action == HandlerAction::Finish(result)
}

/// Whether in `state` the event leads to `next` and asks for `action`.
pub open spec fn moves(
    state: HandlerState,
    event: HandlerEvent,
    next: HandlerState,
    action: HandlerAction,
) -> bool {
    match (state, event) {
        (HandlerState::Checking, HandlerEvent::ShutdownFlag(true)) => ends(Ok(()), next, action),
        (HandlerState::Checking, HandlerEvent::ShutdownFlag(false)) => next is Reading
            && action is AwaitFrame,
        (HandlerState::Reading, HandlerEvent::ShutdownSignal) => ends(Ok(()), next, action),
        (HandlerState::Reading, HandlerEvent::FrameRead(Err(e))) => ends(Err(e), next, action),
        (HandlerState::Reading, HandlerEvent::FrameRead(Ok(None))) => ends(Ok(()), next, action),
        (HandlerState::Reading, HandlerEvent::FrameRead(Ok(Some(frame)))) => {
            ||| {
                &&& next is Dispatching
                &&& action matches HandlerAction::Dispatch(request)
                &&& Conversion::Request(request).is_of(frame@)
            }
            ||| {
                &&& next matches HandlerState::Scanning(push)
                &&& action is ScanEnvelope
                &&& Conversion::Push(push).is_of(frame@)
            }
        },
        (HandlerState::Scanning(push), HandlerEvent::Scanned(scan)) => {
            &&& next is Dispatching
            &&& action matches HandlerAction::Dispatch(request)
            &&& push.resolves_to(scan, request)
        },
        (HandlerState::Dispatching, HandlerEvent::Dispatched(true)) => next is Awaiting
            && action is AwaitReply,
        (HandlerState::Dispatching, HandlerEvent::Dispatched(false)) => ends(Ok(()), next, action),
        (HandlerState::Awaiting, HandlerEvent::Replied(Some(responses))) => answers(
            responses@,
            next,
            action,
        ),
        (HandlerState::Awaiting, HandlerEvent::Replied(None)) => ends(Ok(()), next, action),
        (HandlerState::Writing(pending), HandlerEvent::Written(Ok(()))) => answers(
            pending@,
            next,
            action,
        ),
        (HandlerState::Writing(_), HandlerEvent::Written(Err(e))) => ends(Err(e), next, action),
        _ => false,
    }
}

/// Serves one connection: a frame is read, turned into a request, handed to the
/// apply thread, and the responses are written, one request at a time.
pub struct Handler {
    state: HandlerState,
}

/// Goes on with the responses in `pending`.
fn answer(pending: Vec<GlueResponse>) -> (r: (HandlerState, HandlerAction))
    ensures
        answers(pending@, r.0, r.1),
{
    let mut pending = pending;
    if pending.len() == 0 {
        return (HandlerState::Checking, HandlerAction::CheckShutdown);
    }
    let ghost all = pending@;
    let frame = Frame::from(pending.remove(0));
    proof {
        assert(pending@ =~= all.skip(1));
    }
    (HandlerState::Writing(pending), HandlerAction::Write(frame))
}

/// The end of serving.
fn end(result: Result<(), Error>) -> (r: (HandlerState, HandlerAction))
    ensures
        ends(result, r.0, r.1),
{
    (HandlerState::Finished, HandlerAction::Finish(result))
}

/// What comes after a frame.
fn begin(frame: Frame) -> (r: (HandlerState, HandlerAction))
    ensures
        moves(HandlerState::Reading, HandlerEvent::FrameRead(Ok(Some(frame))), r.0, r.1),
{
    match WireRequest::from(frame) {
        Conversion::Request(request) => (
            HandlerState::Dispatching,
            HandlerAction::Dispatch(request),
        ),
        Conversion::Push(push) => (HandlerState::Scanning(push), HandlerAction::ScanEnvelope),
    }
}

impl Handler {
    /// Where serving stands.
    pub closed spec fn state(self) -> HandlerState {
        self.state
    }

    /// Starts serving: the shutdown flag is looked at before anything is read.
    pub fn new() -> (r: Handler)
        ensures
            r.state() is Checking,
    {
        Handler { state: HandlerState::Checking }
    }

    /// The push whose envelope is to be scanned.
    pub fn push(&self) -> (r: Option<&PushPayload>)
        ensures
            match self.state() {
                HandlerState::Scanning(push) => r == Some(&push),
                _ => r is None,
            },
    {
        match &self.state {
            HandlerState::Scanning(push) => Some(push),
            _ => None,
        }
    }

    /// Takes note of what has happened, and says what is to be done.
    pub fn step(&mut self, event: HandlerEvent) -> (action: HandlerAction)
        requires
            old(self).state().accepts(event),
        ensures
            moves(old(self).state(), event, final(self).state(), action),
    {
        let mut state = HandlerState::Finished;
        std::mem::swap(&mut state, &mut self.state);
        let (next, action) = match state {
            HandlerState::Checking => match event {
                HandlerEvent::ShutdownFlag(false) => (
                    HandlerState::Reading,
                    HandlerAction::AwaitFrame,
                ),
                _ => end(Ok(())),
            },
            HandlerState::Reading => match event {
                HandlerEvent::FrameRead(Ok(Some(frame))) => begin(frame),
                HandlerEvent::FrameRead(Err(e)) => end(Err(e)),
                _ => end(Ok(())),
            },
            HandlerState::Scanning(push) => match event {
                HandlerEvent::Scanned(scan) => (
                    HandlerState::Dispatching,
                    HandlerAction::Dispatch(push.resolve(scan)),
                ),
                _ => end(Ok(())),
            },
            HandlerState::Dispatching => match event {
                HandlerEvent::Dispatched(true) => (
                    HandlerState::Awaiting,
                    HandlerAction::AwaitReply,
                ),
                _ => end(Ok(())),
            },
            HandlerState::Awaiting => match event {
                HandlerEvent::Replied(Some(responses)) => answer(responses),
                _ => end(Ok(())),
            },
            HandlerState::Writing(pending) => match event {
                HandlerEvent::Written(Ok(())) => answer(pending),
                HandlerEvent::Written(Err(e)) => end(Err(e)),
                _ => end(Ok(())),
            },
            HandlerState::Finished => end(Ok(())),
        };
        self.state = next;
        action
    }
}

// ---------------------------------------------------------------------------
// Laws of serving
// ---------------------------------------------------------------------------

/// Whether `states` is what a handler goes through on `events`, with `actions`
/// in between.
pub open spec fn runs(
    states: Seq<HandlerState>,
    events: Seq<HandlerEvent>,
    actions: Seq<HandlerAction>,
) -> bool {
    &&& states.len() == events.len() + 1
    &&& actions.len() == events.len()
    &&& forall|i: int|
        0 <= i < events.len() ==> #[trigger] moves(states[i], events[i], states[i + 1], actions[i])
}

/// Every response is written, in the order in which the apply thread gave
/// them, before the shutdown flag is looked at and the next frame is read, as
/// long as writing works.
pub proof fn law_responses_are_written_in_order(
    states: Seq<HandlerState>,
    events: Seq<HandlerEvent>,
    actions: Seq<HandlerAction>,
    responses: Vec<GlueResponse>,
)
    requires
        runs(states, events, actions),
        states[0] is Awaiting,
        events.len() == responses@.len() + 1,
        events[0] == HandlerEvent::Replied(Some(responses)),
        forall|i: int|
            1 <= i < events.len() ==> #[trigger] events[i] == HandlerEvent::Written(Ok(())),
    ensures
        forall|i: int|
            0 <= i < responses@.len() ==> (#[trigger] actions[i] matches HandlerAction::Write(frame)
                && frame@ == responses@[i].frame()),
        actions[responses@.len() as int] is CheckShutdown,
{
    lemma_responses_so_far(states, events, actions, responses, responses@.len() as int);
}

/// The same, up to the response before `n`.
proof fn lemma_responses_so_far(
    states: Seq<HandlerState>,
    events: Seq<HandlerEvent>,
    actions: Seq<HandlerAction>,
    responses: Vec<GlueResponse>,
    n: int,
)
    requires
        runs(states, events, actions),
        states[0] is Awaiting,
        events.len() == responses@.len() + 1,
        events[0] == HandlerEvent::Replied(Some(responses)),
        forall|i: int|
            1 <= i < events.len() ==> #[trigger] events[i] == HandlerEvent::Written(Ok(())),
        0 <= n <= responses@.len(),
    ensures
        answers(responses@.skip(n), states[n + 1], actions[n]),
        forall|i: int|
            0 <= i < n ==> (#[trigger] actions[i] matches HandlerAction::Write(frame) && frame@
                == responses@[i].frame()),
    decreases n,
{
    if n == 0 {
        assert(moves(states[0], events[0], states[n + 1], actions[0]));
        assert(responses@.skip(0) =~= responses@);
    } else {
        lemma_responses_so_far(states, events, actions, responses, n - 1);
        assert(moves(states[n], events[n], states[n + 1], actions[n]));
        assert(responses@.skip(n - 1).skip(1) =~= responses@.skip(n));
    }
}

/// Requests are not pipelined: none is dispatched while another one is in
/// flight, and one stops being in flight only by its answer or with the
/// connection.
pub proof fn law_one_request_at_a_time(
    state: HandlerState,
    event: HandlerEvent,
    next: HandlerState,
    action: HandlerAction,
)
    requires
        moves(state, event, next, action),
    ensures
        action is Dispatch ==> !state.in_flight() && next.in_flight(),
        state.in_flight() && !next.in_flight() ==> event is Replied || next is Finished,
{
}

/// A shutdown is heeded only between requests: it ends a connection that waits
/// for a frame, never one that is being answered. Once it is heeded nothing is
/// read any more.
pub proof fn law_shutdown_waits_for_a_safe_state(
    state: HandlerState,
    event: HandlerEvent,
    next: HandlerState,
    action: HandlerAction,
)
    requires
        moves(state, event, next, action),
        event is ShutdownSignal || event == HandlerEvent::ShutdownFlag(true),
    ensures
        state is Checking || state is Reading,
        next is Finished,
        action == HandlerAction::Finish(Ok(())),
{
}

/// Serving ends with an error only where reading or writing failed, and then
/// with that error.
pub proof fn law_only_io_fails_a_connection(
    state: HandlerState,
    event: HandlerEvent,
    next: HandlerState,
    action: HandlerAction,
    e: Error,
)
    requires
        moves(state, event, next, action),
        action == HandlerAction::Finish(Err(e)),
    ensures
        event == HandlerEvent::FrameRead(Err(e)) || event == HandlerEvent::Written(Err(e)),
{
}

/// A frame that is read reaches the apply thread as the request that it stands
/// for: a push with a known format once its envelope has been scanned, and
/// everything else at once.
pub proof fn law_every_frame_becomes_a_request(
    frame: Frame,
    next: HandlerState,
    action: HandlerAction,
)
    requires
        moves(HandlerState::Reading, HandlerEvent::FrameRead(Ok(Some(frame))), next, action),
    ensures
        frame.op == 0x0010 && (frame.content_type == 1 || frame.content_type == 2) ==> (
        next matches HandlerState::Scanning(push) && bytes_of(push.payload) == bytes_of(
            frame.payload,
        ) && (push.format is Json <==> frame.content_type == 1) && action is ScanEnvelope),
        !(frame.op == 0x0010 && (frame.content_type == 1 || frame.content_type == 2)) ==> (
        action matches HandlerAction::Dispatch(request) && next is Dispatching
            && Conversion::Request(request).is_of(frame@)),
{
    match action {
        HandlerAction::Dispatch(request) => {
            law_what_each_opcode_asks_for(frame@, Conversion::Request(request));
        },
        _ => {
            if let HandlerState::Scanning(push) = next {
                law_what_each_opcode_asks_for(frame@, Conversion::Push(push));
            }
        },
    }
}

/// A scanned push reaches the apply thread as what the scanner found in it.
pub proof fn law_every_scanned_push_becomes_a_request(
    push: PushPayload,
    scan: Result<Envelope, String>,
    next: HandlerState,
    action: HandlerAction,
)
    requires
        moves(HandlerState::Scanning(push), HandlerEvent::Scanned(scan), next, action),
    ensures
        action matches HandlerAction::Dispatch(request) && next is Dispatching
            && push.resolves_to(scan, request),
{
}

/// A connection that is served goes round: it looks at the shutdown flag, waits
/// for a frame, hands the request over, waits for the responses, and begins
/// again when there is nothing left to write. A peer or an apply thread that is
/// gone ends it without an error, and a failure of the stream with that error.
pub proof fn law_a_connection_goes_round(
    state: HandlerState,
    event: HandlerEvent,
    next: HandlerState,
    action: HandlerAction,
    e: Error,
)
    requires
        moves(state, event, next, action),
    ensures
        event == HandlerEvent::ShutdownFlag(false) ==> action is AwaitFrame && next is Reading,
        event == HandlerEvent::Dispatched(true) ==> action is AwaitReply && next is Awaiting,
        event == HandlerEvent::FrameRead(Ok(None)) || event == HandlerEvent::Dispatched(false)
            || event == HandlerEvent::Replied(None) ==> action == HandlerAction::Finish(Ok(()))
            && next is Finished,
        event == HandlerEvent::FrameRead(Err(e)) || event == HandlerEvent::Written(Err(e))
            ==> action == HandlerAction::Finish(Err(e)) && next is Finished,
        event matches HandlerEvent::Replied(Some(responses)) ==> responses@.len() == 0
            ==> action is CheckShutdown && next is Checking,
        action is Finish <==> next is Finished,
        action is CheckShutdown ==> event is Replied || event is Written,
{
}

/// Each wait is twice the one before, without the bit that 64 bits do not hold.
pub proof fn law_each_wait_is_twice_the_one_before(ms: u64)
    ensures
        ms < 0x8000_0000_0000_0000 ==> doubled(ms) == 2 * ms,
        ms >= 0x8000_0000_0000_0000 ==> doubled(ms) == 2 * ms - 0x1_0000_0000_0000_0000,
{
}

/// Whatever comes of what a handler asks for can be told it, and nothing can
/// once serving is over. A scanner may find any part of the payload.
pub proof fn law_a_handler_can_be_told_what_it_asked_for(
    state: HandlerState,
    event: HandlerEvent,
    next: HandlerState,
    action: HandlerAction,
)
    requires
        moves(state, event, next, action),
    ensures
        action is CheckShutdown ==> forall|flag: bool| #[trigger]
            next.accepts(HandlerEvent::ShutdownFlag(flag)),
        action is AwaitFrame ==> next.accepts(HandlerEvent::ShutdownSignal),
        action is AwaitFrame ==> forall|frame: Result<Option<Frame>, Error>| #[trigger]
            next.accepts(HandlerEvent::FrameRead(frame)),
        action is ScanEnvelope ==> (next matches HandlerState::Scanning(push) && forall|
            scan: Result<Envelope, String>,
        |
            (scan matches Ok(envelope) ==> envelope.body_start <= envelope.body_end <= bytes_of(
                push.payload,
            ).len()) ==> #[trigger] next.accepts(HandlerEvent::Scanned(scan))),
        action is Dispatch ==> forall|taken: bool| #[trigger]
            next.accepts(HandlerEvent::Dispatched(taken)),
        action is AwaitReply ==> forall|responses: Option<Vec<GlueResponse>>| #[trigger]
            next.accepts(HandlerEvent::Replied(responses)),
        action is Write ==> forall|written: Result<(), Error>| #[trigger]
            next.accepts(HandlerEvent::Written(written)),
        action is Finish ==> forall|any: HandlerEvent| !#[trigger] next.accepts(any),
{
}

} // verus!
