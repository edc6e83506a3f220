//! The loop of an I/O worker thread.
//!
//! A round takes the new clients, queues the responses, polls, serves what the
//! poll reports, and closes what is to be closed. [`Worker`] holds the clients
//! and decides; it asks for one thing at a time and is told what came of it.

use crate::buffer::{content, MAX_BUFFER_BYTES};
use crate::io_thread_worker::{flush_next, law_a_pass_takes_one_frame_at_a_time,
    law_what_a_pass_does_to_its_client, pass_moves, pass_parses, ClientView,
    FlushStep, ParsePass, PassAction, PassEvent, PassState, ReadOutcome, WorkerClient, WorkerProto};
use bytes::BytesMut;
use std::collections::hash_map::Entry;
use std::collections::{HashMap, VecDeque};
use vstd::prelude::*;

verus! {

broadcast use vstd::std_specs::hash::group_hash_axioms;

/// What a poll reports.
#[derive(Debug, Clone, Copy, PartialEq, Eq, Structural)]
pub enum IoEvent {
    /// The client in the slot has sent something.
    Readable(u64),
    /// The socket of the client in the slot takes bytes.
    Writable(u64),
    /// The client in the slot has gone away.
    Closed(u64),
    /// The worker was woken up.
    WakerSentinel,
}

/// The slots of the clients that are to be closed.
fn closed_slots(clients: &HashMap<u64, WorkerClient>) -> (r: VecDeque<u64>)
    ensures
        r@.no_duplicates(),
        forall|slot: u64| #[trigger]
            r@.contains(slot) <==> clients@.dom().contains(slot) && clients@[slot]@.closed,
{
    let mut r: VecDeque<u64> = VecDeque::new();
    for entry in it: clients.iter()
        invariant
            it.seq().no_duplicates(),
            forall|i: int|
                0 <= i < it.seq().len() ==> clients@.contains_key(*(#[trigger] it.seq()[i]).0)
                    && clients@[*it.seq()[i].0] == *it.seq()[i].1,
            r@.no_duplicates(),
            forall|j: int|
                0 <= j < r@.len() ==> clients@.contains_key(#[trigger] r@[j])
                    && clients@[r@[j]]@.closed,
            forall|i: int, j: int|
                it.index() <= i < it.seq().len() && 0 <= j < r@.len() ==> *(
                #[trigger] it.seq()[i]).0 != #[trigger] r@[j],
            forall|i: int|
                0 <= i < it.index() && (#[trigger] it.seq()[i]).1@.closed ==> r@.contains(
                    *it.seq()[i].0,
                ),
    {
        let (slot, client) = entry;
        let ghost before = r@;
        let ghost n = it.index() as int;
        if client.is_closed() {
            r.push_back(*slot);
            proof {
                assert forall|x: u64| before.contains(x) implies #[trigger] r@.contains(x) by {
                    let j = choose|j: int| 0 <= j < before.len() && before[j] == x;
                    assert(r@[j] == x);
                }
                assert(r@[before.len() as int] == *slot);
                assert forall|i: int| n < i < it.seq().len() implies *(
                #[trigger] it.seq()[i]).0 != *slot by {
                    if *it.seq()[i].0 == *slot {
                        assert(it.seq()[i] == it.seq()[n]);
                    }
                }
            }
        }
    }
    proof {
        assert forall|slot: u64| clients@.dom().contains(slot)
            && clients@[slot]@.closed implies #[trigger] r@.contains(slot) by {
            assert(clients@.contains_key(slot));
        }
    }
    r
}

/// The client in a slot.
fn client_in(clients: &mut HashMap<u64, WorkerClient>, slot: u64) -> (r: Option<&mut WorkerClient>)
    ensures
        match r {
            Some(client) => {
                &&& old(clients)@.contains_key(slot)
                &&& *client == old(clients)@[slot]
                &&& final(clients)@ == old(clients)@.insert(slot, *final(client))
            },
            None => !old(clients)@.contains_key(slot) && final(clients)@ == old(clients)@,
        },
{
    match clients.entry(slot) {
        Entry::Occupied(entry) => Some(entry.into_mut()),
        Entry::Vacant(_) => None,
    }
}

/// Where the loop of a worker stands.
pub enum LoopState {
    /// New clients are taken from their channel.
    TakingClients,
    /// A new client is being registered with the backend.
    Adding { slot: u64, proto: WorkerProto },
    /// Responses are taken from their channel.
    TakingJobs,
    /// A response is being encoded.
    Encoding { slot: u64 },
    /// The socket of the client is to be waited for.
    Arming { slot: u64 },
    /// The backend is being polled.
    Polling,
    /// A client is being read from.
    Reading { slot: u64 },
    /// What a client sent is being parsed.
    Parsing { slot: u64, pass: ParsePass },
    /// What is queued for a client is being written, before the connection is
    /// closed where `closing` says so.
    Flushing { slot: u64, closing: bool },
    /// All that was queued for a client has been written.
    Disarming { slot: u64, closing: bool },
    /// The apply thread is being woken up.
    Waking,
    /// A connection is being closed: one that the poll reported or, once those
    /// are done, one that the worker marked.
    Closing { marked: bool },
    /// The stop flag is to be looked at.
    CheckingStop,
    /// The loop is over.
    Stopped,
}

/// What has happened.
pub enum LoopEvent<R> {
    /// The next new client, where there is one.
    ClientTaken(Option<(u64, WorkerProto)>),
    /// Whether the backend took the client.
    ClientAdded(bool),
    /// The slot of the next response, where there is one.
    JobTaken(Option<u64>),
    /// The response is encoded.
    Encoded,
    /// What the poll reported, or nothing where it failed.
    Polled(Option<VecDeque<IoEvent>>),
    /// What was read, or nothing where reading failed.
    Read(Option<Vec<u8>>),
    /// What has happened during the parsing.
    Pass(PassEvent<R>),
    /// How many bytes the socket took, or nothing where it failed.
    Wrote(Option<usize>),
    /// What was asked for is done.
    Done,
    /// Whether the worker is to stop.
    Stop(bool),
}

/// What is to be done next.
pub enum LoopAction<R> {
    /// Take the next new client from its channel, if there is one.
    TakeClient,
    /// Register the client with the backend.
    AddClient,
    /// Take the next response from its channel, if there is one.
    TakeJob,
    /// Encode the response for a client with this protocol into what
    /// [`Worker::write_buf`] gives.
    Encode { slot: u64, proto: WorkerProto },
    /// Wait for the socket of the client in the slot to be writable.
    Arm(u64),
    /// Poll the backend.
    Poll,
    /// Read from the client in the slot.
    Read(u64),
    /// Do what the parsing of what the client in the slot sent asks for.
    Pass { slot: u64, action: PassAction<R> },
    /// Write what [`WorkerClient::unwritten`] gives to the client in the slot,
    /// which [`Worker::client`] gives.
    Write(u64),
    /// Stop waiting for the socket of the client in the slot to be writable.
    Disarm(u64),
    /// Wake the apply thread up.
    WakeApply,
    /// Close the connection in the slot.
    Close(u64),
    /// Look at the stop flag.
    CheckStop,
    /// Leave the loop.
    Stop,
}

/// What a [`Worker`] says.
#[verifier::ext_equal]
pub struct LoopView {
    /// The clients, by slot.
    pub clients: Map<u64, ClientView>,
    /// The largest frame a client may send.
    pub limit: u32,
    /// What the poll reported and has not been served.
    pub events: Seq<IoEvent>,
    /// The slots that the poll reported closed.
    pub to_close: Seq<u64>,
    /// The slots of the marked clients that have not been closed.
    pub leaving: Seq<u64>,
    /// Whether something was pushed to the apply thread in this round.
    pub sent_to_apply: bool,
    /// Where the loop stands.
    pub state: LoopState,
}

/// A client that has sent and is owed nothing.
pub open spec fn fresh(proto: WorkerProto) -> ClientView {
    ClientView { unparsed: Seq::empty(), unwritten: Seq::empty(), proto, closed: false }
}

impl LoopView {
    /// The same worker with another client in the slot.
    pub open spec fn with(self, slot: u64, client: ClientView) -> LoopView {
        LoopView { clients: self.clients.insert(slot, client), ..self }
    }

    /// The same worker in another state.
    pub open spec fn at(self, state: LoopState) -> LoopView {
        LoopView { state, ..self }
    }

    /// Whether the slot has a client that is to be closed.
    pub open spec fn marked(self, slot: u64) -> bool {
        self.clients.contains_key(slot) && self.clients[slot].closed
    }

    /// Whether `event` can happen.
    pub open spec fn accepts<R>(self, event: LoopEvent<R>) -> bool {
        match self.state {
            LoopState::TakingClients => event is ClientTaken,
            LoopState::Adding { .. } => event is ClientAdded,
            LoopState::TakingJobs => event is JobTaken,
            LoopState::Encoding { .. } => event is Encoded,
            LoopState::Arming { .. } => event is Done,
            LoopState::Polling => event is Polled,
            LoopState::Reading { slot } => event matches LoopEvent::Read(read) && (
            read matches Some(bytes) ==> self.clients[slot].unparsed.len() + bytes@.len()
                <= MAX_BUFFER_BYTES),
            LoopState::Parsing { slot, pass } => event matches LoopEvent::Pass(step)
                && pass.state().accepts(step, self.clients[slot], pass.sent()),
            LoopState::Flushing { slot, .. } => event matches LoopEvent::Wrote(taken) && (
            taken matches Some(n) ==> n <= self.clients[slot].unwritten.len()),
            LoopState::Disarming { .. } => event is Done,
            LoopState::Waking => event is Done,
            LoopState::Closing { .. } => event is Done,
            LoopState::CheckingStop => event is Stop,
            LoopState::Stopped => false,
        }
    }

    /// What holds of every worker: a client that is being served is there, one
    /// whose queue is reported empty has an empty queue, and while marked
    /// clients are being closed those that are left are listed once each.
    pub open spec fn wf(self) -> bool {
        match self.state {
            LoopState::Encoding { slot } => self.clients.contains_key(slot),
            LoopState::Reading { slot } => self.clients.contains_key(slot),
            LoopState::Parsing { slot, pass } => self.clients.contains_key(slot) && pass.slot()
                == slot && !(pass.state() is Done),
            LoopState::Flushing { slot, closing } => {
                &&& self.clients.contains_key(slot)
                &&& closing ==> self.lists_marked_but(Some(slot))
            },
            LoopState::Disarming { slot, closing } => {
                &&& self.clients.contains_key(slot)
                &&& self.clients[slot].unwritten.len() == 0
                &&& closing ==> self.lists_marked_but(Some(slot))
            },
            LoopState::Closing { marked } => marked ==> self.lists_marked_but(None),
            _ => true,
        }
    }

    /// Whether the list of marked clients is complete, but for one.
    pub open spec fn lists_marked_but(self, one: Option<u64>) -> bool {
        forall|slot: u64| #[trigger]
            self.marked(slot) ==> self.leaving.contains(slot) || one == Some(slot)
    }
}

/// Whether the next marked client is served like this: what is queued for it is
/// written first, and then it is closed. When none is left the round is over.
pub open spec fn leave_next<R>(w: LoopView, next: LoopView, action: LoopAction<R>) -> bool {
    if w.leaving.len() == 0 {
        next == w.at(LoopState::CheckingStop) && action == LoopAction::<R>::CheckStop
    } else {
        let slot = w.leaving[0];
        let rest = LoopView { leaving: w.leaving.skip(1), ..w };
        if w.clients.contains_key(slot) && w.clients[slot].unwritten.len() > 0 {
            &&& next == rest.at(LoopState::Flushing { slot, closing: true })
            &&& action == LoopAction::<R>::Write(slot)
        } else {
            close(rest, slot, true, next, action)
        }
    }
}

/// Whether the client in the slot is forgotten and its connection closed.
pub open spec fn close<R>(
    w: LoopView,
    slot: u64,
    marked: bool,
    next: LoopView,
    action: LoopAction<R>,
) -> bool {
    &&& next == (LoopView {
        clients: w.clients.remove(slot),
        state: LoopState::Closing { marked },
        ..w
    })
    &&& action == LoopAction::<R>::Close(slot)
}

/// Whether `slots` lists the clients that are to be closed, once each.
pub open spec fn lists_marked(w: LoopView, slots: Seq<u64>) -> bool {
    &&& slots.no_duplicates()
    &&& forall|slot: u64| #[trigger] slots.contains(slot) <==> w.marked(slot)
}

/// Whether the closing goes on like this: first what the poll reported, in
/// that order, and then what the worker marked, in any order.
pub open spec fn close_next<R>(w: LoopView, next: LoopView, action: LoopAction<R>) -> bool {
    if w.to_close.len() > 0 {
        close(
            LoopView { to_close: w.to_close.skip(1), ..w },
            w.to_close[0],
            false,
            next,
            action,
        )
    } else {
        exists|slots: Seq<u64>| #[trigger]
            lists_marked(w, slots) && leave_next(LoopView { leaving: slots, ..w }, next, action)
    }
}

/// Whether the next thing that the poll reported is served like this. A client
/// that is not there or is to be closed is not read from. Once all is served
/// the apply thread is woken up, if something was pushed to it, and the
/// closing begins.
pub open spec fn serve_next<R>(w: LoopView, next: LoopView, action: LoopAction<R>) -> bool
    decreases w.events.len(),
{
    if w.events.len() == 0 {
        if w.sent_to_apply {
            next == w.at(LoopState::Waking) && action == LoopAction::<R>::WakeApply
        } else {
            close_next(w, next, action)
        }
    } else {
        let rest = LoopView { events: w.events.skip(1), ..w };
        match w.events[0] {
            IoEvent::Readable(slot) => {
                if w.clients.contains_key(slot) && !w.clients[slot].closed {
                    &&& next == rest.at(LoopState::Reading { slot })
                    &&& action == LoopAction::<R>::Read(slot)
                } else {
                    serve_next(rest, next, action)
                }
            },
            IoEvent::Writable(slot) => {
                if w.clients.contains_key(slot) {
                    flush_goes_on(
                        rest,
                        slot,
                        false,
                        flush_next(w.clients[slot].unwritten),
                        next,
                        action,
                    )
                } else {
                    serve_next(rest, next, action)
                }
            },
            IoEvent::Closed(slot) => serve_next(
                LoopView { to_close: w.to_close.push(slot), ..rest },
                next,
                action,
            ),
            IoEvent::WakerSentinel => serve_next(rest, next, action),
        }
    }
}

/// Whether the flushing of a queue goes on like this, where it is not over.
pub open spec fn flush_goes_on<R>(
    w: LoopView,
    slot: u64,
    closing: bool,
    step: FlushStep,
    next: LoopView,
    action: LoopAction<R>,
) -> bool {
    match step {
        FlushStep::Write => {
            &&& next == w.at(LoopState::Flushing { slot, closing })
            &&& action == LoopAction::<R>::Write(slot)
        },
        FlushStep::Disarm => {
            &&& next == w.at(LoopState::Disarming { slot, closing })
            &&& action == LoopAction::<R>::Disarm(slot)
        },
        FlushStep::Stop => false,
    }
}

/// Whether the loop goes on like this when a queue has been flushed.
pub open spec fn flush_over<R>(
    w: LoopView,
    slot: u64,
    closing: bool,
    next: LoopView,
    action: LoopAction<R>,
) -> bool {
    if closing {
        close(w, slot, true, next, action)
    } else {
        serve_next(w, next, action)
    }
}

/// Whether the loop goes on like this when parsing has asked for something and
/// left the pass at `state` with `sent` items pushed.
pub open spec fn pass_goes_on<R>(
    w: LoopView,
    slot: u64,
    state: PassState,
    sent: usize,
    client: ClientView,
    asked: PassAction<R>,
    next: LoopView,
    action: LoopAction<R>,
) -> bool {
    let rest = w.with(slot, client);
    if asked is Done {
        serve_next(
            LoopView { sent_to_apply: w.sent_to_apply || sent > 0, ..rest },
            next,
            action,
        )
    } else {
        &&& next.state matches LoopState::Parsing { slot: in_slot, pass }
        &&& in_slot == slot
        &&& pass.slot() == slot
        &&& pass.state() == state
        &&& pass.sent() == sent
        &&& next == rest.at(next.state)
        &&& action == LoopAction::Pass { slot, action: asked }
    }
}

/// Whether the loop goes on like this when something has happened during the
/// parsing of what the client in the slot sent.
pub open spec fn pass_event_goes_on<R>(
    w: LoopView,
    slot: u64,
    pass: ParsePass,
    event: PassEvent<R>,
    next: LoopView,
    action: LoopAction<R>,
) -> bool {
    exists|state: PassState, sent: usize, after: ClientView, asked: PassAction<R>| #[trigger]
        pass_moves(
            slot,
            w.limit,
            pass.state(),
            pass.sent(),
            w.clients[slot],
            event,
            state,
            sent,
            after,
            asked,
        ) && pass_goes_on(w, slot, state, sent, after, asked, next, action)
}

/// Whether `event` takes a worker from `w` to `next` and asks for `action`.
pub open spec fn loop_moves<R>(
    w: LoopView,
    event: LoopEvent<R>,
    next: LoopView,
    action: LoopAction<R>,
) -> bool {
    match (w.state, event) {
        (LoopState::TakingClients, LoopEvent::ClientTaken(None)) => {
            next == w.at(LoopState::TakingJobs) && action == LoopAction::<R>::TakeJob
        },
        (LoopState::TakingClients, LoopEvent::ClientTaken(Some((slot, proto)))) => {
            next == w.at(LoopState::Adding { slot, proto }) && action == LoopAction::<R>::AddClient
        },
        (LoopState::Adding { slot, proto }, LoopEvent::ClientAdded(added)) => {
            &&& action == LoopAction::<R>::TakeClient
            &&& next == (if added {
                w.with(slot, fresh(proto))
            } else {
                w
            }).at(LoopState::TakingClients)
        },
        (LoopState::TakingJobs, LoopEvent::JobTaken(None)) => {
            next == w.at(LoopState::Polling) && action == LoopAction::<R>::Poll
        },
        (LoopState::TakingJobs, LoopEvent::JobTaken(Some(slot))) => {
            if w.clients.contains_key(slot) {
                &&& next == w.at(LoopState::Encoding { slot })
                &&& action == LoopAction::<R>::Encode { slot, proto: w.clients[slot].proto }
            } else {
                next == w && action == LoopAction::<R>::TakeJob
            }
        },
        (LoopState::Encoding { slot }, LoopEvent::Encoded) => {
            next == w.at(LoopState::Arming { slot }) && action == LoopAction::<R>::Arm(slot)
        },
        (LoopState::Arming { .. }, LoopEvent::Done) => {
            next == w.at(LoopState::TakingJobs) && action == LoopAction::<R>::TakeJob
        },
        (LoopState::Polling, LoopEvent::Polled(None)) => {
            next == w.at(LoopState::CheckingStop) && action == LoopAction::<R>::CheckStop
        },
        (LoopState::Polling, LoopEvent::Polled(Some(events))) => serve_next(
            LoopView {
                events: events@,
                to_close: Seq::empty(),
                leaving: Seq::empty(),
                sent_to_apply: false,
                ..w
            },
            next,
            action,
        ),
        (LoopState::Reading { slot }, LoopEvent::Read(read)) => {
            let client = w.clients[slot];
            match read {
                Some(bytes) if bytes@.len() > 0 => {
                    let more = ClientView { unparsed: client.unparsed + bytes@, ..client };
                    exists|state: PassState, after: ClientView, asked: PassAction<R>| #[trigger]
                        pass_parses(slot, more, w.limit, state, after, asked) && pass_goes_on(
                            w,
                            slot,
                            state,
                            0,
                            after,
                            asked,
                            next,
                            action,
                        )
                },
                _ => serve_next(w.with(slot, ClientView { closed: true, ..client }), next, action),
            }
        },
        (LoopState::Parsing { slot, pass }, LoopEvent::Pass(step)) => pass_event_goes_on(
            w,
            slot,
            pass,
            step,
            next,
            action,
        ),
        (LoopState::Flushing { slot, closing }, LoopEvent::Wrote(Some(n))) => {
            let client = w.clients[slot];
            let left = client.unwritten.skip(n as int);
            let after = w.with(slot, ClientView { unwritten: left, ..client });
            if n == 0 && left.len() > 0 {
                flush_over(after, slot, closing, next, action)
            } else {
                flush_goes_on(after, slot, closing, flush_next(left), next, action)
            }
        },
        (LoopState::Flushing { slot, closing }, LoopEvent::Wrote(None)) => flush_over(
            w.with(slot, ClientView { closed: true, ..w.clients[slot] }),
            slot,
            closing,
            next,
            action,
        ),
        (LoopState::Disarming { slot, closing }, LoopEvent::Done) => flush_over(
            w,
            slot,
            closing,
            next,
            action,
        ),
        (LoopState::Waking, LoopEvent::Done) => close_next(w, next, action),
        (LoopState::Closing { marked: false }, LoopEvent::Done) => close_next(w, next, action),
        (LoopState::Closing { marked: true }, LoopEvent::Done) => leave_next(w, next, action),
        (LoopState::CheckingStop, LoopEvent::Stop(true)) => {
            next == w.at(LoopState::Stopped) && action == LoopAction::<R>::Stop
        },
        (LoopState::CheckingStop, LoopEvent::Stop(false)) => {
            next == w.at(LoopState::TakingClients) && action == LoopAction::<R>::TakeClient
        },
        _ => false,
    }
}

/// The views of the clients.
spec fn views(clients: Map<u64, WorkerClient>) -> Map<u64, ClientView> {
    Map::new(|slot: u64| clients.contains_key(slot), |slot: u64| clients[slot]@)
}

/// The state in which the loop is left does not matter for what is served next.
proof fn lemma_leaving_ignores_state<R>(
    w: LoopView,
    state: LoopState,
    next: LoopView,
    action: LoopAction<R>,
)
    ensures
        leave_next(w.at(state), next, action) == leave_next(w, next, action),
        close_next(w.at(state), next, action) == close_next(w, next, action),
{
    if w.to_close.len() == 0 {
        assert forall|slots: Seq<u64>| #[trigger] lists_marked(w, slots) == lists_marked(
            w.at(state),
            slots,
        ) by {
            assert(forall|slot: u64| #[trigger] w.marked(slot) == w.at(state).marked(slot));
        }
        assert forall|slots: Seq<u64>|
            leave_next(LoopView { leaving: slots, ..w }, next, action) == leave_next(
                LoopView { leaving: slots, ..w.at(state) },
                next,
                action,
            ) by {}
        if close_next(w, next, action) {
            let slots = choose|slots: Seq<u64>| #[trigger]
                lists_marked(w, slots) && leave_next(
                    LoopView { leaving: slots, ..w },
                    next,
                    action,
                );
            assert(lists_marked(w.at(state), slots));
        }
        if close_next(w.at(state), next, action) {
            let slots = choose|slots: Seq<u64>| #[trigger]
                lists_marked(w.at(state), slots) && leave_next(
                    LoopView { leaving: slots, ..w.at(state) },
                    next,
                    action,
                );
            assert(lists_marked(w, slots));
        }
    }
}

proof fn lemma_serving_ignores_state<R>(
    w: LoopView,
    state: LoopState,
    next: LoopView,
    action: LoopAction<R>,
)
    ensures
        serve_next(w.at(state), next, action) == serve_next(w, next, action),
    decreases w.events.len(),
{
    if w.events.len() == 0 {
        lemma_leaving_ignores_state(w, state, next, action);
    } else {
        let rest = LoopView { events: w.events.skip(1), ..w };
        lemma_serving_ignores_state(rest, state, next, action);
        if let IoEvent::Closed(slot) = w.events[0] {
            lemma_serving_ignores_state(
                LoopView { to_close: w.to_close.push(slot), ..rest },
                state,
                next,
                action,
            );
        }
    }
}

/// What happens keeps a worker well-formed.
proof fn lemma_leaving_keeps_wf<R>(w: LoopView, next: LoopView, action: LoopAction<R>)
    requires
        leave_next(w, next, action),
        w.lists_marked_but(None),
    ensures
        next.wf(),
{
    if w.leaving.len() > 0 {
        assert forall|slot: u64| next.marked(slot) implies next.leaving.contains(slot) || w.leaving[0]
            == slot by {
            assert(w.marked(slot));
            let i = w.leaving.index_of(slot);
            if i > 0 {
                assert(next.leaving[i - 1] == slot);
            }
        }
        let slot = w.leaving[0];
        if !(next.state is Flushing) {
            assert(!next.marked(slot));
        }
    }
}

proof fn lemma_closing_keeps_wf<R>(w: LoopView, next: LoopView, action: LoopAction<R>)
    requires
        close_next(w, next, action),
    ensures
        next.wf(),
{
    if w.to_close.len() == 0 {
        let slots = choose|slots: Seq<u64>| #[trigger]
            lists_marked(w, slots) && leave_next(LoopView { leaving: slots, ..w }, next, action);
        let listed = LoopView { leaving: slots, ..w };
        assert forall|slot: u64| #[trigger] listed.marked(slot) implies listed.leaving.contains(
            slot,
        ) by {
            assert(w.marked(slot));
        }
        lemma_leaving_keeps_wf(listed, next, action);
    }
}

proof fn lemma_serving_keeps_wf<R>(w: LoopView, next: LoopView, action: LoopAction<R>)
    requires
        serve_next(w, next, action),
    ensures
        next.wf(),
    decreases w.events.len(),
{
    if w.events.len() == 0 {
        if !w.sent_to_apply {
            lemma_closing_keeps_wf(w, next, action);
        }
    } else {
        let rest = LoopView { events: w.events.skip(1), ..w };
        match w.events[0] {
            IoEvent::Closed(slot) => {
                lemma_serving_keeps_wf(
                    LoopView { to_close: w.to_close.push(slot), ..rest },
                    next,
                    action,
                );
            },
            _ => {
                if serve_next(rest, next, action) {
                    lemma_serving_keeps_wf(rest, next, action);
                }
            },
        }
    }
}

proof fn lemma_flushing_keeps_wf<R>(
    w: LoopView,
    slot: u64,
    closing: bool,
    next: LoopView,
    action: LoopAction<R>,
)
    requires
        flush_over(w, slot, closing, next, action),
        closing ==> w.lists_marked_but(Some(slot)),
    ensures
        next.wf(),
{
    if closing {
        assert forall|other: u64| next.marked(other) implies next.leaving.contains(other) by {
            assert(w.marked(other));
        }
    } else {
        lemma_serving_keeps_wf(w, next, action);
    }
}

/// Whatever happens, a worker stays well-formed: it never serves a client that
/// it has forgotten, and a marked client that has not been closed is on the
/// list of those to close.
pub proof fn law_worker_stays_well_formed<R>(
    w: LoopView,
    event: LoopEvent<R>,
    next: LoopView,
    action: LoopAction<R>,
)
    requires
        w.wf(),
        w.accepts(event),
        loop_moves(w, event, next, action),
    ensures
        next.wf(),
{
    match (w.state, event) {
        (LoopState::Polling, LoopEvent::Polled(Some(events))) => {
            lemma_serving_keeps_wf(
                LoopView {
                    events: events@,
                    to_close: Seq::empty(),
                    leaving: Seq::empty(),
                    sent_to_apply: false,
                    ..w
                },
                next,
                action,
            );
        },
        (LoopState::Reading { slot }, LoopEvent::Read(read)) => {
            let client = w.clients[slot];
            match read {
                Some(bytes) if bytes@.len() > 0 => {
                    let more = ClientView { unparsed: client.unparsed + bytes@, ..client };
                    let (state, after, asked) = choose|
                        state: PassState,
                        after: ClientView,
                        asked: PassAction<R>,
                    | #[trigger]
                        pass_parses(slot, more, w.limit, state, after, asked) && pass_goes_on(
                            w,
                            slot,
                            state,
                            0,
                            after,
                            asked,
                            next,
                            action,
                        );
                    if asked is Done {
                        lemma_serving_keeps_wf(w.with(slot, after), next, action);
                    }
                },
                _ => {
                    lemma_serving_keeps_wf(
                        w.with(slot, ClientView { closed: true, ..client }),
                        next,
                        action,
                    );
                },
            }
        },
        (LoopState::Parsing { slot, pass }, LoopEvent::Pass(step)) => {
            let (state, sent, after, asked) = choose|
                state: PassState,
                sent: usize,
                after: ClientView,
                asked: PassAction<R>,
            | #[trigger]
                pass_moves(
                    slot,
                    w.limit,
                    pass.state(),
                    pass.sent(),
                    w.clients[slot],
                    step,
                    state,
                    sent,
                    after,
                    asked,
                ) && pass_goes_on(w, slot, state, sent, after, asked, next, action);
            if asked is Done {
                lemma_serving_keeps_wf(
                    LoopView {
                        sent_to_apply: w.sent_to_apply || sent > 0,
                        ..w.with(slot, after)
                    },
                    next,
                    action,
                );
            }
        },
        (LoopState::Flushing { slot, closing }, LoopEvent::Wrote(taken)) => {
            let client = w.clients[slot];
            let after = match taken {
                Some(n) => w.with(
                    slot,
                    ClientView { unwritten: client.unwritten.skip(n as int), ..client },
                ),
                None => w.with(slot, ClientView { closed: true, ..client }),
            };
            if closing {
                assert forall|other: u64| #[trigger] after.marked(other) implies after.leaving.contains(
                    other,
                ) || other == slot by {
                    if other != slot {
                        assert(w.marked(other));
                    }
                }
            }
            if flush_over(after, slot, closing, next, action) {
                lemma_flushing_keeps_wf(after, slot, closing, next, action);
            } else {
                assert(forall|other: u64| #[trigger] next.marked(other) ==> after.marked(other));
            }
        },
        (LoopState::Disarming { slot, closing }, LoopEvent::Done) => {
            lemma_flushing_keeps_wf(w, slot, closing, next, action);
        },
        (LoopState::Waking, LoopEvent::Done) => {
            lemma_closing_keeps_wf(w, next, action);
        },
        (LoopState::Closing { marked: false }, LoopEvent::Done) => {
            lemma_closing_keeps_wf(w, next, action);
        },
        (LoopState::Closing { marked: true }, LoopEvent::Done) => {
            lemma_leaving_keeps_wf(w, next, action);
        },
        _ => {},
    }
}

/// The loop of a worker.
pub struct Worker {
    clients: HashMap<u64, WorkerClient>,
    limit: u32,
    events: VecDeque<IoEvent>,
    to_close: VecDeque<u64>,
    leaving: VecDeque<u64>,
    sent_to_apply: bool,
    state: LoopState,
}

impl View for Worker {
    type V = LoopView;

    closed spec fn view(&self) -> LoopView {
        LoopView {
            clients: views(self.clients@),
            limit: self.limit,
            events: self.events@,
            to_close: self.to_close@,
            leaving: self.leaving@,
            sent_to_apply: self.sent_to_apply,
            state: self.state,
        }
    }
}

impl Worker {
    /// Starts without clients; the first thing to do is to take new ones.
    pub fn new(tcp_max_frame_bytes: u32) -> (r: Worker)
        ensures
            r@ == (LoopView {
                clients: Map::empty(),
                limit: tcp_max_frame_bytes,
                events: Seq::empty(),
                to_close: Seq::empty(),
                leaving: Seq::empty(),
                sent_to_apply: false,
                state: LoopState::TakingClients,
            }),
            r@.wf(),
    {
        let r = Worker {
            clients: HashMap::new(),
            limit: tcp_max_frame_bytes,
            events: VecDeque::new(),
            to_close: VecDeque::new(),
            leaving: VecDeque::new(),
            sent_to_apply: false,
            state: LoopState::TakingClients,
        };
        assert(views(r.clients@) =~= Map::empty());
        r
    }

    /// The client in a slot.
    pub fn client(&self, slot: u64) -> (r: Option<&WorkerClient>)
        ensures
            match r {
                Some(client) => self@.clients.contains_key(slot) && client@ == self@.clients[slot],
                None => !self@.clients.contains_key(slot),
            },
    {
        self.clients.get(&slot)
    }

    /// The queue of the client whose response is being encoded, for the encoder
    /// to add its response to. Nothing else changes.
    pub fn write_buf(&mut self) -> (r: Option<&mut BytesMut>)
        requires
            old(self)@.wf(),
        ensures
            match (old(self)@.state, r) {
                (LoopState::Encoding { slot }, Some(queue)) => {
                    let client = old(self)@.clients[slot];
                    &&& content(*queue) == client.unwritten
                    &&& final(self)@ =~= old(self)@.with(
                        slot,
                        ClientView { unwritten: content(*final(queue)), ..client },
                    )
                },
                (LoopState::Encoding { .. }, None) => false,
                (_, r) => r is None && final(self)@ == old(self)@,
            },
            final(self)@.wf(),
    {
        let slot = match &self.state {
            LoopState::Encoding { slot } => *slot,
            _ => return None,
        };
        match client_in(&mut self.clients, slot) {
            Some(client) => Some(client.write_buf()),
            None => None,
        }
    }

    /// The parsing that is going on.
    pub fn pass(&self) -> (r: Option<&ParsePass>)
        ensures
            match self@.state {
                LoopState::Parsing { pass, .. } => r == Some(&pass),
                _ => r is None,
            },
    {
        match &self.state {
            LoopState::Parsing { pass, .. } => Some(pass),
            _ => None,
        }
    }

    /// Forgets the client in the slot and asks for its connection to be closed.
    fn close<R>(&mut self, slot: u64, marked: bool) -> (action: LoopAction<R>)
        ensures
            close(old(self)@, slot, marked, final(self)@, action),
    {
        self.clients.remove(&slot);
        self.state = LoopState::Closing { marked };
        assert(self@.clients =~= old(self)@.clients.remove(slot));
        LoopAction::Close(slot)
    }

    /// Serves the next marked client.
    fn leave_next<R>(&mut self) -> (action: LoopAction<R>)
        ensures
            leave_next(old(self)@, final(self)@, action),
    {
        match self.leaving.pop_front() {
            None => {
                self.state = LoopState::CheckingStop;
                LoopAction::CheckStop
            },
            Some(slot) => {
                assert(self.leaving@ =~= old(self).leaving@.skip(1));
                let queued = match self.clients.get(&slot) {
                    Some(client) => !client.unwritten().is_empty(),
                    None => false,
                };
                if queued {
                    self.state = LoopState::Flushing { slot, closing: true };
                    LoopAction::Write(slot)
                } else {
                    self.close(slot, true)
                }
            },
        }
    }

    /// Goes on with the closing.
    fn close_next<R>(&mut self) -> (action: LoopAction<R>)
        ensures
            close_next(old(self)@, final(self)@, action),
    {
        match self.to_close.pop_front() {
            Some(slot) => {
                assert(self.to_close@ =~= old(self).to_close@.skip(1));
                self.close(slot, false)
            },
            None => {
                self.leaving = closed_slots(&self.clients);
                assert(lists_marked(old(self)@, self.leaving@)) by {
                    assert forall|slot: u64| #[trigger]
                        self.leaving@.contains(slot) <==> old(self)@.marked(slot) by {}
                }
                assert(self@ == (LoopView { leaving: self.leaving@, ..old(self)@ }));
                self.leave_next()
            },
        }
    }

    /// Serves the next thing that the poll reported.
    fn serve_next<R>(&mut self) -> (action: LoopAction<R>)
        ensures
            serve_next(old(self)@, final(self)@, action),
    {
        loop
            invariant
                forall|next: LoopView, action: LoopAction<R>|
                    serve_next(self@, next, action) ==> #[trigger] serve_next(
                        old(self)@,
                        next,
                        action,
                    ),
            decreases self.events@.len(),
        {
            let ghost before = self@;
            match self.events.pop_front() {
                None => {
                    if self.sent_to_apply {
                        self.state = LoopState::Waking;
                        assert(serve_next(before, self@, LoopAction::<R>::WakeApply));
                        return LoopAction::WakeApply;
                    }
                    assert(self@ == before);
                    let action = self.close_next();
                    assert(serve_next(before, self@, action));
                    return action;
                },
                Some(event) => {
                    assert(self.events@ =~= before.events.skip(1));
                    match event {
                        IoEvent::Readable(slot) => {
                            let open = match self.clients.get(&slot) {
                                Some(client) => !client.is_closed(),
                                None => false,
                            };
                            if open {
                                self.state = LoopState::Reading { slot };
                                assert(serve_next(before, self@, LoopAction::<R>::Read(slot)));
                                return LoopAction::Read(slot);
                            }
                        },
                        IoEvent::Writable(slot) => {
                            let step = match self.clients.get(&slot) {
                                Some(client) => client.flush(),
                                None => FlushStep::Stop,
                            };
                            match step {
                                FlushStep::Write => {
                                    self.state = LoopState::Flushing { slot, closing: false };
                                    assert(serve_next(
                                        before,
                                        self@,
                                        LoopAction::<R>::Write(slot),
                                    ));
                                    return LoopAction::Write(slot);
                                },
                                FlushStep::Disarm => {
                                    self.state = LoopState::Disarming { slot, closing: false };
                                    assert(serve_next(
                                        before,
                                        self@,
                                        LoopAction::<R>::Disarm(slot),
                                    ));
                                    return LoopAction::Disarm(slot);
                                },
                                FlushStep::Stop => {},
                            }
                        },
                        IoEvent::Closed(slot) => {
                            self.to_close.push_back(slot);
                        },
                        IoEvent::WakerSentinel => {},
                    }
                },
            }
        }
    }

    /// Goes on when a queue has been flushed, or is to be flushed further.
    fn after_flush<R>(&mut self, slot: u64, closing: bool, step: FlushStep) -> (action:
        LoopAction<R>)
        ensures
            if step is Stop {
                flush_over(old(self)@, slot, closing, final(self)@, action)
            } else {
                flush_goes_on(old(self)@, slot, closing, step, final(self)@, action)
            },
    {
        match step {
            FlushStep::Write => {
                self.state = LoopState::Flushing { slot, closing };
                LoopAction::Write(slot)
            },
            FlushStep::Disarm => {
                self.state = LoopState::Disarming { slot, closing };
                LoopAction::Disarm(slot)
            },
            FlushStep::Stop => {
                if closing {
                    self.close(slot, true)
                } else {
                    self.serve_next()
                }
            },
        }
    }

    /// Goes on when parsing has asked for something.
    fn after_pass<R>(&mut self, slot: u64, pass: ParsePass, asked: PassAction<R>) -> (action:
        LoopAction<R>)
        requires
            pass.slot() == slot,
            old(self)@.clients.contains_key(slot),
        ensures
            pass_goes_on(
                old(self)@,
                slot,
                pass.state(),
                pass.sent(),
                old(self)@.clients[slot],
                asked,
                final(self)@,
                action,
            ),
    {
        assert(old(self)@.clients.insert(slot, old(self)@.clients[slot]) =~= old(self)@.clients);
        match asked {
            PassAction::Done => {
                if pass.items_sent() > 0 {
                    self.sent_to_apply = true;
                }
                self.serve_next()
            },
            asked => {
                self.state = LoopState::Parsing { slot, pass };
                LoopAction::Pass { slot, action: asked }
            },
        }
    }

    /// Takes note of a read.
    fn after_read<R>(&mut self, slot: u64, read: Option<Vec<u8>>) -> (action: LoopAction<R>)
        requires
            old(self)@.clients.contains_key(slot),
            old(self)@.at(LoopState::Reading { slot }).accepts(LoopEvent::<R>::Read(read)),
        ensures
            loop_moves(
                old(self)@.at(LoopState::Reading { slot }),
                LoopEvent::<R>::Read(read),
                final(self)@,
                action,
            ),
    {
        let ghost before = self@;
        let ghost reading = self@.at(LoopState::Reading { slot });
        let limit = self.limit;
        if let Some(client) = client_in(&mut self.clients, slot) {
            let parse = match &read {
                Some(bytes) => client.received(ReadOutcome::Bytes(bytes.as_slice())),
                None => client.received(ReadOutcome::Failed),
            };
            if parse {
                let ghost more = client@;
                let (pass, asked) = ParsePass::start(slot, client, limit);
                let ghost after = client@;
                assert(self@.clients =~= before.clients.insert(slot, after));
                let ghost parsed = self@;
                assert(parsed.with(slot, after).clients =~= before.with(slot, after).clients);
                assert(parsed.with(slot, after) == before.with(slot, after));
                let action = self.after_pass(slot, pass, asked);
                proof {
                    assert(pass_goes_on(
                        before,
                        slot,
                        pass.state(),
                        0,
                        after,
                        asked,
                        self@,
                        action,
                    ));
                    lemma_pass_ignores_state(
                        before,
                        reading.state,
                        slot,
                        pass.state(),
                        0,
                        after,
                        asked,
                        self@,
                        action,
                    );
                    assert(pass_parses(slot, more, limit, pass.state(), after, asked));
                }
                return action;
            }
            let ghost after = client@;
            assert(self@.clients =~= before.clients.insert(slot, after));
            let ghost marked = self@;
            let action = self.serve_next();
            proof {
                lemma_serving_ignores_state(marked, reading.state, self@, action);
            }
            return action;
        }
        self.serve_next()
    }

    /// Takes note of what has happened during the parsing.
    fn after_pass_event<R>(&mut self, slot: u64, was: ParsePass, event: PassEvent<R>) -> (action:
        LoopAction<R>)
        requires
            old(self)@.clients.contains_key(slot),
            was.slot() == slot,
            was.state().accepts(event, old(self)@.clients[slot], was.sent()),
        ensures
            loop_moves(
                old(self)@.at(LoopState::Parsing { slot, pass: was }),
                LoopEvent::Pass(event),
                final(self)@,
                action,
            ),
    {
        let ghost before = self@;
        let ghost parsing = LoopState::Parsing { slot, pass: was };
        let mut pass = was;
        let limit = self.limit;
        if let Some(client) = client_in(&mut self.clients, slot) {
            let asked = pass.step(client, limit, event);
            let ghost after = client@;
            assert(self@.clients =~= before.clients.insert(slot, after));
            let ghost parsed = self@;
            assert(parsed.with(slot, after).clients =~= before.with(slot, after).clients);
            assert(parsed.with(slot, after) == before.with(slot, after));
            let action = self.after_pass(slot, pass, asked);
            proof {
                assert(pass_goes_on(
                    before,
                    slot,
                    pass.state(),
                    pass.sent(),
                    after,
                    asked,
                    self@,
                    action,
                ));
                lemma_pass_ignores_state(
                    before,
                    parsing,
                    slot,
                    pass.state(),
                    pass.sent(),
                    after,
                    asked,
                    self@,
                    action,
                );
                assert(pass_moves(
                    slot,
                    limit,
                    was.state(),
                    was.sent(),
                    before.clients[slot],
                    event,
                    pass.state(),
                    pass.sent(),
                    after,
                    asked,
                ));
                assert(pass_event_goes_on(before.at(parsing), slot, was, event, self@, action));
            }
            return action;
        }
        self.serve_next()
    }

    /// Takes note of a write.
    fn after_write<R>(&mut self, slot: u64, closing: bool, taken: Option<usize>) -> (action:
        LoopAction<R>)
        requires
            old(self)@.clients.contains_key(slot),
            taken matches Some(n) ==> n <= old(self)@.clients[slot].unwritten.len(),
        ensures
            loop_moves(
                old(self)@.at(LoopState::Flushing { slot, closing }),
                LoopEvent::<R>::Wrote(taken),
                final(self)@,
                action,
            ),
    {
        let ghost before = self@;
        let ghost flushing = LoopState::Flushing { slot, closing };
        let step = match client_in(&mut self.clients, slot) {
            Some(client) => client.wrote(taken),
            None => FlushStep::Stop,
        };
        let ghost written = self@;
        assert(written.clients =~= before.clients.insert(slot, written.clients[slot]));
        let action = self.after_flush(slot, closing, step);
        proof {
            lemma_serving_ignores_state(written, flushing, self@, action);
        }
        action
    }

    /// Takes note of what has happened, and says what is to be done.
    pub fn step<R>(&mut self, event: LoopEvent<R>) -> (action: LoopAction<R>)
        requires
            old(self)@.wf(),
            old(self)@.accepts(event),
        ensures
            loop_moves(old(self)@, event, final(self)@, action),
            final(self)@.wf(),
    {
        let ghost before = self@;
        let ghost said = event;
        let mut state = LoopState::Stopped;
        std::mem::swap(&mut state, &mut self.state);
        let ghost here = self@;
        let action = match (state, event) {
            (LoopState::TakingClients, LoopEvent::ClientTaken(taken)) => match taken {
                None => {
                    self.state = LoopState::TakingJobs;
                    LoopAction::TakeJob
                },
                Some((slot, proto)) => {
                    self.state = LoopState::Adding { slot, proto };
                    LoopAction::AddClient
                },
            },
            (LoopState::Adding { slot, proto }, LoopEvent::ClientAdded(added)) => {
                if added {
                    self.clients.insert(slot, WorkerClient::new(proto));
                    assert(self@.clients =~= before.clients.insert(slot, fresh(proto)));
                }
                self.state = LoopState::TakingClients;
                LoopAction::TakeClient
            },
            (LoopState::TakingJobs, LoopEvent::JobTaken(taken)) => match taken {
                None => {
                    self.state = LoopState::Polling;
                    LoopAction::Poll
                },
                Some(slot) => match self.clients.get(&slot) {
                    Some(client) => {
                        let proto = client.proto();
                        self.state = LoopState::Encoding { slot };
                        LoopAction::Encode { slot, proto }
                    },
                    None => {
                        self.state = LoopState::TakingJobs;
                        LoopAction::TakeJob
                    },
                },
            },
            (LoopState::Encoding { slot }, LoopEvent::Encoded) => {
                self.state = LoopState::Arming { slot };
                LoopAction::Arm(slot)
            },
            (LoopState::Arming { .. }, LoopEvent::Done) => {
                self.state = LoopState::TakingJobs;
                LoopAction::TakeJob
            },
            (LoopState::Polling, LoopEvent::Polled(polled)) => match polled {
                None => {
                    self.state = LoopState::CheckingStop;
                    LoopAction::CheckStop
                },
                Some(events) => {
                    self.events = events;
                    self.to_close = VecDeque::new();
                    self.leaving = VecDeque::new();
                    self.sent_to_apply = false;
                    let ghost polled = self@;
                    let action = self.serve_next();
                    proof {
                        lemma_serving_ignores_state(polled, before.state, self@, action);
                    }
                    action
                },
            },
            (LoopState::Reading { slot }, LoopEvent::Read(read)) => self.after_read(slot, read),
            (LoopState::Parsing { slot, pass }, LoopEvent::Pass(event)) => self.after_pass_event(
                slot,
                pass,
                event,
            ),
            (LoopState::Flushing { slot, closing }, LoopEvent::Wrote(taken)) => self.after_write(
                slot,
                closing,
                taken,
            ),
            (LoopState::Disarming { slot, closing }, LoopEvent::Done) => {
                let action = self.after_flush(slot, closing, FlushStep::Stop);
                proof {
                    lemma_serving_ignores_state(here, before.state, self@, action);
                }
                action
            },
            (LoopState::Waking, LoopEvent::Done) => {
                let action = self.close_next();
                proof {
                    lemma_leaving_ignores_state(here, before.state, self@, action);
                }
                action
            },
            (LoopState::Closing { marked }, LoopEvent::Done) => {
                let action = if marked {
                    self.leave_next()
                } else {
                    self.close_next()
                };
                proof {
                    lemma_leaving_ignores_state(here, before.state, self@, action);
                }
                action
            },
            (LoopState::CheckingStop, LoopEvent::Stop(stop)) => {
                if stop {
                    LoopAction::Stop
                } else {
                    self.state = LoopState::TakingClients;
                    LoopAction::TakeClient
                }
            },
            _ => LoopAction::Stop,
        };
        proof {
            law_worker_stays_well_formed(before, said, self@, action);
        }
        action
    }
}

/// The state in which the loop is left does not matter for what parsing asks.
proof fn lemma_pass_ignores_state<R>(
    w: LoopView,
    at: LoopState,
    slot: u64,
    state: PassState,
    sent: usize,
    client: ClientView,
    asked: PassAction<R>,
    next: LoopView,
    action: LoopAction<R>,
)
    ensures
        pass_goes_on(w.at(at), slot, state, sent, client, asked, next, action) == pass_goes_on(
            w,
            slot,
            state,
            sent,
            client,
            asked,
            next,
            action,
        ),
{
    lemma_serving_ignores_state(
        LoopView { sent_to_apply: w.sent_to_apply || sent > 0, ..w.with(slot, client) },
        at,
        next,
        action,
    );
}

// ---------------------------------------------------------------------------
// Laws of the loop
// ---------------------------------------------------------------------------

/// What is served next leaves the clients alone, but for the one that is
/// closed. A marked client is closed when nothing is queued for it.
spec fn serves_well<R>(w: LoopView, next: LoopView, action: LoopAction<R>) -> bool {
    &&& next.limit == w.limit
    &&& next.sent_to_apply == w.sent_to_apply
    &&& match action {
        LoopAction::Close(slot) => {
            &&& next.clients == w.clients.remove(slot)
            &&& next.state matches LoopState::Closing { marked }
            &&& marked ==> !w.clients.contains_key(slot) || w.clients[slot].unwritten.len() == 0
        },
        LoopAction::Read(slot) => {
            &&& next.clients == w.clients
            &&& next.state == LoopState::Reading { slot }
            &&& w.clients.contains_key(slot) && !w.clients[slot].closed
        },
        LoopAction::Write(slot) => {
            &&& next.clients == w.clients
            &&& next.state matches LoopState::Flushing { slot: in_slot, .. }
            &&& in_slot == slot
            &&& w.clients.contains_key(slot) && w.clients[slot].unwritten.len() > 0
        },
        LoopAction::Disarm(slot) => {
            &&& next.clients == w.clients
            &&& next.state == LoopState::Disarming { slot, closing: false }
            &&& w.clients.contains_key(slot) && w.clients[slot].unwritten.len() == 0
        },
        LoopAction::WakeApply => {
            &&& next.clients == w.clients
            &&& next.state is Waking
        },
        LoopAction::CheckStop => {
            &&& next.clients == w.clients
            &&& next.state is CheckingStop
        },
        _ => false,
    }
}

/// Whether the closing has begun.
pub open spec fn is_closing(state: LoopState) -> bool {
    match state {
        LoopState::Closing { .. } => true,
        LoopState::Flushing { closing, .. } => closing,
        LoopState::Disarming { closing, .. } => closing,
        LoopState::CheckingStop => true,
        _ => false,
    }
}

proof fn lemma_leaving_is_good<R>(w: LoopView, next: LoopView, action: LoopAction<R>)
    requires
        leave_next(w, next, action) && w.lists_marked_but(None) || close_next(w, next, action),
    ensures
        serves_well(w, next, action),
        is_closing(next.state),
        next.state is CheckingStop ==> forall|slot: u64| !#[trigger] next.marked(slot),
{
    if leave_next(w, next, action) && w.lists_marked_but(None) {
        if w.leaving.len() == 0 {
            assert(forall|slot: u64| #[trigger] next.marked(slot) == w.marked(slot));
        }
    } else if w.to_close.len() == 0 {
        let slots = choose|slots: Seq<u64>| #[trigger]
            lists_marked(w, slots) && leave_next(LoopView { leaving: slots, ..w }, next, action);
        if slots.len() == 0 {
            assert forall|slot: u64| !#[trigger] next.marked(slot) by {
                assert(w.marked(slot) == slots.contains(slot));
            }
        }
    }
}

proof fn lemma_serving_is_good<R>(w: LoopView, next: LoopView, action: LoopAction<R>)
    requires
        serve_next(w, next, action),
    ensures
        serves_well(w, next, action),
        is_closing(next.state) ==> !w.sent_to_apply,
        action is WakeApply ==> w.sent_to_apply,
        next.state is CheckingStop ==> forall|slot: u64| !#[trigger] next.marked(slot),
    decreases w.events.len(),
{
    if w.events.len() == 0 {
        if !w.sent_to_apply {
            lemma_leaving_is_good(w, next, action);
        }
    } else {
        let rest = LoopView { events: w.events.skip(1), ..w };
        match w.events[0] {
            IoEvent::Closed(slot) => {
                lemma_serving_is_good(
                    LoopView { to_close: w.to_close.push(slot), ..rest },
                    next,
                    action,
                );
            },
            _ => {
                if serve_next(rest, next, action) {
                    lemma_serving_is_good(rest, next, action);
                }
            },
        }
    }
}

/// The slot of the client that is being served.
pub open spec fn in_hand(state: LoopState) -> Option<u64> {
    match state {
        LoopState::Adding { slot, .. } => Some(slot),
        LoopState::Encoding { slot } => Some(slot),
        LoopState::Reading { slot } => Some(slot),
        LoopState::Parsing { slot, .. } => Some(slot),
        LoopState::Flushing { slot, .. } => Some(slot),
        _ => None,
    }
}

/// Whether something was pushed to the apply thread in this round.
pub open spec fn pushed(w: LoopView) -> bool {
    w.sent_to_apply || (w.state matches LoopState::Parsing { pass, .. } && pass.sent() > 0)
}

/// Whether the loop is serving what the poll reported.
pub open spec fn is_serving(state: LoopState) -> bool {
    match state {
        LoopState::Reading { .. } => true,
        LoopState::Parsing { .. } => true,
        LoopState::Flushing { closing, .. } => !closing,
        LoopState::Disarming { closing, .. } => !closing,
        _ => false,
    }
}

/// Everything that the laws below say of one step.
spec fn step_is_good<R>(
    w: LoopView,
    event: LoopEvent<R>,
    next: LoopView,
    action: LoopAction<R>,
) -> bool {
    &&& forall|slot: u64|
        w.clients.contains_key(slot) && in_hand(w.state) != Some(slot) && next.clients.contains_key(
            slot,
        ) ==> #[trigger] next.clients[slot] == w.clients[slot]
    &&& forall|slot: u64|
        w.clients.contains_key(slot) && !#[trigger] next.clients.contains_key(slot) ==> action
            == LoopAction::<R>::Close(slot)
    &&& forall|slot: u64|
        !w.clients.contains_key(slot) && #[trigger] next.clients.contains_key(slot) ==> event
            == LoopEvent::<R>::ClientAdded(true) && in_hand(w.state) == Some(slot)
    &&& action matches LoopAction::Read(slot) ==> next.clients.contains_key(slot)
        && !next.clients[slot].closed
    &&& action matches LoopAction::Close(slot) ==> next.state == LoopState::Closing {
        marked: true,
    } ==> {
        ||| !w.clients.contains_key(slot)
        ||| w.clients[slot].unwritten.len() == 0
        ||| w.state == LoopState::Flushing { slot, closing: true } && (event == LoopEvent::<
            R,
        >::Wrote(Some(0)) || event == LoopEvent::<R>::Wrote(None))
    }
    &&& action is CheckStop && event != LoopEvent::<R>::Polled(None) ==> forall|slot: u64|
        !#[trigger] next.marked(slot)
    &&& next.limit == w.limit
    &&& action is Stop <==> w.state is CheckingStop && event == LoopEvent::<R>::Stop(true)
    &&& action is Stop <==> next.state is Stopped
    &&& action is Arm ==> w.state is Encoding
    &&& is_serving(w.state) || (event matches LoopEvent::Polled(Some(_))) ==> {
        &&& pushed(next) == (is_serving(w.state) && pushed(w) || event == LoopEvent::Pass(
            PassEvent::<R>::Sent(true),
        ))
        &&& is_serving(next.state) || next.state is Waking || is_closing(next.state)
        &&& next.state is Waking <==> action is WakeApply
        &&& next.state is Waking ==> pushed(next)
        &&& is_closing(next.state) ==> !pushed(next)
    }
    &&& w.state is Waking || is_closing(w.state) && !(w.state is CheckingStop) ==> {
        &&& is_closing(next.state)
        &&& !(action is WakeApply)
        &&& pushed(next) == pushed(w)
        &&& event != LoopEvent::Pass(PassEvent::<R>::Sent(true))
    }
}

proof fn lemma_step_is_good<R>(
    w: LoopView,
    event: LoopEvent<R>,
    next: LoopView,
    action: LoopAction<R>,
)
    requires
        w.wf(),
        w.accepts(event),
        loop_moves(w, event, next, action),
    ensures
        step_is_good(w, event, next, action),
{
    match (w.state, event) {
        (LoopState::Polling, LoopEvent::Polled(Some(events))) => {
            lemma_serving_is_good(
                LoopView {
                    events: events@,
                    to_close: Seq::empty(),
                    leaving: Seq::empty(),
                    sent_to_apply: false,
                    ..w
                },
                next,
                action,
            );
        },
        (LoopState::Reading { slot }, LoopEvent::Read(read)) => {
            let client = w.clients[slot];
            match read {
                Some(bytes) if bytes@.len() > 0 => {
                    let more = ClientView { unparsed: client.unparsed + bytes@, ..client };
                    let (state, after, asked) = choose|
                        state: PassState,
                        after: ClientView,
                        asked: PassAction<R>,
                    | #[trigger]
                        pass_parses(slot, more, w.limit, state, after, asked) && pass_goes_on(
                            w,
                            slot,
                            state,
                            0,
                            after,
                            asked,
                            next,
                            action,
                        );
                    if asked is Done {
                        lemma_serving_is_good(w.with(slot, after), next, action);
                    }
                },
                _ => {
                    lemma_serving_is_good(
                        w.with(slot, ClientView { closed: true, ..client }),
                        next,
                        action,
                    );
                },
            }
        },
        (LoopState::Parsing { slot, pass }, LoopEvent::Pass(step)) => {
            let (state, sent, after, asked) = choose|
                state: PassState,
                sent: usize,
                after: ClientView,
                asked: PassAction<R>,
            | #[trigger]
                pass_moves(
                    slot,
                    w.limit,
                    pass.state(),
                    pass.sent(),
                    w.clients[slot],
                    step,
                    state,
                    sent,
                    after,
                    asked,
                ) && pass_goes_on(w, slot, state, sent, after, asked, next, action);
            if asked is Done {
                lemma_serving_is_good(
                    LoopView {
                        sent_to_apply: w.sent_to_apply || sent > 0,
                        ..w.with(slot, after)
                    },
                    next,
                    action,
                );
            }
        },
        (LoopState::Flushing { slot, closing }, LoopEvent::Wrote(taken)) => {
            let client = w.clients[slot];
            let after = match taken {
                Some(n) => w.with(
                    slot,
                    ClientView { unwritten: client.unwritten.skip(n as int), ..client },
                ),
                None => w.with(slot, ClientView { closed: true, ..client }),
            };
            if !closing && flush_over(after, slot, closing, next, action) {
                lemma_serving_is_good(after, next, action);
            }
        },
        (LoopState::Disarming { slot, closing }, LoopEvent::Done) => {
            if !closing {
                lemma_serving_is_good(w, next, action);
            }
        },
        (LoopState::Waking, LoopEvent::Done) => {
            lemma_leaving_is_good(w, next, action);
        },
        (LoopState::Closing { .. }, LoopEvent::Done) => {
            lemma_leaving_is_good(w, next, action);
        },
        _ => {},
    }
}

/// A client that is to be closed is not read from any more.
pub proof fn law_marked_clients_are_not_read<R>(
    w: LoopView,
    event: LoopEvent<R>,
    next: LoopView,
    slot: u64,
)
    requires
        w.wf(),
        w.accepts(event),
        loop_moves(w, event, next, LoopAction::<R>::Read(slot)),
    ensures
        next.clients.contains_key(slot),
        !next.marked(slot),
{
    lemma_step_is_good(w, event, next, LoopAction::<R>::Read(slot));
}

/// What is queued for a marked client is written before its connection is
/// closed: it is closed when nothing is queued any more, or when its socket has
/// just taken nothing or failed.
pub proof fn law_queue_is_flushed_before_close<R>(
    w: LoopView,
    event: LoopEvent<R>,
    next: LoopView,
    slot: u64,
)
    requires
        w.wf(),
        w.accepts(event),
        loop_moves(w, event, next, LoopAction::<R>::Close(slot)),
        next.state == (LoopState::Closing { marked: true }),
    ensures
        ({
            ||| !w.clients.contains_key(slot)
            ||| w.clients[slot].unwritten.len() == 0
            ||| w.state == LoopState::Flushing { slot, closing: true } && (event == LoopEvent::<
                R,
            >::Wrote(Some(0)) || event == LoopEvent::<R>::Wrote(None))
        }),
{
    lemma_step_is_good(w, event, next, LoopAction::<R>::Close(slot));
}

/// At the end of a round no client is left that is to be closed.
pub proof fn law_no_marked_client_outlives_a_round<R>(
    w: LoopView,
    event: LoopEvent<R>,
    next: LoopView,
    slot: u64,
)
    requires
        w.wf(),
        w.accepts(event),
        loop_moves(w, event, next, LoopAction::<R>::CheckStop),
        event != LoopEvent::<R>::Polled(None),
    ensures
        !next.marked(slot),
{
    lemma_step_is_good(w, event, next, LoopAction::<R>::CheckStop);
}

/// A step leaves every client alone but the one in hand. A client is new when
/// the backend has taken it, and gone when its connection is closed.
pub proof fn law_clients_do_not_disturb_each_other<R>(
    w: LoopView,
    event: LoopEvent<R>,
    next: LoopView,
    action: LoopAction<R>,
    slot: u64,
)
    requires
        w.wf(),
        w.accepts(event),
        loop_moves(w, event, next, action),
        in_hand(w.state) != Some(slot),
    ensures
        w.clients.contains_key(slot) && action != LoopAction::<R>::Close(slot)
            ==> next.clients.contains_key(slot) && next.clients[slot] == w.clients[slot],
        !w.clients.contains_key(slot) ==> !next.clients.contains_key(slot),
{
    lemma_step_is_good(w, event, next, action);
}

/// A worker stops between two rounds and not in the middle of one: when it has
/// looked at the stop flag, and the flag is set.
pub proof fn law_worker_stops_between_rounds<R>(
    w: LoopView,
    event: LoopEvent<R>,
    next: LoopView,
    action: LoopAction<R>,
)
    requires
        w.wf(),
        w.accepts(event),
        loop_moves(w, event, next, action),
    ensures
        action is Stop <==> w.state is CheckingStop && event == LoopEvent::<R>::Stop(true),
        action is Stop <==> next.state is Stopped,
{
    lemma_step_is_good(w, event, next, action);
}

/// The socket of a client is waited for once a response has been encoded for
/// it, and at no other time; and nothing else happens in between.
pub proof fn law_an_encoded_response_arms_the_socket<R>(
    w: LoopView,
    event: LoopEvent<R>,
    next: LoopView,
    action: LoopAction<R>,
    slot: u64,
)
    requires
        w.wf(),
        w.accepts(event),
        loop_moves(w, event, next, action),
    ensures
        action == LoopAction::<R>::Arm(slot) <==> w.state == (LoopState::Encoding { slot }),
        w.state is Encoding ==> next.clients == w.clients,
{
    lemma_step_is_good(w, event, next, action);
}

/// How often the apply thread took something.
pub open spec fn pushes<R>(events: Seq<LoopEvent<R>>) -> nat
    decreases events.len(),
{
    if events.len() == 0 {
        0
    } else {
        pushes(events.drop_last()) + if events.last() == LoopEvent::Pass(
            PassEvent::<R>::Sent(true),
        ) {
            1nat
        } else {
            0
        }
    }
}

/// How often the apply thread is woken up.
pub open spec fn wakes<R>(actions: Seq<LoopAction<R>>) -> nat
    decreases actions.len(),
{
    if actions.len() == 0 {
        0
    } else {
        wakes(actions.drop_last()) + if actions.last() is WakeApply {
            1nat
        } else {
            0
        }
    }
}

/// Whether `points`, `events` and `actions` are a round from a poll on.
pub open spec fn round<R>(
    points: Seq<LoopView>,
    events: Seq<LoopEvent<R>>,
    actions: Seq<LoopAction<R>>,
) -> bool {
    &&& points.len() == events.len() + 1
    &&& actions.len() == events.len()
    &&& events.len() > 0
    &&& points[0].state is Polling
    &&& events[0] matches LoopEvent::Polled(Some(_))
    &&& forall|i: int| 0 < i < events.len() ==> !((#[trigger] points[i]).state is CheckingStop)
    &&& forall|i: int| 0 <= i < points.len() ==> (#[trigger] points[i]).wf()
    &&& forall|i: int|
        0 <= i < events.len() ==> points[i].accepts(#[trigger] events[i]) && loop_moves(
            points[i],
            events[i],
            points[i + 1],
            actions[i],
        )
}

proof fn lemma_round_wakes<R>(
    points: Seq<LoopView>,
    events: Seq<LoopEvent<R>>,
    actions: Seq<LoopAction<R>>,
    i: int,
)
    requires
        round(points, events, actions),
        0 < i < points.len(),
    ensures
        pushed(points[i]) == (pushes(events.take(i)) > 0),
        is_serving(points[i].state) || points[i].state is Waking || is_closing(points[i].state),
        is_serving(points[i].state) ==> wakes(actions.take(i)) == 0,
        !is_serving(points[i].state) ==> wakes(actions.take(i)) == if pushed(points[i]) {
            1nat
        } else {
            0
        },
    decreases i,
{
    let j = i - 1;
    assert(events.take(i).drop_last() =~= events.take(j));
    assert(actions.take(i).drop_last() =~= actions.take(j));
    assert(events.take(i).last() == events[j]);
    assert(actions.take(i).last() == actions[j]);
    assert(points[j].wf() && points[i].wf());
    lemma_step_is_good(points[j], events[j], points[i], actions[j]);
    assert(wakes(actions.take(i)) == wakes(actions.take(j)) + if actions[j] is WakeApply {
        1nat
    } else {
        0
    });
    if j > 0 {
        lemma_round_wakes(points, events, actions, j);
        assert(!(points[j].state is CheckingStop));
    } else {
        assert(events.take(0) =~= Seq::empty());
        assert(actions.take(0) =~= Seq::empty());
    }
}

/// The apply thread is woken up exactly once in a round in which it took
/// something, and not at all in another.
pub proof fn law_apply_is_woken_once_for_a_round<R>(
    points: Seq<LoopView>,
    events: Seq<LoopEvent<R>>,
    actions: Seq<LoopAction<R>>,
)
    requires
        round(points, events, actions),
        points.last().state is CheckingStop,
    ensures
        wakes(actions) == if pushes(events) > 0 {
            1nat
        } else {
            0
        },
{
    let n = events.len() as int;
    lemma_round_wakes(points, events, actions, n);
    assert(events.take(n) =~= events);
    assert(actions.take(n) =~= actions);
}

// ---------------------------------------------------------------------------
// What a step does, in terms of what has happened
// ---------------------------------------------------------------------------

/// A client that the backend has taken is there with the protocol that it was
/// handed over with, whichever that is, has sent nothing, is owed nothing and is
/// not marked. One that the backend has refused is not there. Nothing else
/// changes, and the next client is taken.
pub proof fn law_a_new_client_has_its_protocol<R>(
    w: LoopView,
    slot: u64,
    proto: WorkerProto,
    added: bool,
    taken: LoopView,
    first: LoopAction<R>,
    next: LoopView,
    second: LoopAction<R>,
)
    requires
        w.state is TakingClients,
        loop_moves(w, LoopEvent::<R>::ClientTaken(Some((slot, proto))), taken, first),
        loop_moves(taken, LoopEvent::<R>::ClientAdded(added), next, second),
    ensures
        first is AddClient,
        second is TakeClient,
        next.state is TakingClients,
        added ==> {
            &&& next.clients.dom() =~= w.clients.dom().insert(slot)
            &&& next.clients[slot].proto == proto
            &&& next.clients[slot].unparsed.len() == 0
            &&& next.clients[slot].unwritten.len() == 0
            &&& !next.clients[slot].closed
        },
        forall|other: u64|
            other != slot ==> (#[trigger] next.clients.contains_key(other)
                <==> w.clients.contains_key(other)) && (w.clients.contains_key(other)
                ==> next.clients[other] == w.clients[other]),
        !added ==> next.clients == w.clients,
        next.limit == w.limit,
{
}

/// What happens between a client's arrival and its end changes it only so: its
/// protocol never changes; it stays marked once it is marked, and is marked
/// when reading from it gave nothing or failed, when writing to it failed, and
/// behind the last item of its parsing; what is queued for it gets shorter by
/// what its socket took, and longer by the answer that parsing owes it.
pub proof fn law_what_becomes_of_a_client<R>(
    w: LoopView,
    event: LoopEvent<R>,
    next: LoopView,
    action: LoopAction<R>,
    slot: u64,
)
    requires
        w.wf(),
        w.accepts(event),
        loop_moves(w, event, next, action),
        w.clients.contains_key(slot),
        next.clients.contains_key(slot),
        !(w.state is Adding && in_hand(w.state) == Some(slot)),
    ensures
        ({
            let before = w.clients[slot];
            let after = next.clients[slot];
            &&& after.proto == before.proto
            &&& after.closed == (before.closed || match (w.state, event) {
                (LoopState::Reading { slot: s }, LoopEvent::Read(None)) => s == slot,
                (LoopState::Reading { slot: s }, LoopEvent::Read(Some(bytes))) => s == slot
                    && bytes@.len() == 0,
                (LoopState::Flushing { slot: s, .. }, LoopEvent::Wrote(None)) => s == slot,
                (LoopState::Parsing { slot: s, pass }, _) => s == slot && pass.state()
                    == (PassState::Sending { last: true }),
                _ => false,
            })
            &&& after.unwritten == match (w.state, event) {
                (LoopState::Flushing { slot: s, .. }, LoopEvent::Wrote(Some(n))) => if s == slot {
                    before.unwritten.skip(n as int)
                } else {
                    before.unwritten
                },
                (LoopState::Parsing { slot: s, pass }, _) => if s == slot {
                    if let PassState::Answering { frame, .. } = pass.state() {
                        before.unwritten + frame@.wire()
                    } else {
                        before.unwritten
                    }
                } else {
                    before.unwritten
                },
                _ => before.unwritten,
            }
            &&& !(w.state is Reading || w.state is Parsing) || in_hand(w.state) != Some(slot)
                ==> after.unparsed == before.unparsed
        }),
{
    lemma_step_is_good(w, event, next, action);
    match (w.state, event) {
        (LoopState::Reading { slot: s }, LoopEvent::Read(read)) => {
            let client = w.clients[s];
            match read {
                Some(bytes) if bytes@.len() > 0 => {
                    let more = ClientView { unparsed: client.unparsed + bytes@, ..client };
                    let (state, after, asked) = choose|
                        state: PassState,
                        after: ClientView,
                        asked: PassAction<R>,
                    | #[trigger]
                        pass_parses(s, more, w.limit, state, after, asked) && pass_goes_on(
                            w,
                            s,
                            state,
                            0,
                            after,
                            asked,
                            next,
                            action,
                        );
                    law_a_pass_takes_one_frame_at_a_time(s, more, w.limit, state, after, asked);
                    if asked is Done {
                        lemma_serving_is_good(w.with(s, after), next, action);
                    }
                },
                _ => {
                    lemma_serving_is_good(
                        w.with(s, ClientView { closed: true, ..client }),
                        next,
                        action,
                    );
                },
            }
        },
        (LoopState::Parsing { slot: s, pass }, LoopEvent::Pass(step)) => {
            let (state, sent, after, asked) = choose|
                state: PassState,
                sent: usize,
                after: ClientView,
                asked: PassAction<R>,
            | #[trigger]
                pass_moves(
                    s,
                    w.limit,
                    pass.state(),
                    pass.sent(),
                    w.clients[s],
                    step,
                    state,
                    sent,
                    after,
                    asked,
                ) && pass_goes_on(w, s, state, sent, after, asked, next, action);
            law_what_a_pass_does_to_its_client(
                s,
                w.limit,
                pass.state(),
                pass.sent(),
                w.clients[s],
                step,
                state,
                sent,
                after,
                asked,
            );
            if asked is Done {
                lemma_serving_is_good(
                    LoopView {
                        sent_to_apply: w.sent_to_apply || sent > 0,
                        ..w.with(s, after)
                    },
                    next,
                    action,
                );
            }
        },
        (LoopState::Flushing { slot: s, closing }, LoopEvent::Wrote(taken)) => {
            let client = w.clients[s];
            let after = match taken {
                Some(n) => w.with(
                    s,
                    ClientView { unwritten: client.unwritten.skip(n as int), ..client },
                ),
                None => w.with(s, ClientView { closed: true, ..client }),
            };
            if !closing && flush_over(after, s, closing, next, action) {
                lemma_serving_is_good(after, next, action);
            }
        },
        _ => {},
    }
}

/// The order of a round: clients are taken until there is none, then responses,
/// and then the backend is polled. A response is encoded for a client that is
/// there, in the protocol of that client, and dropped where it is gone. A poll
/// that failed ends the round, and a worker that is not to stop begins the next.
pub proof fn law_the_order_of_a_round<R>(
    w: LoopView,
    event: LoopEvent<R>,
    next: LoopView,
    action: LoopAction<R>,
)
    requires
        w.wf(),
        w.accepts(event),
        loop_moves(w, event, next, action),
    ensures
        next.limit == w.limit,
        event == LoopEvent::<R>::ClientTaken(None) ==> action is TakeJob && next
            == (LoopView { state: LoopState::TakingJobs, ..w }),
        event == LoopEvent::<R>::JobTaken(None) ==> action is Poll && next == (LoopView {
            state: LoopState::Polling,
            ..w
        }),
        event matches LoopEvent::JobTaken(Some(slot)) ==> w.clients.contains_key(slot) ==> action
            == (LoopAction::<R>::Encode { slot, proto: w.clients[slot].proto }) && next
            == (LoopView { state: LoopState::Encoding { slot }, ..w }),
        event matches LoopEvent::JobTaken(Some(slot)) ==> !w.clients.contains_key(slot)
            ==> action is TakeJob && next == w,
        w.state is Arming ==> action is TakeJob && next == (LoopView {
            state: LoopState::TakingJobs,
            ..w
        }),
        event == LoopEvent::<R>::Polled(None) ==> action is CheckStop && next == (LoopView {
            state: LoopState::CheckingStop,
            ..w
        }),
        event == LoopEvent::<R>::Stop(false) ==> action is TakeClient && next == (LoopView {
            state: LoopState::TakingClients,
            ..w
        }),
{
    lemma_step_is_good(w, event, next, action);
}

/// Whether what the poll reported is passed over with these clients: a client
/// that is gone, one that is marked and has something to read, what is closed
/// later on, and the waker.
pub open spec fn is_passed_over(clients: Map<u64, ClientView>, event: IoEvent) -> bool {
    match event {
        IoEvent::Readable(slot) => !clients.contains_key(slot) || clients[slot].closed,
        IoEvent::Writable(slot) => !clients.contains_key(slot),
        IoEvent::Closed(_) => true,
        IoEvent::WakerSentinel => true,
    }
}

/// The slots that were reported closed, in order.
pub open spec fn closes(events: Seq<IoEvent>) -> Seq<u64>
    decreases events.len(),
{
    if events.len() == 0 {
        Seq::empty()
    } else {
        match events.last() {
            IoEvent::Closed(slot) => closes(events.drop_last()).push(slot),
            _ => closes(events.drop_last()),
        }
    }
}

/// Whether the first `k` of what was reported are passed over, and the one
/// behind them is served: something is read from a client that can be read, and
/// written to one whose socket takes it, or waited for no more where nothing is
/// queued for it.
pub open spec fn serves_behind<R>(
    clients: Map<u64, ClientView>,
    events: Seq<IoEvent>,
    to_close: Seq<u64>,
    sent: bool,
    k: int,
    next: LoopView,
    action: LoopAction<R>,
) -> bool {
    &&& 0 <= k < events.len()
    &&& forall|i: int| 0 <= i < k ==> is_passed_over(clients, #[trigger] events[i])
    &&& !is_passed_over(clients, events[k])
    &&& next.clients == clients
    &&& next.events == events.skip(k + 1)
    &&& next.sent_to_apply == sent
    &&& next.to_close == to_close + closes(events.take(k))
    &&& match events[k] {
        IoEvent::Readable(slot) => action == LoopAction::<R>::Read(slot) && next.state
            == (LoopState::Reading { slot }),
        IoEvent::Writable(slot) => if clients[slot].unwritten.len() > 0 {
            action == LoopAction::<R>::Write(slot) && next.state == (LoopState::Flushing {
                slot,
                closing: false,
            })
        } else {
            action == LoopAction::<R>::Disarm(slot) && next.state == (LoopState::Disarming {
                slot,
                closing: false,
            })
        },
        _ => false,
    }
}

/// Whether everything that was reported is passed over, and what follows is the
/// waking of the apply thread where something was pushed to it, and the closing
/// of the first connection that was reported closed otherwise.
pub open spec fn serves_out<R>(
    clients: Map<u64, ClientView>,
    events: Seq<IoEvent>,
    to_close: Seq<u64>,
    sent: bool,
    next: LoopView,
    action: LoopAction<R>,
) -> bool {
    let all = to_close + closes(events);
    &&& forall|i: int| 0 <= i < events.len() ==> is_passed_over(clients, #[trigger] events[i])
    &&& next.events.len() == 0
    &&& next.sent_to_apply == sent
    &&& sent ==> action is WakeApply && next.state is Waking && next.clients == clients && next.to_close == all
    &&& !sent && all.len() > 0 ==> action == LoopAction::<R>::Close(all[0]) && next.clients
        == clients.remove(all[0]) && next.to_close == all.skip(1) && next.state
        == (LoopState::Closing { marked: false })
    &&& !sent && all.len() == 0 ==> is_leaving(clients, next, action)
}

/// Whether the closing of marked clients begins: it is over where there is none;
/// otherwise one of them is closed, or written to where something is queued for
/// it, and the others are listed, once each.
pub open spec fn is_leaving<R>(
    clients: Map<u64, ClientView>,
    next: LoopView,
    action: LoopAction<R>,
) -> bool {
    &&& next.to_close.len() == 0
    &&& action is CheckStop ==> next.state is CheckingStop && next.clients == clients
    &&& action is CheckStop ==> forall|slot: u64| #[trigger]
        clients.contains_key(slot) ==> !clients[slot].closed
    &&& action matches LoopAction::Close(slot) ==> clients.contains_key(slot)
        && clients[slot].closed && clients[slot].unwritten.len() == 0 && next.clients
        == clients.remove(slot) && next.state == (LoopState::Closing { marked: true })
    &&& action matches LoopAction::Write(slot) ==> clients.contains_key(slot)
        && clients[slot].closed && clients[slot].unwritten.len() > 0 && next.clients == clients
        && next.state == (LoopState::Flushing { slot, closing: true })
    &&& action is CheckStop || action is Close || action is Write
    &&& next.leaving.no_duplicates()
    &&& forall|slot: u64| #[trigger]
        next.leaving.contains(slot) <==> clients.contains_key(slot) && clients[slot].closed
            && action != LoopAction::<R>::Close(slot) && action != LoopAction::<R>::Write(slot)
}

proof fn lemma_closes_of_more(events: Seq<IoEvent>, first: IoEvent)
    ensures
        closes(seq![first] + events) == match first {
            IoEvent::Closed(slot) => seq![slot],
            _ => Seq::empty(),
        } + closes(events),
    decreases events.len(),
{
    let all = seq![first] + events;
    if events.len() == 0 {
        assert(all.drop_last() =~= Seq::empty());
        assert(closes(all.drop_last()) =~= Seq::empty());
    } else {
        assert(all.drop_last() =~= seq![first] + events.drop_last());
        lemma_closes_of_more(events.drop_last(), first);
    }
}

proof fn lemma_leaving_begins<R>(w: LoopView, next: LoopView, action: LoopAction<R>)
    requires
        close_next(w, next, action),
        w.to_close.len() == 0,
    ensures
        is_leaving(w.clients, next, action),
        next.events == w.events,
{
    let slots = choose|slots: Seq<u64>| #[trigger]
        lists_marked(w, slots) && leave_next(LoopView { leaving: slots, ..w }, next, action);
    assert forall|slot: u64| #[trigger] slots.contains(slot) <==> w.clients.contains_key(slot)
        && w.clients[slot].closed by {
        assert(w.marked(slot) == slots.contains(slot));
    }
    if slots.len() == 0 {
        assert forall|slot: u64| #[trigger] w.clients.contains_key(slot) implies !w.clients[slot].closed by {
            assert(!slots.contains(slot));
        }
    } else {
        let first = slots[0];
        assert(slots.contains(first));
        assert forall|slot: u64| #[trigger] slots.skip(1).contains(slot) <==> slots.contains(slot)
            && slot != first by {
            if slots.contains(slot) && slot != first {
                let i = slots.index_of(slot);
                assert(slots.skip(1)[i - 1] == slot);
            }
            if slots.skip(1).contains(slot) {
                let i = slots.skip(1).index_of(slot);
                assert(slots[i + 1] == slot);
            }
        }
    }
}

/// What is served behind the rest of what was reported is served behind all of
/// it.
proof fn lemma_serves_one_further<R>(
    clients: Map<u64, ClientView>,
    events: Seq<IoEvent>,
    to_close: Seq<u64>,
    rest_close: Seq<u64>,
    sent: bool,
    k: int,
    next: LoopView,
    action: LoopAction<R>,
)
    requires
        events.len() > 0,
        is_passed_over(clients, events[0]),
        rest_close == match events[0] {
            IoEvent::Closed(slot) => to_close.push(slot),
            _ => to_close,
        },
        serves_behind(clients, events.skip(1), rest_close, sent, k, next, action),
    ensures
        serves_behind(clients, events, to_close, sent, k + 1, next, action),
{
    let first = events[0];
    let rest = events.skip(1);
    assert(events.take(k + 1) =~= seq![first] + rest.take(k));
    lemma_closes_of_more(rest.take(k), first);
    assert(to_close + closes(events.take(k + 1)) =~= rest_close + closes(rest.take(k)));
    assert(events.skip(k + 2) =~= rest.skip(k + 1));
    assert(rest[k] == events[k + 1]);
    assert forall|i: int| 0 <= i < k + 1 implies is_passed_over(clients, #[trigger] events[i]) by {
        if i > 0 {
            assert(rest[i - 1] == events[i]);
        }
    }
}

proof fn lemma_serves_out_further<R>(
    clients: Map<u64, ClientView>,
    events: Seq<IoEvent>,
    to_close: Seq<u64>,
    rest_close: Seq<u64>,
    sent: bool,
    next: LoopView,
    action: LoopAction<R>,
)
    requires
        events.len() > 0,
        is_passed_over(clients, events[0]),
        rest_close == match events[0] {
            IoEvent::Closed(slot) => to_close.push(slot),
            _ => to_close,
        },
        serves_out(clients, events.skip(1), rest_close, sent, next, action),
    ensures
        serves_out(clients, events, to_close, sent, next, action),
{
    let first = events[0];
    let rest = events.skip(1);
    assert(events =~= seq![first] + rest);
    lemma_closes_of_more(rest, first);
    assert(to_close + closes(events) =~= rest_close + closes(rest));
    assert forall|i: int| 0 <= i < events.len() implies is_passed_over(
        clients,
        #[trigger] events[i],
    ) by {
        if i > 0 {
            assert(rest[i - 1] == events[i]);
        }
    }
}

proof fn lemma_serving_in_order<R>(w: LoopView, next: LoopView, action: LoopAction<R>)
    requires
        serve_next(w, next, action),
    ensures
        serves_in_order(w.clients, w.events, w.to_close, w.sent_to_apply, next, action),
    decreases w.events.len(),
{
    if w.events.len() == 0 {
        assert(w.to_close + closes(w.events) =~= w.to_close);
        if !w.sent_to_apply && w.to_close.len() == 0 {
            lemma_leaving_begins(w, next, action);
        }
        assert(serves_out(w.clients, w.events, w.to_close, w.sent_to_apply, next, action));
    } else if !is_passed_over(w.clients, w.events[0]) {
        assert(w.events.take(0) =~= Seq::empty());
        assert(w.to_close + closes(w.events.take(0)) =~= w.to_close);
        assert(serves_behind(
            w.clients,
            w.events,
            w.to_close,
            w.sent_to_apply,
            0,
            next,
            action,
        ));
    } else {
        let to_close = match w.events[0] {
            IoEvent::Closed(slot) => w.to_close.push(slot),
            _ => w.to_close,
        };
        let rest = w.events.skip(1);
        let sent = w.sent_to_apply;
        let later = LoopView { events: rest, to_close, ..w };
        lemma_serving_in_order(later, next, action);
        if serves_out(w.clients, rest, to_close, sent, next, action) {
            lemma_serves_out_further(
                w.clients,
                w.events,
                w.to_close,
                to_close,
                sent,
                next,
                action,
            );
        } else {
            let k = choose|k: int| #[trigger]
                serves_behind(w.clients, rest, to_close, sent, k, next, action);
            lemma_serves_one_further(
                w.clients,
                w.events,
                w.to_close,
                to_close,
                sent,
                k,
                next,
                action,
            );
        }
    }
}

/// Whether a worker goes on with what the poll reported, in order.
pub open spec fn serves_in_order<R>(
    clients: Map<u64, ClientView>,
    events: Seq<IoEvent>,
    to_close: Seq<u64>,
    sent: bool,
    next: LoopView,
    action: LoopAction<R>,
) -> bool {
    ||| exists|k: int| #[trigger] serves_behind(clients, events, to_close, sent, k, next, action)
    ||| serves_out(clients, events, to_close, sent, next, action)
}

/// What the poll reported is served in its order, from the first on: nothing is
/// left out but what there is nothing to do for, and what is reported closed is
/// closed in that order when the rest has been served.
pub proof fn law_what_is_polled_is_served_in_order<R>(
    w: LoopView,
    events: VecDeque<IoEvent>,
    next: LoopView,
    action: LoopAction<R>,
)
    requires
        w.state is Polling,
        loop_moves(w, LoopEvent::<R>::Polled(Some(events)), next, action),
    ensures
        serves_in_order(w.clients, events@, Seq::empty(), false, next, action),
{
    lemma_serving_in_order(
        LoopView {
            events: events@,
            to_close: Seq::empty(),
            leaving: Seq::empty(),
            sent_to_apply: false,
            ..w
        },
        next,
        action,
    );
}

/// A read that gave nothing or failed marks the client, and what was reported
/// behind it is served with the client marked.
pub proof fn law_a_read_that_ends_is_the_last<R>(
    w: LoopView,
    slot: u64,
    read: Option<Vec<u8>>,
    next: LoopView,
    action: LoopAction<R>,
)
    requires
        w.state == (LoopState::Reading { slot }),
        loop_moves(w, LoopEvent::<R>::Read(read), next, action),
        read matches Some(bytes) ==> bytes@.len() == 0,
    ensures
        serves_in_order(
            w.clients.insert(slot, ClientView { closed: true, ..w.clients[slot] }),
            w.events,
            w.to_close,
            w.sent_to_apply,
            next,
            action,
        ),
{
    lemma_serving_in_order(
        w.with(slot, ClientView { closed: true, ..w.clients[slot] }),
        next,
        action,
    );
}

/// What was read is put behind what the client has sent before, and a pass
/// begins over all of it. What the pass asks for is asked for; a pass that is
/// over at once leaves the bytes with the client, and what was reported behind
/// it is served.
pub proof fn law_a_read_is_parsed_behind_what_came_before<R>(
    w: LoopView,
    slot: u64,
    bytes: Vec<u8>,
    more: ClientView,
    next: LoopView,
    action: LoopAction<R>,
)
    requires
        w.state == (LoopState::Reading { slot }),
        loop_moves(w, LoopEvent::<R>::Read(Some(bytes)), next, action),
        bytes@.len() > 0,
        more == (ClientView {
            unparsed: w.clients[slot].unparsed + bytes@,
            ..w.clients[slot]
        }),
    ensures
        exists|state: PassState, after: ClientView, asked: PassAction<R>|
            {
                &&& #[trigger] pass_parses(slot, more, w.limit, state, after, asked)
                &&& pass_is_followed(w, slot, state, 0, after, asked, next, action)
            },
{
    let (state, after, asked) = choose|state: PassState, after: ClientView, asked: PassAction<R>|
     #[trigger]
        pass_parses(slot, more, w.limit, state, after, asked) && pass_goes_on(
            w,
            slot,
            state,
            0,
            after,
            asked,
            next,
            action,
        );
    lemma_pass_is_followed(w, slot, state, 0, after, asked, next, action);
    assert(pass_parses(slot, more, w.limit, state, after, asked));
}

/// What a pass asks for is asked for, with its client as the pass left it. When
/// the pass is over, what was reported behind it is served, and the apply
/// thread is to be woken if the pass or one before it has pushed something.
pub proof fn law_a_pass_is_followed<R>(
    w: LoopView,
    slot: u64,
    pass: ParsePass,
    event: PassEvent<R>,
    next: LoopView,
    action: LoopAction<R>,
)
    requires
        w.state == (LoopState::Parsing { slot, pass }),
        loop_moves(w, LoopEvent::Pass(event), next, action),
    ensures
        exists|state: PassState, sent: usize, after: ClientView, asked: PassAction<R>|
            {
                &&& #[trigger] pass_moves(
                    slot,
                    w.limit,
                    pass.state(),
                    pass.sent(),
                    w.clients[slot],
                    event,
                    state,
                    sent,
                    after,
                    asked,
                )
                &&& pass_is_followed(w, slot, state, sent, after, asked, next, action)
            },
{
    let (state, sent, after, asked) = choose|
        state: PassState,
        sent: usize,
        after: ClientView,
        asked: PassAction<R>,
    | #[trigger]
        pass_moves(
            slot,
            w.limit,
            pass.state(),
            pass.sent(),
            w.clients[slot],
            event,
            state,
            sent,
            after,
            asked,
        ) && pass_goes_on(w, slot, state, sent, after, asked, next, action);
    lemma_pass_is_followed(w, slot, state, sent, after, asked, next, action);
    assert(pass_moves(
        slot,
        w.limit,
        pass.state(),
        pass.sent(),
        w.clients[slot],
        event,
        state,
        sent,
        after,
        asked,
    ));
}

/// Whether a worker does what a pass asks for.
pub open spec fn pass_is_followed<R>(
    w: LoopView,
    slot: u64,
    state: PassState,
    sent: usize,
    after: ClientView,
    asked: PassAction<R>,
    next: LoopView,
    action: LoopAction<R>,
) -> bool {
    if asked is Done {
        serves_in_order(
            w.clients.insert(slot, after),
            w.events,
            w.to_close,
            w.sent_to_apply || sent > 0,
            next,
            action,
        )
    } else {
        &&& action == (LoopAction::Pass { slot, action: asked })
        &&& next.state matches LoopState::Parsing { slot: in_slot, pass }
        &&& in_slot == slot
        &&& pass.slot() == slot
        &&& pass.state() == state
        &&& pass.sent() == sent
        &&& next.clients == w.clients.insert(slot, after)
        &&& next.events == w.events
        &&& next.to_close == w.to_close
        &&& next.sent_to_apply == w.sent_to_apply
    }
}

proof fn lemma_pass_is_followed<R>(
    w: LoopView,
    slot: u64,
    state: PassState,
    sent: usize,
    after: ClientView,
    asked: PassAction<R>,
    next: LoopView,
    action: LoopAction<R>,
)
    requires
        pass_goes_on(w, slot, state, sent, after, asked, next, action),
    ensures
        pass_is_followed(w, slot, state, sent, after, asked, next, action),
{
    if asked is Done {
        lemma_serving_in_order(
            LoopView { sent_to_apply: w.sent_to_apply || sent > 0, ..w.with(slot, after) },
            next,
            action,
        );
    }
}

/// A queue is written until it is empty, and then its socket is waited for no
/// more. A socket that takes nothing or fails is left alone: its connection is
/// closed where it was to be closed, and otherwise what was reported behind it
/// is served.
pub proof fn law_a_queue_is_written_until_it_is_empty<R>(
    w: LoopView,
    slot: u64,
    closing: bool,
    taken: Option<usize>,
    next: LoopView,
    action: LoopAction<R>,
)
    requires
        w.state == (LoopState::Flushing { slot, closing }),
        loop_moves(w, LoopEvent::<R>::Wrote(taken), next, action),
        taken matches Some(n) ==> n <= w.clients[slot].unwritten.len(),
    ensures
        taken matches Some(n) ==> n == w.clients[slot].unwritten.len() ==> action
            == LoopAction::<R>::Disarm(slot) && next.state == (LoopState::Disarming {
            slot,
            closing,
        }),
        taken matches Some(n) ==> 0 < n < w.clients[slot].unwritten.len() ==> action
            == LoopAction::<R>::Write(slot) && next.state == w.state,
        taken is None || (taken == Some(0usize) && w.clients[slot].unwritten.len() > 0) ==> {
            &&& closing ==> action == LoopAction::<R>::Close(slot) && !next.clients.contains_key(
                slot,
            ) && next.leaving == w.leaving
            &&& !closing ==> serves_in_order(
                w.clients.insert(
                    slot,
                    ClientView {
                        closed: w.clients[slot].closed || taken is None,
                        ..w.clients[slot]
                    },
                ),
                w.events,
                w.to_close,
                w.sent_to_apply,
                next,
                action,
            )
        },
{
    let client = w.clients[slot];
    if !closing && (taken is None || (taken == Some(0usize) && client.unwritten.len() > 0)) {
        let after = ClientView { closed: client.closed || taken is None, ..client };
        assert(client.unwritten.skip(0) =~= client.unwritten);
        lemma_serving_in_order(w.with(slot, after), next, action);
    }
}

/// When a socket is waited for no more its connection is closed where it was to
/// be closed, and otherwise what was reported behind it is served.
pub proof fn law_an_empty_queue_is_left<R>(
    w: LoopView,
    slot: u64,
    closing: bool,
    next: LoopView,
    action: LoopAction<R>,
)
    requires
        w.state == (LoopState::Disarming { slot, closing }),
        loop_moves(w, LoopEvent::<R>::Done, next, action),
    ensures
        closing ==> action == LoopAction::<R>::Close(slot) && next.clients == w.clients.remove(slot)
            && next.leaving == w.leaving,
        !closing ==> serves_in_order(
            w.clients,
            w.events,
            w.to_close,
            w.sent_to_apply,
            next,
            action,
        ),
{
    if !closing {
        lemma_serving_in_order(w, next, action);
    }
}

/// Connections are closed one after the other: those that were reported closed,
/// in that order, and then those that are marked and on the list, from the
/// first on, each after what is queued for it has been written.
pub proof fn law_connections_are_closed_one_by_one<R>(
    w: LoopView,
    next: LoopView,
    action: LoopAction<R>,
)
    requires
        w.state is Waking || w.state is Closing,
        loop_moves(w, LoopEvent::<R>::Done, next, action),
    ensures
        w.state != (LoopState::Closing { marked: true }) && w.to_close.len() > 0 ==> action
            == LoopAction::<R>::Close(w.to_close[0]) && next.clients == w.clients.remove(
            w.to_close[0],
        ) && next.to_close == w.to_close.skip(1) && next.state == (LoopState::Closing {
            marked: false,
        }),
        w.state != (LoopState::Closing { marked: true }) && w.to_close.len() == 0 ==> is_leaving(
            w.clients,
            next,
            action,
        ),
        w.state == (LoopState::Closing { marked: true }) && w.leaving.len() == 0
            ==> action is CheckStop && next.clients == w.clients,
        w.state == (LoopState::Closing { marked: true }) && w.leaving.len() > 0 ==> {
            let slot = w.leaving[0];
            let owed = w.clients.contains_key(slot) && w.clients[slot].unwritten.len() > 0;
            &&& next.leaving == w.leaving.skip(1)
            &&& owed ==> action == LoopAction::<R>::Write(slot) && next.clients == w.clients
                && next.state == (LoopState::Flushing { slot, closing: true })
            &&& !owed ==> action == LoopAction::<R>::Close(slot) && next.clients
                == w.clients.remove(slot) && next.state == (LoopState::Closing { marked: true })
        },
{
    if w.state != (LoopState::Closing { marked: true }) && w.to_close.len() == 0 {
        lemma_leaving_begins(w, next, action);
    }
}

/// Whatever comes of what a worker asks for can be told it: any client and any
/// response, whatever was polled, as much as was read where there is room for
/// it, as many bytes as were queued or fewer, and whatever the parsing can be
/// told.
pub proof fn law_a_worker_can_be_told_what_it_asked_for<R>(
    w: LoopView,
    event: LoopEvent<R>,
    next: LoopView,
    action: LoopAction<R>,
)
    requires
        w.wf(),
        w.accepts(event),
        loop_moves(w, event, next, action),
    ensures
        action is TakeClient ==> forall|taken: Option<(u64, WorkerProto)>| #[trigger]
            next.accepts(LoopEvent::<R>::ClientTaken(taken)),
        action is AddClient ==> forall|added: bool| #[trigger]
            next.accepts(LoopEvent::<R>::ClientAdded(added)),
        action is TakeJob ==> forall|taken: Option<u64>| #[trigger]
            next.accepts(LoopEvent::<R>::JobTaken(taken)),
        action is Encode ==> next.accepts(LoopEvent::<R>::Encoded),
        action is Poll ==> forall|polled: Option<VecDeque<IoEvent>>| #[trigger]
            next.accepts(LoopEvent::<R>::Polled(polled)),
        action matches LoopAction::Read(slot) ==> forall|read: Option<Vec<u8>>|
            (read matches Some(bytes) ==> next.clients[slot].unparsed.len() + bytes@.len()
                <= MAX_BUFFER_BYTES) ==> #[trigger] next.accepts(LoopEvent::<R>::Read(read)),
        action matches LoopAction::Pass { slot, action: asked } ==> (
        next.state matches LoopState::Parsing { slot: in_slot, pass } && in_slot == slot && forall|
            told: PassEvent<R>,
        |
            pass.state().accepts(told, next.clients[slot], pass.sent()) ==> #[trigger] next.accepts(
                LoopEvent::Pass(told),
            )),
        action matches LoopAction::Write(slot) ==> forall|taken: Option<usize>|
            (taken matches Some(n) ==> n <= next.clients[slot].unwritten.len())
                ==> #[trigger] next.accepts(LoopEvent::<R>::Wrote(taken)),
        action is Arm || action is Disarm || action is WakeApply || action is Close
            ==> next.accepts(LoopEvent::<R>::Done),
        action is CheckStop ==> forall|stop: bool| #[trigger]
            next.accepts(LoopEvent::<R>::Stop(stop)),
{
    lemma_state_of_action(w, event, next, action);
}

/// The state that goes with an action.
proof fn lemma_state_of_action<R>(
    w: LoopView,
    event: LoopEvent<R>,
    next: LoopView,
    action: LoopAction<R>,
)
    requires
        w.wf(),
        w.accepts(event),
        loop_moves(w, event, next, action),
    ensures
        match action {
            LoopAction::TakeClient => next.state is TakingClients,
            LoopAction::AddClient => next.state is Adding,
            LoopAction::TakeJob => next.state is TakingJobs,
            LoopAction::Encode { .. } => next.state is Encoding,
            LoopAction::Arm(_) => next.state is Arming,
            LoopAction::Poll => next.state is Polling,
            LoopAction::Read(slot) => next.state == (LoopState::Reading { slot }),
            LoopAction::Pass { slot, .. } => next.state matches LoopState::Parsing {
                slot: in_slot,
                ..
            } && in_slot == slot,
            LoopAction::Write(slot) => next.state matches LoopState::Flushing {
                slot: in_slot,
                ..
            } && in_slot == slot,
            LoopAction::Disarm(_) => next.state is Disarming,
            LoopAction::WakeApply => next.state is Waking,
            LoopAction::Close(_) => next.state is Closing,
            LoopAction::CheckStop => next.state is CheckingStop,
            LoopAction::Stop => next.state is Stopped,
        },
{
    match (w.state, event) {
        (LoopState::Polling, LoopEvent::Polled(Some(events))) => {
            lemma_serving_is_good(
                LoopView {
                    events: events@,
                    to_close: Seq::empty(),
                    leaving: Seq::empty(),
                    sent_to_apply: false,
                    ..w
                },
                next,
                action,
            );
        },
        (LoopState::Reading { slot }, LoopEvent::Read(read)) => {
            let client = w.clients[slot];
            match read {
                Some(bytes) if bytes@.len() > 0 => {
                    let more = ClientView { unparsed: client.unparsed + bytes@, ..client };
                    let (state, after, asked) = choose|
                        state: PassState,
                        after: ClientView,
                        asked: PassAction<R>,
                    | #[trigger]
                        pass_parses(slot, more, w.limit, state, after, asked) && pass_goes_on(
                            w,
                            slot,
                            state,
                            0,
                            after,
                            asked,
                            next,
                            action,
                        );
                    if asked is Done {
                        lemma_serving_is_good(w.with(slot, after), next, action);
                    }
                },
                _ => {
                    lemma_serving_is_good(
                        w.with(slot, ClientView { closed: true, ..client }),
                        next,
                        action,
                    );
                },
            }
        },
        (LoopState::Parsing { slot, pass }, LoopEvent::Pass(step)) => {
            let (state, sent, after, asked) = choose|
                state: PassState,
                sent: usize,
                after: ClientView,
                asked: PassAction<R>,
            | #[trigger]
                pass_moves(
                    slot,
                    w.limit,
                    pass.state(),
                    pass.sent(),
                    w.clients[slot],
                    step,
                    state,
                    sent,
                    after,
                    asked,
                ) && pass_goes_on(w, slot, state, sent, after, asked, next, action);
            if asked is Done {
                lemma_serving_is_good(
                    LoopView {
                        sent_to_apply: w.sent_to_apply || sent > 0,
                        ..w.with(slot, after)
                    },
                    next,
                    action,
                );
            }
        },
        (LoopState::Flushing { slot, closing }, LoopEvent::Wrote(taken)) => {
            let client = w.clients[slot];
            let after = match taken {
                Some(n) => w.with(
                    slot,
                    ClientView { unwritten: client.unwritten.skip(n as int), ..client },
                ),
                None => w.with(slot, ClientView { closed: true, ..client }),
            };
            if !closing && flush_over(after, slot, closing, next, action) {
                lemma_serving_is_good(after, next, action);
            }
        },
        (LoopState::Disarming { slot, closing }, LoopEvent::Done) => {
            if !closing {
                lemma_serving_is_good(w, next, action);
            }
        },
        (LoopState::Waking, LoopEvent::Done) => {
            lemma_leaving_is_good(w, next, action);
        },
        (LoopState::Closing { .. }, LoopEvent::Done) => {
            lemma_leaving_is_good(w, next, action);
        },
        _ => {},
    }
}

} // verus!
