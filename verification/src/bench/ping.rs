//! Pings on a fixed schedule, or one after the other.
//!
//! The latency of a ping is counted from the time at which it was due, not from
//! the time at which it was sent: where the server is slow and pings queue up,
//! the time in the queue is part of what is measured.
//!
//! Without a schedule pings are sent as fast as possible in a closed loop: each
//! one waits for the answer to the one before.

use super::{elapsed_micros, micros_between, Latencies, MAX_LATENCY_MICROS};
use crate::buffer::{content, MAX_BUFFER_BYTES};
use crate::histogram::{from_one_to, law_the_range_is_covered, no_samples, sample, Settings};
use crate::wire::{after_first, decode_frame, first_frame, law_decoding_in_bytes, FrameError};
use bytes::BytesMut;
use vstd::multiset::Multiset;
use vstd::prelude::*;

verus! {

/// The number of decimal digits that are kept of a latency.
pub const HIST_SIGFIGS: u8 = 3;

/// The largest frame that an answer may be.
pub const MAX_FRAME_BYTES: u32 = 16_384;

// ---------------------------------------------------------------------------
// The schedule
// ---------------------------------------------------------------------------

/// Says when each ping is due.
pub struct Pacer {
    next: u64,
    interval: Option<u64>,
}

impl Pacer {
    /// When the next ping is due, where there is a schedule.
    pub closed spec fn next(self) -> u64 {
        self.next
    }

    /// The time between two pings; none where there is no schedule.
    pub closed spec fn interval(self) -> Option<u64> {
        self.interval
    }

    /// The first ping is due at `start`.
    pub fn new(start: u64, interval: Option<u64>) -> (r: Pacer)
        ensures
            r.next() == start,
            r.interval() == interval,
    {
        Pacer { next: start, interval }
    }

    /// How long to wait for the next ping.
    pub fn wait(&self, now: u64) -> (r: u64)
        ensures
            r == if self.interval() is Some && now < self.next() {
                self.next() - now
            } else {
                0
            },
    {
        if self.interval.is_some() && now < self.next {
            self.next - now
        } else {
            0
        }
    }

    /// Whether the schedule goes on behind the next ping.
    pub fn can_take(&self) -> (r: bool)
        ensures
            r == (self.interval() matches Some(interval) ==> self.next() + interval <= u64::MAX),
    {
        match self.interval {
            Some(interval) => interval <= u64::MAX - self.next,
            None => true,
        }
    }

    /// When the ping that is sent now was due. A ping without a schedule is due
    /// when it is sent.
    pub fn take(&mut self, now: u64) -> (r: u64)
        requires
            old(self).interval() matches Some(interval) ==> old(self).next() + interval <= u64::MAX,
        ensures
            final(self).interval() == old(self).interval(),
            match old(self).interval() {
                Some(interval) => r == old(self).next() && final(self).next() == old(self).next()
                    + interval,
                None => r == now && final(self).next() == old(self).next(),
            },
    {
        match self.interval {
            Some(interval) => {
                let scheduled = self.next;
                self.next = self.next + interval;
                scheduled
            },
            None => now,
        }
    }
}

// ---------------------------------------------------------------------------
// The pings
// ---------------------------------------------------------------------------

/// Where the sender of the pings stands.
#[derive(Debug, Clone, Copy, PartialEq, Eq, Structural)]
pub enum SenderState {
    /// The time is taken to see whether it is up.
    Checking,
    /// The time is taken to see when the next ping is due.
    Pacing,
    /// The next ping is not due yet.
    Sleeping,
    /// The receiver is being told when a ping was due.
    Reporting,
    /// The ping is being written.
    Writing,
    /// The answer to the ping is awaited.
    Awaiting,
    /// The sender is done.
    Done,
}

/// What has happened.
#[derive(Debug, Clone, Copy, PartialEq, Eq, Structural)]
pub enum SenderEvent {
    /// The time was taken.
    Now(u64),
    /// The time to wait is over.
    Slept,
    /// Whether what was asked for was done.
    Finished(bool),
    /// Whether the ping was answered; not where no answer will come any more.
    Answered(bool),
}

/// What is to be done next.
#[derive(Debug, Clone, Copy, PartialEq, Eq, Structural)]
pub enum SenderAction {
    /// Take the time.
    TakeTime,
    /// Wait for this many nanoseconds.
    Sleep(u64),
    /// Tell the receiver that a ping was due at this time.
    Report(u64),
    /// Write a ping.
    Write,
    /// Wait until the receiver has the answer to the ping.
    AwaitAnswer,
    /// Nothing: the sender is done.
    Done,
}

/// What a [`Sender`] says.
pub struct SenderView {
    /// When the next ping is due, where there is a schedule.
    pub next: u64,
    /// The time between two pings; none where each one waits for the answer to
    /// the one before.
    pub interval: Option<u64>,
    /// When the last ping may be sent.
    pub end: u64,
    /// Where the sender stands.
    pub state: SenderState,
}

impl SenderView {
    /// The same sender in another state.
    pub open spec fn at(self, state: SenderState) -> SenderView {
        SenderView { state, ..self }
    }

    /// Whether the schedule goes on behind the next ping.
    pub open spec fn goes_on(self) -> bool {
        self.interval matches Some(interval) ==> self.next + interval <= u64::MAX
    }

    /// Whether `event` can happen.
    pub open spec fn accepts(self, event: SenderEvent) -> bool {
        match self.state {
            SenderState::Checking => event is Now,
            SenderState::Pacing => event is Now && self.goes_on(),
            SenderState::Sleeping => event is Slept && self.goes_on(),
            SenderState::Reporting => event is Finished,
            SenderState::Writing => event is Finished,
            SenderState::Awaiting => event is Answered,
            SenderState::Done => false,
        }
    }

    /// The sender once it has taken the next ping of its schedule.
    pub open spec fn scheduled(self, interval: u64) -> SenderView {
        SenderView { next: (self.next + interval) as u64, state: SenderState::Reporting, ..self }
    }
}

/// Whether `event` takes a sender from `v` to `next` and asks for `action`.
/// Without a schedule, a ping that was written is waited for.
pub open spec fn sender_moves(
    v: SenderView,
    event: SenderEvent,
    next: SenderView,
    action: SenderAction,
) -> bool {
    match (v.state, event) {
        (SenderState::Checking, SenderEvent::Now(now)) => if now < v.end {
            next == v.at(SenderState::Pacing) && action == SenderAction::TakeTime
        } else {
            next == v.at(SenderState::Done) && action == SenderAction::Done
        },
        (SenderState::Pacing, SenderEvent::Now(now)) => match v.interval {
            Some(interval) => if now < v.next {
                &&& next == v.at(SenderState::Sleeping)
                &&& action == SenderAction::Sleep((v.next - now) as u64)
            } else {
                next == v.scheduled(interval) && action == SenderAction::Report(v.next)
            },
            None => {
                next == v.at(SenderState::Reporting) && action == SenderAction::Report(now)
            },
        },
        (SenderState::Sleeping, SenderEvent::Slept) => {
            &&& v.interval matches Some(interval)
            &&& next == v.scheduled(interval)
            &&& action == SenderAction::Report(v.next)
        },
        (SenderState::Reporting, SenderEvent::Finished(true)) => {
            next == v.at(SenderState::Writing) && action == SenderAction::Write
        },
        (SenderState::Writing, SenderEvent::Finished(true)) => if v.interval is Some {
            next == v.at(SenderState::Checking) && action == SenderAction::TakeTime
        } else {
            next == v.at(SenderState::Awaiting) && action == SenderAction::AwaitAnswer
        },
        (SenderState::Awaiting, SenderEvent::Answered(true)) => {
            next == v.at(SenderState::Checking) && action == SenderAction::TakeTime
        },
        _ => next == v.at(SenderState::Done) && action == SenderAction::Done,
    }
}

/// The sender of the pings on a connection.
pub struct Sender {
    pacer: Pacer,
    end: u64,
    state: SenderState,
}

impl View for Sender {
    type V = SenderView;

    closed spec fn view(&self) -> SenderView {
        SenderView {
            next: self.pacer.next(),
            interval: self.pacer.interval(),
            end: self.end,
            state: self.state,
        }
    }
}

impl Sender {
    /// Sends pings until `end`, the first one at `start` where there is a
    /// schedule.
    pub fn new(start: u64, interval: Option<u64>, end: u64) -> (r: Sender)
        ensures
            r@ == (SenderView { next: start, interval, end, state: SenderState::Checking }),
            r.wf(),
    {
        Sender { pacer: Pacer::new(start, interval), end, state: SenderState::Checking }
    }

    /// What holds of every sender: one with a schedule waits for the time, and
    /// one without for answers.
    pub open spec fn wf(self) -> bool {
        &&& self@.state is Sleeping ==> self@.interval is Some
        &&& self@.state is Awaiting ==> self@.interval is None
    }

    /// Whether `event` can happen.
    pub fn accepts(&self, event: &SenderEvent) -> (r: bool)
        ensures
            r == self@.accepts(*event),
    {
        match (self.state, event) {
            (SenderState::Checking, SenderEvent::Now(_)) => true,
            (SenderState::Pacing, SenderEvent::Now(_)) => self.pacer.can_take(),
            (SenderState::Sleeping, SenderEvent::Slept) => self.pacer.can_take(),
            (SenderState::Reporting, SenderEvent::Finished(_)) => true,
            (SenderState::Writing, SenderEvent::Finished(_)) => true,
            (SenderState::Awaiting, SenderEvent::Answered(_)) => true,
            _ => false,
        }
    }

    /// Takes note of what has happened, and says what is to be done.
    pub fn step(&mut self, event: SenderEvent) -> (action: SenderAction)
        requires
            old(self).wf(),
            old(self)@.accepts(event),
        ensures
            sender_moves(old(self)@, event, final(self)@, action),
            final(self).wf(),
    {
        match (self.state, event) {
            (SenderState::Checking, SenderEvent::Now(now)) if now < self.end => {
                self.state = SenderState::Pacing;
                SenderAction::TakeTime
            },
            (SenderState::Pacing, SenderEvent::Now(now)) => {
                let wait = self.pacer.wait(now);
                if wait > 0 {
                    self.state = SenderState::Sleeping;
                    return SenderAction::Sleep(wait);
                }
                self.state = SenderState::Reporting;
                SenderAction::Report(self.pacer.take(now))
            },
            (SenderState::Sleeping, SenderEvent::Slept) => {
                self.state = SenderState::Reporting;
                SenderAction::Report(self.pacer.take(0))
            },
            (SenderState::Reporting, SenderEvent::Finished(true)) => {
                self.state = SenderState::Writing;
                SenderAction::Write
            },
            (SenderState::Writing, SenderEvent::Finished(true)) => {
                if self.pacer.interval.is_some() {
                    self.state = SenderState::Checking;
                    SenderAction::TakeTime
                } else {
                    self.state = SenderState::Awaiting;
                    SenderAction::AwaitAnswer
                }
            },
            (SenderState::Awaiting, SenderEvent::Answered(true)) => {
                self.state = SenderState::Checking;
                SenderAction::TakeTime
            },
            _ => {
                self.state = SenderState::Done;
                SenderAction::Done
            },
        }
    }
}

/// The times at which pings were due, in order.
pub open spec fn reports(actions: Seq<SenderAction>) -> Seq<u64>
    decreases actions.len(),
{
    if actions.len() == 0 {
        Seq::empty()
    } else {
        let before = reports(actions.drop_last());
        match actions.last() {
            SenderAction::Report(due) => before.push(due),
            _ => before,
        }
    }
}

/// Whether `points`, `events` and `actions` are a run of a sender.
pub open spec fn sender_runs(
    points: Seq<SenderView>,
    events: Seq<SenderEvent>,
    actions: Seq<SenderAction>,
) -> bool {
    &&& points.len() == events.len() + 1
    &&& actions.len() == events.len()
    &&& forall|i: int|
        0 <= i < events.len() ==> points[i].accepts(#[trigger] events[i]) && sender_moves(
            points[i],
            events[i],
            points[i + 1],
            actions[i],
        )
}

proof fn lemma_schedule(
    points: Seq<SenderView>,
    events: Seq<SenderEvent>,
    actions: Seq<SenderAction>,
    interval: u64,
)
    requires
        sender_runs(points, events, actions),
        points[0].interval == Some(interval),
    ensures
        points.last().interval == Some(interval),
        points.last().next == points[0].next + reports(actions).len() * interval,
        forall|k: int|
            0 <= k < reports(actions).len() ==> #[trigger] reports(actions)[k] == points[0].next + k
                * interval,
    decreases events.len(),
{
    if events.len() == 0 {
        assert(0 * interval == 0);
    } else {
        let n = events.len() - 1;
        assert forall|i: int| 0 <= i < events.drop_last().len() implies points.drop_last()[i].accepts(
            #[trigger] events.drop_last()[i],
        ) && sender_moves(
            points.drop_last()[i],
            events.drop_last()[i],
            points.drop_last()[i + 1],
            actions.drop_last()[i],
        ) by {
            assert(points[i].accepts(events[i]));
        }
        lemma_schedule(points.drop_last(), events.drop_last(), actions.drop_last(), interval);
        assert(points.drop_last().last() == points[n]);
        assert(points[n].accepts(events[n]));
        let m = reports(actions.drop_last()).len();
        assert(m * interval + interval == (m + 1) * interval) by (nonlinear_arith);
    }
}

/// The ping with `k` pings before it is due `k` intervals after the first,
/// however late any ping is sent.
pub proof fn law_schedule_does_not_slip(
    points: Seq<SenderView>,
    events: Seq<SenderEvent>,
    actions: Seq<SenderAction>,
    interval: u64,
    k: int,
)
    requires
        sender_runs(points, events, actions),
        points[0].interval == Some(interval),
        0 <= k < reports(actions).len(),
    ensures
        reports(actions)[k] == points[0].next + k * interval,
{
    lemma_schedule(points, events, actions, interval);
}

/// How many pings have been written, or are being written.
pub open spec fn pings(actions: Seq<SenderAction>) -> nat
    decreases actions.len(),
{
    if actions.len() == 0 {
        0
    } else {
        pings(actions.drop_last()) + if actions.last() is Write {
            1nat
        } else {
            0
        }
    }
}

/// How many answers a sender has heard of.
pub open spec fn answers(events: Seq<SenderEvent>) -> nat
    decreases events.len(),
{
    if events.len() == 0 {
        0
    } else {
        answers(events.drop_last()) + if events.last() == SenderEvent::Answered(true) {
            1nat
        } else {
            0
        }
    }
}

proof fn lemma_closed_loop(
    points: Seq<SenderView>,
    events: Seq<SenderEvent>,
    actions: Seq<SenderAction>,
)
    requires
        sender_runs(points, events, actions),
        points[0].interval is None,
        points[0].state is Checking,
    ensures
        points.last().interval is None,
        answers(events) <= pings(actions) <= answers(events) + 1,
        match points.last().state {
            SenderState::Writing => pings(actions) == answers(events) + 1,
            SenderState::Awaiting => pings(actions) == answers(events) + 1,
            SenderState::Done => true,
            _ => pings(actions) == answers(events),
        },
    decreases events.len(),
{
    if events.len() > 0 {
        let n = events.len() - 1;
        assert forall|i: int| 0 <= i < events.drop_last().len() implies points.drop_last()[i].accepts(
            #[trigger] events.drop_last()[i],
        ) && sender_moves(
            points.drop_last()[i],
            events.drop_last()[i],
            points.drop_last()[i + 1],
            actions.drop_last()[i],
        ) by {
            assert(points[i].accepts(events[i]));
        }
        lemma_closed_loop(points.drop_last(), events.drop_last(), actions.drop_last());
        assert(points.drop_last().last() == points[n]);
        assert(points[n].accepts(events[n]));
    }
}

/// Without a schedule at most one ping is unanswered, at any time: a ping is
/// written when every one before it has been answered.
pub proof fn law_at_most_one_ping_is_unanswered(
    points: Seq<SenderView>,
    events: Seq<SenderEvent>,
    actions: Seq<SenderAction>,
)
    requires
        sender_runs(points, events, actions),
        points[0].interval is None,
        points[0].state is Checking,
    ensures
        answers(events) <= pings(actions) <= answers(events) + 1,
        events.len() > 0 && actions.last() is Write ==> pings(actions.drop_last()) == answers(
            events,
        ),
{
    lemma_closed_loop(points, events, actions);
    if events.len() > 0 && actions.last() is Write {
        let n = events.len() - 1;
        assert(points[n].accepts(events[n]));
    }
}

/// A ping is sent when the receiver has been told of it.
pub proof fn law_pings_are_reported_before_they_are_sent(
    v: SenderView,
    event: SenderEvent,
    next: SenderView,
)
    requires
        v.accepts(event),
        sender_moves(v, event, next, SenderAction::Write),
    ensures
        v.state is Reporting,
        event == SenderEvent::Finished(true),
{
}

// ---------------------------------------------------------------------------
// The answers
// ---------------------------------------------------------------------------

/// Where the receiver of the answers stands.
#[derive(Debug, Clone, Copy, PartialEq, Eq, Structural)]
pub enum ReceiverState {
    /// The next ping is to be taken from its channel.
    Idle,
    /// The answer to a ping is awaited that was due at this time.
    Awaiting { scheduled: u64 },
    /// The answer has arrived.
    Answered { scheduled: u64 },
    /// The receiver is done.
    Done,
}

/// What has happened.
pub enum ReceiverEvent {
    /// A ping was due at this time; none where no more pings will be sent.
    Scheduled(Option<u64>),
    /// Bytes were read, or none where the connection has ended or failed.
    Received(Vec<u8>),
    /// The time, where latencies are recorded already.
    Clock(Option<u64>),
}

/// What is to be done next.
#[derive(Debug, Clone, Copy, PartialEq, Eq)]
pub enum ReceiverAction {
    /// An answer is done with: let a sender know that waits for it, and take
    /// the next ping from its channel.
    TakeScheduled,
    /// Read from the connection.
    Read,
    /// Take the time, where latencies are recorded already.
    TakeTime,
    /// Nothing: the receiver is done.
    Done,
    /// Nothing: an answer is malformed.
    Fail(FrameError),
}

/// What a [`Receiver`] says.
pub struct ReceiverView {
    /// What was read and is no answer yet.
    pub unread: Seq<u8>,
    /// The latencies so far.
    pub recorded: Multiset<u64>,
    /// What the histogram of the latencies was made with.
    pub settings: Settings,
    /// Where the receiver stands.
    pub state: ReceiverState,
}

/// A latency between one microsecond and the highest that is measured.
pub open spec fn clamped(micros: u64) -> u64 {
    if micros < 1 {
        1
    } else if micros > MAX_LATENCY_MICROS {
        MAX_LATENCY_MICROS
    } else {
        micros
    }
}

impl ReceiverView {
    /// Whether `event` can happen.
    pub open spec fn accepts(self, event: ReceiverEvent) -> bool {
        match event {
            ReceiverEvent::Scheduled(_) => self.state is Idle,
            ReceiverEvent::Received(bytes) => self.state is Awaiting && self.unread.len()
                + bytes@.len() <= MAX_BUFFER_BYTES,
            ReceiverEvent::Clock(_) => self.state is Answered && self.recorded.len() < u64::MAX,
        }
    }

    /// What holds of every receiver.
    pub open spec fn wf(self) -> bool {
        &&& self.settings == from_one_to(MAX_LATENCY_MICROS, HIST_SIGFIGS)
        &&& self.recorded.len() <= u64::MAX
    }

    /// The same receiver in another state.
    pub open spec fn at(self, state: ReceiverState) -> ReceiverView {
        ReceiverView { state, ..self }
    }
}

/// Whether the receiver goes on like this with the answer to a ping.
pub open spec fn awaits(
    v: ReceiverView,
    scheduled: u64,
    next: ReceiverView,
    action: ReceiverAction,
) -> bool {
    match first_frame(v.unread, MAX_FRAME_BYTES) {
        Ok(Some(_)) => {
            &&& next == (ReceiverView {
                unread: after_first(v.unread, MAX_FRAME_BYTES),
                state: ReceiverState::Answered { scheduled },
                ..v
            })
            &&& action == ReceiverAction::TakeTime
        },
        Ok(None) => {
            &&& next == v.at(ReceiverState::Awaiting { scheduled })
            &&& action == ReceiverAction::Read
        },
        Err(e) => next == v.at(ReceiverState::Done) && action == ReceiverAction::Fail(e),
    }
}

/// Whether `event` takes a receiver from `v` to `next` and asks for `action`.
pub open spec fn receiver_moves(
    v: ReceiverView,
    event: ReceiverEvent,
    next: ReceiverView,
    action: ReceiverAction,
) -> bool {
    match (v.state, event) {
        (ReceiverState::Idle, ReceiverEvent::Scheduled(Some(scheduled))) => awaits(
            v,
            scheduled,
            next,
            action,
        ),
        (ReceiverState::Idle, ReceiverEvent::Scheduled(None)) => {
            next == v.at(ReceiverState::Done) && action == ReceiverAction::Done
        },
        (ReceiverState::Awaiting { scheduled }, ReceiverEvent::Received(bytes)) => {
            if bytes@.len() > 0 {
                awaits(
                    ReceiverView { unread: v.unread + bytes@, ..v },
                    scheduled,
                    next,
                    action,
                )
            } else {
                next == v.at(ReceiverState::Done) && action == ReceiverAction::Done
            }
        },
        (ReceiverState::Answered { scheduled }, ReceiverEvent::Clock(clock)) => {
            &&& next == (ReceiverView {
                recorded: match clock {
                    Some(now) => v.recorded.insert(
                        sample(v.settings, clamped(micros_between(scheduled, now))),
                    ),
                    None => v.recorded,
                },
                state: ReceiverState::Idle,
                ..v
            })
            &&& action == ReceiverAction::TakeScheduled
        },
        _ => false,
    }
}

/// The receiver of the answers on a connection.
pub struct Receiver {
    buf: BytesMut,
    latencies: Latencies,
    state: ReceiverState,
}

impl View for Receiver {
    type V = ReceiverView;

    closed spec fn view(&self) -> ReceiverView {
        ReceiverView {
            unread: content(self.buf),
            recorded: self.latencies.recorded(),
            settings: self.latencies.settings(),
            state: self.state,
        }
    }
}

impl Receiver {
    /// Starts with the first ping.
    pub fn new() -> (r: Receiver)
        ensures
            r@ == (ReceiverView {
                unread: Seq::empty(),
                recorded: no_samples(),
                settings: from_one_to(MAX_LATENCY_MICROS, HIST_SIGFIGS),
                state: ReceiverState::Idle,
            }),
            r@.wf(),
    {
        Receiver {
            buf: BytesMut::with_capacity(8 * 1024),
            latencies: Latencies::new(HIST_SIGFIGS),
            state: ReceiverState::Idle,
        }
    }

    /// The latencies.
    pub fn into_latencies(self) -> (r: Latencies)
        ensures
            r.recorded() == self@.recorded,
            r.settings() == self@.settings,
    {
        self.latencies
    }

    /// Whether `event` can happen.
    pub fn accepts(&self, event: &ReceiverEvent) -> (r: bool)
        requires
            self@.wf(),
        ensures
            r == self@.accepts(*event),
    {
        match (self.state, event) {
            (ReceiverState::Idle, ReceiverEvent::Scheduled(_)) => true,
            (ReceiverState::Awaiting { .. }, ReceiverEvent::Received(bytes)) => bytes.len()
                <= MAX_BUFFER_BYTES && self.buf.len() <= MAX_BUFFER_BYTES - bytes.len(),
            (ReceiverState::Answered { .. }, ReceiverEvent::Clock(_)) => self.latencies.has_room(1),
            _ => false,
        }
    }

    /// Goes on with the answer to a ping.
    fn await_answer(&mut self, scheduled: u64) -> (action: ReceiverAction)
        ensures
            awaits(old(self)@, scheduled, final(self)@, action),
    {
        match decode_frame(&mut self.buf, MAX_FRAME_BYTES) {
            Ok(Some(_)) => {
                self.state = ReceiverState::Answered { scheduled };
                ReceiverAction::TakeTime
            },
            Ok(None) => {
                self.state = ReceiverState::Awaiting { scheduled };
                ReceiverAction::Read
            },
            Err(e) => {
                self.state = ReceiverState::Done;
                ReceiverAction::Fail(e)
            },
        }
    }

    /// Takes note of what has happened, and says what is to be done.
    pub fn step(&mut self, event: ReceiverEvent) -> (action: ReceiverAction)
        requires
            old(self)@.wf(),
            old(self)@.accepts(event),
        ensures
            receiver_moves(old(self)@, event, final(self)@, action),
            final(self)@.wf(),
    {
        match (self.state, event) {
            (ReceiverState::Idle, ReceiverEvent::Scheduled(Some(scheduled))) => {
                self.await_answer(scheduled)
            },
            (ReceiverState::Awaiting { scheduled }, ReceiverEvent::Received(bytes)) => {
                if bytes.len() == 0 {
                    self.state = ReceiverState::Done;
                    return ReceiverAction::Done;
                }
                self.buf.extend_from_slice(bytes.as_slice());
                self.await_answer(scheduled)
            },
            (ReceiverState::Answered { scheduled }, ReceiverEvent::Clock(clock)) => {
                if let Some(now) = clock {
                    let micros = elapsed_micros(scheduled, now);
                    let micros = if micros < 1 {
                        1
                    } else if micros > MAX_LATENCY_MICROS {
                        MAX_LATENCY_MICROS
                    } else {
                        micros
                    };
                    proof {
                        law_the_range_is_covered(self@.settings, micros);
                    }
                    let _ = self.latencies.record(micros);
                }
                self.state = ReceiverState::Idle;
                ReceiverAction::TakeScheduled
            },
            _ => {
                self.state = ReceiverState::Done;
                ReceiverAction::Done
            },
        }
    }
}

/// A sender is let know of an answer when the whole answer has been read: the
/// step before has taken it out of what was read.
pub proof fn law_answers_are_read_before_they_are_told(
    v: ReceiverView,
    event: ReceiverEvent,
    read: ReceiverView,
    clock: ReceiverEvent,
    next: ReceiverView,
    action: ReceiverAction,
)
    requires
        v.accepts(event),
        receiver_moves(v, event, read, action),
        read.accepts(clock),
        receiver_moves(read, clock, next, ReceiverAction::TakeScheduled),
    ensures
        action == ReceiverAction::TakeTime,
        ({
            let all = match event {
                ReceiverEvent::Received(bytes) => v.unread + bytes@,
                _ => v.unread,
            };
            &&& first_frame(all, MAX_FRAME_BYTES) matches Ok(Some(_))
            &&& read.unread == after_first(all, MAX_FRAME_BYTES)
        }),
{
}

/// Nothing is recorded until recording has begun, and one latency for each
/// answer from then on.
pub proof fn law_warmup_is_not_recorded(
    v: ReceiverView,
    event: ReceiverEvent,
    next: ReceiverView,
    action: ReceiverAction,
)
    requires
        v.wf(),
        v.accepts(event),
        receiver_moves(v, event, next, action),
    ensures
        next.recorded.len() == v.recorded.len() + if event matches ReceiverEvent::Clock(Some(_)) {
            1nat
        } else {
            0
        },
{
}

/// An answer that comes between one microsecond and a minute after its ping was
/// due is recorded as that many whole microseconds; one that comes earlier as
/// one, and one that comes later as a minute. Nothing is recorded before
/// recording has begun, and nothing but answers.
pub proof fn law_latencies_count_from_the_schedule(
    v: ReceiverView,
    event: ReceiverEvent,
    next: ReceiverView,
    action: ReceiverAction,
)
    requires
        v.wf(),
        v.accepts(event),
        receiver_moves(v, event, next, action),
    ensures
        next.settings == v.settings,
        event matches ReceiverEvent::Clock(clock) ==> {
            &&& v.state matches ReceiverState::Answered { scheduled }
            &&& action is TakeScheduled
            &&& next.state is Idle
            &&& next.unread == v.unread
            &&& clock is None ==> next.recorded == v.recorded
            &&& clock matches Some(now) ==> {
                let late = now - scheduled;
                &&& 1_000 <= late < 60_000_000 * 1_000 ==> next.recorded == v.recorded.insert(
                    sample(v.settings, (late / 1_000) as u64),
                )
                &&& late < 1_000 ==> next.recorded == v.recorded.insert(sample(v.settings, 1))
                &&& late >= 60_000_000 * 1_000 ==> next.recorded == v.recorded.insert(
                    sample(v.settings, 60_000_000),
                )
            }
        },
        !(event is Clock) ==> next.recorded == v.recorded,
{
}

/// A ping is waited for until its answer is there: bytes that are read go behind
/// those before them, a whole answer of up to sixteen kibibytes is taken out as
/// soon as it is there, and while it is not more bytes are read. The time at
/// which the ping was due is kept meanwhile. What is no answer is an error; a
/// connection that has ended and a sender that has, end the receiver.
pub proof fn law_a_ping_is_waited_for_until_it_is_answered(
    v: ReceiverView,
    event: ReceiverEvent,
    scheduled: u64,
    next: ReceiverView,
    action: ReceiverAction,
)
    requires
        v.wf(),
        v.accepts(event),
        receiver_moves(v, event, next, action),
        event == ReceiverEvent::Scheduled(Some(scheduled)) || (event is Received && v.state == (
        ReceiverState::Awaiting { scheduled })),
    ensures
        ({
            let all = match event {
                ReceiverEvent::Received(bytes) => v.unread + bytes@,
                _ => v.unread,
            };
            let n = all[0] * 0x100_0000 + all[1] * 0x1_0000 + all[2] * 0x100 + all[3];
            let gone = event matches ReceiverEvent::Received(bytes) && bytes@.len() == 0;
            let short = all.len() < 4 || (3 <= n <= 16_384 && all.len() < 4 + n);
            let whole = all.len() >= 4 && 3 <= n <= 16_384 && all.len() >= 4 + n;
            &&& gone ==> action is Done && next.state is Done
            &&& !gone && short ==> action is Read && next.state == (ReceiverState::Awaiting {
                scheduled,
            }) && next.unread == all
            &&& !gone && whole ==> action is TakeTime && next.state == (ReceiverState::Answered {
                scheduled,
            }) && next.unread == all.skip(4 + n)
            &&& !gone && !short && !whole ==> next.state is Done && action == ReceiverAction::Fail(
                if n > 16_384 {
                    FrameError::TooLarge { declared_len: n as u32, limit: 16_384 }
                } else {
                    FrameError::TooShort { declared_len: n as u32 }
                },
            )
        }),
{
    let all = match event {
        ReceiverEvent::Received(bytes) => v.unread + bytes@,
        _ => v.unread,
    };
    law_decoding_in_bytes(all, 16_384);
}

/// A receiver is done when no more pings will be sent.
pub proof fn law_a_receiver_ends_with_its_sender(
    v: ReceiverView,
    next: ReceiverView,
    action: ReceiverAction,
)
    requires
        v.accepts(ReceiverEvent::Scheduled(None)),
        receiver_moves(v, ReceiverEvent::Scheduled(None), next, action),
    ensures
        action is Done,
        next.state is Done,
{
}

/// A sender goes round while there is time and nothing fails. A ping of a
/// schedule is waited for until it is due, and is reported as due at the time of
/// the schedule; one without a schedule is due now. It is reported, and then
/// written; and without a schedule the next one waits for its answer.
pub proof fn law_a_sender_goes_round(
    v: SenderView,
    event: SenderEvent,
    next: SenderView,
    action: SenderAction,
)
    requires
        v.accepts(event),
        v.state is Sleeping ==> v.interval is Some,
        sender_moves(v, event, next, action),
    ensures
        next.interval == v.interval,
        next.end == v.end,
        v.state is Checking ==> (event matches SenderEvent::Now(now) && if now < v.end {
            action is TakeTime && next.state is Pacing
        } else {
            action is Done && next.state is Done
        }),
        v.state is Pacing && v.interval is Some ==> (event matches SenderEvent::Now(now)
            && if now < v.next {
            action == SenderAction::Sleep((v.next - now) as u64) && next.state is Sleeping
        } else {
            action == SenderAction::Report(v.next) && next.state is Reporting
        }),
        v.state is Pacing && v.interval is None ==> (event matches SenderEvent::Now(now) && action
            == SenderAction::Report(now) && next.state is Reporting),
        v.state is Sleeping ==> action == SenderAction::Report(v.next) && next.state is Reporting,
        next.next == if action is Report && v.interval is Some {
            v.next + v.interval.unwrap()
        } else {
            v.next as int
        },
        event == SenderEvent::Finished(true) && v.state is Reporting ==> action is Write
            && next.state is Writing,
        event == SenderEvent::Finished(true) && v.state is Writing ==> if v.interval is Some {
            action is TakeTime && next.state is Checking
        } else {
            action is AwaitAnswer && next.state is Awaiting
        },
        event == SenderEvent::Answered(true) ==> action is TakeTime && next.state is Checking,
        event == SenderEvent::Finished(false) || event == SenderEvent::Answered(false)
            ==> action is Done && next.state is Done,
{
}

/// Whatever comes of what a sender asks for can be told it, as long as the
/// schedule goes on.
pub proof fn law_a_sender_can_be_told_what_it_asked_for(
    v: SenderView,
    event: SenderEvent,
    next: SenderView,
    action: SenderAction,
)
    requires
        v.accepts(event),
        sender_moves(v, event, next, action),
        next.interval matches Some(interval) ==> next.next + interval <= u64::MAX,
    ensures
        action is TakeTime ==> forall|now: u64| #[trigger] next.accepts(SenderEvent::Now(now)),
        action is Sleep ==> next.accepts(SenderEvent::Slept),
        action is Report || action is Write ==> forall|done: bool| #[trigger]
            next.accepts(SenderEvent::Finished(done)),
        action is AwaitAnswer ==> forall|answered: bool| #[trigger]
            next.accepts(SenderEvent::Answered(answered)),
{
}

/// Whatever comes of what a receiver asks for can be told it.
pub proof fn law_a_receiver_can_be_told_what_it_asked_for(
    v: ReceiverView,
    event: ReceiverEvent,
    next: ReceiverView,
    action: ReceiverAction,
)
    requires
        v.wf(),
        v.accepts(event),
        receiver_moves(v, event, next, action),
        next.recorded.len() < u64::MAX,
    ensures
        action is TakeScheduled ==> forall|scheduled: Option<u64>| #[trigger]
            next.accepts(ReceiverEvent::Scheduled(scheduled)),
        action is Read ==> forall|bytes: Vec<u8>|
            next.unread.len() + bytes@.len() <= MAX_BUFFER_BYTES ==> #[trigger] next.accepts(
                ReceiverEvent::Received(bytes),
            ),
        action is TakeTime ==> forall|clock: Option<u64>| #[trigger]
            next.accepts(ReceiverEvent::Clock(clock)),
{
}

} // verus!
