//! The writer and the reader of a connection that is sent pings at a fixed rate.
//!
//! The writer reports when it started each ping, the reader sees the answers
//! arrive, and answers come in the order of the pings: so the first answer
//! belongs to the first ping, and so on, whichever of the two is heard of
//! first.

use super::{elapsed_micros, micros_between, Latencies, MAX_LATENCY_MICROS};
use crate::buffer::{content, MAX_BUFFER_BYTES};
use crate::histogram::{from_one_to, no_samples, sample, Settings};
use crate::wire::{after_first, decode_frame, first_frame, law_decoding_in_bytes};
use bytes::BytesMut;
use std::collections::VecDeque;
use vstd::multiset::Multiset;
use vstd::prelude::*;

verus! {

/// The number of decimal digits that are kept of a latency.
pub const SIGNIFICANT_DECIMAL_DIGITS: u8 = 4;

/// The largest frame that an answer may be.
pub const MAX_FRAME_BYTES: u32 = 4_194_304;

// ---------------------------------------------------------------------------
// The writer
// ---------------------------------------------------------------------------

/// Where a writer stands.
#[derive(Debug, Clone, Copy, PartialEq, Eq, Structural)]
pub enum WriterState {
    /// It is not time for a ping yet.
    Ticking,
    /// A ping is being written.
    Writing { start: u64 },
    /// The ping is being flushed.
    Flushing { start: u64 },
    /// The start of the ping is being reported to the reader.
    Reporting,
    /// The sending side of the connection is being shut down.
    Ending,
    /// The writer is done.
    Done,
}

/// What has happened.
#[derive(Debug, Clone, Copy, PartialEq, Eq, Structural)]
pub enum WriterEvent {
    /// It is time for a ping; the time is given.
    Tick(u64),
    /// Whether what was asked for was done.
    Finished(bool),
}

/// What is to be done next.
#[derive(Debug, Clone, Copy, PartialEq, Eq, Structural)]
pub enum WriterAction {
    /// Wait until it is time for the next ping.
    Tick,
    /// Write a ping.
    Write,
    /// Flush what was written.
    Flush,
    /// Report to the reader that a ping was started at this time.
    Report(u64),
    /// Shut the sending side of the connection down.
    Shutdown,
    /// Nothing: the writer is done.
    Done,
}

/// Whether `event` can happen in this state.
pub open spec fn writer_accepts(state: WriterState, event: WriterEvent) -> bool {
    match state {
        WriterState::Ticking => event is Tick,
        WriterState::Done => false,
        _ => event is Finished,
    }
}

/// What a writer that sends pings until `end` goes on with after `event`, and
/// what it asks for. Once the time is up, or when something fails, it shuts the
/// sending side of the connection down.
pub open spec fn writer_moves(end: u64, state: WriterState, event: WriterEvent) -> (
    WriterState,
    WriterAction,
) {
    let ending = (WriterState::Ending, WriterAction::Shutdown);
    match (state, event) {
        (WriterState::Ticking, WriterEvent::Tick(now)) => if now < end {
            (WriterState::Writing { start: now }, WriterAction::Write)
        } else {
            ending
        },
        (WriterState::Writing { start }, WriterEvent::Finished(true)) => (
            WriterState::Flushing { start },
            WriterAction::Flush,
        ),
        (WriterState::Flushing { start }, WriterEvent::Finished(true)) => (
            WriterState::Reporting,
            WriterAction::Report(start),
        ),
        (WriterState::Reporting, WriterEvent::Finished(true)) => (
            WriterState::Ticking,
            WriterAction::Tick,
        ),
        (WriterState::Ending, _) => (WriterState::Done, WriterAction::Done),
        _ => ending,
    }
}

/// The writer of a connection.
pub struct Writer {
    end: u64,
    state: WriterState,
}

impl Writer {
    /// When the last ping may be started.
    pub closed spec fn end(self) -> u64 {
        self.end
    }

    /// Where the writer stands.
    pub closed spec fn state(self) -> WriterState {
        self.state
    }

    /// Sends pings until `end`.
    pub fn new(end: u64) -> (r: Writer)
        ensures
            r.end() == end,
            r.state() == WriterState::Ticking,
    {
        Writer { end, state: WriterState::Ticking }
    }

    /// Takes note of what has happened, and says what is to be done.
    pub fn step(&mut self, event: WriterEvent) -> (action: WriterAction)
        requires
            writer_accepts(old(self).state(), event),
        ensures
            final(self).end() == old(self).end(),
            (final(self).state(), action) == writer_moves(old(self).end(), old(self).state(), event),
    {
        let (next, action) = match (self.state, event) {
            (WriterState::Ticking, WriterEvent::Tick(now)) if now < self.end => (
                WriterState::Writing { start: now },
                WriterAction::Write,
            ),
            (WriterState::Writing { start }, WriterEvent::Finished(true)) => (
                WriterState::Flushing { start },
                WriterAction::Flush,
            ),
            (WriterState::Flushing { start }, WriterEvent::Finished(true)) => (
                WriterState::Reporting,
                WriterAction::Report(start),
            ),
            (WriterState::Reporting, WriterEvent::Finished(true)) => (
                WriterState::Ticking,
                WriterAction::Tick,
            ),
            (WriterState::Ending, _) => (WriterState::Done, WriterAction::Done),
            _ => (WriterState::Ending, WriterAction::Shutdown),
        };
        self.state = next;
        action
    }
}

/// A start is reported for a ping that was started in time, written and
/// flushed, and for no other.
pub proof fn law_reported_pings_were_sent(
    end: u64,
    state: WriterState,
    tick: WriterEvent,
    written: WriterEvent,
    flushed: WriterEvent,
    start: u64,
)
    requires
        writer_accepts(state, tick),
        ({
            let writing = writer_moves(end, state, tick).0;
            let flushing = writer_moves(end, writing, written).0;
            &&& writer_accepts(writing, written)
            &&& writer_accepts(flushing, flushed)
            &&& writer_moves(end, flushing, flushed).1 == WriterAction::Report(start)
        }),
    ensures
        tick == WriterEvent::Tick(start),
        start < end,
        written == WriterEvent::Finished(true),
        flushed == WriterEvent::Finished(true),
{
}

// ---------------------------------------------------------------------------
// The reader
// ---------------------------------------------------------------------------

/// Where a reader stands.
#[derive(Debug, Clone, Copy, PartialEq, Eq, Structural)]
pub enum ReaderState {
    /// An answer has arrived, and the time is to be taken.
    Timing,
    /// Nothing is left to do until something happens.
    Waiting,
    /// The reader is done.
    Done,
}

/// What has happened.
pub enum ReaderEvent {
    /// The time was taken.
    Now(u64),
    /// Bytes were read, or none where the peer closed the connection.
    Received(Vec<u8>),
    /// Reading failed.
    Failed,
    /// A ping was started at this time.
    Started(u64),
    /// No more pings will be started.
    StartsEnded,
}

/// What is to be done next.
#[derive(Debug, Clone, Copy, PartialEq, Eq, Structural)]
pub enum ReaderAction {
    /// Take the time.
    TakeTime,
    /// Wait for bytes and, where `starts` says so, for the start of a ping.
    Wait { starts: bool },
    /// Nothing: the reader is done.
    Done,
    /// Nothing: the histogram has no place for a latency.
    Refused,
}

/// What a [`Reader`] says.
pub struct ReaderView {
    /// What was read and is no answer yet.
    pub unread: Seq<u8>,
    /// When the answers arrived whose pings have not been heard of.
    pub arrivals: Seq<u64>,
    /// When the pings were started whose answers have not arrived.
    pub starts: Seq<u64>,
    /// Whether no more pings will be started.
    pub starts_ended: bool,
    /// The latencies so far.
    pub recorded: Multiset<u64>,
    /// What the histogram of the latencies was made with.
    pub settings: Settings,
    /// Where the reader stands.
    pub state: ReaderState,
}

impl ReaderView {
    /// Whether `event` can happen.
    pub open spec fn accepts(self, event: ReaderEvent) -> bool {
        match event {
            ReaderEvent::Now(_) => self.state is Timing && self.recorded.len() < u64::MAX,
            ReaderEvent::Received(bytes) => self.state is Waiting && self.unread.len()
                + bytes@.len() <= MAX_BUFFER_BYTES,
            ReaderEvent::Failed => self.state is Waiting,
            ReaderEvent::Started(_) => self.state is Waiting && !self.starts_ended
                && self.recorded.len() < u64::MAX,
            ReaderEvent::StartsEnded => self.state is Waiting && !self.starts_ended,
        }
    }

    /// What holds of every reader: it does not wait on both sides at once, and
    /// its latencies can be counted.
    pub open spec fn wf(self) -> bool {
        &&& self.arrivals.len() == 0 || self.starts.len() == 0
        &&& self.settings == from_one_to(MAX_LATENCY_MICROS, SIGNIFICANT_DECIMAL_DIGITS)
        &&& self.recorded.len() <= u64::MAX
    }

    /// The same reader when it is done.
    pub open spec fn done(self) -> ReaderView {
        ReaderView { state: ReaderState::Done, ..self }
    }
}

/// Whether the reader goes on like this: with the next answer where it has read
/// one, and with waiting otherwise. Once no more pings will be started and each
/// has its answer, it is done; a malformed answer ends it too.
pub open spec fn goes_on(v: ReaderView, next: ReaderView, action: ReaderAction) -> bool {
    match first_frame(v.unread, MAX_FRAME_BYTES) {
        Ok(Some(_)) => {
            &&& next == (ReaderView {
                unread: after_first(v.unread, MAX_FRAME_BYTES),
                state: ReaderState::Timing,
                ..v
            })
            &&& action == ReaderAction::TakeTime
        },
        Ok(None) => {
            if v.starts_ended && v.starts.len() == 0 {
                next == v.done() && action == ReaderAction::Done
            } else {
                &&& next == (ReaderView { state: ReaderState::Waiting, ..v })
                &&& action == ReaderAction::Wait { starts: !v.starts_ended }
            }
        },
        Err(_) => next == v.done() && action == ReaderAction::Done,
    }
}

/// Whether the reader goes on like this with a ping from `start` that was
/// answered at `end`. A latency that the histogram has no place for ends it.
pub open spec fn goes_on_with(
    v: ReaderView,
    start: u64,
    end: u64,
    next: ReaderView,
    action: ReaderAction,
) -> bool {
    let micros = micros_between(start, end);
    let after = ReaderView { recorded: v.recorded.insert(sample(v.settings, micros)), ..v };
    if micros < v.settings.end() {
        goes_on(after, next, action)
    } else {
        next == v.done() && action == ReaderAction::Refused
    }
}

/// Whether `event` takes a reader from `v` to `next` and asks for `action`.
pub open spec fn reader_moves(
    v: ReaderView,
    event: ReaderEvent,
    next: ReaderView,
    action: ReaderAction,
) -> bool {
    match event {
        ReaderEvent::Now(now) => {
            if v.starts.len() > 0 {
                goes_on_with(
                    ReaderView { starts: v.starts.skip(1), ..v },
                    v.starts[0],
                    now,
                    next,
                    action,
                )
            } else {
                goes_on(ReaderView { arrivals: v.arrivals.push(now), ..v }, next, action)
            }
        },
        ReaderEvent::Received(bytes) => {
            if bytes@.len() > 0 {
                goes_on(ReaderView { unread: v.unread + bytes@, ..v }, next, action)
            } else {
                next == v.done() && action == ReaderAction::Done
            }
        },
        ReaderEvent::Failed => next == v.done() && action == ReaderAction::Done,
        ReaderEvent::Started(start) => {
            if v.arrivals.len() > 0 {
                goes_on_with(
                    ReaderView { arrivals: v.arrivals.skip(1), ..v },
                    start,
                    v.arrivals[0],
                    next,
                    action,
                )
            } else {
                goes_on(ReaderView { starts: v.starts.push(start), ..v }, next, action)
            }
        },
        ReaderEvent::StartsEnded => goes_on(ReaderView { starts_ended: true, ..v }, next, action),
    }
}

/// The reader of a connection.
pub struct Reader {
    read_buf: BytesMut,
    arrivals: VecDeque<u64>,
    starts: VecDeque<u64>,
    starts_ended: bool,
    latencies: Latencies,
    state: ReaderState,
}

impl View for Reader {
    type V = ReaderView;

    closed spec fn view(&self) -> ReaderView {
        ReaderView {
            unread: content(self.read_buf),
            arrivals: self.arrivals@,
            starts: self.starts@,
            starts_ended: self.starts_ended,
            recorded: self.latencies.recorded(),
            settings: self.latencies.settings(),
            state: self.state,
        }
    }
}

impl Reader {
    /// Starts by waiting for bytes and for the start of a ping.
    pub fn new() -> (r: Reader)
        ensures
            r@ == (ReaderView {
                unread: Seq::empty(),
                arrivals: Seq::empty(),
                starts: Seq::empty(),
                starts_ended: false,
                recorded: no_samples(),
                settings: from_one_to(MAX_LATENCY_MICROS, SIGNIFICANT_DECIMAL_DIGITS),
                state: ReaderState::Waiting,
            }),
            r@.wf(),
    {
        Reader {
            read_buf: BytesMut::with_capacity(8 * 1024),
            arrivals: VecDeque::new(),
            starts: VecDeque::new(),
            starts_ended: false,
            latencies: Latencies::new(SIGNIFICANT_DECIMAL_DIGITS),
            state: ReaderState::Waiting,
        }
    }

    /// The latencies.
    pub fn into_latencies(self) -> (r: Latencies)
        ensures
            r.recorded() == self@.recorded,
            r.settings() == self@.settings,
    {
        self.latencies
    }

    /// Whether `event` can happen.
    pub fn accepts(&self, event: &ReaderEvent) -> (r: bool)
        requires
            self@.wf(),
        ensures
            r == self@.accepts(*event),
    {
        match event {
            ReaderEvent::Now(_) => self.state == ReaderState::Timing && self.latencies.has_room(1),
            ReaderEvent::Received(bytes) => self.state == ReaderState::Waiting && bytes.len()
                <= MAX_BUFFER_BYTES && self.read_buf.len() <= MAX_BUFFER_BYTES - bytes.len(),
            ReaderEvent::Failed => self.state == ReaderState::Waiting,
            ReaderEvent::Started(_) => self.state == ReaderState::Waiting && !self.starts_ended
                && self.latencies.has_room(1),
            ReaderEvent::StartsEnded => self.state == ReaderState::Waiting && !self.starts_ended,
        }
    }

    /// Goes on with the next answer, or with waiting.
    fn go_on(&mut self) -> (action: ReaderAction)
        ensures
            goes_on(old(self)@, final(self)@, action),
    {
        match decode_frame(&mut self.read_buf, MAX_FRAME_BYTES) {
            Ok(Some(_)) => {
                self.state = ReaderState::Timing;
                ReaderAction::TakeTime
            },
            Ok(None) => {
                if self.starts_ended && self.starts.len() == 0 {
                    self.state = ReaderState::Done;
                    ReaderAction::Done
                } else {
                    self.state = ReaderState::Waiting;
                    ReaderAction::Wait { starts: !self.starts_ended }
                }
            },
            Err(_) => {
                self.state = ReaderState::Done;
                ReaderAction::Done
            },
        }
    }

    /// Records a latency and goes on.
    fn go_on_with(&mut self, start: u64, end: u64) -> (action: ReaderAction)
        requires
            old(self)@.settings.wf(),
            old(self)@.recorded.len() < u64::MAX,
        ensures
            goes_on_with(old(self)@, start, end, final(self)@, action),
    {
        if self.latencies.record(elapsed_micros(start, end)) {
            self.go_on()
        } else {
            self.state = ReaderState::Done;
            ReaderAction::Refused
        }
    }

    /// Takes note of what has happened, and says what is to be done.
    pub fn step(&mut self, event: ReaderEvent) -> (action: ReaderAction)
        requires
            old(self)@.wf(),
            old(self)@.accepts(event),
        ensures
            reader_moves(old(self)@, event, final(self)@, action),
            final(self)@.wf(),
    {
        match event {
            ReaderEvent::Now(now) => {
                match self.starts.pop_front() {
                    Some(start) => {
                        assert(self.starts@ =~= old(self).starts@.skip(1));
                        self.go_on_with(start, now)
                    },
                    None => {
                        self.arrivals.push_back(now);
                        self.go_on()
                    },
                }
            },
            ReaderEvent::Received(bytes) => {
                if bytes.len() == 0 {
                    self.state = ReaderState::Done;
                    return ReaderAction::Done;
                }
                self.read_buf.extend_from_slice(bytes.as_slice());
                self.go_on()
            },
            ReaderEvent::Failed => {
                self.state = ReaderState::Done;
                ReaderAction::Done
            },
            ReaderEvent::Started(start) => {
                match self.arrivals.pop_front() {
                    Some(end) => {
                        assert(self.arrivals@ =~= old(self).arrivals@.skip(1));
                        self.go_on_with(start, end)
                    },
                    None => {
                        self.starts.push_back(start);
                        self.go_on()
                    },
                }
            },
            ReaderEvent::StartsEnded => {
                self.starts_ended = true;
                self.go_on()
            },
        }
    }
}

// ---------------------------------------------------------------------------
// Laws
// ---------------------------------------------------------------------------

/// The times at which pings were started, in order.
pub open spec fn all_starts(events: Seq<ReaderEvent>) -> Seq<u64>
    decreases events.len(),
{
    if events.len() == 0 {
        Seq::empty()
    } else {
        let before = all_starts(events.drop_last());
        match events.last() {
            ReaderEvent::Started(start) => before.push(start),
            _ => before,
        }
    }
}

/// The times at which answers arrived, in order.
pub open spec fn all_arrivals(events: Seq<ReaderEvent>) -> Seq<u64>
    decreases events.len(),
{
    if events.len() == 0 {
        Seq::empty()
    } else {
        let before = all_arrivals(events.drop_last());
        match events.last() {
            ReaderEvent::Now(now) => before.push(now),
            _ => before,
        }
    }
}

/// The latencies of the first `n` pings: from the start of each to the arrival
/// with the same number.
pub open spec fn latencies_of(
    settings: Settings,
    starts: Seq<u64>,
    arrivals: Seq<u64>,
    n: nat,
) -> Multiset<u64>
    decreases n,
{
    if n == 0 {
        no_samples()
    } else {
        latencies_of(settings, starts, arrivals, (n - 1) as nat).insert(
            sample(settings, micros_between(starts[n - 1], arrivals[n - 1])),
        )
    }
}

/// Whether `points`, `events` and `actions` are a run of a new reader in which
/// every latency is taken.
pub open spec fn reader_runs(
    points: Seq<ReaderView>,
    events: Seq<ReaderEvent>,
    actions: Seq<ReaderAction>,
) -> bool {
    &&& points.len() == events.len() + 1
    &&& actions.len() == events.len()
    &&& points[0].unread.len() == 0
    &&& points[0].arrivals.len() == 0
    &&& points[0].starts.len() == 0
    &&& points[0].recorded == no_samples()
    &&& points[0].wf()
    &&& forall|i: int| 0 <= i < actions.len() ==> !(#[trigger] actions[i] is Refused)
    &&& forall|i: int|
        0 <= i < events.len() ==> points[i].accepts(#[trigger] events[i]) && reader_moves(
            points[i],
            events[i],
            points[i + 1],
            actions[i],
        )
}

/// How many pings have been started and answered.
pub open spec fn paired(starts: Seq<u64>, arrivals: Seq<u64>) -> nat {
    if starts.len() < arrivals.len() {
        starts.len()
    } else {
        arrivals.len()
    }
}

proof fn lemma_latencies_of_more(
    settings: Settings,
    starts: Seq<u64>,
    arrivals: Seq<u64>,
    more_starts: Seq<u64>,
    more_arrivals: Seq<u64>,
    n: nat,
)
    requires
        n <= starts.len() <= more_starts.len(),
        n <= arrivals.len() <= more_arrivals.len(),
        forall|i: int| 0 <= i < starts.len() ==> starts[i] == more_starts[i],
        forall|i: int| 0 <= i < arrivals.len() ==> arrivals[i] == more_arrivals[i],
    ensures
        latencies_of(settings, starts, arrivals, n) == latencies_of(
            settings,
            more_starts,
            more_arrivals,
            n,
        ),
    decreases n,
{
    if n > 0 {
        lemma_latencies_of_more(
            settings,
            starts,
            arrivals,
            more_starts,
            more_arrivals,
            (n - 1) as nat,
        );
    }
}

/// The first answer belongs to the first ping, the second to the second, and so
/// on, in whatever order a reader hears of them: what is recorded is the
/// latency of each ping that is known to have been started and answered, and
/// what is kept is the times of the others.
pub proof fn law_answers_meet_their_pings(
    points: Seq<ReaderView>,
    events: Seq<ReaderEvent>,
    actions: Seq<ReaderAction>,
)
    requires
        reader_runs(points, events, actions),
    ensures
        ({
            let starts = all_starts(events);
            let arrivals = all_arrivals(events);
            let n = paired(starts, arrivals);
            &&& points.last().recorded == latencies_of(points[0].settings, starts, arrivals, n)
            &&& points.last().starts == starts.skip(n as int)
            &&& points.last().arrivals == arrivals.skip(n as int)
            &&& points.last().settings == points[0].settings
        }),
    decreases events.len(),
{
    let starts = all_starts(events);
    let arrivals = all_arrivals(events);
    let n = paired(starts, arrivals);
    if events.len() == 0 {
        assert(points.last().starts =~= starts.skip(0));
        assert(points.last().arrivals =~= arrivals.skip(0));
    } else {
        let k = events.len() - 1;
        assert forall|i: int| 0 <= i < events.drop_last().len() implies points.drop_last()[i].accepts(
            #[trigger] events.drop_last()[i],
        ) && reader_moves(
            points.drop_last()[i],
            events.drop_last()[i],
            points.drop_last()[i + 1],
            actions.drop_last()[i],
        ) by {
            assert(points[i].accepts(events[i]));
        }
        assert(reader_runs(points.drop_last(), events.drop_last(), actions.drop_last()));
        law_answers_meet_their_pings(points.drop_last(), events.drop_last(), actions.drop_last());
        let starts0 = all_starts(events.drop_last());
        let arrivals0 = all_arrivals(events.drop_last());
        let n0 = paired(starts0, arrivals0);
        let before = points[k];
        let next = points[k + 1];
        assert(points.drop_last().last() == before);
        assert(points[k].accepts(events[k]));
        assert(reader_moves(before, events[k], next, actions[k]));
        assert(!(actions[k] is Refused));
        lemma_latencies_of_more(before.settings, starts0, arrivals0, starts, arrivals, n0);
        match events[k] {
            ReaderEvent::Now(now) => {
                if before.starts.len() > 0 {
                    assert(n == n0 + 1);
                    assert(before.starts[0] == starts[n0 as int]);
                    assert(starts.skip(n as int) =~= starts0.skip(n0 as int).skip(1));
                    assert(arrivals.skip(n as int) =~= before.arrivals);
                } else {
                    assert(n == n0);
                    assert(arrivals.skip(n as int) =~= arrivals0.skip(n0 as int).push(now));
                }
            },
            ReaderEvent::Started(start) => {
                if before.arrivals.len() > 0 {
                    assert(n == n0 + 1);
                    assert(before.arrivals[0] == arrivals[n0 as int]);
                    assert(arrivals.skip(n as int) =~= arrivals0.skip(n0 as int).skip(1));
                    assert(starts.skip(n as int) =~= before.starts);
                } else {
                    assert(n == n0);
                    assert(starts.skip(n as int) =~= starts0.skip(n0 as int).push(start));
                }
            },
            _ => {},
        }
    }
}

/// A reader that ends of its own accord, with a connection in order, has heard
/// of the answer to every ping.
pub proof fn law_every_ping_is_answered_at_the_end(
    v: ReaderView,
    event: ReaderEvent,
    next: ReaderView,
)
    requires
        v.wf(),
        v.accepts(event),
        reader_moves(v, event, next, ReaderAction::Done),
        !(event is Failed),
        event matches ReaderEvent::Received(bytes) ==> bytes@.len() > 0,
        first_frame(next.unread, MAX_FRAME_BYTES) is Ok,
    ensures
        next.starts.len() == 0,
        next.starts_ended,
{
}

/// What a reader records and keeps. An answer belongs to the ping that has
/// waited longest, and a ping to the answer that has; the latency between the
/// two is recorded, in whole microseconds, and nothing else is. Where there is
/// nobody to belong to, the time is kept behind those before it. A latency that
/// the histogram has no place for is refused.
pub proof fn law_what_a_reader_records(
    v: ReaderView,
    event: ReaderEvent,
    next: ReaderView,
    action: ReaderAction,
)
    requires
        v.wf(),
        v.accepts(event),
        reader_moves(v, event, next, action),
    ensures
        next.settings == v.settings,
        next.starts_ended == (v.starts_ended || event is StartsEnded),
        event matches ReaderEvent::Now(now) ==> if v.starts.len() > 0 {
            let start = v.starts[0];
            let micros = if start < now {
                (now - start) / 1_000
            } else {
                0
            };
            &&& next.starts == v.starts.skip(1)
            &&& next.arrivals == v.arrivals
            &&& action is Refused <==> micros >= v.settings.end()
            &&& next.recorded == if micros < v.settings.end() {
                v.recorded.insert(sample(v.settings, micros as u64))
            } else {
                v.recorded
            }
        } else {
            &&& next.starts == v.starts
            &&& next.arrivals == v.arrivals.push(now)
            &&& next.recorded == v.recorded
        },
        event matches ReaderEvent::Started(start) ==> if v.arrivals.len() > 0 {
            let now = v.arrivals[0];
            let micros = if start < now {
                (now - start) / 1_000
            } else {
                0
            };
            &&& next.arrivals == v.arrivals.skip(1)
            &&& next.starts == v.starts
            &&& action is Refused <==> micros >= v.settings.end()
            &&& next.recorded == if micros < v.settings.end() {
                v.recorded.insert(sample(v.settings, micros as u64))
            } else {
                v.recorded
            }
        } else {
            &&& next.arrivals == v.arrivals
            &&& next.starts == v.starts.push(start)
            &&& next.recorded == v.recorded
        },
        !(event is Now || event is Started) ==> next.recorded == v.recorded && next.starts
            == v.starts && next.arrivals == v.arrivals && !(action is Refused),
{
}

/// What a reader waits for. Bytes that are read go behind those before them. As
/// soon as a whole answer of up to four mebibytes is there it is taken out, and
/// nothing else is; while there is none the reader waits for bytes, and for the
/// starts of pings as long as there will be some. It is done when the peer or
/// the connection is gone, when the bytes are no answer, and when there will be
/// no more pings and each has its answer.
pub proof fn law_what_a_reader_waits_for(
    v: ReaderView,
    event: ReaderEvent,
    next: ReaderView,
    action: ReaderAction,
)
    requires
        v.wf(),
        v.accepts(event),
        reader_moves(v, event, next, action),
        !(action is Refused),
    ensures
        ({
            let all = match event {
                ReaderEvent::Received(bytes) => v.unread + bytes@,
                _ => v.unread,
            };
            let n = all[0] * 0x100_0000 + all[1] * 0x1_0000 + all[2] * 0x100 + all[3];
            let gone = event is Failed || (event matches ReaderEvent::Received(bytes)
                && bytes@.len() == 0);
            let short = all.len() < 4 || (3 <= n <= 4_194_304 && all.len() < 4 + n);
            let whole = all.len() >= 4 && 3 <= n <= 4_194_304 && all.len() >= 4 + n;
            let over = next.starts_ended && next.starts.len() == 0;
            &&& action is TakeTime <==> !gone && whole
            &&& action is Wait <==> !gone && short && !over
            &&& action matches ReaderAction::Wait { starts } ==> starts == !next.starts_ended
            &&& next.unread == if !gone && whole {
                all.skip(4 + n)
            } else {
                all
            }
            &&& next.state is Timing <==> action is TakeTime
            &&& next.state is Waiting <==> action is Wait
            &&& next.state is Done <==> action is Done
        }),
{
    let all = match event {
        ReaderEvent::Received(bytes) => v.unread + bytes@,
        _ => v.unread,
    };
    law_decoding_in_bytes(all, 4_194_304);
    if let ReaderEvent::Received(bytes) = event {
        if bytes@.len() == 0 {
            assert(all =~= v.unread);
        }
    }
}

/// A writer goes round while there is time and nothing fails: it writes a ping
/// at its time, flushes it, reports when it was started, and waits for the next.
/// Once the time is up or something fails it ends, and then it is done.
pub proof fn law_a_writer_goes_round(end: u64, state: WriterState, event: WriterEvent)
    requires
        writer_accepts(state, event),
    ensures
        ({
            let (next, action) = writer_moves(end, state, event);
            &&& event matches WriterEvent::Tick(now) ==> if now < end {
                action is Write && next == (WriterState::Writing { start: now })
            } else {
                action is Shutdown && next is Ending
            }
            &&& event == WriterEvent::Finished(true) ==> match state {
                WriterState::Writing { start } => action is Flush && next == (
                WriterState::Flushing { start }),
                WriterState::Flushing { start } => action == WriterAction::Report(start)
                    && next is Reporting,
                WriterState::Reporting => action is Tick && next is Ticking,
                _ => true,
            }
            &&& event == WriterEvent::Finished(false) && !(state is Ending) ==> action is Shutdown
                && next is Ending
            &&& state is Ending ==> action is Done && next is Done
        }),
{
}

/// Whatever comes of what a reader asks for can be told it: the time, and while
/// it waits as many bytes as there is room for, a failure and, where it waits for
/// them too, the start of a ping or the end of them.
pub proof fn law_a_reader_can_be_told_what_it_asked_for(
    v: ReaderView,
    event: ReaderEvent,
    next: ReaderView,
    action: ReaderAction,
)
    requires
        v.wf(),
        v.accepts(event),
        reader_moves(v, event, next, action),
        next.recorded.len() < u64::MAX,
    ensures
        action is TakeTime ==> forall|now: u64| #[trigger] next.accepts(ReaderEvent::Now(now)),
        action is Wait ==> next.accepts(ReaderEvent::Failed),
        action is Wait ==> forall|bytes: Vec<u8>|
            next.unread.len() + bytes@.len() <= MAX_BUFFER_BYTES ==> #[trigger] next.accepts(
                ReaderEvent::Received(bytes),
            ),
        action == (ReaderAction::Wait { starts: true }) ==> next.accepts(ReaderEvent::StartsEnded),
        action == (ReaderAction::Wait { starts: true }) ==> forall|start: u64| #[trigger]
            next.accepts(ReaderEvent::Started(start)),
{
}

/// Whatever comes of what a writer asks for can be told it.
pub proof fn law_a_writer_can_be_told_what_it_asked_for(
    end: u64,
    state: WriterState,
    event: WriterEvent,
)
    requires
        writer_accepts(state, event),
    ensures
        ({
            let (next, action) = writer_moves(end, state, event);
            &&& action is Tick ==> forall|now: u64| #[trigger]
                writer_accepts(next, WriterEvent::Tick(now))
            &&& action is Write || action is Flush || action is Report || action is Shutdown
                ==> forall|done: bool| #[trigger] writer_accepts(next, WriterEvent::Finished(done))
        }),
{
}

} // verus!
