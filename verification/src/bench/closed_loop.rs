//! A connection that sends a ping when it is time to and waits for the answer.

use super::{elapsed_micros, law_each_interval_counts_once, micros_between, Latencies, MAX_LATENCY_MICROS};
use crate::histogram::{corrected, corrected_len, from_one_to, no_samples, Settings};
use vstd::multiset::Multiset;
use vstd::prelude::*;

verus! {

/// The number of decimal digits that are kept of a latency.
pub const SIGNIFICANT_DECIMAL_DIGITS: u8 = 4;

/// Where a connection stands.
#[derive(Debug, Clone, Copy, PartialEq, Eq, Structural)]
pub enum ClientState {
    /// It is not time for a ping yet.
    Ticking,
    /// A ping is being written.
    Writing { start: u64 },
    /// The answer is awaited.
    Reading { start: u64 },
    /// The answer has arrived, and the time is to be taken.
    Timing { start: u64 },
    /// The connection is done.
    Done,
}

/// What came of waiting for an answer.
#[derive(Debug, Clone, Copy, PartialEq, Eq, Structural)]
pub enum Answer {
    /// It arrived.
    Frame,
    /// Reading failed.
    Failed,
    /// The peer closed the connection.
    Closed,
}

/// What has happened.
#[derive(Debug, Clone, Copy, PartialEq, Eq, Structural)]
pub enum ClientEvent {
    /// It is time for a ping; the time is given.
    Tick(u64),
    /// Whether the ping was written.
    Written(bool),
    /// What came of waiting for the answer.
    Read(Answer),
    /// The time was taken.
    Now(u64),
}

/// What is to be done next.
#[derive(Debug, Clone, Copy, PartialEq, Eq, Structural)]
pub enum ClientAction {
    /// Wait until it is time for the next ping.
    Tick,
    /// Write a ping.
    Write,
    /// Read the answer.
    Read,
    /// Take the time.
    TakeTime,
    /// Nothing: the connection is done.
    Done,
    /// Nothing: the histogram has no place for a latency.
    Refused,
}

/// What a [`Client`] says.
pub struct ClientView {
    /// When the last ping may be sent.
    pub end: u64,
    /// The time between two pings in microseconds.
    pub interval: u64,
    /// The latencies so far, with those that were missed.
    pub recorded: Multiset<u64>,
    /// What the histogram of the latencies was made with.
    pub settings: Settings,
    /// Where the connection stands.
    pub state: ClientState,
}

impl ClientView {
    /// Whether `event` can happen.
    pub open spec fn accepts(self, event: ClientEvent) -> bool {
        match self.state {
            ClientState::Ticking => event is Tick,
            ClientState::Writing { .. } => event is Written,
            ClientState::Reading { .. } => event is Read,
            ClientState::Timing { start } => event matches ClientEvent::Now(now)
                && self.recorded.len() + corrected_len(micros_between(start, now), self.interval)
                <= u64::MAX,
            ClientState::Done => false,
        }
    }

    /// What holds of every connection.
    pub open spec fn wf(self) -> bool {
        &&& self.settings == from_one_to(MAX_LATENCY_MICROS, SIGNIFICANT_DECIMAL_DIGITS)
        &&& self.recorded.len() <= u64::MAX
    }

    /// The same connection in another state.
    pub open spec fn at(self, state: ClientState) -> ClientView {
        ClientView { state, ..self }
    }
}

/// Whether `event` takes a connection from `v` to `next` and asks for `action`.
/// A ping that cannot be written or answered is given up, and the next one is
/// sent in its time; a connection that the peer has closed is done.
pub open spec fn client_moves(
    v: ClientView,
    event: ClientEvent,
    next: ClientView,
    action: ClientAction,
) -> bool {
    match (v.state, event) {
        (ClientState::Ticking, ClientEvent::Tick(now)) => {
            if now >= v.end {
                next == v.at(ClientState::Done) && action == ClientAction::Done
            } else {
                &&& next == v.at(ClientState::Writing { start: now })
                &&& action == ClientAction::Write
            }
        },
        (ClientState::Writing { start }, ClientEvent::Written(written)) => {
            if written {
                next == v.at(ClientState::Reading { start }) && action == ClientAction::Read
            } else {
                next == v.at(ClientState::Ticking) && action == ClientAction::Tick
            }
        },
        (ClientState::Reading { start }, ClientEvent::Read(answer)) => match answer {
            Answer::Frame => {
                next == v.at(ClientState::Timing { start }) && action == ClientAction::TakeTime
            },
            Answer::Failed => next == v.at(ClientState::Ticking) && action == ClientAction::Tick,
            Answer::Closed => next == v.at(ClientState::Done) && action == ClientAction::Done,
        },
        (ClientState::Timing { start }, ClientEvent::Now(now)) => {
            let micros = micros_between(start, now);
            if micros < v.settings.end() {
                &&& next == (ClientView {
                    recorded: v.recorded.add(corrected(v.settings, micros, v.interval)),
                    state: ClientState::Ticking,
                    ..v
                })
                &&& action == ClientAction::Tick
            } else {
                next == v.at(ClientState::Done) && action == ClientAction::Refused
            }
        },
        _ => false,
    }
}

/// A connection that sends pings.
pub struct Client {
    end: u64,
    interval: u64,
    latencies: Latencies,
    state: ClientState,
}

impl View for Client {
    type V = ClientView;

    closed spec fn view(&self) -> ClientView {
        ClientView {
            end: self.end,
            interval: self.interval,
            recorded: self.latencies.recorded(),
            settings: self.latencies.settings(),
            state: self.state,
        }
    }
}

impl Client {
    /// Sends a ping every `interval` microseconds until `end`.
    pub fn new(end: u64, interval: u64) -> (r: Client)
        ensures
            r@ == (ClientView {
                end,
                interval,
                recorded: no_samples(),
                settings: from_one_to(MAX_LATENCY_MICROS, SIGNIFICANT_DECIMAL_DIGITS),
                state: ClientState::Ticking,
            }),
            r@.wf(),
    {
        Client {
            end,
            interval,
            latencies: Latencies::new(SIGNIFICANT_DECIMAL_DIGITS),
            state: ClientState::Ticking,
        }
    }

    /// The latencies.
    pub fn into_latencies(self) -> (r: Latencies)
        ensures
            r.recorded() == self@.recorded,
            r.settings() == self@.settings,
    {
        self.latencies
    }

    /// Whether `event` can happen.
    pub fn accepts(&self, event: &ClientEvent) -> (r: bool)
        requires
            self@.wf(),
        ensures
            r == self@.accepts(*event),
    {
        match (self.state, event) {
            (ClientState::Ticking, ClientEvent::Tick(_)) => true,
            (ClientState::Writing { .. }, ClientEvent::Written(_)) => true,
            (ClientState::Reading { .. }, ClientEvent::Read(_)) => true,
            (ClientState::Timing { start }, ClientEvent::Now(now)) => {
                let micros = elapsed_micros(start, *now);
                let samples = if 0 < self.interval && self.interval <= micros {
                    micros / self.interval
                } else {
                    1
                };
                self.latencies.has_room(samples)
            },
            _ => false,
        }
    }

    /// Takes note of what has happened, and says what is to be done.
    pub fn step(&mut self, event: ClientEvent) -> (action: ClientAction)
        requires
            old(self)@.wf(),
            old(self)@.accepts(event),
        ensures
            client_moves(old(self)@, event, final(self)@, action),
            final(self)@.wf(),
    {
        match (self.state, event) {
            (ClientState::Ticking, ClientEvent::Tick(now)) => {
                if now >= self.end {
                    self.state = ClientState::Done;
                    return ClientAction::Done;
                }
                self.state = ClientState::Writing { start: now };
                ClientAction::Write
            },
            (ClientState::Writing { start }, ClientEvent::Written(written)) => {
                if written {
                    self.state = ClientState::Reading { start };
                    ClientAction::Read
                } else {
                    self.state = ClientState::Ticking;
                    ClientAction::Tick
                }
            },
            (ClientState::Reading { start }, ClientEvent::Read(answer)) => match answer {
                Answer::Frame => {
                    self.state = ClientState::Timing { start };
                    ClientAction::TakeTime
                },
                Answer::Failed => {
                    self.state = ClientState::Ticking;
                    ClientAction::Tick
                },
                Answer::Closed => {
                    self.state = ClientState::Done;
                    ClientAction::Done
                },
            },
            (ClientState::Timing { start }, ClientEvent::Now(now)) => {
                proof {
                    law_each_interval_counts_once(
                        self@.settings,
                        micros_between(start, now),
                        self@.interval,
                    );
                }
                if self.latencies.record_corrected(elapsed_micros(start, now), self.interval) {
                    self.state = ClientState::Ticking;
                    ClientAction::Tick
                } else {
                    self.state = ClientState::Done;
                    ClientAction::Refused
                }
            },
            _ => {
                self.state = ClientState::Done;
                ClientAction::Done
            },
        }
    }
}

/// No ping is sent once the time is up.
pub proof fn law_no_ping_after_the_end(v: ClientView, event: ClientEvent, next: ClientView)
    requires
        v.wf(),
        v.accepts(event),
        client_moves(v, event, next, ClientAction::Write),
    ensures
        event matches ClientEvent::Tick(now) && now < v.end,
{
}

/// A round trip is measured from the time of the tick to the time behind the
/// answer, in whole microseconds, and recorded with what was missed meanwhile;
/// where the histogram has no place for it, it is refused. Nothing else is
/// recorded.
pub proof fn law_round_trips_are_measured_from_the_tick(
    v: ClientView,
    tick: u64,
    now: u64,
    written: ClientView,
    read: ClientView,
    answered: ClientView,
    next: ClientView,
    actions: (ClientAction, ClientAction, ClientAction, ClientAction),
)
    requires
        v.wf(),
        v.state is Ticking,
        tick < v.end,
        client_moves(v, ClientEvent::Tick(tick), written, actions.0),
        client_moves(written, ClientEvent::Written(true), read, actions.1),
        client_moves(read, ClientEvent::Read(Answer::Frame), answered, actions.2),
        client_moves(answered, ClientEvent::Now(now), next, actions.3),
    ensures
        actions.0 is Write,
        actions.1 is Read,
        actions.2 is TakeTime,
        next.end == v.end,
        next.interval == v.interval,
        next.settings == v.settings,
        ({
            let micros = if tick < now {
                (now - tick) / 1_000
            } else {
                0
            };
            if micros < v.settings.end() {
                &&& actions.3 is Tick
                &&& next.state is Ticking
                &&& next.recorded == v.recorded.add(
                    corrected(v.settings, micros as u64, v.interval),
                )
            } else {
                actions.3 is Refused && next.state is Done && next.recorded == v.recorded
            }
        }),
{
}

/// A ping that cannot be written or answered is given up and the next one sent
/// in its time; a connection whose time is up or whose peer has gone is done.
/// None of these is recorded.
pub proof fn law_failed_pings_are_given_up(
    v: ClientView,
    event: ClientEvent,
    next: ClientView,
    action: ClientAction,
)
    requires
        v.wf(),
        v.accepts(event),
        client_moves(v, event, next, action),
        !(event is Now),
    ensures
        next.recorded == v.recorded,
        event == ClientEvent::Written(false) || event == ClientEvent::Read(Answer::Failed)
            ==> action is Tick && next.state is Ticking,
        event == ClientEvent::Read(Answer::Closed) ==> action is Done && next.state is Done,
        event matches ClientEvent::Tick(now) ==> now >= v.end ==> action is Done
            && next.state is Done,
{
}

/// Whatever comes of what a connection asks for can be told it; the time, as
/// long as what it records can be counted.
pub proof fn law_a_client_can_be_told_what_it_asked_for(
    v: ClientView,
    event: ClientEvent,
    next: ClientView,
    action: ClientAction,
)
    requires
        v.wf(),
        v.accepts(event),
        client_moves(v, event, next, action),
    ensures
        action is Tick ==> forall|now: u64| #[trigger] next.accepts(ClientEvent::Tick(now)),
        action is Write ==> forall|written: bool| #[trigger]
            next.accepts(ClientEvent::Written(written)),
        action is Read ==> forall|answer: Answer| #[trigger] next.accepts(ClientEvent::Read(answer)),
        action is TakeTime ==> (next.state matches ClientState::Timing { start } && forall|now: u64|
            next.recorded.len() + (if start < now {
                (now - start) / 1_000 + 1
            } else {
                1
            }) <= u64::MAX ==> #[trigger] next.accepts(ClientEvent::Now(now))),
{
    if let ClientState::Timing { start } = next.state {
        assert forall|now: u64|
            next.recorded.len() + (if start < now {
                (now - start) / 1_000 + 1
            } else {
                1
            }) <= u64::MAX implies #[trigger] next.accepts(ClientEvent::Now(now)) by {
            let micros = micros_between(start, now) as int;
            let interval = next.interval as int;
            if 0 < interval <= micros {
                assert(micros / interval <= micros) by (nonlinear_arith)
                    requires
                        0 < interval <= micros,
                ;
            }
        }
    }
}

} // verus!
