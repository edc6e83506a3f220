//! Load generators for the wire protocol.
//!
//! Points in time are nanoseconds since a moment that the caller chooses;
//! latencies are microseconds.

pub mod closed_loop;
pub mod open_loop;
pub mod ping;

use crate::buffer::{bytes_of, content};
use crate::histogram::{append, corrected, corrected_len, count, entries, from_one_to, highest,
    is_highest, is_lowest, lowest, missed, new_with_max, no_samples, record, record_correct, recorded, sample, settings, tallies, Samples,
    Settings};
use crate::wire::{encode_frame, Frame, FrameView, CT_JSON, OP_PING};
use bytes::{Bytes, BytesMut};
use vstd::multiset::Multiset;
use vstd::prelude::*;

verus! {

/// The highest latency that is measured: one minute.
pub const MAX_LATENCY_MICROS: u64 = 60_000_000;

// ---------------------------------------------------------------------------
// How the load is spread
// ---------------------------------------------------------------------------

/// The requests per second of the connection with the number `i`: an equal
/// share for each, and one more for as many as it takes to use up the rest.
pub open spec fn share(rps: int, connections: int, i: int) -> int {
    rps / connections + if i < rps % connections {
        1int
    } else {
        0
    }
}

/// The requests per second of the connection with the number `i`.
pub fn connection_rps(rps: u64, connections: u64, i: u64) -> (r: u64)
    requires
        i < connections,
    ensures
        r == share(rps as int, connections as int, i as int),
{
    let base = rps / connections;
    let extra = rps % connections;
    if i < extra {
        assert(base < u64::MAX) by (nonlinear_arith)
            requires
                base == rps / connections,
                connections > 1,
                rps <= u64::MAX,
        ;
        base + 1
    } else {
        base
    }
}

/// The whole microseconds between two requests of a connection.
pub open spec fn interval_of(conn_rps: int) -> int {
    1_000_000int / conn_rps
}

/// The time between two requests of a connection.
pub fn interval_micros(conn_rps: u64) -> (r: u64)
    requires
        conn_rps > 0,
    ensures
        r == interval_of(conn_rps as int),
{
    1_000_000 / conn_rps
}

/// The requests per second of the first `n` connections.
pub open spec fn shares(rps: int, connections: int, n: nat) -> int
    decreases n,
{
    if n == 0 {
        0
    } else {
        shares(rps, connections, (n - 1) as nat) + share(rps, connections, n - 1)
    }
}

proof fn lemma_shares(rps: int, connections: int, n: nat)
    requires
        0 <= rps,
        0 < connections,
    ensures
        shares(rps, connections, n) == n * (rps / connections) + if n < rps % connections {
            n as int
        } else {
            rps % connections
        },
    decreases n,
{
    vstd::arithmetic::div_mod::lemma_mod_bound(rps, connections);
    if n > 0 {
        lemma_shares(rps, connections, (n - 1) as nat);
        assert((n - 1) * (rps / connections) + rps / connections == n * (rps / connections))
            by (nonlinear_arith);
    } else {
        assert(0 * (rps / connections) == 0);
    }
}

/// The shares of all connections add up to the load that was asked for.
pub proof fn law_shares_add_up(rps: u64, connections: u64)
    requires
        connections > 0,
    ensures
        shares(rps as int, connections as int, connections as nat) == rps,
{
    lemma_shares(rps as int, connections as int, connections as nat);
    vstd::arithmetic::div_mod::lemma_fundamental_div_mod(rps as int, connections as int);
    vstd::arithmetic::div_mod::lemma_mod_bound(rps as int, connections as int);
}

/// No connection is asked for more than one request per second more than
/// another.
pub proof fn law_shares_are_even(rps: u64, connections: u64, i: u64, j: u64)
    requires
        i < connections,
        j < connections,
    ensures
        share(rps as int, connections as int, i as int) <= share(
            rps as int,
            connections as int,
            j as int,
        ) + 1,
{
}

/// How far the writer of a connection is from its reader, in threads.
pub open spec fn thread_distance(threads: int) -> int {
    if threads / 2 > 1 {
        threads / 2
    } else {
        1
    }
}

/// The thread of the reader of the connection with the number `i`.
pub open spec fn reader_thread(i: int, threads: int) -> int {
    i % threads
}

/// The thread of the writer of the connection with the number `i`.
pub open spec fn writer_thread(i: int, threads: int) -> int {
    (i + thread_distance(threads)) % threads
}

/// The threads of the reader and of the writer of the connection with the
/// number `i`.
pub fn placement(i: usize, threads: usize) -> (r: (usize, usize))
    requires
        threads > 0,
        i + thread_distance(threads as int) <= usize::MAX,
    ensures
        r.0 == reader_thread(i as int, threads as int),
        r.1 == writer_thread(i as int, threads as int),
{
    let half = threads / 2;
    let distance = if half > 1 {
        half
    } else {
        1
    };
    (i % threads, (i + distance) % threads)
}

/// Where there is more than one thread, the reader and the writer of a
/// connection do not share one.
pub proof fn law_reader_and_writer_are_apart(i: usize, threads: usize)
    requires
        threads > 1,
    ensures
        reader_thread(i as int, threads as int) != writer_thread(i as int, threads as int),
{
    let t = threads as int;
    let d = thread_distance(t);
    assert(0 < d < t);
    vstd::arithmetic::div_mod::lemma_fundamental_div_mod(i as int, t);
    vstd::arithmetic::div_mod::lemma_fundamental_div_mod(i + d, t);
    let q = i as int / t;
    let p = (i + d) / t;
    if i as int % t == (i + d) % t {
        assert(t * p - t * q == d);
        assert(t * p - t * q == t * (p - q)) by (nonlinear_arith);
        assert(false) by (nonlinear_arith)
            requires
                t * (p - q) == d,
                0 < d < t,
        ;
    }
}

// ---------------------------------------------------------------------------
// The request
// ---------------------------------------------------------------------------

/// The ping that is sent all the time.
pub open spec fn ping_frame() -> FrameView {
    FrameView { op: OP_PING, content_type: CT_JSON, payload: Seq::empty() }
}

/// A ping on the wire.
pub fn ping() -> (r: Bytes)
    ensures
        bytes_of(r) == ping_frame().wire(),
        bytes_of(r) == seq![0u8, 0, 0, 3, 0, 0, 1],
{
    let frame = Frame::new(OP_PING, CT_JSON, BytesMut::new().freeze());
    let mut buf = BytesMut::with_capacity(7);
    assert(frame@.payload =~= Seq::<u8>::empty());
    encode_frame(&frame, &mut buf);
    assert(content(buf) =~= ping_frame().wire());
    assert(content(buf) =~= seq![0u8, 0, 0, 3, 0, 0, 1]);
    buf.freeze()
}

// ---------------------------------------------------------------------------
// Latencies
// ---------------------------------------------------------------------------

/// The time from `start` to `end` in microseconds, or none at all where `end`
/// is not later.
pub open spec fn micros_between(start: u64, end: u64) -> u64 {
    if start < end {
        ((end - start) / 1000) as u64
    } else {
        0
    }
}

/// The time from `start` to `end` in microseconds.
pub fn elapsed_micros(start: u64, end: u64) -> (r: u64)
    ensures
        r == micros_between(start, end),
{
    if start < end {
        (end - start) / 1000
    } else {
        0
    }
}

/// The latencies of a run.
pub struct Latencies {
    samples: Samples,
}

impl Latencies {
    /// The latencies, as the histogram tells them apart.
    pub closed spec fn recorded(self) -> Multiset<u64> {
        recorded(self.samples)
    }

    /// What the histogram was made with.
    pub closed spec fn settings(self) -> Settings {
        settings(self.samples)
    }

    /// Starts without latencies; `digits` decimal digits are kept of each.
    pub fn new(digits: u8) -> (r: Latencies)
        requires
            digits <= 5,
        ensures
            r.recorded() == no_samples(),
            r.settings() == from_one_to(MAX_LATENCY_MICROS, digits),
    {
        Latencies { samples: new_with_max(MAX_LATENCY_MICROS, digits).unwrap() }
    }

    /// Records a latency, and says whether the histogram has a place for it. It
    /// has one for every latency up to [`MAX_LATENCY_MICROS`].
    pub fn record(&mut self, micros: u64) -> (r: bool)
        requires
            old(self).settings().wf(),
            old(self).recorded().len() < u64::MAX,
        ensures
            final(self).settings() == old(self).settings(),
            r == (micros < old(self).settings().end()),
            final(self).recorded() == if r {
                old(self).recorded().insert(sample(old(self).settings(), micros))
            } else {
                old(self).recorded()
            },
    {
        record(&mut self.samples, micros)
    }

    /// Records a latency together with those that were missed while it lasted,
    /// where one request was due every `interval` microseconds, and says
    /// whether the histogram has a place for it.
    pub fn record_corrected(&mut self, micros: u64, interval: u64) -> (r: bool)
        requires
            old(self).settings().wf(),
            old(self).recorded().len() + corrected_len(micros, interval) <= u64::MAX,
        ensures
            final(self).settings() == old(self).settings(),
            r == (micros < old(self).settings().end()),
            final(self).recorded() == if r {
                old(self).recorded().add(corrected(old(self).settings(), micros, interval))
            } else {
                old(self).recorded()
            },
    {
        record_correct(&mut self.samples, micros, interval)
    }

    /// Adds the latencies of another run.
    pub fn merge(&mut self, other: &Latencies)
        requires
            old(self).settings() == other.settings(),
            other.settings().wf(),
            old(self).recorded().len() + other.recorded().len() <= u64::MAX,
        ensures
            final(self).settings() == old(self).settings(),
            final(self).recorded() == old(self).recorded().add(other.recorded()),
    {
        let _ = append(&mut self.samples, &other.samples);
    }

    /// The number of latencies.
    pub fn len(&self) -> (r: u64)
        requires
            self.recorded().len() <= u64::MAX,
        ensures
            r == self.recorded().len(),
    {
        count(&self.samples)
    }

    /// The lowest latency; zero where there is none.
    pub fn min(&self) -> (r: u64)
        requires
            self.settings().wf(),
            self.recorded().len() <= u64::MAX,
        ensures
            is_lowest(self.recorded(), r),
    {
        lowest(&self.samples)
    }

    /// The highest latency, as far as the histogram tells it from higher ones;
    /// zero where there is none.
    pub fn max(&self) -> (r: u64)
        requires
            self.settings().wf(),
            self.recorded().len() <= u64::MAX,
        ensures
            is_highest(self.settings(), self.recorded(), r),
    {
        highest(&self.samples)
    }

    /// Whether `more` latencies can be recorded before the counter is full.
    pub fn has_room(&self, more: u64) -> (r: bool)
        requires
            self.recorded().len() <= u64::MAX,
        ensures
            r == (self.recorded().len() + more <= u64::MAX),
    {
        more <= u64::MAX - self.len()
    }

    /// The latencies in ascending order, each with the number of times that it
    /// was recorded.
    pub fn entries(&self) -> (r: Vec<(u64, u64)>)
        requires
            self.recorded().len() <= u64::MAX,
        ensures
            tallies(r@, self.recorded()),
    {
        entries(&self.samples)
    }
}

proof fn lemma_missed_len(settings: Settings, value: u64, interval: u64)
    requires
        interval > 0,
    ensures
        missed(settings, value, interval).len() == value as int / interval as int,
    decreases value,
{
    let v = value as int;
    let i = interval as int;
    if interval <= value {
        lemma_missed_len(settings, (value - interval) as u64, interval);
        vstd::arithmetic::div_mod::lemma_div_plus_one(v - i, i);
    } else {
        vstd::arithmetic::div_mod::lemma_basic_div(v, i);
    }
}

/// A latency counts once for each interval that it lasted, and once where it
/// was shorter than that.
pub proof fn law_each_interval_counts_once(settings: Settings, micros: u64, interval: u64)
    ensures
        corrected(settings, micros, interval).len() == corrected_len(micros, interval),
{
    if micros > interval {
        if interval > 0 {
            lemma_missed_len(settings, (micros - interval) as u64, interval);
            vstd::arithmetic::div_mod::lemma_div_plus_one(micros - interval, interval as int);
        }
    } else if micros == interval && interval > 0 {
        vstd::arithmetic::div_mod::lemma_div_by_self(micros as int);
    }
}

/// The latencies of several runs.
pub open spec fn all_recorded(runs: Seq<Latencies>) -> Multiset<u64>
    decreases runs.len(),
{
    if runs.len() == 0 {
        Multiset::empty()
    } else {
        all_recorded(runs.drop_last()).add(runs.last().recorded())
    }
}

proof fn lemma_all_recorded_grows(runs: Seq<Latencies>, n: int)
    requires
        0 <= n <= runs.len(),
    ensures
        all_recorded(runs.take(n)).len() <= all_recorded(runs).len(),
    decreases runs.len(),
{
    if n == runs.len() {
        assert(runs.take(n) =~= runs);
    } else {
        assert(runs.drop_last().take(n) =~= runs.take(n));
        lemma_all_recorded_grows(runs.drop_last(), n);
    }
}

/// Puts the latencies of several runs together, and counts them.
pub fn combine(runs: &Vec<Latencies>, digits: u8) -> (r: (u64, Latencies))
    requires
        digits <= 5,
        forall|i: int|
            0 <= i < runs@.len() ==> (#[trigger] runs@[i]).settings() == from_one_to(
                MAX_LATENCY_MICROS,
                digits,
            ),
        all_recorded(runs@).len() <= u64::MAX,
    ensures
        r.0 == all_recorded(runs@).len(),
        r.1.recorded() == all_recorded(runs@),
        r.1.settings() == from_one_to(MAX_LATENCY_MICROS, digits),
{
    let mut total: u64 = 0;
    let mut combined = Latencies::new(digits);
    assert(runs@.take(0) =~= Seq::empty());
    for i in 0..runs.len()
        invariant
            digits <= 5,
            forall|i: int|
                0 <= i < runs@.len() ==> (#[trigger] runs@[i]).settings() == from_one_to(
                    MAX_LATENCY_MICROS,
                    digits,
                ),
            all_recorded(runs@).len() <= u64::MAX,
            combined.settings() == from_one_to(MAX_LATENCY_MICROS, digits),
            combined.recorded() == all_recorded(runs@.take(i as int)),
            total == all_recorded(runs@.take(i as int)).len(),
    {
        proof {
            lemma_all_recorded_grows(runs@, i + 1);
            assert(runs@.take(i + 1).drop_last() =~= runs@.take(i as int));
            assert(runs@.take(i + 1).last() == runs@[i as int]);
        }
        total = total + runs[i].len();
        combined.merge(&runs[i]);
    }
    assert(runs@.take(runs@.len() as int) =~= runs@);
    (total, combined)
}

// ---------------------------------------------------------------------------
// Laws of the load and of latencies
// ---------------------------------------------------------------------------

/// Where the load cannot be spread evenly, the first connections have more.
pub proof fn law_the_first_connections_have_more(rps: u64, connections: u64, i: u64, j: u64)
    requires
        i <= j < connections,
    ensures
        share(rps as int, connections as int, i as int) >= share(
            rps as int,
            connections as int,
            j as int,
        ) >= 0,
{
    vstd::arithmetic::div_mod::lemma_div_pos_is_pos(rps as int, connections as int);
}

/// The interval is the longest whole number of microseconds that a second has
/// room for as often as there are requests in it.
pub proof fn law_the_interval_fills_a_second(conn_rps: u64)
    requires
        conn_rps > 0,
    ensures
        interval_of(conn_rps as int) * conn_rps <= 1_000_000,
        1_000_000 < (interval_of(conn_rps as int) + 1) * conn_rps,
{
    let r = conn_rps as int;
    let q = interval_of(r);
    vstd::arithmetic::div_mod::lemma_fundamental_div_mod(1_000_000, r);
    vstd::arithmetic::div_mod::lemma_mod_bound(1_000_000, r);
    assert(r * q == q * r) by (nonlinear_arith);
    assert((q + 1) * r == q * r + r) by (nonlinear_arith);
}

/// Connections go round the threads: the first one is read on the first thread,
/// each one on the thread behind the one before, and after the last thread the
/// first one comes again. Writing goes round in the same way, half the threads
/// further on.
pub proof fn law_connections_go_round_the_threads(i: usize, threads: usize)
    requires
        threads > 0,
    ensures
        ({
            let t = threads as int;
            let here = reader_thread(i as int, t);
            let there = writer_thread(i as int, t);
            let half = if t < 4 {
                1
            } else {
                t / 2
            };
            &&& 0 <= here < t
            &&& 0 <= there < t
            &&& reader_thread(0, t) == 0
            &&& reader_thread(i + 1, t) == if here + 1 == t {
                0
            } else {
                here + 1
            }
            &&& t > 1 ==> there == if here + half < t {
                here + half
            } else {
                here + half - t
            }
        }),
{
    let t = threads as int;
    let n = i as int;
    let here = n % t;
    vstd::arithmetic::div_mod::lemma_mod_bound(n, t);
    vstd::arithmetic::div_mod::lemma_mod_bound(n + thread_distance(t), t);
    vstd::arithmetic::div_mod::lemma_small_mod(0, t as nat);
    lemma_step_on(n, t, 1);
    if t > 1 {
        lemma_step_on(n, t, thread_distance(t));
    }
}

/// Some steps further on from a place on a round.
proof fn lemma_step_on(n: int, t: int, d: int)
    requires
        0 <= n,
        0 < t,
        0 <= d <= t,
    ensures
        (n + d) % t == if n % t + d < t {
            n % t + d
        } else {
            n % t + d - t
        },
{
    let q = n / t;
    let r = n % t;
    vstd::arithmetic::div_mod::lemma_fundamental_div_mod(n, t);
    vstd::arithmetic::div_mod::lemma_mod_bound(n, t);
    if r + d < t {
        assert(n + d == q * t + (r + d)) by (nonlinear_arith)
            requires
                n == t * q + r,
        ;
        vstd::arithmetic::div_mod::lemma_fundamental_div_mod_converse(n + d, t, q, r + d);
    } else {
        assert(n + d == (q + 1) * t + (r + d - t)) by (nonlinear_arith)
            requires
                n == t * q + r,
        ;
        vstd::arithmetic::div_mod::lemma_fundamental_div_mod_converse(n + d, t, q + 1, r + d - t);
    }
}

/// A latency is the whole microseconds from one time to a later one, of a
/// thousand nanoseconds each; there is none to an earlier time.
pub proof fn law_latencies_are_whole_microseconds(start: u64, end: u64)
    ensures
        start <= end ==> 1_000 * micros_between(start, end) <= end - start < 1_000 * (
        micros_between(start, end) + 1),
        end <= start ==> micros_between(start, end) == 0,
{
}

/// The latencies of no runs are none, those of one run are its own, and those
/// of more runs are those of the first and those of the others together.
pub proof fn law_runs_are_combined_whole(first: Seq<Latencies>, others: Seq<Latencies>)
    ensures
        first.len() == 0 ==> all_recorded(first) == Multiset::<u64>::empty(),
        first.len() == 1 ==> all_recorded(first) == first[0].recorded(),
        all_recorded(first + others) == all_recorded(first).add(all_recorded(others)),
    decreases others.len(),
{
    if first.len() == 1 {
        assert(first.drop_last() =~= Seq::empty());
        assert(all_recorded(first.drop_last()) =~= Multiset::empty());
        assert(Multiset::<u64>::empty().add(first[0].recorded()) =~= first[0].recorded());
    }
    if others.len() == 0 {
        assert(first + others =~= first);
        assert(all_recorded(first).add(Multiset::empty()) =~= all_recorded(first));
    } else {
        law_runs_are_combined_whole(first, others.drop_last());
        assert((first + others).drop_last() =~= first + others.drop_last());
        assert(all_recorded(first).add(all_recorded(others.drop_last())).add(
            others.last().recorded(),
        ) =~= all_recorded(first).add(
            all_recorded(others.drop_last()).add(others.last().recorded()),
        ));
    }
}

/// The limits of what is measured and of what is read.
pub proof fn law_limits_of_the_load_generators()
    ensures
        MAX_LATENCY_MICROS == 60 * 1_000_000,
        open_loop::MAX_FRAME_BYTES == 4 * 1024 * 1024,
        open_loop::SIGNIFICANT_DECIMAL_DIGITS == 4,
        closed_loop::SIGNIFICANT_DECIMAL_DIGITS == 4,
        ping::MAX_FRAME_BYTES == 16 * 1024,
        ping::HIST_SIGFIGS == 3,
        ping_frame() == (FrameView { op: 0, content_type: 1, payload: Seq::empty() }),
{
}

} // verus!
