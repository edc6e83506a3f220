//! Histograms of latencies, kept by the `hdrhistogram` crate.

use hdrhistogram::Histogram;
use vstd::multiset::Multiset;
use vstd::prelude::*;

verus! {

/// Holds an `hdrhistogram::Histogram<u64>`.
#[verifier::external_body]
pub struct Samples {
    histogram: Histogram<u64>,
}

/// What a histogram was made with.
pub struct Settings {
    /// The lowest value that can be told from zero.
    pub low: u64,
    /// The highest value that can be recorded for sure.
    pub high: u64,
    /// The number of decimal digits that are kept of a value.
    pub digits: u8,
}

/// The samples in a histogram, each as the lowest value that it cannot be told
/// from.
pub uninterp spec fn recorded(samples: Samples) -> Multiset<u64>;

/// What a histogram was made with.
pub uninterp spec fn settings(samples: Samples) -> Settings;

impl Settings {
    /// Whether these are the settings of a histogram as this library makes
    /// them.
    pub open spec fn wf(self) -> bool {
        self.low == 1 && 2 <= self.high <= u32::MAX && self.digits <= 5
    }

    /// The lowest value that a histogram has no place for. It has room for
    /// every value up to the highest, and for those above it that are not told
    /// apart more finely.
    pub open spec fn end(self) -> int {
        sub_buckets(self.digits) * unit(self.digits, self.high as int)
    }
}

/// How many values from zero on a histogram tells apart one by one: the least
/// power of two from twice the power of ten with `digits` zeros on.
pub open spec fn sub_buckets(digits: u8) -> int {
    if digits == 0 {
        2
    } else if digits == 1 {
        32
    } else if digits == 2 {
        256
    } else if digits == 3 {
        2_048
    } else if digits == 4 {
        32_768
    } else {
        262_144
    }
}

/// How far apart two values near `value` are that a histogram tells apart: it
/// doubles whenever the value does.
pub open spec fn unit(digits: u8, value: int) -> int
    decreases value,
{
    if value < sub_buckets(digits) {
        1
    } else {
        2 * unit(digits, value / 2)
    }
}

/// The sample that stands for `value` in a histogram: the lowest value that it
/// cannot be told from.
pub open spec fn sample(settings: Settings, value: u64) -> u64 {
    let unit = unit(settings.digits, value as int);
    (value as int / unit * unit) as u64
}

proof fn lemma_unit(digits: u8, value: int)
    requires
        0 <= value,
    ensures
        1 <= unit(digits, value),
        value < sub_buckets(digits) * unit(digits, value),
        value >= sub_buckets(digits) ==> sub_buckets(digits) * unit(digits, value) <= 2 * value,
    decreases value,
{
    let n = sub_buckets(digits);
    if value >= n {
        lemma_unit(digits, value / 2);
        let half = unit(digits, value / 2);
        assert(n * (2 * half) == 2 * (n * half)) by (nonlinear_arith);
    }
}

/// A histogram has a place for every value up to its highest.
pub proof fn law_the_range_is_covered(settings: Settings, value: u64)
    requires
        value <= settings.high,
    ensures
        value < settings.end(),
{
    lemma_unit(settings.digits, settings.high as int);
}

/// Ten to the power of `digits`.
pub open spec fn power_of_ten(digits: nat) -> int
    decreases digits,
{
    if digits == 0 {
        1
    } else {
        10 * power_of_ten((digits - 1) as nat)
    }
}

/// As many decimal digits of a value are kept as was asked for: what stands for
/// it is not above it, and below it by less than one part in the power of ten
/// with that many zeros.
pub proof fn law_digits_are_kept(settings: Settings, value: u64)
    requires
        settings.wf(),
        value > 0,
    ensures
        sample(settings, value) <= value,
        (value - sample(settings, value)) * power_of_ten(settings.digits as nat) < value,
{
    let n = sub_buckets(settings.digits);
    let v = value as int;
    let u = unit(settings.digits, v);
    let p = power_of_ten(settings.digits as nat);
    lemma_unit(settings.digits, v);
    reveal_with_fuel(power_of_ten, 6);
    assert(0 < 2 * p <= n);
    vstd::arithmetic::div_mod::lemma_fundamental_div_mod(v, u);
    vstd::arithmetic::div_mod::lemma_mod_bound(v, u);
    assert(u * (v / u) == v / u * u) by (nonlinear_arith);
    let lost = v % u;
    assert(0 <= v / u * u) by (nonlinear_arith)
        requires
            v >= 0,
            u >= 1,
    ;
    assert(v - sample(settings, value) == lost);
    if v >= n {
        assert(lost * p < v) by (nonlinear_arith)
            requires
                0 <= lost < u,
                0 < 2 * p <= n,
                n * u <= 2 * v,
        ;
    } else {
        assert(lost == 0);
        assert(lost * p == 0) by (nonlinear_arith)
            requires
                lost == 0,
        ;
    }
}

/// What a histogram for the values from 1 to `high` is made with.
pub open spec fn from_one_to(high: u64, digits: u8) -> Settings {
    Settings { low: 1, high, digits }
}

/// No samples.
pub open spec fn no_samples() -> Multiset<u64> {
    Multiset::empty()
}

/// What is recorded for a value when one value was expected every `interval`:
/// the value itself, and for each further interval that passed before it came
/// what would have been seen then.
pub open spec fn corrected(settings: Settings, value: u64, interval: u64) -> Multiset<u64> {
    if value > interval {
        missed(settings, (value - interval) as u64, interval).insert(sample(settings, value))
    } else {
        no_samples().insert(sample(settings, value))
    }
}

/// How many samples that is.
pub open spec fn corrected_len(value: u64, interval: u64) -> int {
    if 0 < interval <= value {
        value as int / interval as int
    } else {
        1
    }
}

/// What would have been seen at each interval, from `value` down to `interval`.
pub open spec fn missed(settings: Settings, value: u64, interval: u64) -> Multiset<u64>
    decreases value,
{
    if 0 < interval <= value {
        missed(settings, (value - interval) as u64, interval).insert(sample(settings, value))
    } else {
        no_samples()
    }
}

/// `Histogram::new_with_max`: an empty histogram for the values from 1 to
/// `high`. It refuses no such `high` and no such `digits`.
#[verifier::external_body]
pub(crate) fn new_with_max(high: u64, digits: u8) -> (r: Option<Samples>)
    requires
        2 <= high <= u32::MAX,
        digits <= 5,
    ensures
        r is Some,
        recorded(r.unwrap()) == no_samples(),
        settings(r.unwrap()) == from_one_to(high, digits),
{
    Histogram::new_with_max(high, digits).ok().map(|histogram| Samples { histogram })
}

/// `Histogram::record`: adds a sample for the value, and says whether it did. It
/// does where the counts have a place for the value. A histogram that refuses
/// the value stays as it is.
#[verifier::external_body]
pub(crate) fn record(samples: &mut Samples, value: u64) -> (r: bool)
    requires
        settings(*old(samples)).wf(),
        recorded(*old(samples)).len() < u64::MAX,
    ensures
        settings(*final(samples)) == settings(*old(samples)),
        r == (value < settings(*old(samples)).end()),
        r ==> recorded(*final(samples)) == recorded(*old(samples)).insert(
            sample(settings(*old(samples)), value),
        ),
        !r ==> recorded(*final(samples)) == recorded(*old(samples)),
{
    samples.histogram.record(value).is_ok()
}

/// `Histogram::record_correct`: adds a sample for the value and one for each
/// value that was missed before it, and says whether it did. What it refuses is
/// what [`record`] refuses.
#[verifier::external_body]
pub(crate) fn record_correct(samples: &mut Samples, value: u64, interval: u64) -> (r: bool)
    requires
        settings(*old(samples)).wf(),
        recorded(*old(samples)).len() + corrected_len(value, interval) <= u64::MAX,
    ensures
        settings(*final(samples)) == settings(*old(samples)),
        r == (value < settings(*old(samples)).end()),
        r ==> recorded(*final(samples)) == recorded(*old(samples)).add(
            corrected(settings(*old(samples)), value, interval),
        ),
        !r ==> recorded(*final(samples)) == recorded(*old(samples)),
{
    samples.histogram.record_correct(value, interval).is_ok()
}

/// `Histogram::add`: adds the samples of another histogram that was made alike.
#[verifier::external_body]
pub(crate) fn append(samples: &mut Samples, other: &Samples) -> (r: bool)
    requires
        settings(*old(samples)) == settings(*other),
        settings(*other).wf(),
        recorded(*old(samples)).len() + recorded(*other).len() <= u64::MAX,
    ensures
        r,
        settings(*final(samples)) == settings(*old(samples)),
        recorded(*final(samples)) == recorded(*old(samples)).add(recorded(*other)),
{
    samples.histogram.add(&other.histogram).is_ok()
}

/// `Histogram::len`: the number of samples.
#[verifier::external_body]
pub(crate) fn count(samples: &Samples) -> (r: u64)
    requires
        recorded(*samples).len() <= u64::MAX,
    ensures
        r == recorded(*samples).len(),
{
    samples.histogram.len()
}

/// Whether `value` is the lowest sample; zero where there is none.
pub open spec fn is_lowest(samples: Multiset<u64>, value: u64) -> bool {
    if samples.len() == 0 {
        value == 0
    } else {
        &&& samples.count(value) > 0
        &&& forall|other: u64| #[trigger] samples.count(other) > 0 ==> value <= other
    }
}

/// Whether `value` is the highest value that cannot be told from the highest
/// sample; zero where there is none.
pub open spec fn is_highest(settings: Settings, samples: Multiset<u64>, value: u64) -> bool {
    if samples.len() == 0 {
        value == 0
    } else {
        exists|highest: u64|
            {
                &&& #[trigger] samples.count(highest) > 0
                &&& forall|other: u64| #[trigger] samples.count(other) > 0 ==> other <= highest
                &&& value == highest + unit(settings.digits, highest as int) - 1
            }
    }
}

/// `Histogram::min`: the lowest sample.
#[verifier::external_body]
pub(crate) fn lowest(samples: &Samples) -> (r: u64)
    requires
        settings(*samples).wf(),
        recorded(*samples).len() <= u64::MAX,
    ensures
        is_lowest(recorded(*samples), r),
{
    samples.histogram.min()
}

/// `Histogram::max`: the highest value that cannot be told from the highest
/// sample.
#[verifier::external_body]
pub(crate) fn highest(samples: &Samples) -> (r: u64)
    requires
        settings(*samples).wf(),
        recorded(*samples).len() <= u64::MAX,
    ensures
        is_highest(settings(*samples), recorded(*samples), r),
{
    samples.histogram.max()
}

/// Whether `entries` lists the samples in ascending order, each with the number
/// of times that it occurs.
pub open spec fn tallies(entries: Seq<(u64, u64)>, samples: Multiset<u64>) -> bool {
    &&& forall|i: int|
        0 <= i < entries.len() ==> (#[trigger] entries[i]).1 > 0 && entries[i].1 == samples.count(
            entries[i].0,
        )
    &&& forall|i: int, j: int|
        0 <= i < j < entries.len() ==> (#[trigger] entries[i]).0 < (#[trigger] entries[j]).0
    &&& forall|value: u64| #[trigger]
        samples.count(value) > 0 ==> exists|i: int|
            0 <= i < entries.len() && (#[trigger] entries[i]).0 == value
}

/// `Histogram::iter_recorded`: every value with a sample, in ascending order and
/// with the number of its samples. A value is handed out as the lowest one that
/// it cannot be told from.
#[verifier::external_body]
pub(crate) fn entries(samples: &Samples) -> (r: Vec<(u64, u64)>)
    requires
        recorded(*samples).len() <= u64::MAX,
    ensures
        tallies(r@, recorded(*samples)),
{
    let histogram = &samples.histogram;
    histogram
        .iter_recorded()
        .map(|v| (histogram.lowest_equivalent(v.value_iterated_to()), v.count_at_value()))
        .collect()
}

/// A histogram that counts from one has the highest value and the digits that
/// it was asked for, and starts without samples.
pub proof fn law_a_histogram_is_made_as_asked(high: u64, digits: u8)
    ensures
        from_one_to(high, digits).low == 1,
        from_one_to(high, digits).high == high,
        from_one_to(high, digits).digits == digits,
        no_samples().len() == 0,
        from_one_to(high, digits).wf() <==> 2 <= high <= u32::MAX && digits <= 5,
{
}

} // verus!
