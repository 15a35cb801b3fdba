//! Measured performance: samples, observations and calibration results.

use vstd::prelude::*;
use vstd::string::*;

use crate::profiles;
use crate::profiles::{
    CalibrationLevel, PlannerError, StrategyId, CALIBRATION_PLAN_VERSION,
    CALIBRATION_RULESET_VERSION, PROFILE_SCHEMA_VERSION,
};
use crate::text;

verus! {

#[derive(Debug, Clone, Copy, PartialEq, Eq, Structural)]
pub enum ObservationMetric {
    CpuFloatThroughput,
    SequentialReadThroughput,
    RandomReadLatency,
    MemoryBandwidth,
    QuantizedDecodeThroughput,
    StrategyLatency,
}

#[derive(Debug, Clone, Copy, PartialEq, Eq, Structural)]
pub enum ObservationUnit {
    BytesPerSecond,
    ElementsPerSecond,
    Nanoseconds,
}

#[derive(Debug, Clone, Copy, PartialEq, Eq, Structural)]
pub enum ObservationStatus {
    Measured,
    Unavailable,
    Skipped,
    Failed,
}

#[derive(Debug, Clone, Copy, PartialEq, Eq, Structural)]
pub enum ObservationStatusReason {
    CapabilityUnavailable,
    DependencyUnavailable,
    ResourceLimitExceeded,
    TimeLimitReached,
    TestNotImplemented,
    IoFailure,
    InvalidWorkload,
}

#[derive(Debug, Clone, Copy, PartialEq, Eq, Structural)]
pub struct MeasurementSample {
    pub elapsed_ns: u64,
    pub units_processed: u64,
}

pub const NANOSECONDS_PER_SECOND: u128 = 1000000000;

/// Every sample took time and processed something, and there is one.
pub open spec fn samples_usable(samples: Seq<MeasurementSample>) -> bool {
    &&& samples.len() > 0
    &&& forall|i: int|
        0 <= i < samples.len() ==> (#[trigger] samples[i]).elapsed_ns > 0
            && samples[i].units_processed > 0
}

/// Whole units per second.
pub open spec fn sample_rate(sample: MeasurementSample) -> int {
    sample.units_processed * NANOSECONDS_PER_SECOND / (sample.elapsed_ns as int)
}

pub open spec fn lowest_rate(samples: Seq<MeasurementSample>) -> int
    decreases samples.len(),
{
    if samples.len() <= 1 {
        sample_rate(samples[0])
    } else {
        let earlier = lowest_rate(samples.drop_last());
        let rate = sample_rate(samples.last());
        if rate < earlier {
            rate
        } else {
            earlier
        }
    }
}

pub open spec fn highest_rate(samples: Seq<MeasurementSample>) -> int
    decreases samples.len(),
{
    if samples.len() <= 1 {
        sample_rate(samples[0])
    } else {
        let earlier = highest_rate(samples.drop_last());
        let rate = sample_rate(samples.last());
        if rate > earlier {
            rate
        } else {
            earlier
        }
    }
}

/// All samples ran at exactly the same rate, however slow.
pub open spec fn same_rates(samples: Seq<MeasurementSample>) -> bool {
    forall|i: int, j: int|
        0 <= i < samples.len() && 0 <= j < samples.len() ==> (#[trigger] samples[i]).units_processed
            * (#[trigger] samples[j]).elapsed_ns == samples[j].units_processed
            * samples[i].elapsed_ns
}

/// Ten thousand for equal rates, else ten thousand less the spread of the whole
/// rates relative to the highest.
pub open spec fn quality(samples: Seq<MeasurementSample>) -> int {
    if !samples_usable(samples) {
        0
    } else if same_rates(samples) {
        10000
    } else if highest_rate(samples) == 0 {
        0
    } else {
        10000 - (highest_rate(samples) - lowest_rate(samples)) * 10000 / highest_rate(samples)
    }
}

proof fn lemma_rate_bounds(samples: Seq<MeasurementSample>)
    requires
        samples_usable(samples),
    ensures
        0 <= lowest_rate(samples) <= highest_rate(samples),
        highest_rate(samples) <= u64::MAX * NANOSECONDS_PER_SECOND,
    decreases samples.len(),
{
    lemma_sample_rate_bounds(samples.last());
    if samples.len() > 1 {
        let shorter = samples.drop_last();
        assert forall|i: int| 0 <= i < shorter.len() implies (#[trigger] shorter[i]).elapsed_ns > 0
            && shorter[i].units_processed > 0 by {
            assert(shorter[i] == samples[i]);
        }
        assert(samples[samples.len() - 1].elapsed_ns > 0);
        lemma_rate_bounds(shorter);
    }
}

proof fn lemma_sample_rate_bounds(sample: MeasurementSample)
    ensures
        sample.elapsed_ns > 0 ==> 0 <= sample_rate(sample) <= u64::MAX * NANOSECONDS_PER_SECOND,
{
    if sample.elapsed_ns > 0 {
        let product = sample.units_processed * NANOSECONDS_PER_SECOND;
        let elapsed = sample.elapsed_ns as int;
        assert(0 <= product <= u64::MAX * NANOSECONDS_PER_SECOND);
        assert(0 <= product / elapsed <= product) by (nonlinear_arith)
            requires
                0 <= product,
                elapsed >= 1,
        ;
    }
}

proof fn lemma_spread_bounds(highest: int, lowest: int)
    requires
        0 <= lowest <= highest,
        highest > 0,
    ensures
        0 <= (highest - lowest) * 10000 / highest <= 10000,
{
    assert(0 <= (highest - lowest) * 10000 / highest <= 10000) by (nonlinear_arith)
        requires
            0 <= lowest <= highest,
            highest > 0,
    ;
}

/// Samples of one rate have one whole rate.
proof fn lemma_same_rates_whole(samples: Seq<MeasurementSample>, upto: int)
    requires
        samples_usable(samples),
        same_rates(samples),
        1 <= upto <= samples.len(),
    ensures
        lowest_rate(samples.take(upto)) == sample_rate(samples[0]),
        highest_rate(samples.take(upto)) == sample_rate(samples[0]),
    decreases upto,
{
    if upto > 1 {
        let last = samples[upto - 1];
        lemma_same_rates_whole(samples, upto - 1);
        assert(samples.take(upto).drop_last() =~= samples.take(upto - 1));
        assert(samples.take(upto).last() == last);
        let units = samples[0].units_processed as int;
        let elapsed = samples[0].elapsed_ns as int;
        let last_units = last.units_processed as int;
        let last_elapsed = last.elapsed_ns as int;
        assert(units * last_elapsed == last_units * elapsed);
        assert(units * 1000000000int / elapsed == last_units * 1000000000int / last_elapsed) by {
            let scaled = units * 1000000000int;
            let last_scaled = last_units * 1000000000int;
            assert(scaled * last_elapsed == last_scaled * elapsed) by (nonlinear_arith)
                requires
                    units * last_elapsed == last_units * elapsed,
                    scaled == units * 1000000000int,
                    last_scaled == last_units * 1000000000int,
            ;
            lemma_equal_quotients(scaled, elapsed, last_scaled, last_elapsed);
        }
    }
}

proof fn lemma_equal_quotients(left: int, under_left: int, right: int, under_right: int)
    requires
        left >= 0,
        right >= 0,
        under_left > 0,
        under_right > 0,
        left * under_right == right * under_left,
    ensures
        left / under_left == right / under_right,
{
    let q = left / under_left;
    let r = left % under_left;
    assert(left == under_left * q + r && 0 <= r < under_left) by {
        vstd::arithmetic::div_mod::lemma_fundamental_div_mod(left, under_left);
        vstd::arithmetic::div_mod::lemma_mod_bound(left, under_left);
    }
    let rest = right - under_right * q;
    assert(rest * under_left == r * under_right) by (nonlinear_arith)
        requires
            left == under_left * q + r,
            left * under_right == right * under_left,
            rest == right - under_right * q,
    ;
    assert(0 <= rest < under_right) by (nonlinear_arith)
        requires
            rest * under_left == r * under_right,
            0 <= r < under_left,
            under_right > 0,
    ;
    assert(right == q * under_right + rest) by (nonlinear_arith)
        requires
            rest == right - under_right * q,
    ;
    vstd::arithmetic::div_mod::lemma_fundamental_div_mod_converse(right, under_right, q, rest);
}

/// Quality lies between zero and ten thousand. Samples of exactly the same rate
/// have full quality, as have those of the same whole rate where it is not zero.
/// Where rates differ and some whole rate is zero, quality is zero.
pub proof fn lemma_quality(samples: Seq<MeasurementSample>)
    ensures
        0 <= quality(samples) <= 10000,
        samples_usable(samples) && (forall|i: int, j: int|
            0 <= i < samples.len() && 0 <= j < samples.len() ==> (
            #[trigger] samples[i]).units_processed * (#[trigger] samples[j]).elapsed_ns
                == samples[j].units_processed * samples[i].elapsed_ns) ==> quality(samples) == 10000,
        samples_usable(samples) && highest_rate(samples) == lowest_rate(samples)
            && highest_rate(samples) > 0 ==> quality(samples) == 10000,
        samples_usable(samples) && !same_rates(samples) && lowest_rate(samples) == 0 ==> quality(
            samples,
        ) == 0,
{
    if samples_usable(samples) && highest_rate(samples) != 0 {
        lemma_rate_bounds(samples);
        let highest = highest_rate(samples);
        lemma_spread_bounds(highest, lowest_rate(samples));
        assert(0int * 10000 / highest == 0) by (nonlinear_arith)
            requires
                highest > 0,
        ;
        assert(highest * 10000 / highest == 10000) by (nonlinear_arith)
            requires
                highest > 0,
        ;
    }
}

/// Where the highest whole rate is not zero, quality is ten thousand less the
/// relative spread, for equal rates too.
pub proof fn lemma_quality_is_spread(samples: Seq<MeasurementSample>)
    requires
        samples_usable(samples),
        highest_rate(samples) > 0,
    ensures
        quality(samples) == 10000 - (highest_rate(samples) - lowest_rate(samples)) * 10000
            / highest_rate(samples),
{
    if same_rates(samples) {
        lemma_same_rates_whole(samples, samples.len() as int);
        assert(samples.take(samples.len() as int) =~= samples);
        let highest = highest_rate(samples);
        assert(0int * 10000 / highest == 0) by (nonlinear_arith)
            requires
                highest > 0,
        ;
    }
}

/// Samples that all run at the first one's rate run at one rate.
proof fn lemma_rates_of_first(samples: Seq<MeasurementSample>)
    requires
        samples_usable(samples),
        forall|i: int|
            0 <= i < samples.len() ==> (#[trigger] samples[i]).units_processed
                * samples[0].elapsed_ns == samples[0].units_processed * samples[i].elapsed_ns,
    ensures
        same_rates(samples),
{
    assert forall|i: int, j: int|
        0 <= i < samples.len() && 0 <= j < samples.len() implies (
        #[trigger] samples[i]).units_processed * (#[trigger] samples[j]).elapsed_ns
        == samples[j].units_processed * samples[i].elapsed_ns by {
        let u = samples[0].units_processed as int;
        let e = samples[0].elapsed_ns as int;
        let ui = samples[i].units_processed as int;
        let ei = samples[i].elapsed_ns as int;
        let uj = samples[j].units_processed as int;
        let ej = samples[j].elapsed_ns as int;
        assert(ui * e == u * ei);
        assert(uj * e == u * ej);
        assert(samples[0].elapsed_ns > 0);
        assert((ui * ej) * e == (uj * ei) * e) by (nonlinear_arith)
            requires
                ui * e == u * ei,
                uj * e == u * ej,
        ;
        assert(ui * ej == uj * ei) by (nonlinear_arith)
            requires
                (ui * ej) * e == (uj * ei) * e,
                e > 0,
        ;
    }
}

fn have_same_rates(samples: &[MeasurementSample]) -> (same: bool)
    requires
        samples_usable(samples@),
    ensures
        same == same_rates(samples@),
{
    let first = samples[0];
    for i in 0..samples.len()
        invariant
            samples_usable(samples@),
            first == samples@[0],
            forall|j: int|
                0 <= j < i ==> (#[trigger] samples@[j]).units_processed * first.elapsed_ns
                    == first.units_processed * samples@[j].elapsed_ns,
    {
        let sample = samples[i];
        proof {
            lemma_cross_bounds(sample.units_processed, first.elapsed_ns);
            lemma_cross_bounds(first.units_processed, sample.elapsed_ns);
        }
        let here: u128 = sample.units_processed as u128 * first.elapsed_ns as u128;
        let there: u128 = first.units_processed as u128 * sample.elapsed_ns as u128;
        if here != there {
            assert(samples@[i as int].units_processed * samples@[0].elapsed_ns
                != samples@[0].units_processed * samples@[i as int].elapsed_ns);
            return false;
        }
    }
    proof {
        lemma_rates_of_first(samples@);
    }
    true
}

proof fn lemma_cross_bounds(left: u64, right: u64)
    ensures
        0 <= left * right <= u128::MAX,
{
    assert(0 <= left * right <= u128::MAX) by (nonlinear_arith)
        requires
            0 <= left <= u64::MAX,
            0 <= right <= u64::MAX,
    ;
}

/// The extremes of the rates bound every sample's rate.
pub proof fn lemma_rates_between(samples: Seq<MeasurementSample>, at: int)
    requires
        0 <= at < samples.len(),
    ensures
        lowest_rate(samples) <= sample_rate(samples[at]) <= highest_rate(samples),
    decreases samples.len(),
{
    if samples.len() > 1 && at < samples.len() - 1 {
        lemma_rates_between(samples.drop_last(), at);
    } else if samples.len() > 1 {
        lemma_rates_between(samples.drop_last(), 0);
    }
}

fn are_samples_usable(samples: &[MeasurementSample]) -> (usable: bool)
    ensures
        usable == samples_usable(samples@),
{
    if samples.len() == 0 {
        return false;
    }
    for i in 0..samples.len()
        invariant
            forall|j: int|
                0 <= j < i ==> (#[trigger] samples@[j]).elapsed_ns > 0
                    && samples@[j].units_processed > 0,
    {
        if samples[i].elapsed_ns == 0 || samples[i].units_processed == 0 {
            assert(samples@[i as int].elapsed_ns == 0 || samples@[i as int].units_processed == 0);
            return false;
        }
    }
    true
}

/// Derive observation quality from the relative spread of per-sample rates.
/// Identical rates, however slow, produce 10,000 basis points; a spread equal to
/// the maximum observed rate produces zero. No statistical confidence is implied.
pub fn observation_quality_basis_points(samples: &[MeasurementSample]) -> (points: u16)
    ensures
        points == quality(samples@),
{
    if !are_samples_usable(samples) {
        return 0;
    }
    if have_same_rates(samples) {
        return 10000;
    }
    let ghost all = samples@;
    proof {
        lemma_rate_bounds(all);
        lemma_sample_rate_bounds(all[0]);
        assert(all.take(1).len() == 1);
    }
    let first: u128 = samples[0].units_processed as u128 * NANOSECONDS_PER_SECOND
        / samples[0].elapsed_ns as u128;
    let mut minimum_rate: u128 = first;
    let mut maximum_rate: u128 = first;
    for i in 1..samples.len()
        invariant
            all == samples@,
            samples_usable(all),
            1 <= i <= all.len(),
            minimum_rate == lowest_rate(all.take(i as int)),
            maximum_rate == highest_rate(all.take(i as int)),
    {
        proof {
            assert(all.take(i as int + 1).drop_last() =~= all.take(i as int));
            assert(all.take(i as int + 1).last() == all[i as int]);
            lemma_sample_rate_bounds(all[i as int]);
        }
        let rate: u128 = samples[i].units_processed as u128 * NANOSECONDS_PER_SECOND
            / samples[i].elapsed_ns as u128;
        if rate < minimum_rate {
            minimum_rate = rate;
        }
        if rate > maximum_rate {
            maximum_rate = rate;
        }
    }
    assert(all.take(all.len() as int) =~= all);
    if maximum_rate == 0 {
        return 0;
    }
    proof {
        lemma_spread_bounds(maximum_rate as int, minimum_rate as int);
    }
    let spread: u128 = (maximum_rate - minimum_rate) * 10000 / maximum_rate;
    (10000 - spread) as u16
}

pub open spec fn total_elapsed(samples: Seq<MeasurementSample>) -> int
    decreases samples.len(),
{
    if samples.len() == 0 {
        0
    } else {
        total_elapsed(samples.drop_last()) + samples.last().elapsed_ns
    }
}

pub open spec fn total_units(samples: Seq<MeasurementSample>) -> int
    decreases samples.len(),
{
    if samples.len() == 0 {
        0
    } else {
        total_units(samples.drop_last()) + samples.last().units_processed
    }
}

/// A positive value that is cut to 64 bits.
pub open spec fn positive_value(value: int) -> Option<u64> {
    if value <= 0 {
        None
    } else if value > u64::MAX {
        Some(u64::MAX)
    } else {
        Some(value as u64)
    }
}

/// The value of all samples together: units per second over the whole time, or
/// the time per unit.
pub open spec fn aggregate(unit: ObservationUnit, samples: Seq<MeasurementSample>) -> Option<u64> {
    if !samples_usable(samples) {
        None
    } else {
        match unit {
            ObservationUnit::BytesPerSecond | ObservationUnit::ElementsPerSecond =>
                if total_units(samples) * NANOSECONDS_PER_SECOND > u128::MAX {
                    None
                } else {
                    positive_value(
                        total_units(samples) * NANOSECONDS_PER_SECOND / total_elapsed(samples),
                    )
                },
            ObservationUnit::Nanoseconds => positive_value(
                total_elapsed(samples) / total_units(samples),
            ),
        }
    }
}

proof fn lemma_totals_joined(first: Seq<MeasurementSample>, second: Seq<MeasurementSample>)
    ensures
        total_elapsed(first + second) == total_elapsed(first) + total_elapsed(second),
        total_units(first + second) == total_units(first) + total_units(second),
    decreases second.len(),
{
    if second.len() == 0 {
        assert(first + second =~= first);
    } else {
        assert((first + second).drop_last() =~= first + second.drop_last());
        lemma_totals_joined(first, second.drop_last());
    }
}

proof fn lemma_totals_positive(samples: Seq<MeasurementSample>)
    requires
        samples_usable(samples),
    ensures
        total_elapsed(samples) > 0,
        total_units(samples) > 0,
    decreases samples.len(),
{
    reveal_with_fuel(total_elapsed, 2);
    reveal_with_fuel(total_units, 2);
    assert(samples.last() == samples[samples.len() - 1]);
    if samples.len() > 1 {
        let shorter = samples.drop_last();
        assert forall|i: int| 0 <= i < shorter.len() implies (#[trigger] shorter[i]).elapsed_ns > 0
            && shorter[i].units_processed > 0 by {
            assert(shorter[i] == samples[i]);
        }
        lemma_totals_positive(shorter);
    }
}

/// The quotient of two sums lies between the quotients of their parts.
proof fn lemma_quotient_between(
    left: int,
    under_left: int,
    right: int,
    under_right: int,
    low: int,
    high: int,
)
    requires
        under_left > 0,
        under_right > 0,
        low <= left / under_left <= high,
        low <= right / under_right <= high,
    ensures
        low <= (left + right) / (under_left + under_right) <= high,
{
    let q = left / under_left;
    let p = right / under_right;
    let whole = left + right;
    let under = under_left + under_right;
    let value = whole / under;
    vstd::arithmetic::div_mod::lemma_fundamental_div_mod(left, under_left);
    vstd::arithmetic::div_mod::lemma_mod_bound(left, under_left);
    vstd::arithmetic::div_mod::lemma_fundamental_div_mod(right, under_right);
    vstd::arithmetic::div_mod::lemma_mod_bound(right, under_right);
    vstd::arithmetic::div_mod::lemma_fundamental_div_mod(whole, under);
    vstd::arithmetic::div_mod::lemma_mod_bound(whole, under);
    let left_rest = left % under_left;
    let right_rest = right % under_right;
    let rest = whole % under;
    assert(low * under_left <= left && left < (high + 1) * under_left) by (nonlinear_arith)
        requires
            left == under_left * q + left_rest,
            0 <= left_rest < under_left,
            low <= q <= high,
    ;
    assert(low * under_right <= right && right < (high + 1) * under_right) by (nonlinear_arith)
        requires
            right == under_right * p + right_rest,
            0 <= right_rest < under_right,
            low <= p <= high,
    ;
    assert(low * under <= whole && whole < (high + 1) * under) by (nonlinear_arith)
        requires
            low * under_left <= left,
            low * under_right <= right,
            left < (high + 1) * under_left,
            right < (high + 1) * under_right,
            whole == left + right,
            under == under_left + under_right,
    ;
    assert(low <= value <= high) by (nonlinear_arith)
        requires
            whole == under * value + rest,
            0 <= rest < under,
            low * under <= whole,
            whole < (high + 1) * under,
    ;
}

/// The value of two lists of samples together lies between their values, as far
/// as the sums can be computed.
pub proof fn lemma_aggregate_between(
    unit: ObservationUnit,
    first: Seq<MeasurementSample>,
    second: Seq<MeasurementSample>,
)
    requires
        aggregate(unit, first) is Some,
        aggregate(unit, second) is Some,
        unit == ObservationUnit::Nanoseconds || total_units(first + second)
            * NANOSECONDS_PER_SECOND <= u128::MAX,
    ensures
        ({
            let left = aggregate(unit, first)->0;
            let right = aggregate(unit, second)->0;
            let both = aggregate(unit, first + second);
            &&& both is Some
            &&& (left <= both->0 <= right || right <= both->0 <= left)
        }),
{
    let joined = first + second;
    assert forall|i: int| 0 <= i < joined.len() implies (#[trigger] joined[i]).elapsed_ns > 0
        && joined[i].units_processed > 0 by {
        if i < first.len() {
            assert(joined[i] == first[i]);
        } else {
            assert(joined[i] == second[i - first.len()]);
        }
    }
    assert(samples_usable(joined));
    lemma_totals_joined(first, second);
    lemma_totals_positive(first);
    lemma_totals_positive(second);
    let n = NANOSECONDS_PER_SECOND as int;
    let (a, b, c, d) = if unit == ObservationUnit::Nanoseconds {
        (total_elapsed(first), total_units(first), total_elapsed(second), total_units(second))
    } else {
        (
            total_units(first) * n,
            total_elapsed(first),
            total_units(second) * n,
            total_elapsed(second),
        )
    };
    let x = a / b;
    let y = c / d;
    assert(aggregate(unit, first) == positive_value(x));
    assert(aggregate(unit, second) == positive_value(y));
    lemma_quotient_between(a, b, c, d, if x <= y { x } else { y }, if x <= y { y } else { x });
    assert(total_units(joined) * n == total_units(first) * n + total_units(second) * n)
        by (nonlinear_arith)
        requires
            total_units(joined) == total_units(first) + total_units(second),
    ;
    assert(aggregate(unit, joined) == positive_value((a + c) / (b + d)));
}

pub fn aggregate_observation_value(unit: ObservationUnit, samples: &[MeasurementSample]) -> (value:
    Option<u64>)
    ensures
        value == aggregate(unit, samples@),
{
    if !are_samples_usable(samples) {
        return None;
    }
    let ghost all = samples@;
    let mut elapsed_ns: u128 = 0;
    let mut units: u128 = 0;
    for i in 0..samples.len()
        invariant
            all == samples@,
            samples_usable(all),
            elapsed_ns == total_elapsed(all.take(i as int)),
            units == total_units(all.take(i as int)),
            i <= elapsed_ns <= i * 0xffff_ffff_ffff_ffff,
            i <= units <= i * 0xffff_ffff_ffff_ffff,
    {
        proof {
            assert(all.take(i as int + 1).drop_last() =~= all.take(i as int));
            assert(all.take(i as int + 1).last() == all[i as int]);
        }
        elapsed_ns = elapsed_ns + samples[i].elapsed_ns as u128;
        units = units + samples[i].units_processed as u128;
    }
    assert(all.take(all.len() as int) =~= all);
    let value: u128 = match unit {
        ObservationUnit::BytesPerSecond | ObservationUnit::ElementsPerSecond => {
            match units.checked_mul(NANOSECONDS_PER_SECOND) {
                Some(scaled) => scaled / elapsed_ns,
                None => {
                    return None;
                },
            }
        },
        ObservationUnit::Nanoseconds => elapsed_ns / units,
    };
    if value == 0 {
        None
    } else if value > u64::MAX as u128 {
        Some(u64::MAX)
    } else {
        Some(value as u64)
    }
}

#[derive(Debug, Clone, PartialEq, Eq)]
pub struct PerformanceObservation {
    pub identifier: String,
    pub metric: ObservationMetric,
    pub unit: ObservationUnit,
    /// Measured aggregate value in `unit`; absent for non-measured states.
    pub value: Option<u64>,
    pub status: ObservationStatus,
    pub status_reason: Option<ObservationStatusReason>,
    pub strategy: Option<StrategyId>,
    pub quantization_format: Option<String>,
    pub calibration_level: CalibrationLevel,
    pub workload_bytes: u64,
    pub workload_elements: u64,
    pub measurement_duration_ns: u64,
    pub sample_count: u32,
    pub raw_samples: Vec<MeasurementSample>,
    pub timestamp_unix_seconds: Option<u64>,
    /// Sample-spread quality in basis points, calculated from raw samples.
    pub quality_basis_points: u16,
}

/// The content of an observation.
#[verifier::ext_equal]
pub struct ObservationFacts {
    pub identifier: Seq<char>,
    pub metric: ObservationMetric,
    pub unit: ObservationUnit,
    pub value: Option<u64>,
    pub status: ObservationStatus,
    pub status_reason: Option<ObservationStatusReason>,
    pub strategy: Option<StrategyId>,
    pub quantization_format: Option<Seq<char>>,
    pub calibration_level: CalibrationLevel,
    pub workload_bytes: u64,
    pub workload_elements: u64,
    pub measurement_duration_ns: u64,
    pub sample_count: u32,
    pub raw_samples: Seq<MeasurementSample>,
    pub timestamp_unix_seconds: Option<u64>,
    pub quality_basis_points: u16,
}

impl View for PerformanceObservation {
    type V = ObservationFacts;

    open spec fn view(&self) -> ObservationFacts {
        ObservationFacts {
            identifier: self.identifier@,
            metric: self.metric,
            unit: self.unit,
            value: self.value,
            status: self.status,
            status_reason: self.status_reason,
            strategy: self.strategy,
            quantization_format: text::text_option(self.quantization_format),
            calibration_level: self.calibration_level,
            workload_bytes: self.workload_bytes,
            workload_elements: self.workload_elements,
            measurement_duration_ns: self.measurement_duration_ns,
            sample_count: self.sample_count,
            raw_samples: self.raw_samples@,
            timestamp_unix_seconds: self.timestamp_unix_seconds,
            quality_basis_points: self.quality_basis_points,
        }
    }
}

pub open spec fn observation_facts(observations: Seq<PerformanceObservation>) -> Seq<
    ObservationFacts,
> {
    Seq::new(observations.len(), |i: int| observations[i]@)
}

impl ObservationMetric {
    /// The unit in which the metric is stated.
    pub open spec fn spec_unit(self) -> ObservationUnit {
        match self {
            ObservationMetric::SequentialReadThroughput | ObservationMetric::MemoryBandwidth =>
                ObservationUnit::BytesPerSecond,
            ObservationMetric::CpuFloatThroughput
            | ObservationMetric::QuantizedDecodeThroughput => ObservationUnit::ElementsPerSecond,
            ObservationMetric::RandomReadLatency | ObservationMetric::StrategyLatency =>
                ObservationUnit::Nanoseconds,
        }
    }

    pub fn unit(self) -> (unit: ObservationUnit)
        ensures
            unit == self.spec_unit(),
    {
        match self {
            ObservationMetric::SequentialReadThroughput | ObservationMetric::MemoryBandwidth =>
                ObservationUnit::BytesPerSecond,
            ObservationMetric::CpuFloatThroughput
            | ObservationMetric::QuantizedDecodeThroughput => ObservationUnit::ElementsPerSecond,
            ObservationMetric::RandomReadLatency | ObservationMetric::StrategyLatency =>
                ObservationUnit::Nanoseconds,
        }
    }
}

/// A measured observation carries exactly what its samples give.
pub open spec fn measured_state(observation: PerformanceObservation) -> bool {
    let samples = observation.raw_samples@;
    &&& observation.value is Some
    &&& observation.value->0 > 0
    &&& observation.measurement_duration_ns > 0
    &&& observation.sample_count > 0
    &&& samples.len() == observation.sample_count
    &&& observation.status_reason is None
    &&& samples_usable(samples)
    &&& total_elapsed(samples) == observation.measurement_duration_ns
    &&& observation.quality_basis_points == quality(samples)
    &&& observation.value == aggregate(observation.unit, samples)
}

/// An observation that was not measured carries a reason and nothing else.
pub open spec fn unmeasured_state(observation: PerformanceObservation) -> bool {
    &&& observation.value is None
    &&& observation.measurement_duration_ns == 0
    &&& observation.sample_count == 0
    &&& observation.raw_samples@.len() == 0
    &&& observation.status_reason is Some
    &&& observation.quality_basis_points == 0
}

pub open spec fn observation_check(observation: PerformanceObservation) -> Result<
    (),
    PlannerError,
> {
    if observation.identifier@.len() == 0 || observation.calibration_level
        == CalibrationLevel::NotRequested || observation.quality_basis_points > 10000 {
        profiles::invalid("PerformanceObservation", "identity/level/quality")
    } else if observation.unit != observation.metric.spec_unit() {
        profiles::invalid("PerformanceObservation", "metric/unit mismatch")
    } else if observation.metric == ObservationMetric::StrategyLatency
        && observation.strategy is None {
        profiles::invalid("PerformanceObservation", "strategy latency without strategy")
    } else if observation.metric == ObservationMetric::QuantizedDecodeThroughput
        && observation.quantization_format is None {
        profiles::invalid(
            "PerformanceObservation",
            "decode throughput without quantization format",
        )
    } else if observation.status == ObservationStatus::Measured {
        if measured_state(observation) {
            Ok(())
        } else {
            profiles::invalid("PerformanceObservation", "measured state")
        }
    } else if unmeasured_state(observation) {
        Ok(())
    } else {
        profiles::invalid("PerformanceObservation", "non-measured state")
    }
}

proof fn lemma_total_elapsed_take(samples: Seq<MeasurementSample>, upto: int)
    requires
        0 <= upto <= samples.len(),
    ensures
        0 <= total_elapsed(samples.take(upto)) <= total_elapsed(samples),
    decreases samples.len(),
{
    if upto == samples.len() {
        assert(samples.take(upto) =~= samples);
        if samples.len() > 0 {
            lemma_total_elapsed_take(samples.drop_last(), upto - 1);
        }
    } else {
        lemma_total_elapsed_take(samples.drop_last(), upto);
        assert(samples.drop_last().take(upto) =~= samples.take(upto));
    }
}

fn elapsed_sum(samples: &[MeasurementSample]) -> (sum: Option<u64>)
    ensures
        sum is Some <==> total_elapsed(samples@) <= u64::MAX,
        sum is Some ==> sum->0 == total_elapsed(samples@),
{
    let ghost all = samples@;
    let mut sum: u64 = 0;
    for i in 0..samples.len()
        invariant
            all == samples@,
            sum == total_elapsed(all.take(i as int)),
    {
        proof {
            assert(all.take(i as int + 1).drop_last() =~= all.take(i as int));
            assert(all.take(i as int + 1).last() == all[i as int]);
            lemma_total_elapsed_take(all, i as int + 1);
        }
        match sum.checked_add(samples[i].elapsed_ns) {
            Some(next) => {
                sum = next;
            },
            None => {
                return None;
            },
        }
    }
    assert(all.take(all.len() as int) =~= all);
    Some(sum)
}

impl PerformanceObservation {
    fn is_measured_state(&self) -> (measured: bool)
        ensures
            measured == measured_state(*self),
    {
        let value_positive = match self.value {
            Some(value) => value > 0,
            None => false,
        };
        if !value_positive || self.measurement_duration_ns == 0 || self.sample_count == 0
            || self.raw_samples.len() as u64 != self.sample_count as u64
            || self.status_reason.is_some() {
            return false;
        }
        let samples = self.raw_samples.as_slice();
        if !are_samples_usable(samples) {
            return false;
        }
        match elapsed_sum(samples) {
            Some(sum) => {
                if sum != self.measurement_duration_ns {
                    return false;
                }
            },
            None => {
                return false;
            },
        }
        self.quality_basis_points == observation_quality_basis_points(samples) && self.value
            == aggregate_observation_value(self.unit, samples)
    }

    pub fn validate(&self) -> (result: Result<(), PlannerError>)
        ensures
            result == observation_check(*self),
    {
        if self.identifier.as_str().is_empty() || self.calibration_level
            == CalibrationLevel::NotRequested || self.quality_basis_points > 10000 {
            return Err(
                PlannerError::InvalidProfile {
                    profile: "PerformanceObservation",
                    field: "identity/level/quality",
                },
            );
        }
        if self.unit != self.metric.unit() {
            return Err(
                PlannerError::InvalidProfile {
                    profile: "PerformanceObservation",
                    field: "metric/unit mismatch",
                },
            );
        }
        if self.metric == ObservationMetric::StrategyLatency && self.strategy.is_none() {
            return Err(
                PlannerError::InvalidProfile {
                    profile: "PerformanceObservation",
                    field: "strategy latency without strategy",
                },
            );
        }
        if self.metric == ObservationMetric::QuantizedDecodeThroughput
            && self.quantization_format.is_none() {
            return Err(
                PlannerError::InvalidProfile {
                    profile: "PerformanceObservation",
                    field: "decode throughput without quantization format",
                },
            );
        }
        if self.status == ObservationStatus::Measured {
            if !self.is_measured_state() {
                return Err(
                    PlannerError::InvalidProfile {
                        profile: "PerformanceObservation",
                        field: "measured state",
                    },
                );
            }
        } else {
            if self.value.is_some() || self.measurement_duration_ns != 0 || self.sample_count != 0
                || self.raw_samples.len() != 0 || self.status_reason.is_none()
                || self.quality_basis_points != 0 {
                return Err(
                    PlannerError::InvalidProfile {
                        profile: "PerformanceObservation",
                        field: "non-measured state",
                    },
                );
            }
        }
        Ok(())
    }
}

#[derive(Debug, Clone, PartialEq, Eq)]
pub struct CalibrationResult {
    pub schema_version: u32,
    pub identifier: String,
    pub level: CalibrationLevel,
    pub machine_fingerprint: u64,
    pub model_fingerprint: Option<u64>,
    pub storage_fingerprint: Option<u64>,
    pub calibration_plan_identifier: String,
    pub calibration_plan_version: u32,
    pub calibration_ruleset_version: u32,
    pub observations: Vec<PerformanceObservation>,
}

pub open spec fn observation_identifiers(observations: Seq<PerformanceObservation>) -> Seq<
    Seq<char>,
> {
    Seq::new(observations.len(), |i: int| observations[i].identifier@)
}

/// Observations are checked in order: each on its own, then its level, then that
/// no earlier one has its identifier.
pub open spec fn observations_check(
    observations: Seq<PerformanceObservation>,
    level: CalibrationLevel,
) -> Result<(), PlannerError>
    decreases observations.len(),
{
    if observations.len() == 0 {
        Ok(())
    } else {
        let earlier = observations_check(observations.drop_last(), level);
        let last = observations.last();
        if earlier is Err {
            earlier
        } else if observation_check(last) is Err {
            observation_check(last)
        } else if last.calibration_level != level {
            profiles::invalid("CalibrationResult", "observation calibration level mismatch")
        } else if observation_identifiers(observations.drop_last()).contains(last.identifier@) {
            profiles::invalid("CalibrationResult", "duplicate observation identifier")
        } else {
            Ok(())
        }
    }
}

pub open spec fn calibration_check(calibration: CalibrationResult) -> Result<(), PlannerError> {
    if calibration.schema_version != PROFILE_SCHEMA_VERSION || calibration.identifier@.len() == 0
        || calibration.level == CalibrationLevel::NotRequested || calibration.machine_fingerprint
        == 0 || calibration.model_fingerprint == Some(0u64) || calibration.storage_fingerprint
        == Some(0u64) || calibration.calibration_plan_identifier@.len() == 0
        || calibration.calibration_plan_version != CALIBRATION_PLAN_VERSION
        || calibration.calibration_ruleset_version != CALIBRATION_RULESET_VERSION {
        profiles::invalid("CalibrationResult", "identity/schema/level")
    } else {
        observations_check(calibration.observations@, calibration.level)
    }
}

proof fn lemma_observations_check_prefix(
    observations: Seq<PerformanceObservation>,
    level: CalibrationLevel,
    upto: int,
)
    requires
        0 <= upto <= observations.len(),
        observations_check(observations.take(upto), level) is Err,
    ensures
        observations_check(observations, level) == observations_check(
            observations.take(upto),
            level,
        ),
    decreases observations.len() - upto,
{
    if upto < observations.len() {
        assert(observations.take(upto + 1).drop_last() =~= observations.take(upto));
        lemma_observations_check_prefix(observations, level, upto + 1);
    } else {
        assert(observations.take(upto) =~= observations);
    }
}

/// Every observation of a valid list is valid on its own.
pub proof fn lemma_observation_valid(
    observations: Seq<PerformanceObservation>,
    level: CalibrationLevel,
    at: int,
)
    requires
        observations_check(observations, level) is Ok,
        0 <= at < observations.len(),
    ensures
        observation_check(observations[at]) is Ok,
        observations[at].calibration_level == level,
    decreases observations.len(),
{
    if at < observations.len() - 1 {
        lemma_observation_valid(observations.drop_last(), level, at);
    }
}

/// No two observations of a checked result share an identifier.
pub proof fn lemma_identifiers_distinct(
    observations: Seq<PerformanceObservation>,
    level: CalibrationLevel,
    first: int,
    second: int,
)
    requires
        observations_check(observations, level) is Ok,
        0 <= first < second < observations.len(),
    ensures
        observations[first].identifier@ != observations[second].identifier@,
    decreases observations.len(),
{
    let earlier = observations.drop_last();
    if second < earlier.len() {
        lemma_identifiers_distinct(earlier, level, first, second);
    } else {
        assert(observation_identifiers(earlier)[first] == observations[first].identifier@);
    }
}

impl CalibrationResult {
    fn repeats_identifier(&self, at: usize) -> (repeats: bool)
        requires
            at < self.observations@.len(),
        ensures
            repeats == observation_identifiers(self.observations@.take(at as int)).contains(
                self.observations@[at as int].identifier@,
            ),
    {
        let ghost earlier = observation_identifiers(self.observations@.take(at as int));
        let identifier = self.observations[at].identifier.as_str();
        for j in 0..at
            invariant
                at < self.observations@.len(),
                earlier == observation_identifiers(self.observations@.take(at as int)),
                identifier@ == self.observations@[at as int].identifier@,
                forall|k: int| 0 <= k < j ==> #[trigger] earlier[k] != identifier@,
        {
            assert(earlier[j as int] == self.observations@[j as int].identifier@);
            if text::str_equal(self.observations[j].identifier.as_str(), identifier) {
                return true;
            }
        }
        false
    }

    pub fn validate(&self) -> (result: Result<(), PlannerError>)
        ensures
            result == calibration_check(*self),
    {
        if self.schema_version != PROFILE_SCHEMA_VERSION || self.identifier.as_str().is_empty()
            || self.level == CalibrationLevel::NotRequested || self.machine_fingerprint == 0
            || self.model_fingerprint == Some(0) || self.storage_fingerprint == Some(0)
            || self.calibration_plan_identifier.as_str().is_empty()
            || self.calibration_plan_version != CALIBRATION_PLAN_VERSION
            || self.calibration_ruleset_version != CALIBRATION_RULESET_VERSION {
            return Err(
                PlannerError::InvalidProfile {
                    profile: "CalibrationResult",
                    field: "identity/schema/level",
                },
            );
        }
        self.validate_observations()
    }

    fn validate_observations(&self) -> (result: Result<(), PlannerError>)
        ensures
            result == observations_check(self.observations@, self.level),
    {
        let ghost all = self.observations@;
        for i in 0..self.observations.len()
            invariant
                all == self.observations@,
                observations_check(all.take(i as int), self.level) is Ok,
        {
            let observation = &self.observations[i];
            proof {
                assert(all.take(i as int + 1).drop_last() =~= all.take(i as int));
                assert(all.take(i as int + 1).last() == *observation);
                if observations_check(all.take(i as int + 1), self.level) is Err {
                    lemma_observations_check_prefix(all, self.level, i as int + 1);
                }
            }
            match observation.validate() {
                Ok(()) => {},
                Err(error) => {
                    return Err(error);
                },
            }
            if observation.calibration_level != self.level {
                return Err(
                    PlannerError::InvalidProfile {
                        profile: "CalibrationResult",
                        field: "observation calibration level mismatch",
                    },
                );
            }
            if self.repeats_identifier(i) {
                return Err(
                    PlannerError::InvalidProfile {
                        profile: "CalibrationResult",
                        field: "duplicate observation identifier",
                    },
                );
            }
        }
        assert(all.take(all.len() as int) =~= all);
        Ok(())
    }
}

/// What is wrong with a calibration is a fault of its profile.
pub proof fn lemma_calibration_refusal(calibration: CalibrationResult)
    ensures
        calibration_check(calibration) is Err ==> calibration_check(calibration)->Err_0
            is InvalidProfile,
{
    lemma_observations_refusal(calibration.observations@, calibration.level);
}

proof fn lemma_observations_refusal(
    observations: Seq<PerformanceObservation>,
    level: CalibrationLevel,
)
    ensures
        observations_check(observations, level) is Err ==> observations_check(
            observations,
            level,
        )->Err_0 is InvalidProfile,
    decreases observations.len(),
{
    if observations.len() > 0 {
        lemma_observations_refusal(observations.drop_last(), level);
    }
}

/// In a valid calibration every measured observation has a positive value, the
/// time of its samples and as many samples as it counts; every other observation
/// has no value and says why.
pub proof fn lemma_measured_value(calibration: CalibrationResult)
    requires
        calibration_check(calibration) is Ok,
    ensures
        forall|at: int|
            #![trigger calibration.observations@[at]]
            0 <= at < calibration.observations@.len() ==> {
                let one = calibration.observations@[at];
                &&& one.calibration_level == calibration.level
                &&& one.status == ObservationStatus::Measured ==> one.value is Some && one.value->0
                    > 0 && one.status_reason is None && one.sample_count > 0 && one.sample_count
                    == one.raw_samples@.len() && one.measurement_duration_ns > 0
                    && one.measurement_duration_ns == total_elapsed(one.raw_samples@)
                &&& one.status != ObservationStatus::Measured ==> one.value is None
                    && one.status_reason is Some && one.sample_count == 0
                    && one.raw_samples@.len() == 0 && one.measurement_duration_ns == 0
                    && one.quality_basis_points == 0
                &&& one.quality_basis_points <= 10000
            },
{
    assert forall|at: int|
        #![trigger calibration.observations@[at]]
        0 <= at < calibration.observations@.len() implies {
        let one = calibration.observations@[at];
        &&& one.calibration_level == calibration.level
        &&& one.status == ObservationStatus::Measured ==> one.value is Some && one.value->0 > 0
            && one.status_reason is None && one.sample_count > 0 && one.sample_count
            == one.raw_samples@.len() && one.measurement_duration_ns > 0
            && one.measurement_duration_ns == total_elapsed(one.raw_samples@)
        &&& one.status != ObservationStatus::Measured ==> one.value is None && one.status_reason
            is Some && one.sample_count == 0 && one.raw_samples@.len() == 0
            && one.measurement_duration_ns == 0 && one.quality_basis_points == 0
        &&& one.quality_basis_points <= 10000
    } by {
        lemma_observation_valid(calibration.observations@, calibration.level, at);
    }
}

/// The rate of a sample is how many units it processes in a second, rounded down.
pub proof fn lemma_sample_rate(sample: MeasurementSample)
    requires
        sample.elapsed_ns > 0,
    ensures
        sample_rate(sample) >= 0,
        sample_rate(sample) * sample.elapsed_ns <= sample.units_processed * 1000000000,
        (sample_rate(sample) + 1) * sample.elapsed_ns > sample.units_processed * 1000000000,
{
    let work = sample.units_processed * NANOSECONDS_PER_SECOND;
    let elapsed = sample.elapsed_ns as int;
    let rate = work / elapsed;
    assert(work >= 0) by (nonlinear_arith)
        requires
            work == sample.units_processed * 1000000000,
    ;
    lemma_rounded_down(work, elapsed);
}

proof fn lemma_rounded_down(whole: int, part: int)
    requires
        whole >= 0,
        part > 0,
    ensures
        whole / part >= 0,
        (whole / part) * part <= whole < (whole / part + 1) * part,
{
    vstd::arithmetic::div_mod::lemma_fundamental_div_mod(whole, part);
    vstd::arithmetic::div_mod::lemma_mod_bound(whole, part);
    vstd::arithmetic::div_mod::lemma_div_pos_is_pos(whole, part);
    let share = whole / part;
    assert(part * share == share * part) by (nonlinear_arith);
    assert((share + 1) * part == share * part + part) by (nonlinear_arith);
}

/// The extremes of the rates are rates of samples.
pub proof fn lemma_extremes_reached(samples: Seq<MeasurementSample>) -> (at: (int, int))
    requires
        samples.len() > 0,
    ensures
        0 <= at.0 < samples.len(),
        0 <= at.1 < samples.len(),
        sample_rate(samples[at.0]) == lowest_rate(samples),
        sample_rate(samples[at.1]) == highest_rate(samples),
    decreases samples.len(),
{
    let last = samples.len() - 1;
    if samples.len() == 1 {
        (0, 0)
    } else {
        let found = lemma_extremes_reached(samples.drop_last());
        assert(samples.drop_last()[found.0] == samples[found.0]);
        assert(samples.drop_last()[found.1] == samples[found.1]);
        let low = if sample_rate(samples[last]) == lowest_rate(samples) {
            last
        } else {
            found.0
        };
        let high = if sample_rate(samples[last]) == highest_rate(samples) {
            last
        } else {
            found.1
        };
        (low, high)
    }
}

/// Quality falls by a ten-thousandth for every full ten-thousandth of the highest
/// rate by which the rates spread.
pub proof fn lemma_quality_exact(samples: Seq<MeasurementSample>)
    requires
        samples_usable(samples),
        highest_rate(samples) > 0,
    ensures
        ({
            let lost = 10000 - quality(samples);
            let spread = highest_rate(samples) - lowest_rate(samples);
            lost * highest_rate(samples) <= spread * 10000 < (lost + 1) * highest_rate(samples)
        }),
{
    lemma_quality_is_spread(samples);
    lemma_rates_between(samples, 0);
    let spread = highest_rate(samples) - lowest_rate(samples);
    lemma_rounded_down(spread * 10000, highest_rate(samples));
}

proof fn lemma_totals_grow(samples: Seq<MeasurementSample>)
    requires
        samples_usable(samples),
    ensures
        total_units(samples) > 0,
        total_elapsed(samples) > 0,
    decreases samples.len(),
{
    let shorter = samples.drop_last();
    let last = samples[samples.len() - 1];
    if shorter.len() > 0 {
        assert(forall|i: int| 0 <= i < shorter.len() ==> #[trigger] shorter[i] == samples[i]);
        lemma_totals_grow(shorter);
    } else {
        assert(total_units(shorter) == 0 && total_elapsed(shorter) == 0);
    }
    assert(last.elapsed_ns > 0 && last.units_processed > 0);
}

/// What a measurement reports. A throughput is the units of all samples for each
/// second of their time, a latency the time of all samples for each unit, both
/// rounded down and limited to what can be counted; nothing is reported where a
/// sample is empty or the value is zero.
pub proof fn lemma_aggregate_value(unit: ObservationUnit, samples: Seq<MeasurementSample>)
    ensures
        ({
            let value = aggregate(unit, samples);
            let units = total_units(samples);
            let elapsed = total_elapsed(samples);
            &&& value is Some ==> samples_usable(samples) && units > 0 && elapsed > 0 && value->0 > 0
            &&& value is Some && unit != ObservationUnit::Nanoseconds ==> value->0 * elapsed
                <= units * 1000000000 && (value->0 < u64::MAX ==> units * 1000000000 < (value->0
                + 1) * elapsed)
            &&& value is Some && unit == ObservationUnit::Nanoseconds ==> value->0 * units
                <= elapsed && (value->0 < u64::MAX ==> elapsed < (value->0 + 1) * units)
            &&& value is None && samples_usable(samples) && unit == ObservationUnit::Nanoseconds
                ==> elapsed < units
            &&& value is None && samples_usable(samples) && unit != ObservationUnit::Nanoseconds
                ==> units * 1000000000 < elapsed || units * 1000000000 > u128::MAX
        }),
{
    if samples_usable(samples) {
        lemma_totals_grow(samples);
        let units = total_units(samples);
        let elapsed = total_elapsed(samples);
        let work = units * NANOSECONDS_PER_SECOND;
        lemma_rounded_down(work, elapsed);
        lemma_rounded_down(elapsed, units);
        let rate = work / elapsed;
        let time = elapsed / units;
        assert(rate == 0 ==> (rate + 1) * elapsed == elapsed) by (nonlinear_arith);
        assert(time == 0 ==> (time + 1) * units == units) by (nonlinear_arith);
        if aggregate(unit, samples) is Some {
            let value = aggregate(unit, samples)->0;
            if unit == ObservationUnit::Nanoseconds {
                assert(value * units <= time * units) by (nonlinear_arith)
                    requires
                        value <= time,
                        units > 0,
                ;
            } else {
                assert(value * elapsed <= rate * elapsed) by (nonlinear_arith)
                    requires
                        value <= rate,
                        elapsed > 0,
                ;
            }
        }
    }
}

/// When an observation is accepted, field by field.
pub proof fn lemma_observation_checked(observation: PerformanceObservation)
    ensures
        ({
            let samples = observation.raw_samples@;
            let metric = observation.metric;
            let throughput = metric == ObservationMetric::SequentialReadThroughput || metric
                == ObservationMetric::MemoryBandwidth;
            let elements = metric == ObservationMetric::CpuFloatThroughput || metric
                == ObservationMetric::QuantizedDecodeThroughput;
            observation_check(observation) is Ok <==> {
                &&& observation.identifier@.len() > 0
                &&& observation.calibration_level != CalibrationLevel::NotRequested
                &&& observation.quality_basis_points <= 10000
                &&& throughput ==> observation.unit == ObservationUnit::BytesPerSecond
                &&& elements ==> observation.unit == ObservationUnit::ElementsPerSecond
                &&& !throughput && !elements ==> observation.unit == ObservationUnit::Nanoseconds
                &&& metric == ObservationMetric::StrategyLatency ==> observation.strategy is Some
                &&& metric == ObservationMetric::QuantizedDecodeThroughput
                    ==> observation.quantization_format is Some
                &&& observation.status == ObservationStatus::Measured ==> {
                    &&& observation.value is Some && observation.value->0 > 0
                    &&& observation.status_reason is None
                    &&& observation.sample_count > 0 && observation.sample_count == samples.len()
                    &&& observation.measurement_duration_ns > 0
                        && observation.measurement_duration_ns == total_elapsed(samples)
                    &&& forall|i: int|
                        0 <= i < samples.len() ==> (#[trigger] samples[i]).elapsed_ns > 0
                            && samples[i].units_processed > 0
                    &&& observation.quality_basis_points == quality(samples)
                    &&& observation.value == aggregate(observation.unit, samples)
                }
                &&& observation.status != ObservationStatus::Measured ==> {
                    &&& observation.value is None
                    &&& observation.status_reason is Some
                    &&& observation.sample_count == 0 && samples.len() == 0
                    &&& observation.measurement_duration_ns == 0
                    &&& observation.quality_basis_points == 0
                }
            }
        }),
{
}

/// When a calibration is accepted: it names itself, its level, its machine and
/// its plan, and each of its observations is valid, of its level, and named once.
pub proof fn lemma_calibration_checked(calibration: CalibrationResult)
    ensures
        calibration_check(calibration) is Ok ==> {
            &&& calibration.schema_version == 1
            &&& calibration.identifier@.len() > 0
            &&& calibration.level != CalibrationLevel::NotRequested
            &&& calibration.machine_fingerprint != 0
            &&& calibration.model_fingerprint != Some(0u64)
            &&& calibration.storage_fingerprint != Some(0u64)
            &&& calibration.calibration_plan_identifier@.len() > 0
            &&& calibration.calibration_plan_version == 1
            &&& calibration.calibration_ruleset_version == 1
        },
        calibration_check(calibration) is Ok <==> {
            &&& calibration.schema_version == 1
            &&& calibration.identifier@.len() > 0
            &&& calibration.level != CalibrationLevel::NotRequested
            &&& calibration.machine_fingerprint != 0
            &&& calibration.model_fingerprint != Some(0u64)
            &&& calibration.storage_fingerprint != Some(0u64)
            &&& calibration.calibration_plan_identifier@.len() > 0
            &&& calibration.calibration_plan_version == 1
            &&& calibration.calibration_ruleset_version == 1
            &&& observations_agree(calibration.observations@, calibration.level)
        },
{
    lemma_observations_agree(calibration.observations@, calibration.level);
}

/// Every observation is valid, of the level, and named differently from the others.
pub open spec fn observations_agree(
    observations: Seq<PerformanceObservation>,
    level: CalibrationLevel,
) -> bool {
    &&& forall|i: int|
        0 <= i < observations.len() ==> observation_check(#[trigger] observations[i]) is Ok
            && observations[i].calibration_level == level
    &&& forall|i: int, j: int|
        #![trigger observations[i], observations[j]]
        0 <= i < j < observations.len() ==> observations[i].identifier@
            != observations[j].identifier@
}

proof fn lemma_observations_agree(
    observations: Seq<PerformanceObservation>,
    level: CalibrationLevel,
)
    ensures
        observations_check(observations, level) is Ok <==> observations_agree(observations, level),
    decreases observations.len(),
{
    if observations.len() > 0 {
        let shorter = observations.drop_last();
        let last = observations.len() - 1;
        lemma_observations_agree(shorter, level);
        let names = observation_identifiers(shorter);
        assert(forall|i: int|
            0 <= i < shorter.len() ==> #[trigger] shorter[i] == observations[i]);
        if observations_check(observations, level) is Ok {
            assert forall|i: int| 0 <= i < observations.len() implies observation_check(
                #[trigger] observations[i],
            ) is Ok && observations[i].calibration_level == level by {
                if i < last {
                    assert(observation_check(shorter[i]) is Ok);
                }
            }
            assert forall|i: int, j: int|
                #![trigger observations[i], observations[j]]
                0 <= i < j < observations.len() implies observations[i].identifier@
                != observations[j].identifier@ by {
                lemma_identifiers_distinct(observations, level, i, j);
            }
        }
        if observations_agree(observations, level) {
            assert forall|i: int| 0 <= i < shorter.len() implies observation_check(
                #[trigger] shorter[i],
            ) is Ok && shorter[i].calibration_level == level by {
                assert(observation_check(observations[i]) is Ok);
            }
            assert forall|i: int, j: int|
                #![trigger shorter[i], shorter[j]]
                0 <= i < j < shorter.len() implies shorter[i].identifier@
                != shorter[j].identifier@ by {
                assert(observations[i].identifier@ != observations[j].identifier@);
            }
            if names.contains(observations.last().identifier@) {
                let k = choose|k: int|
                    0 <= k < names.len() && names[k] == observations.last().identifier@;
                assert(observations[k].identifier@ == observations[last].identifier@);
            }
            assert(observation_check(observations[last]) is Ok);
        }
    }
}

/// Latencies are in nanoseconds; reading and memory are in bytes per second, and what
/// is computed in elements per second.
pub proof fn lemma_metric_units(metric: ObservationMetric)
    ensures
        metric.spec_unit() == ObservationUnit::Nanoseconds <==> metric
            == ObservationMetric::RandomReadLatency || metric == ObservationMetric::StrategyLatency,
        metric.spec_unit() == ObservationUnit::BytesPerSecond <==> metric
            == ObservationMetric::SequentialReadThroughput || metric
            == ObservationMetric::MemoryBandwidth,
        metric.spec_unit() == ObservationUnit::ElementsPerSecond <==> metric
            == ObservationMetric::CpuFloatThroughput || metric
            == ObservationMetric::QuantizedDecodeThroughput,
{
}

/// What was done and how long it took are sums over the samples.
pub proof fn lemma_totals(samples: Seq<MeasurementSample>, sample: MeasurementSample)
    ensures
        total_units(Seq::empty()) == 0,
        total_elapsed(Seq::empty()) == 0,
        total_units(samples.push(sample)) == total_units(samples) + sample.units_processed,
        total_elapsed(samples.push(sample)) == total_elapsed(samples) + sample.elapsed_ns,
{
    assert(samples.push(sample).drop_last() =~= samples);
}

} // verus!
