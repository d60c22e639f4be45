//! Round-trip-time measurement and the retransmission schedule that follows it
//! (RFC 2408 §5.1).
//!
//! RFC 2408 §5.1, on transmitting an ISAKMP message: "Implementations MUST NOT use
//! a fixed timer. Instead, transmission timer values should be adjusted
//! dynamically based on measured round trip times. In addition, successive
//! retransmissions of the same packet should be separated by increasingly longer
//! time intervals (e.g., exponential backoff)." The second sentence is
//! [`retransmit_waits`]; the rest of this module is the first one.
//!
//! RFC 2408 names no algorithm, so the estimator is the one TCP uses for the same
//! job, RFC 6298 §2: `RTTVAR = 3/4 RTTVAR + 1/4 |SRTT - R|`, `SRTT = 7/8 SRTT + 1/8 R`,
//! `RTO = SRTT + max(G, 4 RTTVAR)`, with Karn's rule (§5) for the samples: a round
//! trip is measured only when the request was sent once, because the reply to a
//! request that went out twice may answer either send. An exchange that needed a
//! retransmission takes no sample and backs the timer off instead (§5.5, §5.7), and
//! the backoff stays until a sample is taken, so a path that turned slow is not
//! retransmitted into for ever at the old estimate.
//!
//! What the estimate may do is bounded by what the caller asked for. The caller's
//! patience for a silent gateway -- its read timeout once per send -- is the
//! exchange's *deadline*, and nothing here moves it. Inside it the
//! first wait is the RTO, but never longer than the first wait of the schedule
//! without an estimate, and never shorter than [`min_rto`] (RFC 6298 §2.4 asks for
//! a second) -- so an estimate can only make a retransmission come sooner than
//! the unmeasured schedule would, never later, and a path with no samples, or one
//! whose exchanges depend on a backend (XAUTH, Mode-Config), keeps exactly the
//! schedule it had. Each wait after the first is twice the one before, as many
//! sends as fit (at most [`MAX_SENDS`]), and the last wait runs to the deadline.
//!
//! The estimator is per ISAKMP SA: what `connect` measured serves the rekeys that
//! follow.

use vstd::arithmetic::power2::pow2;
use vstd::prelude::*;

use crate::time::{clamped, span, spans, Duration, MAX_NANOS};

verus! {

/// The shortest retransmission timer an estimate is allowed to set (RFC 6298 §2.4:
/// "if it is less than 1 second, then the RTO SHOULD be rounded up to 1 second"),
/// unless the unmeasured schedule's own first wait is shorter still.
pub fn min_rto() -> (rto: Duration)
    ensures
        rto@ == 1_000_000_000,
{
    Duration::from_secs(1)
}

/// The most times one message is sent when the timer follows an estimate (the
/// retry counter of RFC 2408 §5.1 -- after it, RETRY LIMIT REACHED). Without an
/// estimate the caller's own count applies.
pub const MAX_SENDS: u32 = 8;

/// The clock granularity `G` of RFC 6298 §2, a floor under the variance term.
pub const GRANULARITY: u128 = 1_000_000;

/// Doublings beyond this change nothing: the timer is capped by the schedule.
pub const MAX_BACKOFF: u32 = 16;

/// The RFC 6298 estimator, in nanoseconds so that its arithmetic cannot overflow
/// whatever `Duration` it is given (the largest `Duration` is under 2^94 ns).
pub struct Estimator {
    srtt: Option<u128>,
    rttvar: u128,
    /// How many times the timer has been doubled since the last sample.
    backoff: u32,
    /// How many samples were taken.
    samples: u32,
}

/// An [`Estimator`] as a value of the specification.
#[verifier::ext_equal]
pub struct Estimate {
    pub srtt: Option<nat>,
    pub rttvar: nat,
    pub backoff: nat,
    pub samples: nat,
}

/// The larger of two numbers.
pub open spec fn larger(a: nat, b: nat) -> nat {
    if a >= b {
        a
    } else {
        b
    }
}

/// The smaller of two numbers.
pub open spec fn smaller(a: nat, b: nat) -> nat {
    if a <= b {
        a
    } else {
        b
    }
}

/// How far apart two numbers are.
pub open spec fn apart(a: nat, b: nat) -> nat {
    if a >= b {
        (a - b) as nat
    } else {
        (b - a) as nat
    }
}

impl View for Estimator {
    type V = Estimate;

    closed spec fn view(&self) -> Estimate {
        Estimate {
            srtt: match self.srtt {
                Some(srtt) => Some(srtt as nat),
                None => None,
            },
            rttvar: self.rttvar as nat,
            backoff: self.backoff as nat,
            samples: self.samples as nat,
        }
    }
}

impl Estimate {
    /// What is known of a path nothing was measured of.
    pub open spec fn unknown() -> Estimate {
        Estimate { srtt: None, rttvar: 0, backoff: 0, samples: 0 }
    }

    /// What is known after one more round trip.
    pub open spec fn sampled(self, r: nat) -> Estimate {
        let samples = smaller(self.samples + 1, u32::MAX as nat);
        match self.srtt {
            None => Estimate { srtt: Some(r), rttvar: r / 2, backoff: 0, samples },
            Some(srtt) => Estimate {
                srtt: Some((7 * srtt + r) / 8),
                rttvar: (3 * self.rttvar + apart(srtt, r)) / 4,
                backoff: 0,
                samples,
            },
        }
    }

    /// What is known after this many timers ran out.
    pub open spec fn backed_off(self, timeouts: nat) -> Estimate {
        Estimate { backoff: smaller(self.backoff + timeouts, MAX_BACKOFF as nat), ..self }
    }

    /// The retransmission timer, in nanoseconds.
    pub open spec fn rto(self) -> Option<nat> {
        match self.srtt {
            None => None,
            Some(srtt) => Some(
                clamped(((srtt + larger(4 * self.rttvar, GRANULARITY as nat)) * pow2(self.backoff)) as nat),
            ),
        }
    }
}

impl Default for Estimator {
    fn default() -> (estimator: Self)
        ensures
            estimator@ == Estimate::unknown(),
    {
        Estimator { srtt: None, rttvar: 0, backoff: 0, samples: 0 }
    }
}

/// 2 to this power.
fn power_of_two(exponent: u32) -> (power: u128)
    requires
        exponent <= 96,
    ensures
        power == pow2(exponent as nat),
        power <= 0x1_0000_0000_0000_0000_0000_0000,
{
    proof {
        vstd::arithmetic::power2::lemma2_to64();
    }
    let mut power: u128 = 1;
    for i in 0..exponent
        invariant
            exponent <= 96,
            power == pow2(i as nat),
            i <= 96,
    {
        proof {
            lemma_pow2_below_96(i as nat);
            vstd::arithmetic::power2::lemma_pow2_unfold((i + 1) as nat);
        }
        power = power * 2;
    }
    proof {
        lemma_pow2_below_96(exponent as nat);
    }
    power
}

proof fn lemma_pow2_96()
    ensures
        pow2(94) == 0x4000_0000_0000_0000_0000_0000,
        pow2(96) == 0x1_0000_0000_0000_0000_0000_0000,
{
    vstd::arithmetic::power2::lemma2_to64();
    vstd::arithmetic::power2::lemma_pow2_adds(64, 30);
    vstd::arithmetic::power2::lemma_pow2_adds(64, 32);
}

proof fn lemma_pow2_below_96(exponent: nat)
    requires
        exponent <= 96,
    ensures
        pow2(exponent) <= 0x1_0000_0000_0000_0000_0000_0000,
{
    lemma_pow2_96();
    if exponent < 96 {
        vstd::arithmetic::power2::lemma_pow2_strictly_increases(exponent, 96);
    }
}

impl Estimator {
    #[verifier::type_invariant]
    spec fn bounded(self) -> bool {
        &&& self.srtt matches Some(srtt) ==> srtt <= MAX_NANOS
        &&& self.rttvar <= MAX_NANOS
        &&& self.backoff <= MAX_BACKOFF
    }

    /// RFC 6298 §2: the first sample sets `SRTT = R`, `RTTVAR = R/2`; every later
    /// one moves them by 1/8 and 1/4 (the variance first, against the old `SRTT`).
    /// A sample ends any backoff (§5.7).
    pub fn sample(&mut self, round_trip: Duration)
        ensures
            final(self)@ == old(self)@.sampled(round_trip@),
    {
        proof {
            use_type_invariant(&*self);
        }
        let r: u128 = round_trip.as_nanos();
        match self.srtt {
            None => {
                self.srtt = Some(r);
                self.rttvar = r / 2;
            },
            Some(srtt) => {
                let gap: u128 = if srtt >= r {
                    srtt - r
                } else {
                    r - srtt
                };
                self.rttvar = (3 * self.rttvar + gap) / 4;
                self.srtt = Some((7 * srtt + r) / 8);
            },
        }
        self.backoff = 0;
        self.samples = self.samples.saturating_add(1);
    }

    /// `timeouts` retransmission timers ran out (RFC 6298 §5.5): the timer doubles
    /// each time, until a sample is taken.
    pub fn timed_out(&mut self, timeouts: u32)
        ensures
            final(self)@ == old(self)@.backed_off(timeouts as nat),
    {
        proof {
            use_type_invariant(&*self);
        }
        let backoff: u32 = self.backoff.saturating_add(timeouts);
        self.backoff = if backoff < MAX_BACKOFF {
            backoff
        } else {
            MAX_BACKOFF
        };
    }

    /// `SRTT + max(G, 4 RTTVAR)`, doubled once per backoff -- `None` until there
    /// is a sample, as there is nothing to follow.
    pub fn rto(&self) -> (rto: Option<Duration>)
        ensures
            span(rto) == self@.rto(),
    {
        proof {
            use_type_invariant(self);
            vstd::arithmetic::power2::lemma2_to64();
        }
        match self.srtt {
            None => None,
            Some(srtt) => {
                let variance: u128 = 4 * self.rttvar;
                let base: u128 = srtt + if variance >= GRANULARITY {
                    variance
                } else {
                    GRANULARITY
                };
                let scale: u128 = power_of_two(self.backoff);
                proof {
                    if self.backoff < 16 {
                        vstd::arithmetic::power2::lemma_pow2_strictly_increases(self.backoff as nat, 16);
                    }
                    assert(base * scale <= 6 * MAX_NANOS * 0x1_0000) by (nonlinear_arith)
                        requires
                            base <= 6 * MAX_NANOS,
                            scale <= 0x1_0000,
                    ;
                }
                Some(duration(base * scale))
            },
        }
    }

    /// The smoothed round trip, in nanoseconds, once there is a sample.
    pub fn srtt(&self) -> (srtt: Option<u128>)
        ensures
            match srtt {
                Some(srtt) => self@.srtt == Some(srtt as nat),
                None => self@.srtt is None,
            },
    {
        self.srtt
    }

    /// The variance of the round trip, in nanoseconds.
    pub fn rttvar(&self) -> (rttvar: u128)
        ensures
            rttvar == self@.rttvar,
    {
        self.rttvar
    }

    /// How many times the timer has been doubled since the last sample.
    pub fn backoff(&self) -> (backoff: u32)
        ensures
            backoff == self@.backoff,
    {
        self.backoff
    }

    /// How many samples were taken.
    pub fn samples(&self) -> (samples: u32)
        ensures
            samples == self@.samples,
    {
        self.samples
    }
}

/// A `Duration` from nanoseconds, the largest one there is when they do not fit.
pub fn duration(nanos: u128) -> (duration: Duration)
    ensures
        duration@ == clamped(nanos as nat),
{
    Duration::saturating_from_nanos(nanos)
}

/// The waits of a message that is sent `count` times within `total`: the first is
/// `first`, each after it twice the one before, and the last ends at `total`.
pub open spec fn doubling(first: nat, total: nat, count: nat) -> Seq<nat> {
    Seq::new(
        count,
        |k: int|
            if k + 1 == count {
                (total - through(first, k as nat)) as nat
            } else {
                first * pow2(k as nat)
            },
    )
}

/// How long `count` waits last, the first of them `first` and each after it twice
/// the one before.
pub open spec fn through(first: nat, count: nat) -> nat {
    (first * (pow2(count) - 1)) as nat
}

/// The waits of a message that is sent `sends` times within `total`, when nothing
/// is known of the path: each is twice the one before, as far as whole nanoseconds
/// go.
pub open spec fn unmeasured(total: nat, sends: nat) -> Seq<nat> {
    doubling(total / (pow2(sends) - 1) as nat, total, sends)
}

/// How many waits fit in `total`, of `count` or more and at most `most`.
pub open spec fn fitting(first: nat, total: nat, most: nat, count: nat) -> nat
    decreases most - count,
{
    if count < most && through(first, count + 1) <= total {
        fitting(first, total, most, count + 1)
    } else {
        count
    }
}

/// The first wait when the round trip is estimated at `rto`: that, within `floor`
/// and the first wait of the unmeasured schedule, which has the last word.
pub open spec fn first_wait(rto: nat, floor: nat, ceiling: nat) -> nat {
    smaller(larger(rto, floor), ceiling)
}

/// The waits of a message that is sent at least `sends` times within `total`.
pub open spec fn planned(total: nat, sends: nat, rto: Option<nat>, floor: nat) -> Seq<nat> {
    let fixed = unmeasured(total, sends);
    match rto {
        None => fixed,
        Some(rto) => if sends == 0 {
            fixed
        } else {
            let first = first_wait(rto, floor, fixed[0]);
            if first == 0 {
                fixed
            } else {
                doubling(first, total, fitting(first, total, larger(MAX_SENDS as nat, sends), 0))
            }
        },
    }
}

/// The sum of these waits.
pub open spec fn sum(waits: Seq<nat>) -> nat
    decreases waits.len(),
{
    if waits.len() == 0 {
        0
    } else {
        sum(waits.drop_last()) + waits.last()
    }
}

proof fn lemma_through(first: nat, count: nat)
    ensures
        through(first, 0) == 0,
        through(first, count) + first == first * pow2(count),
        through(first, count + 1) == 2 * through(first, count) + first,
        pow2(count) >= 1,
{
    vstd::arithmetic::power2::lemma2_to64();
    vstd::arithmetic::power2::lemma_pow2_pos(count);
    vstd::arithmetic::power2::lemma_pow2_unfold(count + 1);
    let power = pow2(count) as int;
    let f = first as int;
    assert(pow2(count + 1) == 2 * power);
    assert(f * (power - 1) + f == f * power) by (nonlinear_arith);
    assert(f * (2 * power - 1) == 2 * (f * (power - 1)) + f) by (nonlinear_arith);
    assert(f * (power - 1) >= 0) by (nonlinear_arith)
        requires
            f >= 0,
            power >= 1,
    ;
    assert(f * (1 - 1) == 0) by (nonlinear_arith);
}

proof fn lemma_through_grows(first: nat, low: nat, high: nat)
    requires
        low <= high,
    ensures
        through(first, low) <= through(first, high),
    decreases high - low,
{
    if low < high {
        lemma_through(first, low);
        lemma_through_grows(first, low + 1, high);
    }
}

proof fn lemma_through_of_less(less: nat, more: nat, count: nat)
    requires
        less <= more,
    ensures
        through(less, count) <= through(more, count),
{
    vstd::arithmetic::power2::lemma_pow2_pos(count);
    let times = pow2(count) - 1;
    assert(less * times <= more * times) by (nonlinear_arith)
        requires
            less <= more,
            times >= 0,
    ;
}

proof fn lemma_unit(total: nat, sends: nat)
    requires
        sends > 0,
    ensures
        through((total / (pow2(sends) - 1) as nat), sends) <= total,
        total / (pow2(sends) - 1) as nat <= total,
        sends >= 96 && total <= MAX_NANOS ==> total / (pow2(sends) - 1) as nat == 0,
{
    vstd::arithmetic::power2::lemma2_to64();
    if sends > 1 {
        vstd::arithmetic::power2::lemma_pow2_strictly_increases(1, sends);
    }
    let parts = pow2(sends) - 1;
    let t = total as int;
    vstd::arithmetic::div_mod::lemma_fundamental_div_mod(t, parts);
    vstd::arithmetic::mul::lemma_mul_is_commutative(parts, t / parts);
    vstd::arithmetic::div_mod::lemma_div_is_ordered_by_denominator(t, 1, parts);
    if sends >= 96 && total <= MAX_NANOS {
        lemma_pow2_96();
        if sends > 96 {
            vstd::arithmetic::power2::lemma_pow2_strictly_increases(96, sends);
        }
        vstd::arithmetic::div_mod::lemma_basic_div(t, parts);
    }
}

/// The waits of a message that is sent `count` times within `total`.
fn doubling_waits(first: u128, total: u128, count: u32) -> (waits: Vec<Duration>)
    requires
        through(first as nat, count as nat) <= total <= MAX_NANOS,
    ensures
        spans(waits@) == doubling(first as nat, total as nat, count as nat),
{
    let mut waits: Vec<Duration> = Vec::new();
    let mut spent: u128 = 0;
    proof {
        lemma_through(first as nat, 0);
        assert(spans(waits@) =~= doubling(first as nat, total as nat, count as nat).take(0));
        if count > 0 {
            lemma_through_grows(first as nat, 1, count as nat);
        }
    }
    for k in 0..count
        invariant
            through(first as nat, count as nat) <= total <= MAX_NANOS,
            count > 0 ==> first <= total,
            spent == through(first as nat, k as nat),
            spent <= total,
            spans(waits@) == doubling(first as nat, total as nat, count as nat).take(k as int),
    {
        proof {
            lemma_through(first as nat, k as nat);
            lemma_through_grows(first as nat, (k + 1) as nat, count as nat);
        }
        let next: u128 = spent + first;
        let wait = if k + 1 == count {
            duration(total - spent)
        } else {
            duration(next)
        };
        let ghost before = waits@;
        waits.push(wait);
        proof {
            assert(spans(waits@) =~= spans(before).push(wait@));
            assert(doubling(first as nat, total as nat, count as nat).take(k + 1) =~= doubling(
                first as nat,
                total as nat,
                count as nat,
            ).take(k as int).push(wait@));
        }
        spent = spent + next;
    }
    assert(doubling(first as nat, total as nat, count as nat).take(count as int) =~= doubling(
        first as nat,
        total as nat,
        count as nat,
    ));
    waits
}

/// How long to wait after each send of one message, when the whole wait is `total`
/// and `sends` sends are made: each wait is twice the one before, and the last
/// ends exactly at `total`.
pub fn retransmit_waits(total: Duration, sends: u32) -> (waits: Vec<Duration>)
    ensures
        spans(waits@) == unmeasured(total@, sends as nat),
{
    let nanos: u128 = total.as_nanos();
    if sends == 0 {
        let none: Vec<Duration> = Vec::new();
        assert(spans(none@) =~= unmeasured(total@, 0));
        return none;
    }
    let unit: u128 = if sends >= 96 {
        0
    } else {
        proof {
            vstd::arithmetic::power2::lemma2_to64();
            if sends > 1 {
                vstd::arithmetic::power2::lemma_pow2_strictly_increases(1, sends as nat);
            }
        }
        nanos / (power_of_two(sends) - 1)
    };
    proof {
        lemma_unit(total@, sends as nat);
    }
    doubling_waits(unit, nanos, sends)
}

/// How long to wait after each send of one message, when the whole wait is `total`,
/// `sends` sends are the least there are, and the round trip is estimated at `rto`
/// (`None`: it is not -- the schedule is then [`retransmit_waits`]).
///
/// The first wait is `rto` within `floor..=`the first wait of [`retransmit_waits`]
/// (a `floor` above that ceiling gives way to it, so the ceiling is the last
/// word): never later than the unmeasured schedule would retransmit, never
/// sooner than `floor`. Each wait
/// after it is twice the one before, for as many as still fit in `total` (at
/// most [`MAX_SENDS`], and never fewer than `sends`), and the last one is
/// stretched to end exactly at `total`, so that the deadline is the caller's
/// however the waits were cut. Every send goes out no later than it would
/// unmeasured, and the waits never shrink.
pub fn retransmit_plan(total: Duration, sends: u32, rto: Option<Duration>, floor: Duration) -> (waits: Vec<Duration>)
    ensures
        spans(waits@) == planned(total@, sends as nat, span(rto), floor@),
{
    let fixed = retransmit_waits(total, sends);
    let rto: u128 = match rto {
        Some(rto) => rto.as_nanos(),
        None => {
            return fixed;
        },
    };
    if sends == 0 {
        return fixed;
    }
    let nanos: u128 = total.as_nanos();
    assert(fixed@.len() == spans(fixed@).len() == sends);
    let ceiling: u128 = fixed[0].as_nanos();
    assert(ceiling == unmeasured(total@, sends as nat)[0]);
    let low: u128 = floor.as_nanos();
    let wanted: u128 = if rto >= low {
        rto
    } else {
        low
    };
    let first: u128 = if wanted <= ceiling {
        wanted
    } else {
        ceiling
    };
    if first == 0 {
        return fixed;
    }
    let most: u32 = if MAX_SENDS >= sends {
        MAX_SENDS
    } else {
        sends
    };
    let mut count: u32 = 0;
    let mut spent: u128 = 0;
    proof {
        lemma_through(first as nat, 0);
    }
    while count < most && first <= nanos - spent && spent <= nanos - spent - first
        invariant
            nanos <= MAX_NANOS,
            count <= most,
            spent == through(first as nat, count as nat),
            spent <= nanos,
            fitting(first as nat, nanos as nat, most as nat, count as nat) == fitting(
                first as nat,
                nanos as nat,
                most as nat,
                0,
            ),
        decreases most - count,
    {
        proof {
            lemma_through(first as nat, count as nat);
        }
        spent = spent + spent + first;
        count = count + 1;
    }
    proof {
        lemma_through(first as nat, count as nat);
    }
    doubling_waits(first, nanos, count)
}

proof fn lemma_sum_of_doubling(first: nat, total: nat, count: nat, upto: nat)
    requires
        upto < count,
    ensures
        sum(doubling(first, total, count).take(upto as int)) == through(first, upto),
    decreases upto,
{
    lemma_through(first, 0);
    let waits = doubling(first, total, count);
    if upto > 0 {
        let before = (upto - 1) as nat;
        lemma_sum_of_doubling(first, total, count, before);
        lemma_through(first, before);
        assert(waits.take(upto as int).drop_last() =~= waits.take(before as int));
    } else {
        assert(waits.take(0) =~= Seq::<nat>::empty());
    }
}

proof fn lemma_doubling(first: nat, total: nat, count: nat)
    requires
        count > 0,
        through(first, count) <= total,
    ensures
        sum(doubling(first, total, count)) == total,
        forall|j: int, k: int|
            0 <= j <= k < count ==> (#[trigger] doubling(first, total, count)[j]) <= (#[trigger] doubling(
                first,
                total,
                count,
            )[k]),
{
    let waits = doubling(first, total, count);
    let last = (count - 1) as nat;
    lemma_sum_of_doubling(first, total, count, last);
    assert(waits.drop_last() =~= waits.take(last as int));
    lemma_through(first, last);
    assert forall|j: int, k: int| 0 <= j <= k < count implies (#[trigger] waits[j]) <= (#[trigger] waits[k]) by {
        lemma_through(first, j as nat);
        lemma_through(first, k as nat);
        lemma_through_grows(first, j as nat, k as nat);
        if k + 1 == count && j < k {
            lemma_through_grows(first, j as nat, last);
        }
    }
}

proof fn lemma_fitting(first: nat, total: nat, most: nat, count: nat, least: nat)
    requires
        count <= least <= most,
        through(first, least) <= total,
        through(first, count) <= total,
    ensures
        least <= fitting(first, total, most, count) <= most,
        through(first, fitting(first, total, most, count)) <= total,
    decreases most - count,
{
    if count < least {
        lemma_through_grows(first, count + 1, least);
        lemma_fitting(first, total, most, count + 1, least);
    } else if count < most && through(first, count + 1) <= total {
        lemma_fitting(first, total, most, count + 1, count + 1);
    }
}

/// Whatever the deadline, the count, the estimate and the floor: the waits add up
/// to the deadline, are never fewer than the caller's sends nor more than the
/// limit, never shrink, start where the estimate says within the bounds, and
/// every send leaves no later than it would unmeasured.
pub proof fn law_plan_ends_at_the_deadline(total: nat, sends: nat, rto: Option<nat>, floor: nat)
    requires
        sends > 0,
    ensures
        ({
            let plan = planned(total, sends, rto, floor);
            let fixed = unmeasured(total, sends);
            &&& sum(plan) == total
            &&& sum(fixed) == total
            &&& fixed.len() == sends
            &&& sends <= plan.len() <= larger(MAX_SENDS as nat, sends)
            &&& forall|j: int, k: int|
                0 <= j <= k < plan.len() ==> (#[trigger] plan[j]) <= (#[trigger] plan[k])
            &&& rto matches Some(rto) ==> smaller(floor, fixed[0]) <= plan[0] && smaller(rto, fixed[0]) <= plan[0]
            &&& plan[0] <= fixed[0]
            &&& forall|k: int|
                0 <= k < sends ==> #[trigger] sum(plan.take(k)) <= sum(fixed.take(k))
        }),
{
    let plan = planned(total, sends, rto, floor);
    let fixed = unmeasured(total, sends);
    let unit = total / (pow2(sends) - 1) as nat;
    lemma_unit(total, sends);
    lemma_doubling(unit, total, sends);
    lemma_through(unit, 0);
    vstd::arithmetic::power2::lemma2_to64();
    assert(unit * pow2(0) == unit) by (nonlinear_arith)
        requires
            pow2(0) == 1,
    ;
    assert(sends > 1 ==> fixed[0] == unit);
    assert(sends == 1 ==> fixed[0] == total);
    if let Some(rto) = rto {
        let first = first_wait(rto, floor, fixed[0]);
        let most = larger(MAX_SENDS as nat, sends);
        if first > 0 {
            lemma_through(first, 0);
            assert(through(first, sends) <= total) by {
                if sends == 1 {
                    lemma_through(first, 0);
                } else {
                    lemma_through_of_less(first, unit, sends);
                }
            }
            lemma_fitting(first, total, most, 0, sends);
            let count = fitting(first, total, most, 0);
            lemma_doubling(first, total, count);
            assert forall|k: int| 0 <= k < sends implies #[trigger] sum(plan.take(k)) <= sum(fixed.take(k)) by {
                lemma_sum_of_doubling(first, total, count, k as nat);
                lemma_sum_of_doubling(unit, total, sends, k as nat);
                if k > 0 {
                    lemma_through_of_less(first, unit, k as nat);
                } else {
                    lemma_through(unit, 0);
                }
            }
            assert(plan[0] <= fixed[0] && first <= plan[0]) by {
                if count == 1 && sends > 1 {
                    assert(false);
                }
                if count == 1 {
                    assert(plan[0] == total);
                } else {
                    assert(plan[0] == first * pow2(0));
                    vstd::arithmetic::power2::lemma2_to64();
                    assert(first * 1 == first);
                }
            }
        }
    }
}

/// What has been measured of the round trip to a gateway.
pub struct RoundTrips {
    estimator: Estimator,
    /// [`min_rto`], or a smaller one set so that a schedule can be observed without
    /// waiting seconds for it.
    floor: Duration,
}

/// A [`RoundTrips`] as a value of the specification.
#[verifier::ext_equal]
pub struct Measured {
    pub estimate: Estimate,
    pub floor: nat,
}

impl View for RoundTrips {
    type V = Measured;

    closed spec fn view(&self) -> Measured {
        Measured { estimate: self.estimator@, floor: self.floor@ }
    }
}

/// What an exchange that ended teaches of the path.
#[derive(Debug, Clone, Copy, PartialEq, Eq, Structural)]
pub enum Lesson {
    /// A round trip, measured from a request sent once and answered.
    Sample(Duration),
    /// As many waits ran out before the exchange ended.
    Backoff(u32),
}

impl Measured {
    /// What is known after an exchange that taught this.
    pub open spec fn learned(self, lesson: Lesson) -> Measured {
        match lesson {
            Lesson::Sample(round_trip) => Measured { estimate: self.estimate.sampled(round_trip@), ..self },
            Lesson::Backoff(timeouts) => Measured { estimate: self.estimate.backed_off(timeouts as nat), ..self },
        }
    }

    /// The waits after each send of a message on this path.
    pub open spec fn plan(self, total: nat, sends: nat) -> Seq<nat> {
        planned(total, sends, self.estimate.rto(), self.floor)
    }
}

impl Default for RoundTrips {
    fn default() -> (rtt: Self)
        ensures
            rtt@ == (Measured { estimate: Estimate::unknown(), floor: 1_000_000_000 }),
    {
        RoundTrips { estimator: Estimator::default(), floor: min_rto() }
    }
}

impl RoundTrips {
    /// Nothing measured yet, with a floor other than [`min_rto`].
    pub fn with_floor(floor: Duration) -> (rtt: Self)
        ensures
            rtt@ == (Measured { estimate: Estimate::unknown(), floor: floor@ }),
    {
        RoundTrips { estimator: Estimator::default(), floor }
    }

    /// A round trip measured from a request sent once and answered.
    pub fn sampled(&mut self, round_trip: Duration)
        ensures
            final(self)@ == old(self)@.learned(Lesson::Sample(round_trip)),
    {
        self.estimator.sample(round_trip);
    }

    /// `timeouts` waits ran out before the exchange ended.
    pub fn timed_out(&mut self, timeouts: u32)
        ensures
            final(self)@ == old(self)@.learned(Lesson::Backoff(timeouts)),
    {
        self.estimator.timed_out(timeouts);
    }

    /// Take what an exchange that ended teaches.
    pub fn learn(&mut self, lesson: Lesson)
        ensures
            final(self)@ == old(self)@.learned(lesson),
    {
        match lesson {
            Lesson::Sample(round_trip) => self.sampled(round_trip),
            Lesson::Backoff(timeouts) => self.timed_out(timeouts),
        }
    }

    /// The waits after each send of a message the caller would wait `total` for
    /// in all, and would send at least `sends` times: [`retransmit_plan`] on what
    /// is known of the path.
    pub fn plan(&self, total: Duration, sends: u32) -> (waits: Vec<Duration>)
        ensures
            spans(waits@) == self@.plan(total@, sends as nat),
    {
        retransmit_plan(total, sends, self.estimator.rto(), self.floor)
    }

    /// The retransmission timer.
    pub fn rto(&self) -> (rto: Option<Duration>)
        ensures
            span(rto) == self@.estimate.rto(),
    {
        self.estimator.rto()
    }

    /// The smoothed round trip.
    pub fn smoothed(&self) -> (smoothed: Option<Duration>)
        ensures
            match self@.estimate.srtt {
                Some(srtt) => span(smoothed) == Some(clamped(srtt)),
                None => smoothed is None,
            },
    {
        match self.estimator.srtt() {
            Some(srtt) => Some(duration(srtt)),
            None => None,
        }
    }

    /// How many times the timer has been doubled since the last sample.
    pub fn backoff(&self) -> (backoff: u32)
        ensures
            backoff == self@.estimate.backoff,
    {
        self.estimator.backoff()
    }

    /// How many samples were taken.
    pub fn samples(&self) -> (samples: u32)
        ensures
            samples == self@.estimate.samples,
    {
        self.estimator.samples()
    }
}

/// One request and the wait for its answer, again and again as the caller's
/// patience says.
///
/// The caller makes each send [`Exchange::next_send`] names and waits for the reply
/// as long as it says, whatever else arrives meanwhile; a reply ends the exchange
/// ([`Exchange::answered`]), a wait that ran out moves it on
/// ([`Exchange::unanswered`]). An error ends it at once, and teaches nothing.
///
/// Karn's rule (RFC 6298 §5): a reply to the first send, and only that, is a
/// sample. A reply after a retransmission is used but not measured -- it may
/// answer any of the sends -- and the timeouts that came before it back the timer
/// off, as do those of an exchange nothing answered.
pub struct Exchange {
    waits: Vec<Option<Duration>>,
    sent: usize,
    started: Duration,
}

/// An [`Exchange`] as a value of the specification: its waits (`None`: for ever),
/// how many of them ran out, and when it started.
#[verifier::ext_equal]
pub struct Trying {
    pub waits: Seq<Option<nat>>,
    pub timeouts: nat,
    pub started: nat,
}

/// Optional spans taken by their nanoseconds.
pub open spec fn open_spans(waits: Seq<Option<Duration>>) -> Seq<Option<nat>> {
    waits.map_values(|w: Option<Duration>| span(w))
}

/// Waits that all have an end.
pub open spec fn ending(waits: Seq<nat>) -> Seq<Option<nat>> {
    waits.map_values(|w: nat| Some(w))
}

/// The waits of an exchange: `patience` is what the caller will wait for a silent
/// gateway, and `path` what is known of the way to it, if it is to be followed.
pub open spec fn schedule(path: Option<Measured>, patience: Option<(Duration, u32)>) -> Seq<Option<nat>> {
    match patience {
        None => seq![None],
        Some((timeout, sends)) => {
            let total = clamped((timeout@ * sends) as nat);
            ending(waits_for(path, total, sends as nat))
        },
    }
}

/// The waits of a message that is to be sent at least `sends` times within `total`,
/// by what is known of the path, if it is to be followed.
pub open spec fn waits_for(path: Option<Measured>, total: nat, sends: nat) -> Seq<nat> {
    match path {
        Some(path) => path.plan(total, sends),
        None => unmeasured(total, sends),
    }
}

/// Nothing known of the path moves the deadline of an exchange: its waits add up to
/// the caller's patience.
pub proof fn law_exchange_keeps_the_deadline(path: Option<Measured>, total: nat, sends: nat)
    requires
        sends > 0,
    ensures
        sum(waits_for(path, total, sends)) == total,
        waits_for(path, total, sends).len() >= sends,
{
    match path {
        Some(path) => {
            law_plan_ends_at_the_deadline(total, sends, path.estimate.rto(), path.floor);
        },
        None => {
            law_plan_ends_at_the_deadline(total, sends, None, 0);
        },
    }
}

impl View for Exchange {
    type V = Trying;

    closed spec fn view(&self) -> Trying {
        Trying { waits: open_spans(self.waits@), timeouts: self.sent as nat, started: self.started@ }
    }
}

impl Trying {
    /// Whether every wait ran out.
    pub open spec fn over(self) -> bool {
        self.timeouts >= self.waits.len()
    }
}

/// An optional path taken by its view.
pub open spec fn viewed_path(rtt: Option<&RoundTrips>) -> Option<Measured> {
    match rtt {
        Some(rtt) => Some(rtt@),
        None => None,
    }
}

impl Exchange {
    /// An exchange that starts at `now` on a monotonic clock.
    ///
    /// `patience` is what the caller will wait for a silent gateway: `Some((timeout,
    /// sends))` is `timeout` once per send, `sends` sends at least, in all (`None`:
    /// wait for ever, sending once). With `rtt` the waits follow the estimate
    /// ([`RoundTrips::plan`]); without it they are [`retransmit_waits`] -- what an
    /// exchange whose reply depends on more than the path (a backend, a person) is
    /// run with.
    pub fn start(rtt: Option<&RoundTrips>, patience: Option<(Duration, u32)>, now: Duration) -> (exchange: Self)
        ensures
            exchange@ == (Trying {
                waits: schedule(viewed_path(rtt), patience),
                timeouts: 0,
                started: now@,
            }),
    {
        let mut waits: Vec<Option<Duration>> = Vec::new();
        match patience {
            Some((timeout, sends)) => {
                let total = timeout.saturating_mul(sends);
                let planned = match rtt {
                    Some(rtt) => rtt.plan(total, sends),
                    None => retransmit_waits(total, sends),
                };
                for i in 0..planned.len()
                    invariant
                        open_spans(waits@) == ending(spans(planned@)).take(i as int),
                {
                    let ghost before = waits@;
                    waits.push(Some(planned[i]));
                    assert(open_spans(waits@) =~= open_spans(before).push(Some(planned@[i as int]@)));
                    assert(ending(spans(planned@)).take(i + 1) =~= ending(spans(planned@)).take(i as int).push(
                        Some(planned@[i as int]@),
                    ));
                }
                assert(ending(spans(planned@)).take(planned@.len() as int) =~= ending(spans(planned@)));
            },
            None => {
                waits.push(None);
            },
        }
        assert(open_spans(waits@) =~= schedule(viewed_path(rtt), patience));
        Exchange { waits, sent: 0, started: now }
    }

    /// The send to make now -- how many went before it, and how long to wait for the
    /// reply (`None`: for ever) -- or `None` when every wait ran out.
    pub fn next_send(&self) -> (next: Option<(usize, Option<Duration>)>)
        ensures
            match next {
                Some((sent, wait)) => !self@.over() && sent == self@.timeouts && span(wait)
                    == self@.waits[self@.timeouts as int],
                None => self@.over(),
            },
    {
        if self.sent < self.waits.len() {
            Some((self.sent, self.waits[self.sent]))
        } else {
            None
        }
    }

    /// The reply to the last send made came in at `now`: what that teaches of the
    /// path.
    pub fn answered(&self, now: Duration) -> (lesson: Lesson)
        ensures
            match lesson {
                Lesson::Sample(round_trip) => self@.timeouts == 0 && round_trip@ == (if now@ >= self@.started {
                    (now@ - self@.started) as nat
                } else {
                    0
                }),
                Lesson::Backoff(timeouts) => self@.timeouts > 0 && timeouts == smaller(
                    self@.timeouts,
                    u32::MAX as nat,
                ),
            },
    {
        if self.sent == 0 {
            Lesson::Sample(now.saturating_sub(self.started))
        } else {
            Lesson::Backoff(saturated(self.sent))
        }
    }

    /// The wait after the last send made ran out: what that teaches of the path, if
    /// it was the last.
    pub fn unanswered(&mut self) -> (lesson: Option<Lesson>)
        ensures
            old(self)@.over() ==> final(self)@ == old(self)@ && lesson is None,
            !old(self)@.over() ==> {
                &&& final(self)@ == (Trying { timeouts: old(self)@.timeouts + 1, ..old(self)@ })
                &&& lesson == (if final(self)@.over() {
                    Some(Lesson::Backoff(smaller(final(self)@.waits.len(), u32::MAX as nat) as u32))
                } else {
                    None
                })
            },
    {
        if self.sent >= self.waits.len() {
            return None;
        }
        self.sent = self.sent + 1;
        if self.sent == self.waits.len() {
            Some(Lesson::Backoff(saturated(self.sent)))
        } else {
            None
        }
    }
}

/// A count in 32 bits, or the most they count.
fn saturated(count: usize) -> (out: u32)
    ensures
        out == smaller(count as nat, u32::MAX as nat),
{
    if count as u64 <= 0xffff_ffff {
        count as u32
    } else {
        u32::MAX
    }
}

} // verus!
