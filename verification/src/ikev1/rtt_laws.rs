//! How the estimate of a round trip follows its samples (RFC 6298 §2), and how the waits
//! of a message grow.

use vstd::arithmetic::power2::pow2;
use vstd::prelude::*;

use crate::ikev1::rtt;
use crate::ikev1::rtt::{Estimate, Lesson, Measured};
use crate::time;

verus! {

/// The first sample is the estimate, with half of it as the variance. Every other one
/// moves the estimate an eighth of the way towards it, and the variance a quarter of the
/// way towards how far it was off the estimate before. A sample ends the backing off.
pub proof fn law_samples_move_the_estimate(estimate: Estimate, r: nat)
    ensures
        ({
            let after = estimate.sampled(r);
            &&& after.backoff == 0
            &&& estimate.samples < u32::MAX ==> after.samples == estimate.samples + 1
            &&& estimate.samples >= u32::MAX ==> after.samples == u32::MAX
            &&& estimate.srtt is None ==> after.srtt == Some(r) && 2 * after.rttvar <= r < 2 * after.rttvar + 2
            &&& estimate.srtt matches Some(srtt) ==> {
                let off = if srtt >= r {
                    srtt - r
                } else {
                    r - srtt
                };
                &&& after.srtt matches Some(now) && 8 * now <= 7 * srtt + r < 8 * now + 8
                &&& 4 * after.rttvar <= 3 * estimate.rttvar + off < 4 * after.rttvar + 4
            }
        }),
        Estimate::unknown().srtt is None && Estimate::unknown().rttvar == 0 && Estimate::unknown().backoff == 0
            && Estimate::unknown().samples == 0,
{
}

/// The timer is the estimate and four times the variance (a millisecond at least),
/// doubled for each time it ran out since the last sample, sixteen times at most; without
/// a sample there is none.
pub proof fn law_timer(estimate: Estimate, timeouts: nat)
    ensures
        estimate.srtt is None ==> estimate.rto() is None,
        estimate.srtt matches Some(srtt) ==> {
            let slack = if 4 * estimate.rttvar >= 1_000_000 {
                4 * estimate.rttvar
            } else {
                1_000_000
            };
            let timer = (srtt + slack) * pow2(estimate.backoff);
            estimate.rto() == Some(
                if timer <= time::MAX_NANOS {
                    timer as nat
                } else {
                    time::MAX_NANOS as nat
                },
            )
        },
        ({
            let after = estimate.backed_off(timeouts);
            &&& after.srtt == estimate.srtt && after.rttvar == estimate.rttvar && after.samples == estimate.samples
            &&& estimate.backoff + timeouts <= 16 ==> after.backoff == estimate.backoff + timeouts
            &&& estimate.backoff + timeouts > 16 ==> after.backoff == 16
        }),
        time::MAX_NANOS == 18_446_744_073_709_551_615_999_999_999,
        rtt::MAX_SENDS == 8,
{
}

/// What an exchange teaches of the path changes the estimate alone.
pub proof fn law_lessons(path: Measured, round_trip: time::Duration, timeouts: u32)
    ensures
        path.learned(Lesson::Sample(round_trip)) == (Measured {
            estimate: path.estimate.sampled(round_trip@),
            floor: path.floor,
        }),
        path.learned(Lesson::Backoff(timeouts)) == (Measured {
            estimate: path.estimate.backed_off(timeouts as nat),
            floor: path.floor,
        }),
{
}

proof fn lemma_twice(first: nat, k: nat)
    ensures
        first * pow2(k + 1) == 2 * (first * pow2(k)),
        first * pow2(0) == first,
{
    vstd::arithmetic::power2::lemma2_to64();
    vstd::arithmetic::power2::lemma_pow2_unfold(k + 1);
    let power = pow2(k) as int;
    assert(first * (2 * power) == 2 * (first * power)) by (nonlinear_arith);
    assert(first * pow2(0) == first) by (nonlinear_arith)
        requires
            pow2(0) == 1,
    ;
}

/// Unmeasured, a message that is sent `sends` times waits a share of the time, then twice
/// as long each time, and what is left at the end: the share is as large as that allows.
pub proof fn law_unmeasured_waits_double(total: nat, sends: nat, k: int)
    requires
        0 <= k,
        k + 2 < sends,
    ensures
        ({
            let waits = rtt::unmeasured(total, sends);
            let share = waits[0];
            &&& waits.len() == sends
            &&& waits[k + 1] == 2 * waits[k]
            &&& share * (pow2(sends) - 1) <= total < (share + 1) * (pow2(sends) - 1)
        }),
{
    let share = total / (pow2(sends) - 1) as nat;
    lemma_twice(share, k as nat);
    lemma_twice(share, 0);
    vstd::arithmetic::power2::lemma2_to64();
    vstd::arithmetic::power2::lemma_pow2_strictly_increases(1, sends);
    let parts = pow2(sends) - 1;
    let t = total as int;
    assert(parts > 0);
    vstd::arithmetic::div_mod::lemma_fundamental_div_mod(t, parts);
    vstd::arithmetic::div_mod::lemma_mod_bound(t, parts);
    assert(share == t / parts);
    assert(share * parts <= t && t < (share + 1) * parts) by (nonlinear_arith)
        requires
            t == parts * (t / parts) + t % parts,
            share == t / parts,
            0 <= t % parts < parts,
    ;
}

proof fn lemma_fits_no_more(first: nat, total: nat, most: nat, count: nat)
    requires
        count <= most,
    ensures
        ({
            let fits = rtt::fitting(first, total, most, count);
            count <= fits <= most && (fits < most ==> rtt::through(first, fits + 1) > total)
        }),
    decreases most - count,
{
    if count < most && rtt::through(first, count + 1) <= total {
        lemma_fits_no_more(first, total, most, count + 1);
    }
}

/// Measured, the first wait is the timer, no shorter than the floor and no longer than it
/// would be unmeasured; each other is twice the one before but for the last, which ends
/// at the deadline; and there are as many as fit, up to eight or as many as were asked
/// for.
pub proof fn law_measured_waits_double(total: nat, sends: nat, rto: nat, floor: nat, k: int)
    requires
        sends > 0,
        rtt::unmeasured(total, sends)[0] > 0,
        rto > 0 || floor > 0,
    ensures
        ({
            let waits = rtt::planned(total, sends, Some(rto), floor);
            let most = rtt::unmeasured(total, sends)[0];
            let wanted = if rto >= floor {
                rto
            } else {
                floor
            };
            let first = if wanted <= most {
                wanted
            } else {
                most
            };
            let limit = if sends <= 8 {
                8
            } else {
                sends
            };
            &&& waits.len() <= limit
            &&& waits.len() > 1 ==> waits[0] == first
            &&& 0 <= k && k + 2 < waits.len() ==> waits[k + 1] == 2 * waits[k]
            &&& waits.len() < limit ==> first * (pow2(waits.len() + 1) - 1) > total
        }),
        rtt::planned(total, sends, None, floor) == rtt::unmeasured(total, sends),
{
    let fixed = rtt::unmeasured(total, sends);
    let first = rtt::first_wait(rto, floor, fixed[0]);
    let limit = rtt::larger(8, sends);
    lemma_fits_no_more(first, total, limit, 0);
    lemma_twice(first, if k >= 0 { k as nat } else { 0 });
    lemma_twice(first, 0);
    let count = rtt::fitting(first, total, limit, 0);
    vstd::arithmetic::power2::lemma_pow2_pos(count + 1);
    let times = pow2(count + 1) - 1;
    assert(first * times >= 0) by (nonlinear_arith)
        requires
            first >= 0,
            times >= 0,
    ;
}

/// An exchange waits as long as the caller will, once for each send, in all: its waits
/// all end, there are at least as many as sends, and they add up to that. A caller with
/// no end to its patience waits once and for ever.
pub proof fn law_patience_is_spent(path: Option<Measured>, timeout: time::Duration, sends: u32)
    requires
        sends > 0,
        timeout@ * sends <= time::MAX_NANOS,
    ensures
        ({
            let waits = rtt::schedule(path, Some((timeout, sends)));
            let lengths = waits.map_values(|wait: Option<nat>| wait->0);
            &&& waits.len() >= sends
            &&& forall|i: int| 0 <= i < waits.len() ==> #[trigger] waits[i] is Some
            &&& rtt::sum(lengths) == timeout@ * sends
        }),
        rtt::schedule(path, None) == seq![None::<nat>],
{
    let total = (timeout@ * sends) as nat;
    assert(timeout@ * sends >= 0) by (nonlinear_arith)
        requires
            timeout@ >= 0,
            sends >= 0,
    ;
    rtt::law_exchange_keeps_the_deadline(path, total, sends as nat);
    let waits = rtt::schedule(path, Some((timeout, sends)));
    assert(waits.map_values(|wait: Option<nat>| wait->0) =~= rtt::waits_for(path, total, sends as nat));
}

} // verus!
