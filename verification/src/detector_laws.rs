//! What the operations of layer 3 do, told by what goes into a call and what
//! comes out of it, and by how two calls relate.
use vstd::arithmetic::power2::*;
use vstd::prelude::*;

use crate::address::IpAddr;
use crate::analysis::AnalysisConfig;
use crate::analysis::DEFAULT_ALPHA;
use crate::analysis::DEFAULT_K;
use crate::detector;
use crate::detector::active_entropy_sigma;
use crate::detector::active_rate_sigma;
use crate::detector::baseline_poisoned;
use crate::detector::compose_report;
use crate::detector::entropy_divisor;
use crate::detector::rate_of_window;
use crate::detector::rate_scale;
use crate::detector::Detector;
use crate::detector::Measurement;
use crate::detector::Observation;
use crate::detector::Verdict;
use crate::flows::LISTING_SECONDS;
use crate::ipc::Report;
use crate::scalar::Scalar;
use crate::scalar_laws;

verus! {

/// A whole number as a double.
pub open spec fn is_whole(bits: u64, n: nat) -> bool {
    scalar_laws::value(detector::number(bits)) == n * pow2(1074)
}

/// A fraction as a double.
pub open spec fn is_fraction(bits: u64, n: nat, d: nat) -> bool {
    scalar_laws::value(detector::number(bits)) * d == n * pow2(1074)
}

/// The double next to a fraction that no double is equal to: `unit` is the
/// distance of neighbouring doubles there.
pub open spec fn is_nearest(bits: u64, n: nat, d: nat, unit: nat) -> bool {
    let off = scalar_laws::value(detector::number(bits)) * d - n * pow2(1074);
    -(d * unit) <= 2 * off <= d * unit
}

/// The numbers by which layer 3 decides: 30 windows of warm-up, 10 of cooldown;
/// smoothing by 0.8 and 0.5; deviations of the rate between 50 and at least
/// 10000, of the entropy between 0.05 and 0.5; a fallback of 4 for the mean
/// entropy; no growth of the mean rate from 10000 on; poisoning beyond a drift
/// of 0.5; 10 seconds between heartbeats and between listings; and, unless
/// configured otherwise, 2 deviations and smoothing by 0.125.
pub proof fn law_numbers_of_the_rules()
    ensures
        detector::WARMUP_WINDOWS == 30,
        detector::COOLDOWN_WINDOWS == 10,
        is_whole(detector::ZERO, 0),
        is_whole(detector::LEAST_MULTIPLIER, 1),
        is_nearest(detector::CLIFF_ALPHA, 4, 5, pow2(1021)),
        is_fraction(detector::FALLING_ALPHA, 1, 2),
        is_whole(detector::RATE_SIGMA_FLOOR, 50),
        is_whole(detector::RATE_SIGMA_CEILING, 10000),
        is_nearest(detector::ENTROPY_SIGMA_FLOOR, 1, 20, pow2(1017)),
        is_fraction(detector::ENTROPY_SIGMA_CEILING, 1, 2),
        is_whole(detector::FALLBACK_MEAN_ENTROPY, 4),
        is_whole(detector::RATE_MEAN_CAP, 10000),
        is_fraction(detector::POISONING_DRIFT, 1, 2),
        is_whole(detector::HEARTBEAT_SECONDS, 10),
        is_whole(LISTING_SECONDS, 10),
        is_whole(DEFAULT_K, 2),
        is_fraction(DEFAULT_ALPHA, 1, 8),
{
    lemma2_to64_rest();
    scalar_laws::lemma_value_is(detector::number(detector::LEAST_MULTIPLIER), 1023, 1, 1);
    scalar_laws::lemma_value_is(detector::number(detector::FALLING_ALPHA), 1022, 1, 2);
    scalar_laws::lemma_value_is(detector::number(detector::RATE_SIGMA_FLOOR), 1028, 50, 1);
    scalar_laws::lemma_value_is(detector::number(detector::RATE_SIGMA_CEILING), 1036, 10000, 1);
    scalar_laws::lemma_value_is(detector::number(detector::FALLBACK_MEAN_ENTROPY), 1025, 4, 1);
    scalar_laws::lemma_value_is(detector::number(detector::HEARTBEAT_SECONDS), 1026, 10, 1);
    scalar_laws::lemma_value_is(detector::number(DEFAULT_K), 1024, 2, 1);
    scalar_laws::lemma_value_is(detector::number(DEFAULT_ALPHA), 1020, 1, 8);
    scalar_laws::lemma_unit(1022);
    scalar_laws::lemma_unit(1018);
    assert(is_nearest(detector::CLIFF_ALPHA, 4, 5, pow2(1021))) by {
        let p = pow2(1021) as int;
        let v = scalar_laws::value(detector::number(detector::CLIFF_ALPHA));
        assert(v == 0x19_9999_9999_999A * p);
        lemma_pow2_pos(1021);
        assert(pow2(1074) == 0x20_0000_0000_0000 * p);
    }
    assert(is_nearest(detector::ENTROPY_SIGMA_FLOOR, 1, 20, pow2(1017))) by {
        let p = pow2(1017) as int;
        let v = scalar_laws::value(detector::number(detector::ENTROPY_SIGMA_FLOOR));
        assert(v == 0x19_9999_9999_999A * p);
        lemma_pow2_pos(1017);
        assert(pow2(1074) == 0x200_0000_0000_0000 * p);
        let q = pow2(1074) as int;
        assert(v * 20 - 1 * q == 8 * p) by (nonlinear_arith)
            requires
                v == 0x19_9999_9999_999A * p,
                q == 0x200_0000_0000_0000 * p,
        ;
    }
}

/// A window is judged exactly when both baselines have seen 30 windows. Then
/// bit 0 of the flags is set exactly when the rate lies above its boundary, bit
/// 1 exactly when the entropy lies below its own, and no other bit is ever set;
/// and it is a real anomaly exactly when the rate or the entropy is beyond the
/// boundary at the configured multiplier. Before that it has no flag and is no
/// real anomaly.
pub proof fn law_boundaries_decide(
    d: &mut Detector,
    rate_windows: u64,
    entropy_windows: u64,
    m: &Measurement,
    v: Verdict,
)
    requires
        old(d).wf(),
        call_ensures(Detector::evaluate, (d, rate_windows, entropy_windows, m), v),
    ensures
        v.warming_up <==> rate_windows < 30 || entropy_windows < 30,
        v.flags & 1 == 1 <==> !v.warming_up && m.rate_boundary.below(m.rate),
        v.flags & 2 == 2 <==> !v.warming_up && m.entropy.below(m.entropy_boundary),
        v.flags <= 3,
        v.real_anomaly <==> !v.warming_up && (m.real_rate_boundary.below(m.rate)
            || m.entropy.below(m.real_entropy_boundary)),
{
    assert(0u8 & 1u8 == 0u8 && 1u8 & 1u8 == 1u8 && 2u8 & 1u8 == 0u8 && 3u8 & 1u8 == 1u8)
        by (bit_vector);
    assert(0u8 & 2u8 == 0u8 && 1u8 & 2u8 == 0u8 && 2u8 & 2u8 == 2u8 && 3u8 & 2u8 == 2u8)
        by (bit_vector);
}

/// A report goes out on every flagged window, and on any other judged window
/// once ten seconds have passed since the last one; never during warm-up.
/// Every judged window becomes a training row, flagged or not, and no other
/// does.
pub proof fn law_reports_and_rows(
    d: &mut Detector,
    rate_windows: u64,
    entropy_windows: u64,
    m: &Measurement,
    v: Verdict,
)
    requires
        old(d).wf(),
        call_ensures(Detector::evaluate, (d, rate_windows, entropy_windows, m), v),
    ensures
        v.training_row <==> rate_windows >= 30 && entropy_windows >= 30,
        v.training_row <==> !v.warming_up,
        v.flags != 0 ==> v.send_report,
        v.send_report <==> !v.warming_up && (m.rate_boundary.below(m.rate) || m.entropy.below(
            m.entropy_boundary,
        ) || m.since_last_report.reaches(detector::number(detector::HEARTBEAT_SECONDS))),
{
}

/// During warm-up both baselines learn from every window. After it, they learn
/// only from windows without a flag and outside a cooldown, and the peacetime
/// references from all of those; the baseline of the rate leaves out what is
/// beyond its outlier limit, and everything once its mean has got to 10000, the
/// baseline of the entropy what is beyond its own limit.
pub proof fn law_what_is_learnt(
    d: &mut Detector,
    rate_windows: u64,
    entropy_windows: u64,
    m: &Measurement,
    v: Verdict,
)
    requires
        old(d).wf(),
        call_ensures(Detector::evaluate, (d, rate_windows, entropy_windows, m), v),
    ensures
        v.warming_up ==> v.update_rate_baseline && v.update_entropy_baseline
            && !v.refresh_references,
        !v.warming_up ==> (v.refresh_references <==> old(d).cooldown() == 0
            && !m.rate_boundary.below(m.rate) && !m.entropy.below(m.entropy_boundary)),
        !v.warming_up ==> (v.update_rate_baseline <==> v.refresh_references && m.rate_mean.below(
            detector::number(detector::RATE_MEAN_CAP),
        ) && !(detector::number(detector::ZERO).below(m.rate_sigma) && m.rate_outlier_limit.below(
            m.rate_distance,
        ))),
        !v.warming_up ==> (v.update_entropy_baseline <==> v.refresh_references
            && !(detector::number(detector::ZERO).below(m.entropy_sigma)
            && m.entropy_outlier_limit.below(m.entropy_distance))),
{
}

/// A real anomaly sets the cooldown to ten, whatever it was; any other judged
/// window takes one off, down to none; warm-up leaves it alone. Judging a
/// window changes nothing else.
pub proof fn law_cooldown_moves_by_one(
    d: &mut Detector,
    rate_windows: u64,
    entropy_windows: u64,
    m: &Measurement,
    v: Verdict,
)
    requires
        old(d).wf(),
        call_ensures(Detector::evaluate, (d, rate_windows, entropy_windows, m), v),
    ensures
        v.warming_up ==> final(d).cooldown() == old(d).cooldown(),
        !v.warming_up && (m.real_rate_boundary.below(m.rate) || m.entropy.below(
            m.real_entropy_boundary,
        )) ==> final(d).cooldown() == 10,
        !v.warming_up && !m.real_rate_boundary.below(m.rate) && !m.entropy.below(
            m.real_entropy_boundary,
        ) ==> final(d).cooldown() + 1 == old(d).cooldown() || (final(d).cooldown() == 0
            && old(d).cooldown() == 0),
        final(d).last_sent() == old(d).last_sent(),
        final(d).rate_reference() == old(d).rate_reference(),
        final(d).entropy_reference() == old(d).entropy_reference(),
{
}

/// Of two windows that differ at most in the rate and what is measured of its
/// distance, the one with the higher rate has every flag that the other has, is
/// a real anomaly if the other is, is reported if the other is, and leaves a
/// cooldown at least as long.
pub proof fn law_higher_rate_never_clears_a_flag(
    d: &mut Detector,
    e: &mut Detector,
    rate_windows: u64,
    entropy_windows: u64,
    m: &Measurement,
    n: &Measurement,
    v: Verdict,
    w: Verdict,
)
    requires
        old(d).wf(),
        old(e).wf(),
        old(d).cooldown() == old(e).cooldown(),
        call_ensures(Detector::evaluate, (d, rate_windows, entropy_windows, m), v),
        call_ensures(Detector::evaluate, (e, rate_windows, entropy_windows, n), w),
        n.rate.reaches(m.rate),
        n.rate_boundary == m.rate_boundary,
        n.real_rate_boundary == m.real_rate_boundary,
        n.entropy == m.entropy,
        n.entropy_boundary == m.entropy_boundary,
        n.real_entropy_boundary == m.real_entropy_boundary,
        n.since_last_report == m.since_last_report,
    ensures
        v.flags & w.flags == v.flags,
        v.real_anomaly ==> w.real_anomaly,
        v.send_report ==> w.send_report,
        final(e).cooldown() >= final(d).cooldown(),
        !v.refresh_references ==> !w.refresh_references,
{
    assert(0u8 & 0u8 == 0u8 && 0u8 & 1u8 == 0u8 && 0u8 & 2u8 == 0u8 && 0u8 & 3u8 == 0u8 && 1u8 & 1u8
        == 1u8 && 1u8 & 3u8 == 1u8 && 2u8 & 2u8 == 2u8 && 2u8 & 3u8 == 2u8 && 3u8 & 3u8 == 3u8)
        by (bit_vector);
}

/// The same of the entropy: the lower one has every flag of the other.
pub proof fn law_lower_entropy_never_clears_a_flag(
    d: &mut Detector,
    e: &mut Detector,
    rate_windows: u64,
    entropy_windows: u64,
    m: &Measurement,
    n: &Measurement,
    v: Verdict,
    w: Verdict,
)
    requires
        old(d).wf(),
        old(e).wf(),
        old(d).cooldown() == old(e).cooldown(),
        call_ensures(Detector::evaluate, (d, rate_windows, entropy_windows, m), v),
        call_ensures(Detector::evaluate, (e, rate_windows, entropy_windows, n), w),
        m.entropy.reaches(n.entropy),
        n.rate == m.rate,
        n.rate_boundary == m.rate_boundary,
        n.real_rate_boundary == m.real_rate_boundary,
        n.entropy_boundary == m.entropy_boundary,
        n.real_entropy_boundary == m.real_entropy_boundary,
        n.since_last_report == m.since_last_report,
    ensures
        v.flags & w.flags == v.flags,
        v.real_anomaly ==> w.real_anomaly,
        v.send_report ==> w.send_report,
        final(e).cooldown() >= final(d).cooldown(),
        !v.refresh_references ==> !w.refresh_references,
{
    assert(0u8 & 0u8 == 0u8 && 0u8 & 1u8 == 0u8 && 0u8 & 2u8 == 0u8 && 0u8 & 3u8 == 0u8 && 1u8 & 1u8
        == 1u8 && 1u8 & 3u8 == 1u8 && 2u8 & 2u8 == 2u8 && 2u8 & 3u8 == 2u8 && 3u8 & 3u8 == 3u8)
        by (bit_vector);
}

/// The flags depend on the rate, the entropy and their two boundaries alone:
/// not on the cooldown, the baselines or the outlier limits.
pub proof fn law_nothing_else_moves_the_flags(
    d: &mut Detector,
    e: &mut Detector,
    m: &Measurement,
    n: &Measurement,
    v: Verdict,
    w: Verdict,
    windows: (u64, u64, u64, u64),
)
    requires
        old(d).wf(),
        old(e).wf(),
        call_ensures(Detector::evaluate, (d, windows.0, windows.1, m), v),
        call_ensures(Detector::evaluate, (e, windows.2, windows.3, n), w),
        windows.0 >= 30 && windows.1 >= 30 && windows.2 >= 30 && windows.3 >= 30,
        m.rate == n.rate,
        m.rate_boundary == n.rate_boundary,
        m.entropy == n.entropy,
        m.entropy_boundary == n.entropy_boundary,
    ensures
        v.flags == w.flags,
{
}

/// The smoothing factor is never slower than configured. Without a cooldown it
/// is at least 0.8 when the rate is below a tenth of the smoothed one, at least
/// 0.5 when it is below the smoothed one but not below the tenth, and the
/// configured one when it is not below; during a cooldown it is at least 0.5,
/// whatever the rate.
pub proof fn law_smoothing_has_three_speeds(
    d: &Detector,
    window_rate: Scalar,
    smoothed: Scalar,
    tenth: Scalar,
    configured: Scalar,
    alpha: Scalar,
)
    requires
        call_ensures(
            Detector::smoothing_factor,
            (d, window_rate, smoothed, tenth, configured),
            alpha,
        ),
    ensures
        d.cooldown() == 0 && window_rate.below(tenth) ==> scalar_laws::greater_of(
            alpha,
            detector::number(detector::CLIFF_ALPHA),
            configured,
        ),
        d.cooldown() == 0 && window_rate.below(smoothed) && !window_rate.below(tenth)
            ==> scalar_laws::greater_of(
            alpha,
            detector::number(detector::FALLING_ALPHA),
            configured,
        ),
        d.cooldown() == 0 && !window_rate.below(smoothed) && !window_rate.below(tenth) ==> alpha
            == configured,
        d.cooldown() > 0 ==> scalar_laws::greater_of(
            alpha,
            detector::number(detector::FALLING_ALPHA),
            configured,
        ),
{
    scalar_laws::law_choice_is_by_value(detector::number(detector::CLIFF_ALPHA), configured);
    scalar_laws::law_choice_is_by_value(detector::number(detector::FALLING_ALPHA), configured);
}

/// A lower rate is never smoothed more slowly; and in two windows of a cooldown
/// the factor is the same, whatever the rates.
pub proof fn law_lower_rate_is_smoothed_no_slower(
    d: &Detector,
    e: &Detector,
    low: Scalar,
    high: Scalar,
    smoothed: Scalar,
    tenth: Scalar,
    configured: Scalar,
    fast: Scalar,
    slow: Scalar,
)
    requires
        call_ensures(Detector::smoothing_factor, (d, low, smoothed, tenth, configured), fast),
        call_ensures(Detector::smoothing_factor, (e, high, smoothed, tenth, configured), slow),
    ensures
        d.cooldown() == e.cooldown() && high.reaches(low) ==> !fast.below(slow),
        d.cooldown() > 0 && e.cooldown() > 0 ==> fast == slow,
{
}

/// Outside a cooldown the multiplier is the configured one. In every window of
/// a cooldown it is half of that, but no less than 1: the half if that has got
/// to 1, and 1 otherwise.
pub proof fn law_cooldown_halves_the_multiplier(
    d: &Detector,
    configured: Scalar,
    half: Scalar,
    k: Scalar,
)
    requires
        call_ensures(Detector::base_multiplier, (d, configured, half), k),
    ensures
        d.cooldown() == 0 ==> k == configured,
        d.cooldown() > 0 && half.reaches(detector::number(detector::LEAST_MULTIPLIER)) ==> k
            == half,
        d.cooldown() > 0 && !half.reaches(detector::number(detector::LEAST_MULTIPLIER)) ==> k
            == detector::number(detector::LEAST_MULTIPLIER),
{
}

/// Two windows of a cooldown have the same multiplier, however far the cooldown
/// has run and whatever is configured besides its half.
pub proof fn law_multiplier_is_one_throughout_a_cooldown(
    d: &Detector,
    e: &Detector,
    configured: Scalar,
    other: Scalar,
    half: Scalar,
    k: Scalar,
    l: Scalar,
)
    requires
        d.cooldown() > 0,
        e.cooldown() > 0,
        call_ensures(Detector::base_multiplier, (d, configured, half), k),
        call_ensures(Detector::base_multiplier, (e, other, half), l),
    ensures
        k == l,
{
}

/// Diversity widens the rate boundary by its own factor where that has got to 1
/// and not at all where it has not; above the emergency line it never does.
pub proof fn law_diversity_widens(
    rate: Scalar,
    emergency_line: Scalar,
    diversity: Scalar,
    scale: Scalar,
)
    requires
        call_ensures(rate_scale, (rate, emergency_line, diversity), scale),
    ensures
        emergency_line.below(rate) || !diversity.reaches(
            detector::number(detector::LEAST_MULTIPLIER),
        ) ==> scale == detector::number(detector::LEAST_MULTIPLIER),
        !emergency_line.below(rate) && diversity.reaches(
            detector::number(detector::LEAST_MULTIPLIER),
        ) ==> scale == diversity,
{
}

/// The rate deviation in force is the raw one wherever that is within its
/// bounds; a raw one below 50, or none at all, counts as 50; one above 10000
/// and above a fifth of the mean counts as the greater of these.
pub proof fn law_rate_deviation_is_clamped(raw: Scalar, fifth_of_mean: Scalar, sigma: Scalar)
    requires
        call_ensures(active_rate_sigma, (raw, fifth_of_mean), sigma),
    ensures
        !raw.reaches(detector::number(detector::RATE_SIGMA_FLOOR)) ==> sigma == detector::number(
            detector::RATE_SIGMA_FLOOR,
        ),
        raw.reaches(detector::number(detector::RATE_SIGMA_FLOOR)) && (detector::number(
            detector::RATE_SIGMA_CEILING,
        ).reaches(raw) || fifth_of_mean.reaches(raw)) ==> sigma == raw,
        detector::number(detector::RATE_SIGMA_CEILING).below(raw) && !fifth_of_mean.reaches(raw)
            ==> scalar_laws::greater_of(
            sigma,
            fifth_of_mean,
            detector::number(detector::RATE_SIGMA_CEILING),
        ),
{
    scalar_laws::law_choice_is_by_value(
        fifth_of_mean,
        detector::number(detector::RATE_SIGMA_CEILING),
    );
}

/// The entropy deviation in force is the raw one between 0.05 and 0.5, and the
/// nearer of the two where it is not.
pub proof fn law_entropy_deviation_is_clamped(raw: Scalar, sigma: Scalar)
    requires
        call_ensures(active_entropy_sigma, (raw,), sigma),
    ensures
        !raw.reaches(detector::number(detector::ENTROPY_SIGMA_FLOOR)) ==> sigma
            == detector::number(detector::ENTROPY_SIGMA_FLOOR),
        raw.reaches(detector::number(detector::ENTROPY_SIGMA_FLOOR)) && detector::number(
            detector::ENTROPY_SIGMA_CEILING,
        ).reaches(raw) ==> sigma == raw,
        detector::number(detector::ENTROPY_SIGMA_CEILING).below(raw) ==> sigma
            == detector::number(detector::ENTROPY_SIGMA_CEILING),
{
}

/// A larger raw deviation never counts as a smaller one.
pub proof fn law_deviations_keep_their_order(
    small: Scalar,
    large: Scalar,
    fifth_of_mean: Scalar,
    rates: (Scalar, Scalar),
    entropies: (Scalar, Scalar),
)
    requires
        large.reaches(small),
        call_ensures(active_rate_sigma, (small, fifth_of_mean), rates.0),
        call_ensures(active_rate_sigma, (large, fifth_of_mean), rates.1),
        call_ensures(active_entropy_sigma, (small,), entropies.0),
        call_ensures(active_entropy_sigma, (large,), entropies.1),
    ensures
        rates.1.reaches(rates.0),
        entropies.1.reaches(entropies.0),
{
}

/// What entropies are divided by is positive: the mean if that is, 4 if not.
pub proof fn law_divisor_is_positive(mean: Scalar, divisor: Scalar)
    requires
        call_ensures(entropy_divisor, (mean,), divisor),
    ensures
        detector::number(detector::ZERO).below(divisor),
        detector::number(detector::ZERO).below(mean) ==> divisor == mean,
        !detector::number(detector::ZERO).below(mean) ==> divisor == detector::number(
            detector::FALLBACK_MEAN_ENTROPY,
        ),
{
}

/// A window that took time has the rate that was computed for it, and one that
/// took none has rate 0.
pub proof fn law_rate_needs_time(duration: Scalar, quotient: Scalar, rate: Scalar)
    requires
        call_ensures(rate_of_window, (duration, quotient), rate),
    ensures
        detector::number(detector::ZERO).below(duration) ==> rate == quotient,
        !detector::number(detector::ZERO).below(duration) ==> rate == detector::number(
            detector::ZERO,
        ),
{
}

/// A mean is put back exactly when its drift from a positive reference is more
/// than half; so a further drift is put back if a nearer one is.
pub proof fn law_poisoning_is_drift_beyond_half(
    reference: Scalar,
    near: Scalar,
    far: Scalar,
    near_back: bool,
    far_back: bool,
)
    requires
        call_ensures(baseline_poisoned, (reference, near), near_back),
        call_ensures(baseline_poisoned, (reference, far), far_back),
    ensures
        near_back <==> detector::number(detector::ZERO).below(reference) && detector::number(
            detector::POISONING_DRIFT,
        ).below(near),
        near_back && far.reaches(near) ==> far_back,
{
}

/// A new detector is in no cooldown and has sent nothing: its last report is at
/// time 0.
pub proof fn law_detector_starts_fresh(d: Detector, left: usize, last: Scalar)
    requires
        call_ensures(Detector::new, (), d),
        call_ensures(Detector::cooldown_left, (&d,), left),
        call_ensures(Detector::last_report_time, (&d,), last),
    ensures
        d.wf(),
        left == 0,
        last == detector::number(detector::ZERO),
{
}

/// While the cooldown stands at some number of windows, that number is what is
/// told of it, and it is never more than ten.
pub proof fn law_cooldown_is_told(d: &Detector, left: usize)
    requires
        d.wf(),
        call_ensures(Detector::cooldown_left, (d,), left),
    ensures
        left == d.cooldown(),
        left <= 10,
{
}

/// Unless configured otherwise: two deviations, smoothing by 0.125, the usual
/// socket, no victim named, no training file, and rows of class 0.
pub proof fn law_default_configuration(cfg: AnalysisConfig)
    requires
        call_ensures(AnalysisConfig::default, (), cfg),
    ensures
        is_whole(cfg.k.bits, 2),
        is_fraction(cfg.ewma_alpha.bits, 1, 8),
        cfg.socket_path@ == "/tmp/ddos_stage1.sock"@,
        cfg.victim_ip@ == "(not set)"@,
        cfg.train_csv is None,
        cfg.train_label == 0,
{
    law_numbers_of_the_rules();
}

/// A new detector has no reference: both start from the window at hand. Once
/// stored they are what the next move starts from, whatever the window.
pub proof fn law_references_are_kept(
    d: &mut Detector,
    first: (Scalar, Scalar),
    stored: (Scalar, Scalar),
    next: (Scalar, Scalar),
    before: (Scalar, Scalar),
    after: (Scalar, Scalar),
)
    requires
        call_ensures(Detector::new, (), *old(d)),
        call_ensures(Detector::reference_bases, (&*old(d), first.0, first.1), before),
        call_ensures(Detector::store_references, (d, stored.0, stored.1), ()),
        call_ensures(Detector::reference_bases, (&*final(d), next.0, next.1), after),
    ensures
        before == first,
        after == stored,
        final(d).cooldown() == old(d).cooldown(),
        final(d).last_sent() == old(d).last_sent(),
{
}

/// The time of the last report is that of the last report on a judged window
/// that got through, and no other report moves it.
pub proof fn law_heartbeat_restarts_on_success(
    d: &mut Detector,
    verdict: &Verdict,
    sent: bool,
    timestamp: Scalar,
    before: Scalar,
    after: Scalar,
)
    requires
        call_ensures(Detector::last_report_time, (&*old(d),), before),
        call_ensures(Detector::report_done, (d, verdict, sent, timestamp), ()),
        call_ensures(Detector::last_report_time, (&*final(d),), after),
    ensures
        sent && !verdict.warming_up ==> after == timestamp,
        !sent || verdict.warming_up ==> after == before,
        final(d).cooldown() == old(d).cooldown(),
        final(d).rate_reference() == old(d).rate_reference(),
        final(d).entropy_reference() == old(d).entropy_reference(),
{
}

/// A report says what was observed, each thing in its place: the deviations in
/// force and the busiest source of a judged window, the raw deviations and no
/// source of any other.
pub proof fn law_report_says_what_was_observed(verdict: &Verdict, o: &Observation, r: Report)
    requires
        call_ensures(compose_report, (verdict, o), r),
    ensures
        r.features.entropy == o.entropy && r.features.ewma_rate == o.rate,
        r.features.mean_h == o.entropy_mean && r.features.mean_r == o.rate_mean,
        r.features.proto_ratio == o.proto_ratio,
        r.features.dominant_ip_ratio == o.dominant_ip_ratio,
        r.features.timestamp == o.timestamp,
        !verdict.warming_up ==> r.features.sigma_h == o.entropy_sigma && r.features.sigma_r
            == o.rate_sigma && r.dominant_ip == o.dominant_ip,
        verdict.warming_up ==> r.features.sigma_h == o.entropy_sigma_raw && r.features.sigma_r
            == o.rate_sigma_raw && r.dominant_ip == IpAddr::V4(0),
{
}

} // verus!
