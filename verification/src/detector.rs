//! Layer 3: what is decided about a closed window.
//!
//! The caller measures and does the arithmetic; every choice, every comparison
//! and all the memory between windows is here: the smoothing factor, the
//! bounds on the deviations, the sensitivity after an anomaly, the flags, what
//! may feed the baselines, and when a report goes out.
use vstd::prelude::*;

use crate::address::IpAddr;
use crate::ipc::FeatureVector;
use crate::ipc::Report;
use crate::ipc::FLAG_ENTROPY_ANOMALY;
use crate::ipc::FLAG_RATE_ANOMALY;
use crate::scalar::Scalar;

verus! {

/// Windows that must feed both baselines before any window is judged.
pub const WARMUP_WINDOWS: u64 = 30;

/// Windows of heightened sensitivity after a real anomaly.
pub const COOLDOWN_WINDOWS: usize = 10;

/// 0.0
pub const ZERO: u64 = 0x0000_0000_0000_0000;

/// 1.0: the least multiplier of the anomaly boundaries.
pub const LEAST_MULTIPLIER: u64 = 0x3FF0_0000_0000_0000;

/// 0.8: smoothing after the rate fell off a cliff.
pub const CLIFF_ALPHA: u64 = 0x3FE9_9999_9999_999A;

/// 0.5: smoothing while the rate falls or during a cooldown.
pub const FALLING_ALPHA: u64 = 0x3FE0_0000_0000_0000;

/// 50.0 packets per second: the least rate deviation that counts.
pub const RATE_SIGMA_FLOOR: u64 = 0x4049_0000_0000_0000;

/// 10000.0 packets per second: the least ceiling of the rate deviation.
pub const RATE_SIGMA_CEILING: u64 = 0x40C3_8800_0000_0000;

/// 0.05: the least entropy deviation that counts.
pub const ENTROPY_SIGMA_FLOOR: u64 = 0x3FA9_9999_9999_999A;

/// 0.5: the largest entropy deviation that counts.
pub const ENTROPY_SIGMA_CEILING: u64 = 0x3FE0_0000_0000_0000;

/// 4.0: stands for the mean entropy while that is not positive.
pub const FALLBACK_MEAN_ENTROPY: u64 = 0x4010_0000_0000_0000;

/// 10000.0 packets per second: a mean rate that has got here grows no more.
pub const RATE_MEAN_CAP: u64 = 0x40C3_8800_0000_0000;

/// 0.5: the drift from the peacetime reference that counts as poisoning.
pub const POISONING_DRIFT: u64 = 0x3FE0_0000_0000_0000;

/// 10.0 seconds between two heartbeats.
pub const HEARTBEAT_SECONDS: u64 = 0x4024_0000_0000_0000;

/// The number that one of the constants above stands for.
pub open spec fn number(bits: u64) -> Scalar {
    Scalar { bits }
}

/// What was measured of one closed window, and what was computed from it and
/// from the baselines as they stood before it.
#[derive(Clone, Copy, Debug)]
pub struct Measurement {
    /// Smoothed packet rate.
    pub rate: Scalar,
    /// Normalized entropy of the sources.
    pub entropy: Scalar,
    /// Upper boundary of the rate at the multiplier in force: mean plus
    /// multiplier times scale times deviation.
    pub rate_boundary: Scalar,
    /// Lower boundary of the entropy at the multiplier in force: mean minus
    /// multiplier times deviation.
    pub entropy_boundary: Scalar,
    /// Upper boundary of the rate at the configured multiplier.
    pub real_rate_boundary: Scalar,
    /// Lower boundary of the entropy at the configured multiplier.
    pub real_entropy_boundary: Scalar,
    /// Mean rate of the baseline.
    pub rate_mean: Scalar,
    /// Rate deviation in force.
    pub rate_sigma: Scalar,
    /// Distance of the rate from its mean.
    pub rate_distance: Scalar,
    /// Distance beyond which a rate is an outlier.
    pub rate_outlier_limit: Scalar,
    /// Entropy deviation in force.
    pub entropy_sigma: Scalar,
    /// Distance of the entropy from its mean.
    pub entropy_distance: Scalar,
    /// Distance beyond which an entropy is an outlier.
    pub entropy_outlier_limit: Scalar,
    /// Seconds since the last report that was sent.
    pub since_last_report: Scalar,
}

impl Measurement {
    /// The rate lies above the boundary in force.
    pub open spec fn rate_breached(self) -> bool {
        self.rate_boundary.below(self.rate)
    }

    /// The entropy lies below the boundary in force.
    pub open spec fn entropy_breached(self) -> bool {
        self.entropy.below(self.entropy_boundary)
    }

    /// A boundary at the configured multiplier is breached.
    pub open spec fn really_breached(self) -> bool {
        self.real_rate_boundary.below(self.rate) || self.entropy.below(self.real_entropy_boundary)
    }

    /// The rate is too far from its mean to feed the baseline.
    pub open spec fn rate_outlier(self) -> bool {
        number(ZERO).below(self.rate_sigma) && self.rate_outlier_limit.below(self.rate_distance)
    }

    /// The entropy is too far from its mean to feed the baseline.
    pub open spec fn entropy_outlier(self) -> bool {
        number(ZERO).below(self.entropy_sigma) && self.entropy_outlier_limit.below(
            self.entropy_distance,
        )
    }

    /// Enough time has passed for a heartbeat.
    pub open spec fn heartbeat_due(self) -> bool {
        self.since_last_report.reaches(number(HEARTBEAT_SECONDS))
    }
}

/// What is to be done about a closed window.
#[derive(Clone, Copy, Debug, PartialEq, Eq, Structural)]
pub struct Verdict {
    /// The baselines are still being built; the window was not judged.
    pub warming_up: bool,
    /// Which boundaries in force were breached.
    pub flags: u8,
    /// A boundary at the configured multiplier was breached.
    pub real_anomaly: bool,
    /// The rate feeds its baseline.
    pub update_rate_baseline: bool,
    /// The entropy feeds its baseline.
    pub update_entropy_baseline: bool,
    /// The peacetime references move towards this window.
    pub refresh_references: bool,
    /// A report goes to stage 2.
    pub send_report: bool,
    /// The window becomes a training row, where these are collected.
    pub training_row: bool,
}

/// The flags for a window: bit 0 for the rate, bit 1 for the entropy.
pub open spec fn flags_of(rate: bool, entropy: bool) -> u8 {
    match (rate, entropy) {
        (false, false) => 0,
        (true, false) => 1,
        (false, true) => 2,
        (true, true) => 3,
    }
}

/// Whether both baselines have seen enough windows.
pub open spec fn is_warm(rate_windows: u64, entropy_windows: u64) -> bool {
    rate_windows >= WARMUP_WINDOWS && entropy_windows >= WARMUP_WINDOWS
}

/// The cooldown after a window that was judged.
pub open spec fn next_cooldown(cooldown: nat, real_anomaly: bool) -> nat {
    if real_anomaly {
        COOLDOWN_WINDOWS as nat
    } else if cooldown > 0 {
        (cooldown - 1) as nat
    } else {
        0
    }
}

/// The verdict on a window while the baselines are being built: nothing is
/// flagged, both baselines learn, and nothing goes to stage 2.
pub open spec fn warmup_verdict() -> Verdict {
    Verdict {
        warming_up: true,
        flags: 0,
        real_anomaly: false,
        update_rate_baseline: true,
        update_entropy_baseline: true,
        refresh_references: false,
        send_report: false,
        training_row: false,
    }
}

/// The verdict on a window once the baselines are warm.
pub open spec fn live_verdict(cooldown: nat, m: Measurement) -> Verdict {
    let clean = !m.rate_breached() && !m.entropy_breached() && cooldown == 0;
    Verdict {
        warming_up: false,
        flags: flags_of(m.rate_breached(), m.entropy_breached()),
        real_anomaly: m.really_breached(),
        update_rate_baseline: clean && !m.rate_outlier() && m.rate_mean.below(
            number(RATE_MEAN_CAP),
        ),
        update_entropy_baseline: clean && !m.entropy_outlier(),
        refresh_references: clean,
        send_report: m.rate_breached() || m.entropy_breached() || m.heartbeat_due(),
        training_row: true,
    }
}

/// The verdict on a window, given the windows that the two baselines have seen.
pub open spec fn verdict_on(
    rate_windows: u64,
    entropy_windows: u64,
    cooldown: nat,
    m: Measurement,
) -> Verdict {
    if is_warm(rate_windows, entropy_windows) {
        live_verdict(cooldown, m)
    } else {
        warmup_verdict()
    }
}

/// The rate deviation in force: the raw one, no lower than the floor and no
/// higher than the ceiling, which grows with the mean.
pub open spec fn rate_sigma_in_force(raw: Scalar, fifth_of_mean: Scalar) -> Scalar {
    raw.larger(number(RATE_SIGMA_FLOOR)).smaller(
        fifth_of_mean.larger(number(RATE_SIGMA_CEILING)),
    )
}

/// The entropy deviation in force.
pub open spec fn entropy_sigma_in_force(raw: Scalar) -> Scalar {
    raw.larger(number(ENTROPY_SIGMA_FLOOR)).smaller(number(ENTROPY_SIGMA_CEILING))
}

/// The smoothing factor for the rate of a window.
pub open spec fn smoothing_in_force(
    cooldown: nat,
    window_rate: Scalar,
    smoothed: Scalar,
    tenth_of_smoothed: Scalar,
    configured: Scalar,
) -> Scalar {
    if window_rate.below(tenth_of_smoothed) && cooldown == 0 {
        number(CLIFF_ALPHA).larger(configured)
    } else if window_rate.below(smoothed) || cooldown > 0 {
        number(FALLING_ALPHA).larger(configured)
    } else {
        configured
    }
}

/// The multiplier of the deviations: `half` is half of `configured`.
pub open spec fn multiplier_in_force(cooldown: nat, configured: Scalar, half: Scalar) -> Scalar {
    if cooldown > 0 {
        half.larger(number(LEAST_MULTIPLIER))
    } else {
        configured
    }
}

/// The factor by which diversity widens the rate boundary.
pub open spec fn scale_in_force(rate: Scalar, emergency_line: Scalar, diversity: Scalar) -> Scalar {
    if emergency_line.below(rate) {
        number(LEAST_MULTIPLIER)
    } else {
        diversity.larger(number(LEAST_MULTIPLIER))
    }
}

/// The cooldown after a run of judged windows, each of them a real anomaly or
/// not.
pub open spec fn cooldown_after(cooldown: nat, windows: Seq<bool>) -> nat
    decreases windows.len(),
{
    if windows.len() == 0 {
        cooldown
    } else {
        next_cooldown(cooldown_after(cooldown, windows.drop_last()), windows.last())
    }
}

/// The memory that layer 3 keeps between windows.
pub struct Detector {
    cooldown: usize,
    last_sent: Scalar,
    rate_reference: Option<Scalar>,
    entropy_reference: Option<Scalar>,
}

impl Detector {
    /// Windows of the cooldown that are still to come.
    pub closed spec fn cooldown(self) -> nat {
        self.cooldown as nat
    }

    /// When the last report was sent; 0.0 before the first.
    pub closed spec fn last_sent(self) -> Scalar {
        self.last_sent
    }

    /// The long-term reference of the rate, once there is one.
    pub closed spec fn rate_reference(self) -> Option<Scalar> {
        self.rate_reference
    }

    /// The long-term reference of the entropy, once there is one.
    pub closed spec fn entropy_reference(self) -> Option<Scalar> {
        self.entropy_reference
    }

    /// The cooldown never exceeds its starting value.
    pub open spec fn wf(self) -> bool {
        self.cooldown() <= COOLDOWN_WINDOWS
    }

    /// A detector that has seen nothing.
    pub fn new() -> (d: Detector)
        ensures
            d.wf(),
            d.cooldown() == 0,
            d.last_sent() == number(ZERO),
            d.rate_reference() is None,
            d.entropy_reference() is None,
    {
        Detector {
            cooldown: 0,
            last_sent: Scalar::from_bits(ZERO),
            rate_reference: None,
            entropy_reference: None,
        }
    }

    /// Windows of the cooldown that are still to come.
    pub fn cooldown_left(&self) -> (n: usize)
        ensures
            n == self.cooldown(),
    {
        self.cooldown
    }

    /// When the last report was sent.
    pub fn last_report_time(&self) -> (t: Scalar)
        ensures
            t == self.last_sent(),
    {
        self.last_sent
    }

    /// The smoothing factor for the rate of a window: fast after a drop below
    /// a tenth of the smoothed rate, unless a cooldown runs; moderately fast
    /// on any drop or during a cooldown; the configured one otherwise. The
    /// first two are never slower than the configured one.
    pub fn smoothing_factor(
        &self,
        window_rate: Scalar,
        smoothed: Scalar,
        tenth_of_smoothed: Scalar,
        configured: Scalar,
    ) -> (alpha: Scalar)
        ensures
            alpha == smoothing_in_force(
                self.cooldown(),
                window_rate,
                smoothed,
                tenth_of_smoothed,
                configured,
            ),
    {
        if window_rate.is_below(tenth_of_smoothed) && self.cooldown == 0 {
            Scalar::from_bits(CLIFF_ALPHA).at_least(configured)
        } else if window_rate.is_below(smoothed) || self.cooldown > 0 {
            Scalar::from_bits(FALLING_ALPHA).at_least(configured)
        } else {
            configured
        }
    }

    /// The multiplier in force: the configured one, or during a cooldown half
    /// of it, but at least 1.
    pub fn base_multiplier(&self, configured: Scalar, half: Scalar) -> (k: Scalar)
        ensures
            k == multiplier_in_force(self.cooldown(), configured, half),
    {
        if self.cooldown > 0 {
            half.at_least(Scalar::from_bits(LEAST_MULTIPLIER))
        } else {
            configured
        }
    }

    /// Judges a closed window and moves the cooldown on.
    ///
    /// `rate_windows` and `entropy_windows` are the windows that the two
    /// baselines have seen.
    pub fn evaluate(&mut self, rate_windows: u64, entropy_windows: u64, m: &Measurement) -> (v:
        Verdict)
        requires
            old(self).wf(),
        ensures
            final(self).wf(),
            v == verdict_on(rate_windows, entropy_windows, old(self).cooldown(), *m),
            final(self).cooldown() == if is_warm(rate_windows, entropy_windows) {
                next_cooldown(old(self).cooldown(), m.really_breached())
            } else {
                old(self).cooldown()
            },
            final(self).last_sent() == old(self).last_sent(),
            final(self).rate_reference() == old(self).rate_reference(),
            final(self).entropy_reference() == old(self).entropy_reference(),
    {
        if rate_windows < WARMUP_WINDOWS || entropy_windows < WARMUP_WINDOWS {
            return Verdict {
                warming_up: true,
                flags: 0,
                real_anomaly: false,
                update_rate_baseline: true,
                update_entropy_baseline: true,
                refresh_references: false,
                send_report: false,
                training_row: false,
            };
        }
        let mut flags: u8 = 0;
        if m.rate_boundary.is_below(m.rate) {
            flags = flags | FLAG_RATE_ANOMALY;
        }
        if m.entropy.is_below(m.entropy_boundary) {
            flags = flags | FLAG_ENTROPY_ANOMALY;
        }
        assert(0u8 | 1u8 == 1u8 && 0u8 | 2u8 == 2u8 && 1u8 | 2u8 == 3u8) by (bit_vector);

        let real_anomaly = m.real_rate_boundary.is_below(m.rate) || m.entropy.is_below(
            m.real_entropy_boundary,
        );
        let clean = flags == 0 && self.cooldown == 0;
        let zero = Scalar::from_bits(ZERO);
        let rate_outlier = zero.is_below(m.rate_sigma) && m.rate_outlier_limit.is_below(
            m.rate_distance,
        );
        let entropy_outlier = zero.is_below(m.entropy_sigma) && m.entropy_outlier_limit.is_below(
            m.entropy_distance,
        );
        let heartbeat = m.since_last_report.has_reached(Scalar::from_bits(HEARTBEAT_SECONDS));

        if real_anomaly {
            self.cooldown = COOLDOWN_WINDOWS;
        } else if self.cooldown > 0 {
            self.cooldown = self.cooldown - 1;
        }
        Verdict {
            warming_up: false,
            flags,
            real_anomaly,
            update_rate_baseline: clean && !rate_outlier && m.rate_mean.is_below(
                Scalar::from_bits(RATE_MEAN_CAP),
            ),
            update_entropy_baseline: clean && !entropy_outlier,
            refresh_references: clean,
            send_report: flags != 0 || heartbeat,
            training_row: true,
        }
    }

    /// The values from which the peacetime references move on: the references
    /// themselves, or this window's rate and entropy while there are none.
    pub fn reference_bases(&self, rate: Scalar, entropy: Scalar) -> (bases: (Scalar, Scalar))
        ensures
            bases.0 == (match self.rate_reference() {
                Some(reference) => reference,
                None => rate,
            }),
            bases.1 == (match self.entropy_reference() {
                Some(reference) => reference,
                None => entropy,
            }),
    {
        let rate_base = match self.rate_reference {
            Some(reference) => reference,
            None => rate,
        };
        let entropy_base = match self.entropy_reference {
            Some(reference) => reference,
            None => entropy,
        };
        (rate_base, entropy_base)
    }

    /// Stores the references that were moved on.
    pub fn store_references(&mut self, rate: Scalar, entropy: Scalar)
        ensures
            final(self).rate_reference() == Some(rate),
            final(self).entropy_reference() == Some(entropy),
            final(self).cooldown() == old(self).cooldown(),
            final(self).last_sent() == old(self).last_sent(),
    {
        self.rate_reference = Some(rate);
        self.entropy_reference = Some(entropy);
    }

    /// Takes note of what became of a report. Only a report on a judged window
    /// that got through restarts the heartbeat. On other windows no report is
    /// due, so that a note on one changes nothing.
    pub fn report_done(&mut self, verdict: &Verdict, sent: bool, timestamp: Scalar)
        ensures
            final(self).last_sent() == if sent && !verdict.warming_up {
                timestamp
            } else {
                old(self).last_sent()
            },
            final(self).cooldown() == old(self).cooldown(),
            final(self).rate_reference() == old(self).rate_reference(),
            final(self).entropy_reference() == old(self).entropy_reference(),
    {
        if sent && !verdict.warming_up {
            self.last_sent = timestamp;
        }
    }
}

/// The rate of a window: packets over duration, as long as time has passed.
pub fn rate_of_window(duration: Scalar, packets_over_duration: Scalar) -> (rate: Scalar)
    ensures
        rate == if number(ZERO).below(duration) {
            packets_over_duration
        } else {
            number(ZERO)
        },
{
    if Scalar::from_bits(ZERO).is_below(duration) {
        packets_over_duration
    } else {
        Scalar::from_bits(ZERO)
    }
}

/// What a report can be made of.
#[derive(Clone, Copy, Debug)]
pub struct Observation {
    /// Normalized entropy of the window.
    pub entropy: Scalar,
    /// Smoothed packet rate.
    pub rate: Scalar,
    /// Mean entropy, after the window fed it or not.
    pub entropy_mean: Scalar,
    /// Mean rate, after the window fed it or not.
    pub rate_mean: Scalar,
    /// Standard deviation of the entropy, as it is.
    pub entropy_sigma_raw: Scalar,
    /// Standard deviation of the rate, as it is.
    pub rate_sigma_raw: Scalar,
    /// Entropy deviation in force.
    pub entropy_sigma: Scalar,
    /// Rate deviation in force.
    pub rate_sigma: Scalar,
    /// Share of TCP among the tracked packets.
    pub proto_ratio: Scalar,
    /// Share of the busiest source.
    pub dominant_ip_ratio: Scalar,
    /// When the window closed.
    pub timestamp: Scalar,
    /// The busiest source.
    pub dominant_ip: IpAddr,
}

/// The report on a window: of one that was judged, with the deviations in force
/// and the busiest source. As long as nothing is judged it carries the raw
/// deviations and names `0.0.0.0`; no verdict sends such a report, so that it
/// never reaches stage 2.
pub fn compose_report(verdict: &Verdict, o: &Observation) -> (report: Report)
    ensures
        report.features.entropy == o.entropy,
        report.features.ewma_rate == o.rate,
        report.features.mean_h == o.entropy_mean,
        report.features.mean_r == o.rate_mean,
        report.features.sigma_h == if verdict.warming_up {
            o.entropy_sigma_raw
        } else {
            o.entropy_sigma
        },
        report.features.sigma_r == if verdict.warming_up {
            o.rate_sigma_raw
        } else {
            o.rate_sigma
        },
        report.features.proto_ratio == o.proto_ratio,
        report.features.dominant_ip_ratio == o.dominant_ip_ratio,
        report.features.timestamp == o.timestamp,
        report.dominant_ip == if verdict.warming_up {
            IpAddr::V4(0)
        } else {
            o.dominant_ip
        },
{
    let (sigma_h, sigma_r, dominant_ip) = if verdict.warming_up {
        (o.entropy_sigma_raw, o.rate_sigma_raw, IpAddr::V4(0))
    } else {
        (o.entropy_sigma, o.rate_sigma, o.dominant_ip)
    };
    Report {
        features: FeatureVector {
            entropy: o.entropy,
            ewma_rate: o.rate,
            mean_h: o.entropy_mean,
            mean_r: o.rate_mean,
            sigma_h,
            sigma_r,
            proto_ratio: o.proto_ratio,
            dominant_ip_ratio: o.dominant_ip_ratio,
            timestamp: o.timestamp,
        },
        dominant_ip,
    }
}

/// The rate deviation in force.
pub fn active_rate_sigma(raw: Scalar, fifth_of_mean: Scalar) -> (sigma: Scalar)
    ensures
        sigma == rate_sigma_in_force(raw, fifth_of_mean),
{
    let ceiling = fifth_of_mean.at_least(Scalar::from_bits(RATE_SIGMA_CEILING));
    raw.at_least(Scalar::from_bits(RATE_SIGMA_FLOOR)).at_most(ceiling)
}

/// The entropy deviation in force.
pub fn active_entropy_sigma(raw: Scalar) -> (sigma: Scalar)
    ensures
        sigma == entropy_sigma_in_force(raw),
{
    raw.at_least(Scalar::from_bits(ENTROPY_SIGMA_FLOOR)).at_most(
        Scalar::from_bits(ENTROPY_SIGMA_CEILING),
    )
}

/// What a window's entropy is divided by to tell how diverse it is: the mean
/// entropy, or 4 while that is not positive.
pub fn entropy_divisor(mean: Scalar) -> (divisor: Scalar)
    ensures
        divisor == if number(ZERO).below(mean) {
            mean
        } else {
            number(FALLBACK_MEAN_ENTROPY)
        },
{
    if Scalar::from_bits(ZERO).is_below(mean) {
        mean
    } else {
        Scalar::from_bits(FALLBACK_MEAN_ENTROPY)
    }
}

/// The factor by which diversity widens the rate boundary: at least 1, and
/// exactly 1 once the rate is above the emergency line, so that a diverse
/// flood cannot hide.
pub fn rate_scale(rate: Scalar, emergency_line: Scalar, diversity: Scalar) -> (scale: Scalar)
    ensures
        scale == scale_in_force(rate, emergency_line, diversity),
{
    if emergency_line.is_below(rate) {
        Scalar::from_bits(LEAST_MULTIPLIER)
    } else {
        diversity.at_least(Scalar::from_bits(LEAST_MULTIPLIER))
    }
}

/// Whether the mean rate has drifted so far from a positive peacetime
/// reference that it is put back.
pub fn baseline_poisoned(reference: Scalar, relative_drift: Scalar) -> (poisoned: bool)
    ensures
        poisoned == (number(ZERO).below(reference) && number(POISONING_DRIFT).below(
            relative_drift,
        )),
{
    Scalar::from_bits(ZERO).is_below(reference) && Scalar::from_bits(POISONING_DRIFT).is_below(
        relative_drift,
    )
}

/// The flags of a judged window are exactly the breaches: bit 0 for the rate,
/// bit 1 for the entropy, no other bit; and a flagged window is reported.
pub proof fn law_flags_are_the_breaches(cooldown: nat, m: Measurement)
    ensures
        live_verdict(cooldown, m).flags & FLAG_RATE_ANOMALY != 0 <==> m.rate_breached(),
        live_verdict(cooldown, m).flags & FLAG_ENTROPY_ANOMALY != 0 <==> m.entropy_breached(),
        live_verdict(cooldown, m).flags <= 3,
        live_verdict(cooldown, m).flags != 0 ==> live_verdict(cooldown, m).send_report,
        FLAG_RATE_ANOMALY & FLAG_ENTROPY_ANOMALY == 0,
{
    assert(0u8 & 1u8 == 0u8 && 1u8 & 1u8 == 1u8 && 2u8 & 1u8 == 0u8 && 3u8 & 1u8 == 1u8)
        by (bit_vector);
    assert(0u8 & 2u8 == 0u8 && 1u8 & 2u8 == 0u8 && 2u8 & 2u8 == 2u8 && 3u8 & 2u8 == 2u8)
        by (bit_vector);
}

/// A window that is flagged, or that falls into a cooldown, leaves both
/// baselines and both references as they are.
pub proof fn law_suspect_windows_teach_nothing(cooldown: nat, m: Measurement)
    requires
        live_verdict(cooldown, m).flags != 0 || cooldown > 0,
    ensures
        !live_verdict(cooldown, m).update_rate_baseline,
        !live_verdict(cooldown, m).update_entropy_baseline,
        !live_verdict(cooldown, m).refresh_references,
{
}

/// Outside a cooldown the multiplier in force is the configured one; where the
/// boundaries then agree, a window is flagged exactly when it is a real
/// anomaly.
pub proof fn law_flags_are_real_outside_cooldown(configured: Scalar, half: Scalar, m: Measurement)
    requires
        m.rate_boundary == m.real_rate_boundary,
        m.entropy_boundary == m.real_entropy_boundary,
    ensures
        multiplier_in_force(0, configured, half) == configured,
        live_verdict(0, m).flags != 0 <==> live_verdict(0, m).real_anomaly,
{
}

/// While no window is a real anomaly the cooldown falls by one each window, so
/// that it is over after ten; a real anomaly starts it anew.
pub proof fn law_cooldown_runs_out(cooldown: nat, quiet: Seq<bool>)
    requires
        cooldown <= COOLDOWN_WINDOWS,
        forall|i: int| 0 <= i < quiet.len() ==> !quiet[i],
    ensures
        cooldown_after(cooldown, quiet) == if quiet.len() < cooldown {
            (cooldown - quiet.len()) as nat
        } else {
            0
        },
        quiet.len() >= COOLDOWN_WINDOWS ==> cooldown_after(cooldown, quiet) == 0,
        cooldown_after(cooldown, quiet.push(true)) == COOLDOWN_WINDOWS,
    decreases quiet.len(),
{
    if quiet.len() > 0 {
        law_cooldown_runs_out(cooldown, quiet.drop_last());
    }
    assert(quiet.push(true).drop_last() =~= quiet);
}

/// Whatever the windows bring, the cooldown stays within its bound, and it
/// runs exactly when one of the last ten windows was a real anomaly.
pub proof fn law_cooldown_remembers_ten_windows(windows: Seq<bool>)
    ensures
        cooldown_after(0, windows) <= COOLDOWN_WINDOWS,
        cooldown_after(0, windows) > 0 <==> exists|i: int|
            #![trigger windows[i]]
            0 <= i < windows.len() && windows.len() - i <= COOLDOWN_WINDOWS && windows[i],
{
    lemma_cooldown_counts_from_last_anomaly(windows);
}

/// The cooldown is what is left of ten since the last real anomaly.
proof fn lemma_cooldown_counts_from_last_anomaly(windows: Seq<bool>)
    ensures
        cooldown_after(0, windows) <= COOLDOWN_WINDOWS,
        forall|i: int|
            #![trigger windows[i]]
            0 <= i < windows.len() && windows[i] ==> cooldown_after(0, windows) >= COOLDOWN_WINDOWS
                + 1 - (windows.len() - i),
        cooldown_after(0, windows) > 0 ==> exists|i: int|
            #![trigger windows[i]]
            0 <= i < windows.len() && windows[i] && cooldown_after(0, windows) == COOLDOWN_WINDOWS
                + 1 - (windows.len() - i),
    decreases windows.len(),
{
    if windows.len() > 0 {
        let before = windows.drop_last();
        lemma_cooldown_counts_from_last_anomaly(before);
        assert forall|i: int| #![trigger windows[i]] 0 <= i < windows.len() && windows[i] implies
            cooldown_after(0, windows) >= COOLDOWN_WINDOWS + 1 - (windows.len() - i) by {
            if i < windows.len() - 1 {
                assert(before[i]);
            }
        }
        if cooldown_after(0, windows) > 0 {
            if windows.last() {
                assert(windows[windows.len() - 1]);
            } else {
                let i = choose|i: int|
                    #![trigger before[i]]
                    0 <= i < before.len() && before[i] && cooldown_after(0, before)
                        == COOLDOWN_WINDOWS + 1 - (before.len() - i);
                assert(windows[i]);
            }
        }
    }
}

/// The deviations in force are numbers, never below their floor and never
/// above their ceiling, whatever the raw ones are.
pub proof fn law_deviations_are_bounded(raw: Scalar, fifth_of_mean: Scalar)
    ensures
        !rate_sigma_in_force(raw, fifth_of_mean).is_nan(),
        !rate_sigma_in_force(raw, fifth_of_mean).below(number(RATE_SIGMA_FLOOR)),
        !fifth_of_mean.larger(number(RATE_SIGMA_CEILING)).below(
            rate_sigma_in_force(raw, fifth_of_mean),
        ),
        !entropy_sigma_in_force(raw).is_nan(),
        !entropy_sigma_in_force(raw).below(number(ENTROPY_SIGMA_FLOOR)),
        !number(ENTROPY_SIGMA_CEILING).below(entropy_sigma_in_force(raw)),
{
}

/// During a cooldown the multiplier is at least 1, diversity never narrows the
/// rate boundary, and the smoothing is never slower than configured.
pub proof fn law_choices_are_bounded(
    cooldown: nat,
    configured: Scalar,
    half: Scalar,
    rate: Scalar,
    emergency_line: Scalar,
    diversity: Scalar,
    smoothed: Scalar,
    tenth_of_smoothed: Scalar,
)
    ensures
        cooldown > 0 ==> multiplier_in_force(cooldown, configured, half).reaches(
            number(LEAST_MULTIPLIER),
        ),
        scale_in_force(rate, emergency_line, diversity).reaches(number(LEAST_MULTIPLIER)),
        !smoothing_in_force(cooldown, rate, smoothed, tenth_of_smoothed, configured).below(
            configured,
        ),
{
}

/// Above the emergency line diversity does not count: whatever the entropy of
/// the window, the rate boundary is scaled by exactly 1.
pub proof fn law_diverse_flood_cannot_hide(rate: Scalar, emergency_line: Scalar, diversity: Scalar)
    requires
        emergency_line.below(rate),
    ensures
        scale_in_force(rate, emergency_line, diversity) == number(LEAST_MULTIPLIER),
{
}

/// A cooldown makes the detector no less sensitive: the multiplier in force is
/// never above the configured one, as long as that is at least 1 and its half
/// no larger than itself.
pub proof fn law_cooldown_is_no_less_sensitive(cooldown: nat, configured: Scalar, half: Scalar)
    requires
        configured.reaches(number(LEAST_MULTIPLIER)),
        configured.reaches(half),
    ensures
        configured.reaches(multiplier_in_force(cooldown, configured, half)),
{
}

/// A rate that does not fall, ten windows or more after the last real anomaly,
/// is smoothed with the configured factor. `windows` are the judged windows so
/// far, each of them a real anomaly or not.
pub proof fn law_steady_rate_is_smoothed_as_configured(
    windows: Seq<bool>,
    window_rate: Scalar,
    smoothed: Scalar,
    tenth_of_smoothed: Scalar,
    configured: Scalar,
)
    requires
        forall|i: int|
            #![trigger windows[i]]
            0 <= i < windows.len() && windows.len() - i <= COOLDOWN_WINDOWS ==> !windows[i],
        window_rate.reaches(smoothed),
        smoothed.reaches(tenth_of_smoothed),
    ensures
        smoothing_in_force(
            cooldown_after(0, windows),
            window_rate,
            smoothed,
            tenth_of_smoothed,
            configured,
        ) == configured,
{
    law_cooldown_remembers_ten_windows(windows);
}

/// While the baselines are being built nothing is flagged and nothing is
/// reported, whatever was measured, and both baselines learn.
pub proof fn law_nothing_fires_during_warmup(
    rate_windows: u64,
    entropy_windows: u64,
    cooldown: nat,
    m: Measurement,
)
    requires
        !is_warm(rate_windows, entropy_windows),
    ensures
        verdict_on(rate_windows, entropy_windows, cooldown, m).flags == 0,
        !verdict_on(rate_windows, entropy_windows, cooldown, m).real_anomaly,
        !verdict_on(rate_windows, entropy_windows, cooldown, m).send_report,
        verdict_on(rate_windows, entropy_windows, cooldown, m).update_rate_baseline,
        verdict_on(rate_windows, entropy_windows, cooldown, m).update_entropy_baseline,
{
}

} // verus!
