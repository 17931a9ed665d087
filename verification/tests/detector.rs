use ddos_stage1::address::IpAddr;
use ddos_stage1::detector::active_entropy_sigma;
use ddos_stage1::detector::active_rate_sigma;
use ddos_stage1::detector::baseline_poisoned;
use ddos_stage1::detector::compose_report;
use ddos_stage1::detector::entropy_divisor;
use ddos_stage1::detector::rate_of_window;
use ddos_stage1::detector::rate_scale;
use ddos_stage1::detector::Detector;
use ddos_stage1::detector::Measurement;
use ddos_stage1::detector::Observation;
use ddos_stage1::detector::Verdict;
use ddos_stage1::scalar::Scalar;

fn s(x: f64) -> Scalar {
    Scalar::from_bits(x.to_bits())
}

/// A window well inside all boundaries.
fn calm() -> Measurement {
    Measurement {
        rate: s(900.0),
        entropy: s(0.9),
        rate_boundary: s(1000.0),
        entropy_boundary: s(0.7),
        real_rate_boundary: s(1000.0),
        real_entropy_boundary: s(0.7),
        rate_mean: s(880.0),
        rate_sigma: s(60.0),
        rate_distance: s(20.0),
        rate_outlier_limit: s(300.0),
        entropy_sigma: s(0.1),
        entropy_distance: s(0.05),
        entropy_outlier_limit: s(0.5),
        since_last_report: s(1.0),
    }
}

fn judge(d: &mut Detector, m: &Measurement) -> Verdict {
    d.evaluate(30, 30, m)
}

#[test]
fn scalars_order_as_doubles() {
    let values = [
        f64::NEG_INFINITY,
        -1.5,
        -1.0,
        -f64::MIN_POSITIVE,
        -0.0,
        0.0,
        5e-324,
        0.05,
        1.0,
        10000.0,
        f64::MAX,
        f64::INFINITY,
        f64::NAN,
        -f64::NAN,
    ];
    for a in values.iter() {
        for b in values.iter() {
            assert_eq!(s(*a).is_below(s(*b)), *a < *b, "{a} < {b}");
            assert_eq!(s(*a).has_reached(s(*b)), *a >= *b, "{a} >= {b}");
            if *a != *b && !(a.is_nan() && b.is_nan()) {
                assert_eq!(s(*a).at_least(s(*b)), s(a.max(*b)), "max of {a} and {b}");
                assert_eq!(s(*a).at_most(s(*b)), s(a.min(*b)), "min of {a} and {b}");
            }
        }
        assert_eq!(s(*a).nan(), a.is_nan());
    }
}

#[test]
fn nothing_fires_during_warm_up() {
    let mut d = Detector::new();
    let mut m = calm();
    m.rate = s(1_000_000.0);
    m.entropy = s(0.0);
    for (rate_windows, entropy_windows) in [(0, 0), (29, 30), (30, 29)] {
        let v = d.evaluate(rate_windows, entropy_windows, &m);
        assert!(v.warming_up && v.flags == 0 && !v.real_anomaly);
        assert!(v.update_rate_baseline && v.update_entropy_baseline && !v.send_report);
        assert!(!v.refresh_references && !v.training_row);
        assert_eq!(d.cooldown_left(), 0);
    }
    assert_eq!(d.evaluate(30, 30, &m).flags, 0x03);
}

#[test]
fn flags_name_the_breach() {
    let mut m = calm();
    assert_eq!(judge(&mut Detector::new(), &m).flags, 0x00);
    m.rate = s(1000.0);
    assert_eq!(judge(&mut Detector::new(), &m).flags, 0x00);
    m.rate = s(1000.1);
    assert_eq!(judge(&mut Detector::new(), &m).flags, 0x01);
    m.entropy = s(0.69);
    assert_eq!(judge(&mut Detector::new(), &m).flags, 0x03);
    m.rate = s(900.0);
    assert_eq!(judge(&mut Detector::new(), &m).flags, 0x02);
}

#[test]
fn real_anomaly_starts_a_cooldown_of_ten() {
    let mut d = Detector::new();
    let mut m = calm();
    m.rate = s(5000.0);
    let v = judge(&mut d, &m);
    assert!(v.real_anomaly && v.send_report);
    assert_eq!(d.cooldown_left(), 10);
    for left in (0..10).rev() {
        let v = judge(&mut d, &calm());
        assert!(!v.update_rate_baseline && !v.update_entropy_baseline && !v.refresh_references);
        assert_eq!(d.cooldown_left(), left);
    }
    let v = judge(&mut d, &calm());
    assert!(v.update_rate_baseline && v.update_entropy_baseline && v.refresh_references);
    assert_eq!(d.cooldown_left(), 0);
}

#[test]
fn minor_breach_does_not_prolong_the_cooldown() {
    let mut d = Detector::new();
    let mut m = calm();
    m.rate = s(5000.0);
    judge(&mut d, &m);
    let mut minor = calm();
    minor.rate_boundary = s(890.0);
    let v = judge(&mut d, &minor);
    assert_eq!(v.flags, 0x01);
    assert!(!v.real_anomaly);
    assert_eq!(d.cooldown_left(), 9);
}

#[test]
fn flagged_window_teaches_nothing() {
    let mut m = calm();
    m.entropy = s(0.1);
    let v = judge(&mut Detector::new(), &m);
    assert!(!v.update_rate_baseline && !v.update_entropy_baseline && !v.refresh_references);
    assert!(v.training_row);
}

#[test]
fn outliers_do_not_feed_their_baseline() {
    let mut m = calm();
    m.rate_distance = s(300.1);
    let v = judge(&mut Detector::new(), &m);
    assert!(!v.update_rate_baseline && v.update_entropy_baseline && v.refresh_references);
    m.rate_sigma = s(0.0);
    assert!(judge(&mut Detector::new(), &m).update_rate_baseline);
    let mut m = calm();
    m.entropy_distance = s(0.51);
    let v = judge(&mut Detector::new(), &m);
    assert!(v.update_rate_baseline && !v.update_entropy_baseline);
    let mut m = calm();
    m.rate_mean = s(10000.0);
    assert!(!judge(&mut Detector::new(), &m).update_rate_baseline);
    m.rate_mean = s(9999.9);
    assert!(judge(&mut Detector::new(), &m).update_rate_baseline);
}

#[test]
fn heartbeat_after_ten_seconds() {
    let mut m = calm();
    m.since_last_report = s(9.999);
    assert!(!judge(&mut Detector::new(), &m).send_report);
    m.since_last_report = s(10.0);
    assert!(judge(&mut Detector::new(), &m).send_report);
}

#[test]
fn only_a_sent_live_report_restarts_the_heartbeat() {
    let mut d = Detector::new();
    assert_eq!(d.last_report_time(), s(0.0));
    let warm = d.evaluate(0, 0, &calm());
    d.report_done(&warm, true, s(5.0));
    assert_eq!(d.last_report_time(), s(0.0));
    let live = judge(&mut d, &calm());
    d.report_done(&live, false, s(6.0));
    assert_eq!(d.last_report_time(), s(0.0));
    d.report_done(&live, true, s(7.0));
    assert_eq!(d.last_report_time(), s(7.0));
}

#[test]
fn smoothing_follows_the_rate_down() {
    let mut d = Detector::new();
    let alpha = s(0.125);
    assert_eq!(d.smoothing_factor(s(99.0), s(1000.0), s(100.0), alpha), s(0.8));
    assert_eq!(d.smoothing_factor(s(100.0), s(1000.0), s(100.0), alpha), s(0.5));
    assert_eq!(d.smoothing_factor(s(1000.0), s(1000.0), s(100.0), alpha), alpha);
    assert_eq!(d.smoothing_factor(s(99.0), s(1000.0), s(100.0), s(0.9)), s(0.9));
    let mut m = calm();
    m.rate = s(5000.0);
    judge(&mut d, &m);
    assert_eq!(d.smoothing_factor(s(99.0), s(1000.0), s(100.0), alpha), s(0.5));
    assert_eq!(d.smoothing_factor(s(2000.0), s(1000.0), s(100.0), alpha), s(0.5));
}

#[test]
fn steady_rate_is_smoothed_as_configured_after_ten_quiet_windows() {
    let mut d = Detector::new();
    let alpha = s(0.125);
    let mut m = calm();
    m.rate = s(5000.0);
    judge(&mut d, &m);
    for _ in 0..10 {
        assert_eq!(d.smoothing_factor(s(2000.0), s(1000.0), s(100.0), alpha), s(0.5));
        judge(&mut d, &calm());
    }
    assert_eq!(d.smoothing_factor(s(2000.0), s(1000.0), s(100.0), alpha), alpha);
    assert_eq!(d.smoothing_factor(s(1000.0), s(1000.0), s(100.0), alpha), alpha);
}

#[test]
fn cooldown_halves_the_multiplier() {
    let mut d = Detector::new();
    assert_eq!(d.base_multiplier(s(3.0), s(1.5)), s(3.0));
    let mut m = calm();
    m.entropy = s(0.0);
    judge(&mut d, &m);
    assert_eq!(d.base_multiplier(s(3.0), s(1.5)), s(1.5));
    assert_eq!(d.base_multiplier(s(1.0), s(0.5)), s(1.0));
}

#[test]
fn deviations_are_bounded() {
    assert_eq!(active_rate_sigma(s(3.0), s(100.0)), s(50.0));
    assert_eq!(active_rate_sigma(s(3000.0), s(100.0)), s(3000.0));
    assert_eq!(active_rate_sigma(s(30000.0), s(100.0)), s(10000.0));
    assert_eq!(active_rate_sigma(s(30000.0), s(20000.0)), s(20000.0));
    assert_eq!(active_rate_sigma(s(f64::NAN), s(f64::NAN)), s(50.0));
    assert_eq!(active_entropy_sigma(s(0.0)), s(0.05));
    assert_eq!(active_entropy_sigma(s(0.2)), s(0.2));
    assert_eq!(active_entropy_sigma(s(0.7)), s(0.5));
}

#[test]
fn diversity_widens_the_rate_boundary_but_for_emergencies() {
    assert_eq!(entropy_divisor(s(0.8)), s(0.8));
    assert_eq!(entropy_divisor(s(0.0)), s(4.0));
    assert_eq!(rate_scale(s(900.0), s(2000.0), s(1.25)), s(1.25));
    assert_eq!(rate_scale(s(900.0), s(2000.0), s(0.5)), s(1.0));
    assert_eq!(rate_scale(s(2001.0), s(2000.0), s(1.25)), s(1.0));
}

#[test]
fn references_start_from_the_first_window() {
    let mut d = Detector::new();
    assert_eq!(d.reference_bases(s(7.0), s(0.5)), (s(7.0), s(0.5)));
    d.store_references(s(6.0), s(0.4));
    assert_eq!(d.reference_bases(s(7.0), s(0.5)), (s(6.0), s(0.4)));
}

#[test]
fn poisoned_beyond_half() {
    assert!(!baseline_poisoned(s(100.0), s(0.5)));
    assert!(baseline_poisoned(s(100.0), s(0.51)));
    assert!(!baseline_poisoned(s(0.0), s(9.0)));
}

#[test]
fn rate_needs_time() {
    assert_eq!(rate_of_window(s(0.5), s(100.0)), s(100.0));
    assert_eq!(rate_of_window(s(0.0), s(f64::INFINITY)), s(0.0));
}

#[test]
fn report_names_a_source_once_live() {
    let o = Observation {
        entropy: s(1.0),
        rate: s(2.0),
        entropy_mean: s(3.0),
        rate_mean: s(4.0),
        entropy_sigma_raw: s(5.0),
        rate_sigma_raw: s(6.0),
        entropy_sigma: s(7.0),
        rate_sigma: s(8.0),
        proto_ratio: s(9.0),
        dominant_ip_ratio: s(10.0),
        timestamp: s(11.0),
        dominant_ip: IpAddr::from_octets(1, 2, 3, 4),
    };
    let warm = Detector::new().evaluate(0, 0, &calm());
    let r = compose_report(&warm, &o);
    assert_eq!(r.dominant_ip, IpAddr::from_octets(0, 0, 0, 0));
    assert_eq!((r.features.sigma_h, r.features.sigma_r), (s(5.0), s(6.0)));
    let live = judge(&mut Detector::new(), &calm());
    let r = compose_report(&live, &o);
    assert_eq!(r.dominant_ip, IpAddr::from_octets(1, 2, 3, 4));
    assert_eq!((r.features.sigma_h, r.features.sigma_r), (s(7.0), s(8.0)));
    assert_eq!((r.features.entropy, r.features.ewma_rate), (s(1.0), s(2.0)));
    assert_eq!((r.features.mean_h, r.features.mean_r), (s(3.0), s(4.0)));
    assert_eq!((r.features.proto_ratio, r.features.dominant_ip_ratio), (s(9.0), s(10.0)));
    assert_eq!(r.features.timestamp, s(11.0));
}
