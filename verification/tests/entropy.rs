use ddos_stage1::address::IpAddr;
use ddos_stage1::entropy::compute_normalized_entropy;
use ddos_stage1::entropy::EntropyAccumulator;
use ddos_stage1::entropy::NormalizedEntropy;
use ddos_stage1::entropy::SourceCounts;
use ddos_stage1::entropy::MIN_PACKETS_FOR_ENTROPY;

fn ip(a: u8, b: u8, c: u8, d: u8) -> IpAddr {
    IpAddr::from_octets(a, b, c, d)
}

/// The value that the quantities of a window stand for.
fn value(h: &NormalizedEntropy) -> f64 {
    match h {
        NormalizedEntropy::Zero => 0.0,
        NormalizedEntropy::Ratio(terms) => {
            let n = terms.total as f64;
            let mut sum = 0.0_f64;
            for c in terms.counts.iter() {
                let p = *c as f64 / n;
                sum += -p * p.log2();
            }
            sum / (terms.sources as f64).log2()
        }
    }
}

#[test]
fn single_source_zero_entropy() {
    let mut counts = SourceCounts::new();
    counts.insert(ip(1, 0, 0, 1), 50);
    let h = value(&compute_normalized_entropy(&counts, 50));
    assert!(h.abs() < 1e-10, "single-source entropy should be 0.0, got {h}");
}

#[test]
fn uniform_distribution_maximum_entropy() {
    let mut counts = SourceCounts::new();
    for i in 0..50_u8 {
        counts.insert(ip(10, 0, 0, i), 1);
    }
    let h = value(&compute_normalized_entropy(&counts, 50));
    assert!((h - 1.0).abs() < 1e-6, "uniform normalized entropy should be 1.0, got {h:.6}");
}

#[test]
fn two_equal_sources_normalized_one() {
    let mut counts = SourceCounts::new();
    counts.insert(ip(192, 168, 1, 1), 25);
    counts.insert(ip(192, 168, 1, 2), 25);
    let h = value(&compute_normalized_entropy(&counts, 50));
    assert!((h - 1.0).abs() < 1e-10, "expected normalized 1.0 for 2 equal sources, got {h}");
}

#[test]
fn two_sources_skewed_low_entropy() {
    let mut counts = SourceCounts::new();
    counts.insert(ip(10, 0, 0, 1), 49);
    counts.insert(ip(10, 0, 0, 2), 1);
    let h = value(&compute_normalized_entropy(&counts, 50));
    assert!(h > 0.0 && h < 0.2, "skewed 2-source entropy should be low but non-zero, got {h}");
}

#[test]
fn empty_window_returns_zero() {
    let counts = SourceCounts::new();
    let h = value(&compute_normalized_entropy(&counts, 0));
    assert_eq!(h, 0.0);
}

#[test]
fn large_window_uniform_still_one() {
    let mut counts = SourceCounts::new();
    for i in 0..50_u8 {
        counts.insert(ip(10, 0, 0, i), 300);
    }
    let h = value(&compute_normalized_entropy(&counts, 15_000));
    assert!(
        (h - 1.0).abs() < 1e-6,
        "large-window uniform normalized entropy should be 1.0, got {h:.6}"
    );
}

#[test]
fn entropy_is_rate_independent() {
    let mut counts_small = SourceCounts::new();
    let mut counts_large = SourceCounts::new();
    for i in 0..50_u8 {
        counts_small.insert(ip(10, 0, 0, i), 1);
        counts_large.insert(ip(10, 0, 0, i), 300);
    }
    let h_small = value(&compute_normalized_entropy(&counts_small, 50));
    let h_large = value(&compute_normalized_entropy(&counts_large, 15_000));
    assert!(
        (h_small - h_large).abs() < 1e-6,
        "entropy should be rate-independent: small={h_small:.6}, large={h_large:.6}"
    );
}

#[test]
fn accumulator_fills_and_resets() {
    let mut acc = EntropyAccumulator::new();
    for i in 0..50 {
        let src = if i < 25 { ip(10, 0, 0, 1) } else { ip(10, 0, 0, 2) };
        acc.add_packet(src);
    }
    let h = value(&acc.compute_and_reset());
    assert!((h - 1.0).abs() < 1e-10, "expected 1.0, got {h}");
    assert_eq!(acc.packet_count(), 0);
}

#[test]
fn no_packet_cap() {
    let mut acc = EntropyAccumulator::new();
    let src = ip(172, 16, 0, 1);
    for _ in 0..200 {
        acc.add_packet(src);
    }
    assert_eq!(acc.packet_count(), 200);
}

#[test]
fn two_consecutive_windows() {
    let mut acc = EntropyAccumulator::new();
    for _ in 0..50 {
        acc.add_packet(ip(1, 1, 1, 1));
    }
    let h1 = value(&acc.compute_and_reset());
    assert!(h1.abs() < 1e-10, "window 1 entropy should be 0.0, got {h1}");
    for i in 0..50_u8 {
        acc.add_packet(ip(2, 0, 0, i));
    }
    let h2 = value(&acc.compute_and_reset());
    assert!((h2 - 1.0).abs() < 1e-6, "window 2 normalized entropy should be 1.0, got {h2}");
}

#[test]
fn zero_counts_are_sources_but_no_terms() {
    let mut counts = SourceCounts::new();
    counts.insert(ip(1, 0, 0, 1), 3);
    counts.insert(ip(1, 0, 0, 2), 0);
    counts.insert(ip(1, 0, 0, 3), 1);
    match compute_normalized_entropy(&counts, 4) {
        NormalizedEntropy::Ratio(terms) => {
            assert_eq!(terms.counts, vec![3, 1]);
            assert_eq!(terms.total, 4);
            assert_eq!(terms.sources, 3);
        }
        NormalizedEntropy::Zero => panic!("two sources have sent something"),
    }
}

#[test]
fn same_sources_different_shape() {
    let mut concentrated = SourceCounts::new();
    let mut spread = SourceCounts::new();
    for i in 0..10_u8 {
        concentrated.insert(ip(10, 0, 0, i), if i == 0 { 41 } else { 1 });
        spread.insert(ip(10, 0, 0, i), 5);
    }
    assert_eq!(concentrated.len(), spread.len());
    let low = value(&compute_normalized_entropy(&concentrated, 50));
    let high = value(&compute_normalized_entropy(&spread, 50));
    assert!(low < 0.4 && (high - 1.0).abs() < 1e-10);
}

#[test]
fn counts_are_kept_by_address() {
    let mut counts = SourceCounts::new();
    let four = ip(1, 2, 3, 4);
    let mapped = IpAddr::V6(0xFFFF_0102_0304);
    counts.increment(four);
    counts.increment(mapped);
    counts.increment(four);
    assert_eq!(counts.len(), 2);
    assert_eq!(counts.count(four), 2);
    assert_eq!(counts.count(mapped), 1);
    assert_eq!(counts.count(ip(4, 3, 2, 1)), 0);
    assert_eq!(counts.entry(0), (four, 2));
    assert_eq!(counts.entry(1), (mapped, 1));
    counts.insert(mapped, 9);
    assert_eq!(counts.busiest(), Some((mapped, 9)));
    counts.clear();
    assert_eq!(counts.len(), 0);
    assert_eq!(counts.busiest(), None);
}

#[test]
fn first_of_equally_busy_sources_dominates() {
    let mut acc = EntropyAccumulator::default();
    assert_eq!(acc.dominant_source(), None);
    acc.add_packet(ip(9, 9, 9, 9));
    acc.add_packet(ip(1, 1, 1, 1));
    acc.add_packet(ip(1, 1, 1, 1));
    acc.add_packet(ip(2, 2, 2, 2));
    acc.add_packet(ip(2, 2, 2, 2));
    assert_eq!(acc.dominant_source(), Some((ip(1, 1, 1, 1), 2)));
    assert!(acc.has_room_for(ip(1, 1, 1, 1)));
}

/// With `W` the product of all `c^c`, a window has `W <= n^n <= u^n * W`.
#[test]
fn entropy_bounds_on_whole_numbers() {
    let windows: [&[u128]; 4] = [&[5], &[1, 4], &[2, 2, 2], &[1, 2, 3]];
    for counts in windows.iter() {
        let n: u128 = counts.iter().sum();
        let u = counts.len() as u128;
        let w: u128 = counts.iter().map(|c| c.pow(*c as u32)).product();
        let nn = n.pow(n as u32);
        let top = u.pow(n as u32) * w;
        assert!(w <= nn && nn <= top);
        assert_eq!(w == nn, counts.len() == 1);
        assert_eq!(nn == top, counts.iter().all(|c| *c == counts[0]));
    }
}

/// Empty entries count as sources: they leave `W` alone and raise the ceiling.
#[test]
fn entropy_bounds_with_empty_entries() {
    let lists: [&[u128]; 4] = [&[5, 0], &[2, 0, 2], &[1, 4, 0, 0], &[3, 3]];
    for counts in lists.iter() {
        let n: u128 = counts.iter().sum();
        let u = counts.len() as u128;
        let w: u128 = counts.iter().filter(|c| **c > 0).map(|c| c.pow(*c as u32)).product();
        let nn = n.pow(n as u32);
        let top = u.pow(n as u32) * w;
        assert!(w <= nn && nn <= top);
        assert_eq!(w == nn, counts.iter().filter(|c| **c > 0).count() == 1);
        assert_eq!(nn == top, counts.iter().all(|c| *c == counts[0]));
    }
    let mut counts = SourceCounts::new();
    counts.insert(ip(1, 0, 0, 1), 2);
    counts.insert(ip(1, 0, 0, 2), 0);
    counts.insert(ip(1, 0, 0, 3), 2);
    let h = value(&compute_normalized_entropy(&counts, 4));
    assert!((h - 1.0 / 3.0_f64.log2()).abs() < 1e-12);
}

#[test]
fn evening_out_the_sources_raises_the_entropy() {
    let (busy, quiet, other) = (ip(1, 0, 0, 1), ip(1, 0, 0, 2), ip(1, 0, 0, 3));
    let mut counts = SourceCounts::new();
    counts.insert(busy, 7);
    counts.insert(quiet, 1);
    counts.insert(other, 4);
    let mut last = value(&compute_normalized_entropy(&counts, 12));
    while counts.count(busy) >= counts.count(quiet) + 2 {
        let (b, q) = (counts.count(busy), counts.count(quiet));
        counts.insert(busy, b - 1);
        counts.insert(quiet, q + 1);
        let h = value(&compute_normalized_entropy(&counts, 12));
        assert!(h > last);
        last = h;
    }
    assert_eq!((counts.count(busy), counts.count(quiet)), (4, 4));
    assert!((last - 1.0).abs() < 1e-10);
}

#[test]
fn few_packets_say_little() {
    assert_eq!(MIN_PACKETS_FOR_ENTROPY, 20);
}

#[test]
fn an_accumulator_can_be_shown() {
    assert!(format!("{:?}", EntropyAccumulator::new()).contains("packet_count: 0"));
}
