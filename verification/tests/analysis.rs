use ddos_stage1::address::IpAddr;
use ddos_stage1::analysis::listing_due;
use ddos_stage1::analysis::tcp_share;
use ddos_stage1::analysis::training_row;
use ddos_stage1::analysis::Analysis;
use ddos_stage1::analysis::AnalysisConfig;
use ddos_stage1::analysis::TRAINING_HEADER;
use ddos_stage1::analysis::WINDOW_SIZE;
use ddos_stage1::entropy::NormalizedEntropy;
use ddos_stage1::flows::render_active_flows;
use ddos_stage1::flows::Flow;
use ddos_stage1::flows::FlowCounts;
use ddos_stage1::packet::protocol_name;
use ddos_stage1::packet::PacketMeta;
use ddos_stage1::packet::Protocol;
use ddos_stage1::scalar::Scalar;

fn s(x: f64) -> Scalar {
    Scalar::from_bits(x.to_bits())
}

fn packet(last: u8, protocol: Protocol) -> PacketMeta {
    PacketMeta { src_ip: IpAddr::from_octets(10, 0, 0, last), dst_port: 80, protocol }
}

#[test]
fn default_configuration() {
    let cfg = AnalysisConfig::default();
    assert_eq!(cfg.k, s(2.0));
    assert_eq!(cfg.ewma_alpha, s(0.125));
    assert_eq!(cfg.socket_path, "/tmp/ddos_stage1.sock");
    assert_eq!(cfg.victim_ip, "(not set)");
    assert_eq!(cfg.train_csv, None);
    assert_eq!(cfg.train_label, 0);
}

#[test]
fn every_fiftieth_packet_closes_a_window() {
    let mut a = Analysis::new();
    for n in 1..=500_u64 {
        let p = packet(1, Protocol::Tcp);
        assert!(a.has_room_for(&p));
        let closed = a.on_packet(&p);
        assert_eq!(closed.is_some(), n % 50 == 0);
        assert_eq!(a.window_count(), n / 50);
        if let Some(summary) = closed {
            assert_eq!(summary.window_id, n / 50);
            assert_eq!(summary.packets, WINDOW_SIZE);
        }
    }
}

#[test]
fn summary_describes_its_own_window_only() {
    let mut a = Analysis::new();
    for _ in 0..50 {
        a.on_packet(&packet(1, Protocol::Udp));
    }
    let mut last = None;
    for i in 0..50_u8 {
        let protocol = match i % 5 {
            0 => Protocol::Tcp,
            1 => Protocol::Udp,
            2 => Protocol::Icmp,
            _ => Protocol::Other,
        };
        let from = if i < 30 { 7 } else { i };
        last = a.on_packet(&packet(from, protocol));
    }
    let summary = last.unwrap();
    assert_eq!(summary.window_id, 2);
    assert_eq!(summary.dominant_ip, IpAddr::from_octets(10, 0, 0, 7));
    assert_eq!(summary.dominant_count, 30);
    assert_eq!(summary.tcp_count, 10);
    assert_eq!(summary.tracked_count, 30);
    match summary.entropy {
        NormalizedEntropy::Ratio(terms) => {
            assert_eq!(terms.sources, 21);
            assert_eq!(terms.total, 50);
            assert_eq!(terms.counts[0], 30);
            assert_eq!(terms.counts.iter().sum::<u32>(), 50);
        }
        NormalizedEntropy::Zero => panic!("there are many sources"),
    }
}

#[test]
fn single_source_window_has_zero_entropy() {
    let mut a = Analysis::new();
    let mut last = None;
    for _ in 0..50 {
        last = a.on_packet(&packet(9, Protocol::Other));
    }
    let summary = last.unwrap();
    assert!(matches!(summary.entropy, NormalizedEntropy::Zero));
    assert_eq!((summary.tcp_count, summary.tracked_count), (0, 0));
    assert_eq!(summary.dominant_count, 50);
}

#[test]
fn listing_starts_over() {
    let mut a = Analysis::new();
    for _ in 0..3 {
        a.on_packet(&packet(1, Protocol::Tcp));
    }
    for _ in 0..5 {
        a.on_packet(&packet(1, Protocol::Udp));
    }
    let listing = a.take_listing();
    assert_eq!(
        listing,
        vec![
            (Flow { ip: IpAddr::from_octets(10, 0, 0, 1), port: 80, protocol: 17 }, 5),
            (Flow { ip: IpAddr::from_octets(10, 0, 0, 1), port: 80, protocol: 6 }, 3),
        ]
    );
    assert_eq!(a.take_listing(), vec![]);
}

#[test]
fn listing_every_ten_seconds() {
    assert!(!listing_due(s(9.99)));
    assert!(listing_due(s(10.0)));
}

#[test]
fn top_twenty_flows_the_busiest_first() {
    let mut counts = FlowCounts::new();
    for i in 0..30_u16 {
        let flow = Flow { ip: IpAddr::V6(i as u128), port: 1000 + i, protocol: 6 };
        for _ in 0..(i % 10 + 1) {
            counts.increment(flow);
        }
    }
    assert_eq!(counts.len(), 30);
    let top = counts.top_flows();
    assert_eq!(top.len(), 20);
    let shown: Vec<u32> = top.iter().map(|f| f.1).collect();
    assert_eq!(shown, vec![10, 10, 10, 9, 9, 9, 8, 8, 8, 7, 7, 7, 6, 6, 6, 5, 5, 5, 4, 4]);
    let ports: Vec<u16> = top.iter().map(|f| f.0.port).collect();
    assert_eq!(ports[0..3], [1009, 1019, 1029]);
    assert_eq!(ports[18..20], [1003, 1013]);
}

#[test]
fn flows_are_told_apart_by_every_part() {
    let mut counts = FlowCounts::new();
    let flow = Flow { ip: IpAddr::V4(1), port: 2, protocol: 3 };
    let others = [
        Flow { ip: IpAddr::V4(2), port: 2, protocol: 3 },
        Flow { ip: IpAddr::V6(1), port: 2, protocol: 3 },
        Flow { ip: IpAddr::V4(1), port: 3, protocol: 3 },
        Flow { ip: IpAddr::V4(1), port: 2, protocol: 4 },
    ];
    counts.increment(flow);
    counts.increment(flow);
    for other in others.iter() {
        assert_eq!(counts.count(*other), 0);
        counts.increment(*other);
        assert_eq!(counts.count(*other), 1);
    }
    assert_eq!(counts.count(flow), 2);
    assert_eq!(counts.entry(0), (flow, 2));
    counts.clear();
    assert_eq!(counts.count(flow), 0);
}

#[test]
fn listing_as_json() {
    let flows = vec![
        (Flow { ip: IpAddr::from_octets(10, 0, 0, 1), port: 443, protocol: 6 }, 12345_u32),
        (Flow { ip: IpAddr::from_octets(10, 0, 0, 2), port: 0, protocol: 1 }, 7_u32),
    ];
    let ips = vec![String::from("10.0.0.1"), String::from("10.0.0.2")];
    let json = render_active_flows("1700000000.5", &ips, &flows);
    assert_eq!(
        json,
        "{\n  \"timestamp\": 1700000000.5,\n  \"active_ips\": [\n    {\"ip\": \"10.0.0.1\", \"port\": 443, \"proto\": \"TCP\", \"rate\": 1234.5},\n    {\"ip\": \"10.0.0.2\", \"port\": 0, \"proto\": \"ICMP\", \"rate\": 0.7}\n  ]\n}"
    );
    let empty = render_active_flows("0", &vec![], &vec![]);
    assert_eq!(empty, "{\n  \"timestamp\": 0,\n  \"active_ips\": [\n\n  ]\n}");
}

#[test]
fn rates_read_as_tenths() {
    for count in [0_u32, 1, 9, 10, 11, 99, 100, 105, 999_999, 4_294_967_295] {
        let flows = vec![(Flow { ip: IpAddr::V4(0), port: 65535, protocol: 17 }, count)];
        let json = render_active_flows("0", &vec![String::from("x")], &flows);
        let expected = format!(
            "{{\n  \"timestamp\": 0,\n  \"active_ips\": [\n    {{\"ip\": \"{}\", \"port\": {}, \"proto\": \"{}\", \"rate\": {:.1}}}\n  ]\n}}",
            "x",
            65535,
            "UDP",
            count as f64 / 10.0
        );
        assert_eq!(json, expected);
    }
}

#[test]
fn protocols_by_number_and_name() {
    assert_eq!(Protocol::Tcp.number(), 6);
    assert_eq!(Protocol::Udp.number(), 17);
    assert_eq!(Protocol::Icmp.number(), 1);
    assert_eq!(Protocol::Other.number(), 0);
    assert_eq!(protocol_name(6), "TCP");
    assert_eq!(protocol_name(17), "UDP");
    assert_eq!(protocol_name(1), "ICMP");
    assert_eq!(protocol_name(0), "OTHER");
    assert_eq!(protocol_name(255), "OTHER");
}

#[test]
fn training_rows_have_the_columns_of_the_header() {
    let features: Vec<String> = (1..=9).map(|i| format!("{i}.5")).collect();
    let row = training_row(&features, 2);
    assert_eq!(row, "1.5,2.5,3.5,4.5,5.5,6.5,7.5,8.5,9.5,2");
    assert_eq!(row.split(',').count(), TRAINING_HEADER.split(',').count());
    assert_eq!(
        TRAINING_HEADER,
        "entropy,ewma_rate,mean_h,mean_r,sigma_h,sigma_r,proto_ratio,dominant_ip_ratio,timestamp,label"
    );
    assert_eq!(training_row(&vec![], 10), ",10");
}

#[test]
fn the_share_of_tcp_is_zero_without_tracked_packets() {
    let quotient = s(30.0 / 40.0);
    assert_eq!(f64::from_bits(tcp_share(40, quotient).bits), 0.75);
    let nothing = s(0.0 / 0.0);
    assert_eq!(f64::from_bits(tcp_share(0, nothing).bits), 0.0);
}

#[test]
fn a_configuration_can_be_cloned_and_shown() {
    let cfg = AnalysisConfig { train_csv: Some(String::from("rows.csv")), ..AnalysisConfig::default() };
    assert_eq!(format!("{:?}", cfg.clone()), format!("{:?}", cfg));
}
