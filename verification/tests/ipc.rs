use byteorder::LittleEndian;
use byteorder::ReadBytesExt;
use ddos_stage1::address::IpAddr;
use ddos_stage1::analysis::TRAINING_HEADER;
use ddos_stage1::ipc::ConnectStep;
use ddos_stage1::ipc::FeatureVector;
use ddos_stage1::ipc::IpcSocket;
use ddos_stage1::ipc::Report;
use ddos_stage1::ipc::SendStep;
use ddos_stage1::ipc::FEATURE_VECTOR_BYTES;
use ddos_stage1::ipc::FLAG_ENTROPY_ANOMALY;
use ddos_stage1::ipc::FLAG_RATE_ANOMALY;
use ddos_stage1::ipc::REPORT_BYTES;
use ddos_stage1::scalar::Scalar;
use std::io::Cursor;

fn s(x: f64) -> Scalar {
    Scalar::from_bits(x.to_bits())
}

fn sample_fv() -> FeatureVector {
    FeatureVector {
        entropy: s(4.321),
        ewma_rate: s(1234.5),
        mean_h: s(4.800),
        mean_r: s(900.0),
        sigma_h: s(0.250),
        sigma_r: s(120.0),
        proto_ratio: s(0.72),
        dominant_ip_ratio: s(0.66),
        timestamp: s(1_700_000_000.0),
    }
}

#[test]
fn serialised_size_is_correct() {
    let bytes = sample_fv().to_bytes();
    assert_eq!(bytes.len(), FEATURE_VECTOR_BYTES);
    assert_eq!(FEATURE_VECTOR_BYTES, 72);
}

#[test]
fn round_trip_byte_layout() {
    let fv = sample_fv();
    let bytes = fv.to_bytes();
    let mut cur = Cursor::new(bytes);

    let entropy = cur.read_f64::<LittleEndian>().unwrap();
    let ewma_rate = cur.read_f64::<LittleEndian>().unwrap();
    let mean_h = cur.read_f64::<LittleEndian>().unwrap();
    let mean_r = cur.read_f64::<LittleEndian>().unwrap();
    let sigma_h = cur.read_f64::<LittleEndian>().unwrap();
    let sigma_r = cur.read_f64::<LittleEndian>().unwrap();
    let proto_ratio = cur.read_f64::<LittleEndian>().unwrap();
    let dominant_ip_ratio = cur.read_f64::<LittleEndian>().unwrap();
    let timestamp = cur.read_f64::<LittleEndian>().unwrap();

    assert!((entropy - 4.321).abs() < 1e-9);
    assert!((ewma_rate - 1234.5).abs() < 1e-9);
    assert!((mean_h - 4.800).abs() < 1e-9);
    assert!((mean_r - 900.0).abs() < 1e-9);
    assert!((sigma_h - 0.250).abs() < 1e-9);
    assert!((sigma_r - 120.0).abs() < 1e-9);
    assert!((proto_ratio - 0.72).abs() < 1e-9);
    assert!((dominant_ip_ratio - 0.66).abs() < 1e-9);
    assert!((timestamp - 1_700_000_000.0).abs() < 1e-3);
}

#[test]
fn flag_constants_are_disjoint() {
    assert_ne!(FLAG_RATE_ANOMALY & FLAG_ENTROPY_ANOMALY, 0xFF);
    assert_eq!(FLAG_RATE_ANOMALY & FLAG_ENTROPY_ANOMALY, 0x00);
}

#[test]
fn numbers_are_least_significant_byte_first() {
    let mut fv = sample_fv();
    fv.entropy = Scalar::from_bits(0x0102_0304_0506_0708);
    fv.timestamp = Scalar::from_bits(0xF0E0_D0C0_B0A0_9080);
    let bytes = fv.to_bytes();
    assert_eq!(bytes[0..8], [8, 7, 6, 5, 4, 3, 2, 1]);
    assert_eq!(bytes[64..72], [0x80, 0x90, 0xA0, 0xB0, 0xC0, 0xD0, 0xE0, 0xF0]);
}

#[test]
fn report_ends_with_the_address() {
    let four = Report { features: sample_fv(), dominant_ip: IpAddr::from_octets(10, 0, 0, 3) };
    let bytes = four.to_bytes();
    assert_eq!(bytes.len(), REPORT_BYTES);
    assert_eq!(REPORT_BYTES, 88);
    assert_eq!(bytes[0..72], sample_fv().to_bytes());
    assert_eq!(bytes[72..88], [0, 0, 0, 0, 0, 0, 0, 0, 0, 0, 0xFF, 0xFF, 10, 0, 0, 3]);

    let six = Report {
        features: sample_fv(),
        dominant_ip: IpAddr::V6(0x2001_0DB8_0000_0000_0000_0000_0000_0001),
    };
    let bytes = six.to_bytes();
    assert_eq!(bytes[72..88], [0x20, 0x01, 0x0D, 0xB8, 0, 0, 0, 0, 0, 0, 0, 0, 0, 0, 0, 1]);
}

#[test]
fn socket_starts_unconnected_at_its_path() {
    let socket = IpcSocket::new();
    assert_eq!(socket.socket_path(), "/tmp/ddos_stage1.sock");
    assert!(!socket.is_connected());
    assert_eq!(IpcSocket::default().socket_path(), "/tmp/ddos_stage1.sock");
    let other = IpcSocket::with_path(String::from("/run/gateway/stage2.sock"));
    assert_eq!(other.socket_path(), "/run/gateway/stage2.sock");
    assert_eq!(other.ensure_connected(), ConnectStep::Connect);
}

#[test]
fn failed_connect_is_tried_again() {
    let mut socket = IpcSocket::new();
    assert!(!socket.connect_done(false));
    assert_eq!(socket.ensure_connected(), ConnectStep::Connect);
    assert!(socket.connect_done(true));
    assert_eq!(socket.ensure_connected(), ConnectStep::Ready);
}

#[test]
fn failed_write_drops_the_connection() {
    let mut socket = IpcSocket::new();
    assert!(matches!(socket.send(&sample_fv()), SendStep::Connect));
    socket.connect_done(true);
    match socket.send(&sample_fv()) {
        SendStep::Write(bytes) => assert_eq!(bytes, sample_fv().to_bytes().to_vec()),
        SendStep::Connect => panic!("there is a connection"),
    }
    assert!(socket.write_done(true));
    assert!(socket.is_connected());
    let report = Report { features: sample_fv(), dominant_ip: IpAddr::V4(7) };
    match socket.send_report(&report) {
        SendStep::Write(bytes) => assert_eq!(bytes, report.to_bytes().to_vec()),
        SendStep::Connect => panic!("there is a connection"),
    }
    assert!(!socket.write_done(false));
    assert_eq!(socket.ensure_connected(), ConnectStep::Connect);
    assert!(matches!(socket.send_report(&report), SendStep::Connect));
}

#[test]
fn values_stand_in_the_order_of_the_training_header() {
    let fv = sample_fv();
    let columns: Vec<&str> = TRAINING_HEADER.split(',').collect();
    let shown: Vec<Scalar> = columns
        .iter()
        .take(9)
        .map(|name| match *name {
            "entropy" => fv.entropy,
            "ewma_rate" => fv.ewma_rate,
            "mean_h" => fv.mean_h,
            "mean_r" => fv.mean_r,
            "sigma_h" => fv.sigma_h,
            "sigma_r" => fv.sigma_r,
            "proto_ratio" => fv.proto_ratio,
            "dominant_ip_ratio" => fv.dominant_ip_ratio,
            "timestamp" => fv.timestamp,
            other => panic!("no such feature: {other}"),
        })
        .collect();
    assert_eq!(fv.values().to_vec(), shown);
    assert_eq!(columns[9], "label");
}
