use stabping::broadcast::{BroadcastError, Broadcaster};
use stabping::kinds::{Feed, Kind};
use stabping::options::Options;
use stabping::package::{build_package, dispatch, TimePackage, TimePackageError};
use stabping::reader::{first_at_least, read_range, serve_range, DataRequest, NODATA_BITS};
use stabping::sample::{decode_samples, encode_samples, Sample, NAN_BITS};
use stabping::error::{AugmentedFileError, ManagerError};
use stabping::worker::{plan_tick, ticks_between, Stopwatch};

fn s(t: u32, a: u32, v: f32) -> Sample {
    Sample::raw(t, a, v.to_bits())
}

fn words(b: &[u8]) -> Vec<u32> {
    assert_eq!(b.len() % 4, 0);
    b.chunks(4).map(|c| u32::from_le_bytes([c[0], c[1], c[2], c[3]])).collect()
}

fn opts(nonce: i32, addrs: Vec<u32>) -> Options {
    Options { nonce, addrs, interval: 10_000, avg_across: 3, pause: 100 }
}

#[test]
fn sample_bytes_are_little_endian() {
    let b = encode_samples(&[Sample { time_s: 0x0102_0304, addr_id: 5, value_bits: 0x3f80_0000, sd_bits: NAN_BITS }]);
    assert_eq!(
        b,
        vec![4, 3, 2, 1, 5, 0, 0, 0, 0, 0, 0x80, 0x3f, 0, 0, 0xc0, 0x7f]
    );
}

#[test]
fn samples_round_trip() {
    let v = vec![s(1, 0, 1.5), s(1, 1, f32::NAN), s(2, 0, 0.25), Sample { time_s: u32::MAX, addr_id: 9, value_bits: 1, sd_bits: 2 }];
    let b = encode_samples(&v);
    assert_eq!(b.len(), 64);
    let back = decode_samples(&b).ok().unwrap();
    assert_eq!(back, v);
    assert_eq!(decode_samples(&[]).ok().unwrap(), vec![]);
}

#[test]
fn log_of_odd_length_is_a_parse_error() {
    for n in [1usize, 15, 17, 31, 33] {
        let r = decode_samples(&vec![0u8; n]);
        assert!(matches!(r, Err(ManagerError::DataFileIO(AugmentedFileError::Parse(None)))));
    }
    for n in [0usize, 16, 32] {
        assert!(decode_samples(&vec![0u8; n]).is_ok());
    }
}

#[test]
fn binary_search_finds_run_edges() {
    let d = vec![s(1, 0, 0.0), s(3, 0, 0.0), s(3, 1, 0.0), s(3, 2, 0.0), s(5, 0, 0.0)];
    assert_eq!(first_at_least(&d, 3), 1);
    assert_eq!(first_at_least(&d, 4), 4);
    assert_eq!(first_at_least(&d, 0), 0);
    assert_eq!(first_at_least(&d, 6), 5);
    assert_eq!(first_at_least(&[], 6), 0);
}

#[test]
fn two_ticks_give_two_rows() {
    let mut log = Vec::new();
    for t in [100u32, 110] {
        let p = build_package(Kind::TcpPing, 0, t, &[0, 1], &[Some((t as f32).to_bits()), Some(2.5f32.to_bits())]).ok().unwrap();
        log.extend(dispatch(&p, 0).unwrap().log);
    }
    assert_eq!(log.len(), 2 * 2 * 16);
    let body = serve_range(&DataRequest { nonce: 0, lower: 100, upper: 110 }, &opts(0, vec![0, 1]), 2, &log).ok().unwrap();
    assert_eq!(
        words(&body),
        vec![100, 100f32.to_bits(), 2.5f32.to_bits(), 110, 110f32.to_bits(), 2.5f32.to_bits()]
    );
}

#[test]
fn missing_address_in_group_is_nodata() {
    let d = vec![s(10, 0, 1.0), s(20, 0, 2.0), s(20, 1, 3.0)];
    let body = read_range(&d, 0, 100, &[0, 1], 2);
    assert_eq!(words(&body), vec![10, 1f32.to_bits(), NODATA_BITS, 20, 2f32.to_bits(), 3f32.to_bits()]);
    assert_eq!(NODATA_BITS as i32, -2_000_000_000);
}

#[test]
fn unsubscribed_addresses_are_not_emitted() {
    let d = vec![s(10, 0, 1.0), s(10, 2, 9.0), s(10, 1, 4.0), s(11, 2, 9.0)];
    let body = read_range(&d, 10, 11, &[1], 3);
    assert_eq!(words(&body), vec![10, 4f32.to_bits(), 11, NODATA_BITS]);
}

#[test]
fn rows_follow_subscription_order() {
    let d = vec![s(7, 0, 1.0), s(7, 1, 2.0)];
    let body = read_range(&d, 7, 7, &[1, 0], 2);
    assert_eq!(words(&body), vec![7, 2f32.to_bits(), 1f32.to_bits()]);
}

#[test]
fn range_outside_log_is_empty() {
    let d = vec![s(10, 0, 1.0), s(20, 0, 2.0)];
    assert!(read_range(&d, 21, 30, &[0], 1).is_empty());
    assert!(read_range(&d, 0, 9, &[0], 1).is_empty());
    assert!(read_range(&d, 15, 12, &[0], 1).is_empty());
    assert_eq!(words(&read_range(&d, 11, 20, &[0], 1)), vec![20, 2f32.to_bits()]);
}

#[test]
fn stale_nonce_range_has_empty_body() {
    let log = encode_samples(&[s(1, 0, 1.0)]);
    let body = serve_range(&DataRequest { nonce: 4, lower: 0, upper: 9 }, &opts(5, vec![0]), 1, &log).ok().unwrap();
    assert!(body.is_empty());
}

#[test]
fn serve_range_reports_bad_log_and_addresses() {
    let r = serve_range(&DataRequest { nonce: 0, lower: 0, upper: 9 }, &opts(0, vec![0]), 1, &[0u8; 20]);
    assert!(matches!(r, Err(ManagerError::DataFileIO(AugmentedFileError::Parse(None)))));
    let r = serve_range(&DataRequest { nonce: 0, lower: 0, upper: 9 }, &opts(0, vec![3]), 1, &[]);
    assert!(matches!(r, Err(ManagerError::InvalidAddrArgument)));
}

#[test]
fn failed_measurement_is_nan() {
    let p = build_package(Kind::TcpPing, 1, 50, &[0, 1], &[None, Some(3.0f32.to_bits())]).ok().unwrap();
    let d = p.iter();
    assert!(f32::from_bits(d[0].value_bits).is_nan());
    assert!(f32::from_bits(d[0].sd_bits).is_nan());
    assert_eq!(d[1].value_bits, 3.0f32.to_bits());
    let back = decode_samples(&p.log_bytes()).ok().unwrap();
    assert!(f32::from_bits(back[0].value_bits).is_nan());
    assert!(f32::from_bits(back[0].sd_bits).is_nan());
}

#[test]
fn stale_package_is_dropped() {
    let p = build_package(Kind::TcpPing, 3, 100, &[0, 1], &[Some(1), Some(2)]).ok().unwrap();
    assert!(dispatch(&p, 4).is_none());
    let d = dispatch(&p, 3).unwrap();
    assert_eq!(d.log.len(), 32);
    assert_eq!(words(&d.frame), vec![0, 100, 1, 2]);
}

#[test]
fn package_refuses_mixed_times_and_duplicates() {
    let mut p = TimePackage::new(Kind::TcpPing, Feed::Raw, 0);
    assert!(p.to_wire().is_empty());
    assert!(p.insert(s(5, 0, 1.0)).is_ok());
    assert_eq!(p.insert(s(6, 1, 1.0)), Err(TimePackageError::IncompatibleTimes));
    assert_eq!(p.insert(s(5, 0, 2.0)), Err(TimePackageError::DuplicateEntryForIndex));
    assert!(p.insert(s(5, 1, 2.0)).is_ok());
    assert_eq!(p.time(), Some(5));
    assert_eq!(p.iter().len(), 2);
    let r = build_package(Kind::TcpPing, 0, 1, &[2, 2], &[]);
    assert!(matches!(r, Err(TimePackageError::DuplicateEntryForIndex)));
}

#[test]
fn missing_results_count_as_nan() {
    let p = build_package(Kind::TcpPing, 0, 9, &[4], &[]).ok().unwrap();
    assert_eq!(p.iter()[0].value_bits, NAN_BITS);
    assert_eq!(p.nonce(), 0);
    assert_eq!(p.kind(), Kind::TcpPing);
}

#[test]
fn broadcaster_without_sender_is_not_available() {
    let b = Broadcaster::new();
    assert!(!b.is_ready());
    assert!(matches!(b.send(vec![1, 2, 3]), Err(BroadcastError::SocketNotAvail)));
}

#[test]
fn tick_plan_snapshots_options() {
    let o = opts(8, vec![2, 0]);
    let p = plan_tick(&o, 1_500_000_000);
    assert_eq!((p.nonce, p.time_s, p.interval_ms), (8, 1_500_000_000, 10_000));
    assert_eq!(p.addrs, vec![2, 0]);
    assert_eq!(plan_tick(&o, -5).time_s, 0);
    assert_eq!(plan_tick(&o, i64::MAX).time_s, u32::MAX);
}

#[test]
fn elapsed_time_in_hundreds_of_nanoseconds() {
    assert_eq!(ticks_between(1_000, 2_345_678), 23_446);
    assert_eq!(ticks_between(500, 100), 0);
    let w = Stopwatch::start();
    assert!(w.elapsed_ticks() < 10_000_000_000);
}
