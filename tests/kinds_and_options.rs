use stabping::api::{decimal_text, put_options, range_request_status, ws_port_body, STATUS_BAD_REQUEST, STATUS_CONFLICT, STATUS_OK};
use stabping::error::{AugmentedFileError, ManagerError};
use stabping::kinds::{all_kinds, all_target_kinds, Kind, MainConfiguration, TargetKind};
use stabping::manager::SPWebError;
use stabping::options::{next_nonce, Options};
use stabping::reader::DataRequest;

fn opts(nonce: i32, addrs: Vec<u32>) -> Options {
    Options { nonce, addrs, interval: 10_000, avg_across: 3, pause: 100 }
}

#[test]
fn ensure_kind_id_and_all_kinds_order_match() {
    for (i, k) in all_target_kinds().iter().enumerate() {
        assert!(i as i32 == k.kind_id());
    }
}

#[test]
fn kinds_have_dense_ids_and_names() {
    for (i, k) in all_kinds().iter().enumerate() {
        assert_eq!(i as u32, k.id());
    }
    assert_eq!(Kind::TcpPing.name(), "tcpping");
    assert_eq!(Kind::TcpPing.default_options_bootstrap(), ("google.com:80", 10_000));
    assert_eq!(Kind::from_id(0), Some(Kind::TcpPing));
    assert_eq!(Kind::from_id(1), None);
    assert_eq!(TargetKind::TcpPing.compact_name(), "tcpping");
    assert_eq!(TargetKind::HttpDownload.compact_name(), "httpdownload");
    assert_eq!(TargetKind::HttpDownload.kind_id(), 1);
}

#[test]
fn default_options_match_fresh_probe() {
    let o = Kind::TcpPing.default_options(0);
    assert_eq!(o.nonce, 0);
    assert_eq!(o.addrs, vec![0]);
    assert_eq!(o.interval, 10_000);
    assert_eq!(o.avg_across, 3);
    assert_eq!(o.pause, 100);
    let t = TargetKind::TcpPing.default_options();
    assert_eq!(t.addrs, vec![0]);
    let c = MainConfiguration::default();
    assert_eq!((c.web_port, c.ws_port), (5001, 5002));
}

#[test]
fn nonce_advances_and_wraps() {
    assert_eq!(next_nonce(0), 1);
    assert_eq!(next_nonce(41), 42);
    assert_eq!(next_nonce(-1), 0);
    assert_eq!(next_nonce(i32::MAX), 0);
}

#[test]
fn update_with_current_nonce_advances_it() {
    let mut cur = opts(3, vec![0, 1]);
    let r = cur.update(opts(3, vec![0]), 2);
    assert!(matches!(r, Ok(4)));
    assert_eq!(cur.nonce, 4);
    assert_eq!(cur.addrs, vec![0]);
}

#[test]
fn update_at_max_nonce_wraps_to_zero() {
    let mut cur = opts(i32::MAX, vec![0]);
    let r = cur.update(opts(i32::MAX, vec![0]), 1);
    assert!(matches!(r, Ok(0)));
    assert_eq!(cur.nonce, 0);
}

#[test]
fn update_with_stale_nonce_changes_nothing() {
    let mut cur = opts(5, vec![0, 1]);
    let r = cur.update(opts(4, vec![1]), 2);
    assert!(matches!(r, Err(ManagerError::NonceConflict)));
    assert_eq!(cur.nonce, 5);
    assert_eq!(cur.addrs, vec![0, 1]);
}

#[test]
fn update_with_unknown_address_is_refused() {
    let mut cur = opts(0, vec![0]);
    let r = cur.update(opts(0, vec![0, 7]), 2);
    assert!(matches!(r, Err(ManagerError::InvalidAddrArgument)));
    assert_eq!(cur.nonce, 0);
    assert_eq!(cur.addrs, vec![0]);
}

#[test]
fn put_with_matching_nonce_answers_new_nonce() {
    let mut cur = opts(0, vec![0]);
    let reply = put_options(&mut cur, opts(0, vec![0]), 1);
    assert_eq!(reply.status, STATUS_OK);
    assert_eq!(reply.body, "1");
    assert_eq!(cur.nonce, 1);
}

#[test]
fn put_with_stale_nonce_conflicts() {
    let mut cur = opts(2, vec![0]);
    let reply = put_options(&mut cur, opts(1, vec![0]), 1);
    assert_eq!(reply.status, STATUS_CONFLICT);
    assert_eq!(reply.body, "");
    assert_eq!(cur.nonce, 2);
}

#[test]
fn put_with_unknown_address_is_bad_request() {
    let mut cur = opts(0, vec![0]);
    let reply = put_options(&mut cur, opts(0, vec![3]), 1);
    assert_eq!(reply.status, STATUS_BAD_REQUEST);
    assert_eq!(cur.addrs, vec![0]);
}

#[test]
fn range_request_with_previous_nonce_is_refused() {
    let req = DataRequest { nonce: 6, lower: 0, upper: 10 };
    assert_eq!(range_request_status(&req, 7), STATUS_BAD_REQUEST);
    assert_eq!(range_request_status(&req, 6), STATUS_OK);
}

#[test]
fn decimal_text_of_integers() {
    assert_eq!(decimal_text(0), "0");
    assert_eq!(decimal_text(7), "7");
    assert_eq!(decimal_text(1234), "1234");
    assert_eq!(decimal_text(-45), "-45");
    assert_eq!(decimal_text(i32::MAX), "2147483647");
    assert_eq!(decimal_text(i32::MIN), "-2147483648");
    let c = MainConfiguration { web_port: 80, ws_port: 5002 };
    assert_eq!(ws_port_body(&c), "5002");
}

#[test]
fn error_messages_name_operation_path_and_file() {
    let e = AugmentedFileError::Open(Some("/data/tcpping.index.txt".to_owned()));
    assert_eq!(e.description(), "Unable to open '/data/tcpping.index.txt'");
    assert_eq!(AugmentedFileError::Metadata(None).description(), "Unable to get metadata ''");
    assert_eq!(
        ManagerError::DataFileIO(AugmentedFileError::Parse(None)).description(),
        "Unable to parse '' data file"
    );
    assert_eq!(
        ManagerError::IndexFileIO(AugmentedFileError::Write(None)).description(),
        "Unable to write '' index file"
    );
    assert_eq!(
        ManagerError::OptionsFileIO(AugmentedFileError::Read(Some("o.json".to_owned()))).description(),
        "Unable to read 'o.json' options file"
    );
    assert_eq!(ManagerError::InvalidAddrArgument.description(), "invalid addr argument");
    assert_eq!(ManagerError::NonceConflict.description(), "nonce conflict");
}

#[test]
fn web_errors_map_to_statuses() {
    assert_eq!(SPWebError::NonceConflict.status(), 409);
    assert_eq!(SPWebError::BadRequest.status(), 400);
    assert_eq!(SPWebError::NotFound.status(), 404);
    assert_eq!(SPWebError::from_manager(&ManagerError::NonceConflict), SPWebError::NonceConflict);
    assert_eq!(SPWebError::from_manager(&ManagerError::InvalidAddrArgument), SPWebError::BadRequest);
    assert_eq!(
        SPWebError::from_manager(&ManagerError::OptionsFileIO(AugmentedFileError::Write(None))),
        SPWebError::ServerError
    );
}
