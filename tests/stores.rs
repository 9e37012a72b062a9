use zk_oracles::errors::OracleError;
use zk_oracles::models::{OracleRequest, RequestReport};
use zk_oracles::status::{StatusMechanism, StatusState, StatusType};
use zk_oracles::stores::{OracleRequestService, RequestReportService};

fn state(time: u64, status: u64) -> StatusState {
    StatusState::new(status, time, StatusMechanism::BitStatusList, StatusType::Revocation)
}

fn report(request_id: &str, oracle_id: u8, statuses: Vec<StatusState>) -> RequestReport {
    RequestReport::new(request_id.to_string(), oracle_id, statuses)
}

#[test]
fn same_report_twice_is_stored_once() {
    let mut store = RequestReportService::new();
    store.insert_or_update(report("r1", 1, vec![state(1, 1)])).unwrap();
    store.insert_or_update(report("r1", 1, vec![state(2, 3)])).unwrap();
    assert_eq!(store.get_num_reports_by_request_id("r1", StatusMechanism::BitStatusList), 1);
    let stored = store.get_reports_by_request_id("r1", StatusMechanism::BitStatusList);
    assert_eq!(stored.len(), 1);
    assert_eq!(stored[0].statuses[0].time, 2);
    assert_eq!(stored[0].statuses[0].status, 3);
}

#[test]
fn overwrite_keeps_the_stored_id() {
    let mut store = RequestReportService::new();
    let mut first = report("r1", 1, vec![state(1, 1)]);
    first.id = Some("65f0c0ffee".to_string());
    store.insert_one(first).unwrap();
    store.update_one(report("r1", 1, vec![state(2, 3)])).unwrap();
    store.insert_or_update(report("r1", 1, vec![state(3, 7)])).unwrap();
    let stored = store.get_reports_by_request_id("r1", StatusMechanism::BitStatusList);
    assert_eq!(stored.len(), 1);
    assert_eq!(stored[0].id, Some("65f0c0ffee".to_string()));
    assert_eq!(stored[0].statuses[0].status, 7);
}

#[test]
fn reports_are_counted_per_request_and_mechanism() {
    let mut store = RequestReportService::new();
    store.insert_or_update(report("r1", 1, vec![state(1, 1)])).unwrap();
    store.insert_or_update(report("r1", 2, vec![state(1, 1)])).unwrap();
    store.insert_or_update(report("r2", 1, vec![state(1, 1)])).unwrap();
    assert_eq!(store.get_num_reports_by_request_id("r1", StatusMechanism::BitStatusList), 2);
    assert_eq!(store.get_num_reports_by_request_id("r1", StatusMechanism::MerkleTree), 0);
    assert!(store.is_existed("r2", 1, StatusMechanism::BitStatusList));
    assert!(!store.is_existed("r2", 2, StatusMechanism::BitStatusList));
}

#[test]
fn report_store_errors() {
    let mut store = RequestReportService::new();
    assert_eq!(store.insert_or_update(report("r1", 1, vec![])), Err(OracleError::EmptyReport));
    assert_eq!(store.update_one(report("r1", 1, vec![state(1, 1)])), Err(OracleError::ReportNotFound));
    store.insert_one(report("r1", 1, vec![state(1, 1)])).unwrap();
    assert_eq!(store.insert_one(report("r1", 1, vec![state(2, 1)])), Err(OracleError::ReportAlreadyExists));
    store.update_one(report("r1", 1, vec![state(4, 1)])).unwrap();
    let found = store.find_one(&report("r1", 1, vec![state(0, 0)])).unwrap().unwrap();
    assert_eq!(found.statuses[0].time, 4);
    assert!(store.find_one(&report("r9", 1, vec![state(0, 0)])).unwrap().is_none());
}

fn request(request_id: &str, aggregators: Vec<u8>, agreements: u8) -> OracleRequest {
    OracleRequest::new(
        request_id,
        "http://api",
        &state(0, 0),
        StatusType::Revocation,
        StatusMechanism::BitStatusList,
        1,
        100_000,
        &aggregators,
        agreements,
    )
}

#[test]
fn request_is_stored_once() {
    let mut store = OracleRequestService::new();
    assert!(store.insert_one(request("r1", vec![1], 2)));
    assert!(!store.insert_one(request("r1", vec![1], 5)));
    let found = store.find_one("r1", StatusMechanism::BitStatusList).unwrap();
    assert_eq!(found.num_agreements, 2);
    assert!(store.find_one("r1", StatusMechanism::MerkleTree).is_none());
    assert!(store.is_existed(&request("r1", vec![], 0)));
    assert!(!store.is_fulfilled("r1", StatusMechanism::BitStatusList));
    store.mark_fulfilled("r1", StatusMechanism::BitStatusList);
    assert!(store.is_fulfilled("r1", StatusMechanism::BitStatusList));
    assert!(!store.is_fulfilled("r1", StatusMechanism::MerkleTree));
    store.release_fulfilled("r1", StatusMechanism::BitStatusList);
    assert!(!store.is_fulfilled("r1", StatusMechanism::BitStatusList));
}
