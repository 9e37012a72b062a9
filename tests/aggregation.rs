use zk_oracles::errors::OracleError;
use zk_oracles::manager::{prepare_last_status_fulfillment, select_latest_status, OracleManagerService};
use zk_oracles::models::{Oracle, OracleRequest, RequestReport};
use zk_oracles::status::{StatusMechanism, StatusState, StatusType};

const REQUEST_ID: &str = "0000000000000000000000000000000000000000000000000000000000000001";

fn state(time: u64, status: u64) -> StatusState {
    StatusState::new(status, time, StatusMechanism::BitStatusList, StatusType::Revocation)
}

fn node(id: u8) -> OracleManagerService {
    OracleManagerService::new(Oracle::new(id, format!("0x{:040x}", id), format!("http://oracle{}:50051", id), 100))
}

fn request(aggregators: Vec<u8>, agreements: u8, last: StatusState) -> OracleRequest {
    OracleRequest::new(
        REQUEST_ID,
        "http://api",
        &last,
        StatusType::Revocation,
        StatusMechanism::BitStatusList,
        7,
        300_000,
        &aggregators,
        agreements,
    )
}

fn expected_response(time: u64, status: u64) -> Vec<u8> {
    let mut blob = vec![0u8; 64];
    blob[24..32].copy_from_slice(&time.to_be_bytes());
    blob[56..64].copy_from_slice(&status.to_be_bytes());
    blob
}

#[test]
fn two_oracles_two_aggregators_submit_once() {
    let mut one = node(1);
    let mut two = node(2);
    let last = state(0, 0b00);
    let report_one = one.handle_new_request(request(vec![1, 2], 2, last.duplicate()), vec![state(1, 0b01)]).unwrap();
    let report_two = two.handle_new_request(request(vec![1, 2], 2, last.duplicate()), vec![state(1, 0b01)]).unwrap();
    assert_eq!(report_one.oracle_id, 1);
    assert_eq!(report_two.oracle_id, 2);

    // each aggregator gets both reports, in its own order, one of them twice
    let orders = [
        vec![&report_one, &report_two, &report_one],
        vec![&report_one, &report_two, &report_two],
    ];
    for (aggregator, order) in [&mut one, &mut two].into_iter().zip(orders.iter()) {
        let mut submitted = Vec::new();
        for report in order {
            if let Some(f) = aggregator.fulfill_request(report.duplicate()).unwrap() {
                submitted.push(f);
            }
        }
        assert_eq!(submitted.len(), 1);
        let f = &submitted[0];
        assert_eq!((f.time, f.status), (1, 0b01));
        let mut id = vec![0u8; 32];
        id[31] = 1;
        assert_eq!(f.request_id, id);
        assert_eq!(f.response, expected_response(1, 0b01));
    }
}

#[test]
fn threshold_reached_only_at_last_distinct_oracle() {
    // the aggregator's own report counts as the first of three
    let mut aggregator = node(1);
    aggregator.handle_new_request(request(vec![1], 3, state(0, 0)), vec![state(1, 1)]).unwrap();
    assert!(aggregator.check_reports(REQUEST_ID, StatusMechanism::BitStatusList).unwrap().is_none());
    let mut submissions = 0;
    for oracle_id in [4u8, 5, 4, 5] {
        let report = RequestReport::new(REQUEST_ID.to_string(), oracle_id, vec![state(oracle_id as u64, 1)]);
        if let Some(f) = aggregator.fulfill_request(report).unwrap() {
            submissions += 1;
            assert_eq!(oracle_id, 5);
            assert_eq!((f.time, f.status), (5, 1));
        }
    }
    assert_eq!(submissions, 1);
}

#[test]
fn peer_reports_before_the_request_still_count() {
    // oracles 2 and 3 report to aggregator 1 before it has stored the request
    let mut aggregator = node(1);
    for oracle_id in [2u8, 3] {
        let report = RequestReport::new(REQUEST_ID.to_string(), oracle_id, vec![state(1, 0b01)]);
        assert!(matches!(aggregator.fulfill_request(report), Err(OracleError::RequestNotFound)));
    }
    let own = aggregator.handle_new_request(request(vec![1], 2, state(0, 0)), vec![state(1, 0b01)]).unwrap();
    let f = aggregator.check_reports(REQUEST_ID, StatusMechanism::BitStatusList).unwrap().unwrap();
    assert_eq!((f.time, f.status), (1, 0b01));
    // delivering its own report to itself hands out no second fulfilment
    assert!(aggregator.fulfill_request(own).unwrap().is_none());
    assert!(aggregator.check_reports(REQUEST_ID, StatusMechanism::BitStatusList).unwrap().is_none());
}

#[test]
fn released_fulfilment_is_handed_out_again() {
    let mut aggregator = node(1);
    aggregator.handle_new_request(request(vec![1], 1, state(0, 0)), vec![state(2, 0b11)]).unwrap();
    assert!(aggregator.check_reports(REQUEST_ID, StatusMechanism::BitStatusList).unwrap().is_some());
    assert!(aggregator.check_reports(REQUEST_ID, StatusMechanism::BitStatusList).unwrap().is_none());
    aggregator.release_fulfillment(REQUEST_ID, StatusMechanism::BitStatusList);
    let again = aggregator.check_reports(REQUEST_ID, StatusMechanism::BitStatusList).unwrap().unwrap();
    assert_eq!((again.time, again.status), (2, 0b11));
}

#[test]
fn empty_fetch_is_an_error() {
    let mut aggregator = node(1);
    let outcome = aggregator.handle_new_request(request(vec![1], 1, state(0, 0)), Vec::new());
    assert!(matches!(outcome, Err(OracleError::EmptyStatuses)));
}

#[test]
fn regression_in_fetch_aborts_intake() {
    let mut aggregator = node(1);
    let outcome = aggregator.handle_new_request(request(vec![1], 1, state(3, 0b01)), vec![state(5, 0b00)]);
    assert!(matches!(outcome, Err(OracleError::StatusBitCleared)));
    assert_eq!(aggregator.reports.get_num_reports_by_request_id(REQUEST_ID, StatusMechanism::BitStatusList), 0);
}

#[test]
fn intake_sorts_and_stores_own_report() {
    let mut aggregator = node(3);
    let report = aggregator
        .handle_new_request(request(vec![1, 2], 2, state(0, 0)), vec![state(4, 0b11), state(2, 0b01)])
        .unwrap();
    let times: Vec<u64> = report.statuses.iter().map(|s| s.time).collect();
    assert_eq!(times, vec![2, 4]);
    assert_eq!(aggregator.reports.get_num_reports_by_request_id(REQUEST_ID, StatusMechanism::BitStatusList), 1);
    // not an aggregator of this request: the request is not kept
    assert!(aggregator.requests.find_one(REQUEST_ID, StatusMechanism::BitStatusList).is_none());
}

#[test]
fn report_for_unknown_request_is_an_error() {
    let mut aggregator = node(1);
    let report = RequestReport::new(REQUEST_ID.to_string(), 2, vec![state(1, 1)]);
    assert!(matches!(aggregator.fulfill_request(report), Err(OracleError::RequestNotFound)));
    let empty = RequestReport::new(REQUEST_ID.to_string(), 2, Vec::new());
    assert!(matches!(aggregator.fulfill_request(empty), Err(OracleError::EmptyReport)));
}

#[test]
fn latest_status_is_chosen_by_time() {
    let reports = vec![
        RequestReport::new(REQUEST_ID.to_string(), 1, vec![state(1, 1), state(9, 3)]),
        RequestReport::new(REQUEST_ID.to_string(), 2, vec![state(4, 1)]),
        RequestReport::new(REQUEST_ID.to_string(), 3, vec![state(9, 7)]),
    ];
    assert_eq!(select_latest_status(&reports), (9, 7));
    // a later status is found wherever it stands in a report
    let unsorted = vec![
        RequestReport::new(REQUEST_ID.to_string(), 1, vec![state(9, 5), state(2, 1)]),
        RequestReport::new(REQUEST_ID.to_string(), 2, vec![state(4, 1)]),
    ];
    assert_eq!(select_latest_status(&unsorted), (9, 5));
    let f = prepare_last_status_fulfillment(REQUEST_ID, &reports).unwrap();
    assert_eq!(f.response, expected_response(9, 7));
    assert!(matches!(prepare_last_status_fulfillment("xyz", &reports), Err(OracleError::InvalidRequestId)));
}

#[test]
fn registration_check_compares_whole_record() {
    let me = node(1);
    let same = Oracle::new(1, format!("0x{:040x}", 1), "http://oracle1:50051".to_string(), 100);
    let other = Oracle::new(1, format!("0x{:040x}", 1), "http://oracle1:50052".to_string(), 100);
    assert!(me.is_this_oracle_registered(&Some(same)));
    assert!(!me.is_this_oracle_registered(&Some(other)));
    assert!(!me.is_this_oracle_registered(&None));
}
