use zk_oracles::errors::OracleError;
use zk_oracles::models::{OracleRequest, RequestReport};
use zk_oracles::status::{StatusMechanism, StatusMessage, StatusState, StatusType};

fn message(mechanism: i32, status_type: i32) -> StatusMessage {
    StatusMessage {
        id: String::new(),
        time: 1,
        status_mechanism: mechanism,
        status_type,
        status: 1,
        proof: String::new(),
        signature: String::new(),
    }
}

#[test]
fn onchain_request_is_decoded() {
    let id = [0xabu8; 32];
    let request = OracleRequest::from_onchain(&id, "http://api".to_string(), 3, 0b01, 0, 2, 9, 50_000, vec![1, 2], 2).unwrap();
    assert_eq!(request.request_id, "ab".repeat(32));
    assert_eq!(request.status_mechanism, StatusMechanism::BitStatusList);
    assert_eq!(request.status_type, StatusType::Revocation);
    assert_eq!(request.last_status_state.time, 3);
    assert_eq!(request.last_status_state.status, 0b01);
    assert_eq!(request.aggregator_ids, vec![1, 2]);
}

#[test]
fn unknown_codes_are_validation_errors() {
    let id = [0u8; 32];
    assert!(matches!(
        OracleRequest::from_onchain(&id, String::new(), 0, 0, 2, 1, 0, 0, vec![], 1),
        Err(OracleError::InvalidStatusMechanism(2))
    ));
    assert!(matches!(
        OracleRequest::from_onchain(&id, String::new(), 0, 0, 1, 0, 0, 0, vec![], 1),
        Err(OracleError::InvalidStatusType(0))
    ));
    assert!(matches!(StatusMechanism::from_code(1), Ok(StatusMechanism::MerkleTree)));
    assert!(matches!(StatusType::from_code(3), Err(OracleError::InvalidStatusType(3))));
}

#[test]
fn peer_report_is_checked() {
    assert!(matches!(
        RequestReport::from_fulfillment(300, "r".to_string(), &vec![message(0, 1)]),
        Err(OracleError::InvalidOracleId(300))
    ));
    assert!(matches!(
        RequestReport::from_fulfillment(1, "r".to_string(), &vec![message(0, 1), message(5, 1)]),
        Err(OracleError::InvalidStatusMechanism(5))
    ));
    let report = RequestReport::from_fulfillment(1, "r".to_string(), &vec![message(1, 2)]).unwrap();
    assert_eq!(report.oracle_id, 1);
    assert_eq!(report.statuses[0].status_mechanism, StatusMechanism::MerkleTree);
}

#[test]
fn mechanism_indices_and_bits() {
    assert_eq!(StatusMechanism::count(), 2);
    assert_eq!(StatusMechanism::BitStatusList.as_index(), 0);
    assert_eq!(StatusMechanism::MerkleTree.as_index(), 1);
    let mut s = StatusState::get_initial_status(StatusMechanism::BitStatusList, StatusType::Issuance);
    s.update_index_status(0);
    s.update_index_status(63);
    assert_eq!(s.status, 1 | (1 << 63));
    assert_eq!(StatusState::get_sample_status().status_type, StatusType::Revocation);
}
