use zk_oracles::errors::OracleError;
use zk_oracles::status::{StatusMechanism, StatusState, StatusType};
use zk_oracles::validation::{is_valid_transition, sort_by_time, validate_statuses};

fn state(time: u64, status: u64) -> StatusState {
    StatusState::new(status, time, StatusMechanism::BitStatusList, StatusType::Revocation)
}

#[test]
fn consecutive_statuses_keep_bits() {
    assert!(is_valid_transition(1, 0b01, 2, 0b11));
    assert!(is_valid_transition(1, 0b01, 1, 0b01));
}

#[test]
fn consecutive_statuses_fail_on_cleared_bit_or_earlier_time() {
    assert!(!is_valid_transition(1, 0b01, 2, 0b10));
    assert!(!is_valid_transition(3, 0b01, 2, 0b01));
}

#[test]
fn regression_bit_cleared_is_rejected() {
    let last = state(3, 0b01);
    let fetched = vec![state(5, 0b00)];
    assert_eq!(validate_statuses(&last, &fetched), Err(OracleError::StatusBitCleared));
}

#[test]
fn earlier_time_is_rejected() {
    let last = state(3, 0b01);
    let fetched = vec![state(2, 0b01)];
    assert_eq!(validate_statuses(&last, &fetched), Err(OracleError::StatusesNotSortedByTime));
}

#[test]
fn valid_chain_passes() {
    let last = state(0, 0);
    let fetched = vec![state(1, 0b01), state(2, 0b011), state(2, 0b111)];
    assert_eq!(validate_statuses(&last, &fetched), Ok(()));
}

#[test]
fn sort_orders_by_time_and_keeps_all() {
    let sorted = sort_by_time(vec![state(5, 4), state(1, 1), state(3, 2), state(1, 7)]);
    let times: Vec<u64> = sorted.iter().map(|s| s.time).collect();
    let bits: Vec<u64> = sorted.iter().map(|s| s.status).collect();
    assert_eq!(times, vec![1, 1, 3, 5]);
    assert_eq!(bits, vec![1, 7, 2, 4]);
}

#[test]
fn sort_of_empty_is_empty() {
    assert!(sort_by_time(Vec::new()).is_empty());
}
