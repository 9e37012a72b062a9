use zk_oracles::config::{parse_unsigned, Config, ConfigError};
use zk_oracles::exchange::{own_oracle, StatusExchangeService, StatusService};
use zk_oracles::models::{OracleRequest, RequestReport};
use zk_oracles::status::{StatusMechanism, StatusState, StatusType};

fn config(entries: &[(&str, &str)]) -> Config {
    Config::new(entries.iter().map(|(k, v)| (k.to_string(), v.to_string())).collect())
}

#[test]
fn getters_read_their_keys() {
    let c = config(&[
        ("TYPE", "oracle"),
        ("ID", "7"),
        ("MONGO_URL", "mongodb://localhost:27017"),
        ("SERVER_PORT", "50051"),
        ("API_PORT", "8000"),
        ("CHAIN_ID", "31337"),
        ("CONFIRMATIONS", "1"),
        ("WAITING_INTERVAL", "3"),
        ("ORACLE_DOMAIN", "oracle0"),
    ]);
    assert_eq!(c.get_type(), Ok("oracle"));
    assert_eq!(c.get_id(), Ok(7));
    assert_eq!(c.get_name(), Ok("oracle_7".to_string()));
    assert_eq!(c.get_db_name(), Ok("oracle_7".to_string()));
    assert_eq!(c.get_mongo_url(), Ok("mongodb://localhost:27017"));
    assert_eq!(c.get_server_port(), Ok("50051"));
    assert_eq!(c.get_api_port(), Ok(8000));
    assert_eq!(c.get_chain_id(), Ok(31337));
    assert_eq!(c.get_confirmations(), Ok(1));
    assert_eq!(c.get_waiting_interval(), Ok(3));
    assert_eq!(c.get_oracle_domain(), Ok("oracle0"));
    assert_eq!(c.get_private_key(), Err(ConfigError::Missing("PRIVATE_KEY")));
}

#[test]
fn last_entry_of_a_key_counts() {
    let c = config(&[("ID", "1"), ("ID", "200")]);
    assert_eq!(c.get_id(), Ok(200));
}

#[test]
fn numbers_out_of_range_are_invalid() {
    let c = config(&[("ID", "256"), ("API_PORT", "-1"), ("CHAIN_ID", "18446744073709551616")]);
    assert_eq!(c.get_id(), Err(ConfigError::Invalid("ID")));
    assert_eq!(c.get_api_port(), Err(ConfigError::Invalid("API_PORT")));
    assert_eq!(c.get_chain_id(), Err(ConfigError::Invalid("CHAIN_ID")));
}

#[test]
fn decimal_parsing_matches_std() {
    for text in ["0", "+7", "255", "007", "", "+", "1a", "99999999999999999999", "18446744073709551615"] {
        assert_eq!(parse_unsigned(text, u64::MAX), text.parse::<u64>().ok(), "{}", text);
    }
    assert_eq!(parse_unsigned("300", 255), None);
}

#[test]
fn own_record_from_config() {
    let c = config(&[("ID", "2"), ("ORACLE_DOMAIN", "oracle2"), ("SERVER_PORT", "50051")]);
    let me = own_oracle(&c, "0xabc".to_string()).unwrap();
    assert_eq!(me.id, 2);
    assert_eq!(me.url, "http://oracle2:50051");
    assert_eq!(me.amount, 100);
    assert!(own_oracle(&config(&[("ID", "2")]), "0xabc".to_string()).is_err());
}

#[test]
fn fulfillment_message_carries_report() {
    let service = StatusExchangeService::new(config(&[("ID", "3")]));
    let mut s = StatusState::new(5, 9, StatusMechanism::BitStatusList, StatusType::Issuance);
    s.proof = Some("p".to_string());
    let report = RequestReport::new("abc".to_string(), 3, vec![s]);
    let message = service.fulfillment_message(&report).unwrap();
    assert_eq!(message.oracle_id, 3);
    assert_eq!(message.request_id, "abc");
    assert_eq!(message.statuses.len(), 1);
    assert_eq!(message.statuses[0].status_mechanism, 0);
    assert_eq!(message.statuses[0].status_type, 1);
    assert_eq!(message.statuses[0].proof, "p");
    assert_eq!(message.statuses[0].signature, "");
    let back = RequestReport::from_fulfillment(message.oracle_id, message.request_id.clone(), &message.statuses).unwrap();
    assert_eq!(back.statuses[0].proof, Some("p".to_string()));
    assert_eq!(back.statuses[0].signature, None);
    assert_eq!(back.statuses[0].time, 9);
}

#[test]
fn status_query_address() {
    let request = OracleRequest::new(
        "abc",
        "http://api:3000",
        &StatusState::new(1, 42, StatusMechanism::BitStatusList, StatusType::Revocation),
        StatusType::Revocation,
        StatusMechanism::BitStatusList,
        1,
        1,
        &vec![1],
        1,
    );
    assert_eq!(StatusService::new().status_url(&request), "http://api:3000/statuses/bsl/revocation?time=42");
}
