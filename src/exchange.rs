use vstd::prelude::*;

use crate::config::{append_decimal, decimal_text, parsed_unsigned, value_in, Config, ConfigError};
use crate::models::{Oracle, OracleRequest, RequestReport};
use crate::status::{mechanism_code, text_or_empty, type_code, StatusMechanism, StatusMessage, StatusType};

verus! {

/// A report as sent to an aggregator over the report exchange.
pub struct RequestFulfillment {
    pub oracle_id: u32,
    pub request_id: String,
    pub statuses: Vec<StatusMessage>,
}

/// The message carries the state, field by field.
pub open spec fn message_of(m: StatusMessage, s: crate::status::StatusState) -> bool {
    &&& m.id@ == text_or_empty(s.id)
    &&& m.time == s.time
    &&& m.status_mechanism as int == mechanism_code(s.status_mechanism)
    &&& m.status_type as int == type_code(s.status_type)
    &&& m.status == s.status
    &&& m.proof@ == text_or_empty(s.proof)
    &&& m.signature@ == text_or_empty(s.signature)
}

/// The sending side of the report exchange.
pub struct StatusExchangeService {
    config: Config,
}

impl StatusExchangeService {
    pub fn new(config: Config) -> (r: StatusExchangeService)
        ensures
            r.config() == config,
    {
        StatusExchangeService { config }
    }

    pub closed spec fn config(&self) -> Config {
        self.config
    }

    /// The message that delivers `report` to an aggregator, in this node's name.
    pub fn fulfillment_message(&self, report: &RequestReport) -> (r: Result<
        RequestFulfillment,
        ConfigError,
    >)
        ensures
            r is Ok <==> value_in(self.config()@, "ID"@) is Some && parsed_unsigned(
                value_in(self.config()@, "ID"@)->Some_0,
                0xff,
            ) is Some,
            r is Ok ==> {
                let f = r->Ok_0;
                &&& f.oracle_id as nat == parsed_unsigned(
                    value_in(self.config()@, "ID"@)->Some_0,
                    0xff,
                )->Some_0
                &&& f.request_id == report.request_id
                &&& f.statuses@.len() == report.statuses@.len()
                &&& forall|i: int|
                    0 <= i < report.statuses@.len() ==> message_of(
                        #[trigger] f.statuses@[i],
                        report.statuses@[i],
                    )
            },
    {
        let id = match self.config.get_id() {
            Ok(id) => id,
            Err(e) => return Err(e),
        };
        let mut statuses: Vec<StatusMessage> = Vec::new();
        let mut i: usize = 0;
        while i < report.statuses.len()
            invariant
                i <= report.statuses@.len(),
                statuses@.len() == i,
                forall|j: int|
                    0 <= j < i ==> message_of(#[trigger] statuses@[j], report.statuses@[j]),
            decreases report.statuses@.len() - i,
        {
            statuses.push(StatusMessage::from_state(report.statuses[i].duplicate()));
            i = i + 1;
        }
        Ok(RequestFulfillment { oracle_id: id as u32, request_id: report.request_id.clone(), statuses })
    }
}

/// Address of the status read API query for a request:
/// `{url}/statuses/{mechanism}/{type}?time={last time}`.
pub open spec fn status_query_text(request: OracleRequest) -> Seq<char> {
    request.url@ + "/statuses/"@ + (match request.status_mechanism {
        StatusMechanism::BitStatusList => "bsl"@,
        StatusMechanism::MerkleTree => "mt"@,
    }) + "/"@ + (match request.status_type {
        StatusType::Issuance => "issuance"@,
        StatusType::Revocation => "revocation"@,
    }) + "?time="@ + decimal_text(request.last_status_state.time as nat)
}

/// The off-chain status fetcher's query.
pub struct StatusService {}

impl StatusService {
    pub fn new() -> (r: StatusService) {
        StatusService {  }
    }

    /// The address to fetch the statuses of a request from.
    pub fn status_url(&self, request: &OracleRequest) -> (r: String)
        ensures
            r@ == status_query_text(*request),
    {
        let mut url = request.url.clone();
        url.append("/statuses/");
        url.append(request.status_mechanism.label());
        url.append("/");
        url.append(request.status_type.label());
        url.append("?time=");
        append_decimal(&mut url, request.last_status_state.time);
        url
    }
}

/// This node's own record: its configured id, its address, the URL at which peers reach
/// it (`http://{domain}:{port}`), and the amount it registers with.
pub fn own_oracle(config: &Config, oracle_address: String) -> (r: Result<Oracle, ConfigError>)
    ensures
        r is Ok <==> value_in(config@, "ID"@) is Some && parsed_unsigned(
            value_in(config@, "ID"@)->Some_0,
            0xff,
        ) is Some && value_in(config@, "ORACLE_DOMAIN"@) is Some && value_in(
            config@,
            "SERVER_PORT"@,
        ) is Some,
        r is Ok ==> {
            let o = r->Ok_0;
            &&& o.id as nat == parsed_unsigned(value_in(config@, "ID"@)->Some_0, 0xff)->Some_0
            &&& o.oracle_address == oracle_address
            &&& o.url@ == "http://"@ + value_in(config@, "ORACLE_DOMAIN"@)->Some_0 + ":"@
                + value_in(config@, "SERVER_PORT"@)->Some_0
            &&& o.amount == 100
        },
{
    let id = match config.get_id() {
        Ok(id) => id,
        Err(e) => return Err(e),
    };
    let domain = match config.get_oracle_domain() {
        Ok(d) => d,
        Err(e) => return Err(e),
    };
    let port = match config.get_server_port() {
        Ok(p) => p,
        Err(e) => return Err(e),
    };
    let mut url = String::from_str("http://");
    url.append(domain);
    url.append(":");
    url.append(port);
    Ok(Oracle { id, oracle_address, url, amount: 100 })
}

} // verus!
