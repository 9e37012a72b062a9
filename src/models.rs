use vstd::prelude::*;

use crate::errors::OracleError;
use crate::status::{
    copy_text, message_error, message_state, message_valid, StatusMechanism, StatusMessage,
    StatusState, StatusType,
};
use crate::wire::{encode_hex, hex_text};

verus! {

/// A participant registered on chain.
pub struct Oracle {
    pub id: u8,
    pub oracle_address: String,
    pub url: String,
    pub amount: u64,
}

/// Two oracle records are the same when every field is.
pub open spec fn same_oracle(a: Oracle, b: Oracle) -> bool {
    a.id == b.id && a.oracle_address@ == b.oracle_address@ && a.url@ == b.url@ && a.amount
        == b.amount
}

impl PartialEq for Oracle {
    fn eq(&self, other: &Oracle) -> (r: bool)
        ensures
            r == same_oracle(*self, *other),
    {
        self.id == other.id && self.oracle_address == other.oracle_address && self.url
            == other.url && self.amount == other.amount
    }
}

impl vstd::std_specs::cmp::PartialEqSpecImpl for Oracle {
    open spec fn obeys_eq_spec() -> bool {
        true
    }

    open spec fn eq_spec(&self, other: &Oracle) -> bool {
        same_oracle(*self, *other)
    }
}

impl Oracle {
    pub fn new(id: u8, oracle_address: String, url: String, amount: u64) -> (r: Oracle)
        ensures
            r.id == id,
            r.oracle_address == oracle_address,
            r.url == url,
            r.amount == amount,
    {
        Oracle { id, oracle_address, url, amount }
    }
}

pub fn copy_ids(v: &Vec<u8>) -> (r: Vec<u8>)
    ensures
        r@ == v@,
{
    let mut r: Vec<u8> = Vec::new();
    let mut i: usize = 0;
    while i < v.len()
        invariant
            i <= v@.len(),
            r@ == v@.subrange(0, i as int),
        decreases v@.len() - i,
    {
        r.push(v[i]);
        i = i + 1;
    }
    assert(v@.subrange(0, v@.len() as int) =~= v@);
    r
}

/// A request as observed on chain.
pub struct OracleRequest {
    /// Storage identifier, as hex text, once stored.
    pub id: Option<String>,
    /// The 32-byte on-chain id, as lower-case hex text.
    pub request_id: String,
    /// Base URL of the credential status read API.
    pub url: String,
    pub last_status_state: StatusState,
    pub status_type: StatusType,
    pub status_mechanism: StatusMechanism,
    pub subscription_id: u64,
    pub callback_gas_limit: u32,
    /// Oracles authorised to collect reports and submit the result.
    pub aggregator_ids: Vec<u8>,
    /// Distinct oracle reports needed before a result may be submitted.
    pub num_agreements: u8,
}

impl OracleRequest {
    pub fn new(
        request_id: &str,
        url: &str,
        last_status_state: &StatusState,
        status_type: StatusType,
        status_mechanism: StatusMechanism,
        subscription_id: u64,
        callback_gas_limit: u32,
        aggregator_ids: &Vec<u8>,
        num_agreements: u8,
    ) -> (r: OracleRequest)
        ensures
            r.id is None,
            r.request_id@ == request_id@,
            r.url@ == url@,
            r.last_status_state == *last_status_state,
            r.status_type == status_type,
            r.status_mechanism == status_mechanism,
            r.subscription_id == subscription_id,
            r.callback_gas_limit == callback_gas_limit,
            r.aggregator_ids@ == aggregator_ids@,
            r.num_agreements == num_agreements,
    {
        OracleRequest {
            id: None,
            request_id: String::from_str(request_id),
            url: String::from_str(url),
            last_status_state: last_status_state.duplicate(),
            status_type,
            status_mechanism,
            subscription_id,
            callback_gas_limit,
            aggregator_ids: copy_ids(aggregator_ids),
            num_agreements,
        }
    }

    /// The local form of a request read from chain. Mechanism and type come as small
    /// integers; an unknown one is a validation error.
    pub fn from_onchain(
        request_id: &[u8],
        url: String,
        last_time: u64,
        last_status: u64,
        status_mechanism: u8,
        status_type: u8,
        subscription_id: u64,
        callback_gas_limit: u32,
        aggregator_ids: Vec<u8>,
        num_agreements: u8,
    ) -> (r: Result<OracleRequest, OracleError>)
        ensures
            r is Ok <==> (status_mechanism == 0 || status_mechanism == 1) && (status_type == 1
                || status_type == 2),
            !(status_mechanism == 0 || status_mechanism == 1) ==> r == Err::<
                OracleRequest,
                OracleError,
            >(OracleError::InvalidStatusMechanism(status_mechanism as i32)),
            (status_mechanism == 0 || status_mechanism == 1) && !(status_type == 1 || status_type
                == 2) ==> r == Err::<OracleRequest, OracleError>(
                OracleError::InvalidStatusType(status_type as i32),
            ),
            r is Ok ==> {
                let q = r->Ok_0;
                &&& q.id is None
                &&& q.request_id@ == hex_text(request_id@)
                &&& q.url == url
                &&& crate::status::mechanism_code(q.status_mechanism) == status_mechanism
                &&& crate::status::type_code(q.status_type) == status_type
                &&& q.last_status_state == StatusState::new_spec(
                    last_status,
                    last_time,
                    q.status_mechanism,
                    q.status_type,
                )
                &&& q.subscription_id == subscription_id
                &&& q.callback_gas_limit == callback_gas_limit
                &&& q.aggregator_ids == aggregator_ids
                &&& q.num_agreements == num_agreements
            },
    {
        let mechanism = match StatusMechanism::from_code(status_mechanism as i32) {
            Ok(m) => m,
            Err(e) => return Err(e),
        };
        let stype = match StatusType::from_code(status_type as i32) {
            Ok(t) => t,
            Err(e) => return Err(e),
        };
        Ok(
            OracleRequest {
                id: None,
                request_id: encode_hex(request_id),
                url,
                last_status_state: StatusState::new(last_status, last_time, mechanism, stype),
                status_type: stype,
                status_mechanism: mechanism,
                subscription_id,
                callback_gas_limit,
                aggregator_ids,
                num_agreements,
            },
        )
    }
}

/// Query of the status read API: the statuses from `time` on, or all of them.
pub struct StatusQueryParams {
    pub time: Option<u64>,
}

impl StatusQueryParams {
    /// The earliest time asked for.
    pub fn start_time(&self) -> (r: u64)
        ensures
            r == match self.time {
                Some(t) => t,
                None => 0,
            },
    {
        match self.time {
            Some(t) => t,
            None => 0,
        }
    }
}

/// One oracle's observation for one request.
pub struct RequestReport {
    /// Storage identifier, as hex text, once stored.
    pub id: Option<String>,
    pub request_id: String,
    pub oracle_id: u8,
    pub statuses: Vec<StatusState>,
}

pub open spec fn text_view(t: Option<String>) -> Option<Seq<char>> {
    match t {
        Some(s) => Some(s@),
        None => None,
    }
}

/// What a report holds.
pub struct ReportView {
    /// Storage identifier, if the report has one.
    pub id: Option<Seq<char>>,
    pub request_id: Seq<char>,
    pub oracle_id: u8,
    pub statuses: Seq<StatusState>,
}

impl View for RequestReport {
    type V = ReportView;

    open spec fn view(&self) -> ReportView {
        ReportView {
            id: text_view(self.id),
            request_id: self.request_id@,
            oracle_id: self.oracle_id,
            statuses: self.statuses@,
        }
    }
}

pub fn copy_statuses(v: &Vec<StatusState>) -> (r: Vec<StatusState>)
    ensures
        r@ == v@,
{
    let mut r: Vec<StatusState> = Vec::new();
    let mut i: usize = 0;
    while i < v.len()
        invariant
            i <= v@.len(),
            r@ == v@.subrange(0, i as int),
        decreases v@.len() - i,
    {
        r.push(v[i].duplicate());
        i = i + 1;
    }
    assert(v@.subrange(0, v@.len() as int) =~= v@);
    r
}

/// Index of the first message in `msgs` that carries an unknown code.
pub open spec fn first_invalid_message(msgs: Seq<StatusMessage>, i: int) -> bool {
    &&& 0 <= i < msgs.len()
    &&& !message_valid(msgs[i])
    &&& forall|j: int| 0 <= j < i ==> message_valid(#[trigger] msgs[j])
}

impl RequestReport {
    pub fn new(request_id: String, oracle_id: u8, statuses: Vec<StatusState>) -> (r: RequestReport)
        ensures
            r.id is None,
            r.request_id == request_id,
            r.oracle_id == oracle_id,
            r.statuses == statuses,
    {
        RequestReport { id: None, request_id, oracle_id, statuses }
    }

    /// A field-by-field copy.
    pub fn duplicate(&self) -> (r: RequestReport)
        ensures
            r@ == self@,
            r.id == self.id,
    {
        RequestReport {
            id: copy_text(&self.id),
            request_id: self.request_id.clone(),
            oracle_id: self.oracle_id,
            statuses: copy_statuses(&self.statuses),
        }
    }

    /// The report that a peer delivered through the report exchange.
    pub fn from_fulfillment(oracle_id: u32, request_id: String, statuses: &Vec<StatusMessage>) -> (r:
        Result<RequestReport, OracleError>)
        ensures
            r is Ok <==> oracle_id < 256 && forall|i: int|
                0 <= i < statuses@.len() ==> message_valid(#[trigger] statuses@[i]),
            oracle_id >= 256 ==> r == Err::<RequestReport, OracleError>(
                OracleError::InvalidOracleId(oracle_id),
            ),
            oracle_id < 256 && r is Err ==> exists|i: int|
                first_invalid_message(statuses@, i) && r->Err_0 == message_error(
                    #[trigger] statuses@[i],
                ),
            r is Ok ==> {
                let p = r->Ok_0;
                &&& p.id is None
                &&& p.request_id == request_id
                &&& p.oracle_id == oracle_id
                &&& p.statuses@.len() == statuses@.len()
                &&& forall|i: int|
                    0 <= i < statuses@.len() ==> #[trigger] p.statuses@[i] == message_state(
                        statuses@[i],
                    )
            },
    {
        if oracle_id > 255 {
            return Err(OracleError::InvalidOracleId(oracle_id));
        }
        let mut out: Vec<StatusState> = Vec::new();
        let mut i: usize = 0;
        while i < statuses.len()
            invariant
                i <= statuses@.len(),
                oracle_id < 256,
                out@.len() == i,
                forall|j: int| 0 <= j < i ==> message_valid(#[trigger] statuses@[j]),
                forall|j: int| 0 <= j < i ==> #[trigger] out@[j] == message_state(statuses@[j]),
            decreases statuses@.len() - i,
        {
            match statuses[i].to_state() {
                Ok(s) => out.push(s),
                Err(e) => {
                    assert(first_invalid_message(statuses@, i as int));
                    return Err(e);
                },
            }
            i = i + 1;
        }
        Ok(RequestReport { id: None, request_id, oracle_id: oracle_id as u8, statuses: out })
    }
}

} // verus!
