use vstd::prelude::*;

use crate::errors::OracleError;
use crate::models::{same_oracle, Oracle, OracleRequest, ReportView, RequestReport};
use crate::status::StatusState;
use crate::status::StatusMechanism;
use crate::stores::{
    has_key, has_request, keys_unique, lemma_upserted_unique, report_mechanism, report_views,
    reports_for, upserted, OracleRequestService, ReportStoreView, RequestReportService,
    RequestStoreView,
};
use crate::validation::{
    chain_check, chain_valid, distinct_times, lemma_chain_check_ok, lemma_sorted_arrangement_unique,
    sort_by_time, sorted_by_time, validate_chain,
};
use crate::wire::{
    abi_word, decode_request_id, encode_last_status_response, hex_bytes, is_hex_of_len,
    without_hex_prefix,
};

verus! {

/// Of two statuses, the later one; of two with equal time, the second.
pub open spec fn later(a: StatusState, b: StatusState) -> StatusState {
    if b.time >= a.time {
        b
    } else {
        a
    }
}

/// The status with the greatest time in a non-empty list; of two with equal time, the
/// later in the list.
pub open spec fn latest_in(s: Seq<StatusState>) -> StatusState
    decreases s.len(),
{
    if s.len() <= 1 {
        s[0]
    } else {
        later(latest_in(s.drop_last()), s.last())
    }
}

/// The status with the greatest time over all statuses of all the reports; of two with
/// equal time, the one that comes later, reports taken in order.
pub open spec fn latest_status(rs: Seq<ReportView>) -> StatusState
    decreases rs.len(),
{
    if rs.len() <= 1 {
        latest_in(rs[0].statuses)
    } else {
        later(latest_status(rs.drop_last()), latest_in(rs.last().statuses))
    }
}

/// What a fulfilment holds.
pub struct FulfillmentView {
    pub request_id: Seq<u8>,
    pub time: u64,
    pub status: u64,
    pub response: Seq<u8>,
}

impl View for Fulfillment {
    type V = FulfillmentView;

    open spec fn view(&self) -> FulfillmentView {
        FulfillmentView {
            request_id: self.request_id@,
            time: self.time,
            status: self.status,
            response: self.response@,
        }
    }
}

pub open spec fn outcome_view(r: Result<Option<Fulfillment>, OracleError>) -> Result<
    Option<FulfillmentView>,
    OracleError,
> {
    match r {
        Ok(Some(f)) => Ok(Some(f@)),
        Ok(None) => Ok(None),
        Err(e) => Err(e),
    }
}

/// A fulfilment is due: enough distinct oracles reported, and none was handed out yet.
pub open spec fn fulfilment_due(
    reports: ReportStoreView,
    requests: RequestStoreView,
    request_id: Seq<char>,
    m: StatusMechanism,
) -> bool {
    let q = requests.lookup(request_id, m);
    &&& q is Some
    &&& reports_for(reports.part(m), request_id).len() >= agreements_needed(q->Some_0.num_agreements)
    &&& !requests.is_fulfilled(request_id, m)
}

/// The outcome of checking the reports stored for a request: an error for a request
/// never stored, nothing while no fulfilment is due, and else the fulfilment that
/// submits the latest status of the stored reports.
pub open spec fn check_result(
    reports: ReportStoreView,
    requests: RequestStoreView,
    request_id: Seq<char>,
    m: StatusMechanism,
) -> Result<Option<FulfillmentView>, OracleError> {
    if requests.lookup(request_id, m) is None {
        Err(OracleError::RequestNotFound)
    } else if !fulfilment_due(reports, requests, request_id, m) {
        Ok(None)
    } else if !is_hex_of_len(request_id, 32) {
        Err(OracleError::InvalidRequestId)
    } else {
        let last = latest_status(reports_for(reports.part(m), request_id));
        Ok(
            Some(
                FulfillmentView {
                    request_id: hex_bytes(without_hex_prefix(request_id)),
                    time: last.time,
                    status: last.status,
                    response: abi_word(last.time) + abi_word(last.status),
                },
            ),
        )
    }
}

/// The request store after the check: a handed-out fulfilment is recorded.
pub open spec fn requests_after_check(
    reports: ReportStoreView,
    requests: RequestStoreView,
    request_id: Seq<char>,
    m: StatusMechanism,
) -> RequestStoreView {
    if check_result(reports, requests, request_id, m) matches Ok(Some(_)) {
        requests.with_fulfilled(m, requests.fulfilled(m).push(request_id))
    } else {
        requests
    }
}

/// Time and bitmask of the latest of a non-empty list of statuses.
fn latest_of(statuses: &Vec<StatusState>) -> (r: (u64, u64))
    requires
        statuses@.len() > 0,
    ensures
        r.0 == latest_in(statuses@).time,
        r.1 == latest_in(statuses@).status,
{
    let ghost s = statuses@;
    let mut time = statuses[0].time;
    let mut status = statuses[0].status;
    let mut i: usize = 1;
    assert(s.subrange(0, 1).len() == 1);
    while i < statuses.len()
        invariant
            1 <= i <= s.len(),
            s == statuses@,
            time == latest_in(s.subrange(0, i as int)).time,
            status == latest_in(s.subrange(0, i as int)).status,
        decreases s.len() - i,
    {
        assert(s.subrange(0, i + 1).drop_last() =~= s.subrange(0, i as int));
        if statuses[i].time >= time {
            time = statuses[i].time;
            status = statuses[i].status;
        }
        i = i + 1;
    }
    assert(s.subrange(0, s.len() as int) =~= s);
    (time, status)
}

/// Reports needed before a result is submitted: the request's agreements, and at least one.
pub open spec fn agreements_needed(num_agreements: u8) -> nat {
    if num_agreements == 0 {
        1
    } else {
        num_agreements as nat
    }
}

/// A transaction that fulfils a request with its last status.
pub struct Fulfillment {
    /// The 32-byte on-chain request id.
    pub request_id: Vec<u8>,
    pub time: u64,
    pub status: u64,
    /// ABI encoding of `(time, status)`.
    pub response: Vec<u8>,
}

/// Time and bitmask of the latest status of the reports.
pub fn select_latest_status(reports: &Vec<RequestReport>) -> (r: (u64, u64))
    requires
        reports@.len() > 0,
        forall|i: int| 0 <= i < reports@.len() ==> (#[trigger] reports@[i]).statuses@.len() > 0,
    ensures
        r.0 == latest_status(report_views(reports@)).time,
        r.1 == latest_status(report_views(reports@)).status,
{
    let ghost rs = report_views(reports@);
    let (mut time, mut status) = latest_of(&reports[0].statuses);
    let mut i: usize = 1;
    assert(rs.subrange(0, 1).len() == 1);
    while i < reports.len()
        invariant
            1 <= i <= reports@.len(),
            rs == report_views(reports@),
            forall|j: int| 0 <= j < reports@.len() ==> (#[trigger] reports@[j]).statuses@.len() > 0,
            time == latest_status(rs.subrange(0, i as int)).time,
            status == latest_status(rs.subrange(0, i as int)).status,
        decreases reports@.len() - i,
    {
        assert(rs.subrange(0, i + 1).drop_last() =~= rs.subrange(0, i as int));
        let (t, st) = latest_of(&reports[i].statuses);
        if t >= time {
            time = t;
            status = st;
        }
        i = i + 1;
    }
    assert(rs.subrange(0, reports@.len() as int) =~= rs);
    (time, status)
}

/// The transaction that fulfils `request_id` with the latest status of the reports.
pub fn prepare_last_status_fulfillment(request_id: &str, reports: &Vec<RequestReport>) -> (r: Result<
    Fulfillment,
    OracleError,
>)
    requires
        reports@.len() > 0,
        forall|i: int| 0 <= i < reports@.len() ==> (#[trigger] reports@[i]).statuses@.len() > 0,
    ensures
        r is Ok <==> is_hex_of_len(request_id@, 32),
        r is Err ==> r->Err_0 == OracleError::InvalidRequestId,
        r is Ok ==> {
            let f = r->Ok_0;
            let last = latest_status(report_views(reports@));
            &&& f.request_id@ == hex_bytes(without_hex_prefix(request_id@))
            &&& f.time == last.time
            &&& f.status == last.status
            &&& f.response@ == abi_word(last.time) + abi_word(last.status)
        },
{
    let (time, status) = select_latest_status(reports);
    let id = match decode_request_id(request_id) {
        Ok(id) => id,
        Err(e) => return Err(e),
    };
    let response = encode_last_status_response(time, status);
    Ok(Fulfillment { request_id: id, time, status, response })
}

/// The statuses to report: sorted by time, with the same elements as those fetched.
pub open spec fn arranged(fetched: Seq<StatusState>, s: Seq<StatusState>) -> bool {
    sorted_by_time(s) && s.to_multiset() == fetched.to_multiset()
}

/// For fetched statuses of pairwise distinct times there is one time-sorted arrangement,
/// so the intake's outcome is fixed: checking it from the request's last state succeeds
/// exactly when every consecutive pair of the chain, that state first, keeps time order
/// and keeps every set bit; it fails as soon as one pair goes back in time or clears a bit.
pub proof fn lemma_fetch_validation(
    fetched: Seq<StatusState>,
    time: u64,
    status: u64,
    s1: Seq<StatusState>,
    s2: Seq<StatusState>,
)
    requires
        distinct_times(fetched),
        arranged(fetched, s1),
        arranged(fetched, s2),
    ensures
        s1 == s2,
        chain_check(time, status, s1) is Ok <==> chain_valid(time, status, s1),
{
    vstd::seq_lib::to_multiset_len(fetched);
    vstd::seq_lib::to_multiset_len(s1);
    assert(distinct_times(s1)) by {
        crate::validation::lemma_distinct_times_transfer(fetched, s1);
    }
    lemma_sorted_arrangement_unique(s1, s2);
    lemma_chain_check_ok(time, status, s1);
}

/// The per-node orchestrator of the oracle workflow: what it decides between
/// fetching, storing, forwarding and submitting.
pub struct OracleManagerService {
    /// This node's own registration record.
    pub oracle: Oracle,
    /// Requests observed on chain, kept when this node aggregates them.
    pub requests: OracleRequestService,
    /// Reports produced here or received from peers.
    pub reports: RequestReportService,
}

impl OracleManagerService {
    pub open spec fn wf(&self) -> bool {
        self.requests@.wf() && self.reports@.wf()
    }

    /// A node for the oracle, with empty stores.
    pub fn new(oracle: Oracle) -> (r: OracleManagerService)
        ensures
            r.wf(),
            r.oracle == oracle,
            r.requests@.bsl.len() == 0 && r.requests@.merkle.len() == 0,
            r.reports@.bsl.len() == 0 && r.reports@.merkle.len() == 0,
    {
        OracleManagerService {
            oracle,
            requests: OracleRequestService::new(),
            reports: RequestReportService::new(),
        }
    }

    /// Whether this node is among the request's aggregators.
    pub fn is_this_oracle_aggregator(&self, request: &OracleRequest) -> (r: bool)
        ensures
            r == request.aggregator_ids@.contains(self.oracle.id),
    {
        let mut i: usize = 0;
        while i < request.aggregator_ids.len()
            invariant
                i <= request.aggregator_ids@.len(),
                forall|j: int| 0 <= j < i ==> request.aggregator_ids@[j] != self.oracle.id,
            decreases request.aggregator_ids@.len() - i,
        {
            if request.aggregator_ids[i] == self.oracle.id {
                return true;
            }
            i = i + 1;
        }
        false
    }

    /// Whether the record read from chain, if any, is this node's own record.
    pub fn is_this_oracle_registered(&self, onchain: &Option<Oracle>) -> (r: bool)
        ensures
            r == (onchain is Some && same_oracle(onchain->Some_0, self.oracle)),
    {
        match onchain {
            Some(o) => *o == self.oracle,
            None => false,
        }
    }

    /// The intake of a request observed on chain, given the statuses fetched for it:
    /// keeps the request when this node aggregates it, refuses an empty fetch, sorts the
    /// statuses by time, checks them against the request's last state, and stores and
    /// returns this node's report, which is then forwarded to every aggregator. An
    /// aggregator then checks its reports with `check_reports`.
    pub fn handle_new_request(&mut self, request: OracleRequest, fetched: Vec<StatusState>) -> (r:
        Result<RequestReport, OracleError>)
        requires
            old(self).wf(),
        ensures
            final(self).wf(),
            final(self).oracle == old(self).oracle,
            request.aggregator_ids@.contains(old(self).oracle.id) && !has_request(
                old(self).requests@.part(request.status_mechanism),
                request.request_id@,
            ) ==> final(self).requests@ == old(self).requests@.with_part(
                request.status_mechanism,
                old(self).requests@.part(request.status_mechanism).push(request),
            ),
            !(request.aggregator_ids@.contains(old(self).oracle.id) && !has_request(
                old(self).requests@.part(request.status_mechanism),
                request.request_id@,
            )) ==> final(self).requests@ == old(self).requests@,
            fetched@.len() == 0 ==> r == Err::<RequestReport, OracleError>(
                OracleError::EmptyStatuses,
            ),
            r is Err ==> final(self).reports@ == old(self).reports@,
            r is Err && fetched@.len() > 0 ==> exists|s: Seq<StatusState>|
                arranged(fetched@, s) && #[trigger] chain_check(
                    request.last_status_state.time,
                    request.last_status_state.status,
                    s,
                ) == Err::<(), OracleError>(r->Err_0),
            r is Ok ==> {
                let p = r->Ok_0;
                &&& fetched@.len() > 0
                &&& p.id is None
                &&& p.request_id == request.request_id
                &&& p.oracle_id == old(self).oracle.id
                &&& arranged(fetched@, p.statuses@)
                &&& chain_check(
                    request.last_status_state.time,
                    request.last_status_state.status,
                    p.statuses@,
                ) is Ok
                &&& final(self).reports@ == old(self).reports@.with_part(
                    report_mechanism(p@),
                    upserted(old(self).reports@.part(report_mechanism(p@)), p@),
                )
            },
    {
        let is_aggregator = self.is_this_oracle_aggregator(&request);
        let request_id = request.request_id.clone();
        let last_time = request.last_status_state.time;
        let last_status = request.last_status_state.status;
        if is_aggregator {
            self.requests.insert_one(request);
        }
        if fetched.len() == 0 {
            return Err(OracleError::EmptyStatuses);
        }
        let ghost fetched_view = fetched@;
        let statuses = sort_by_time(fetched);
        proof {
            vstd::seq_lib::to_multiset_len(statuses@);
            vstd::seq_lib::to_multiset_len(fetched_view);
        }
        match validate_chain(last_time, last_status, &statuses) {
            Ok(()) => {},
            Err(e) => {
                return Err(e);
            },
        }
        let report = RequestReport::new(request_id, self.oracle.id, statuses);
        let local = report.duplicate();
        let _ = self.reports.insert_or_update(local);
        Ok(report)
    }

    /// The aggregation check for a request: counts the distinct oracles that reported
    /// on it under the mechanism and, once that count reaches the request's agreements
    /// and no fulfilment of it was handed out yet, hands one out and records that. A
    /// request this node never stored is an error.
    pub fn check_reports(&mut self, request_id: &str, mechanism: StatusMechanism) -> (r: Result<
        Option<Fulfillment>,
        OracleError,
    >)
        requires
            old(self).wf(),
        ensures
            final(self).wf(),
            final(self).oracle == old(self).oracle,
            final(self).reports@ == old(self).reports@,
            outcome_view(r) == check_result(
                old(self).reports@,
                old(self).requests@,
                request_id@,
                mechanism,
            ),
            final(self).requests@ == requests_after_check(
                old(self).reports@,
                old(self).requests@,
                request_id@,
                mechanism,
            ),
    {
        let num_reports = self.reports.get_num_reports_by_request_id(request_id, mechanism);
        let num_agreements = match self.requests.find_one(request_id, mechanism) {
            Some(q) => q.num_agreements,
            None => return Err(OracleError::RequestNotFound),
        };
        let needed: usize = if num_agreements == 0 {
            1
        } else {
            num_agreements as usize
        };
        if num_reports < needed || self.requests.is_fulfilled(request_id, mechanism) {
            return Ok(None);
        }
        let reports = self.reports.get_reports_by_request_id(request_id, mechanism);
        proof {
            lemma_reports_for_contents(self.reports@.part(mechanism), request_id@);
            assert forall|i: int| 0 <= i < reports@.len() implies (
            #[trigger] reports@[i]).statuses@.len() > 0 by {
                assert(report_views(reports@)[i] == reports@[i]@);
            }
        }
        match prepare_last_status_fulfillment(request_id, &reports) {
            Ok(f) => {
                self.requests.mark_fulfilled(request_id, mechanism);
                Ok(Some(f))
            },
            Err(e) => Err(e),
        }
    }

    /// The aggregation step on a report delivered by a peer, or by this node to itself:
    /// stores it, then checks the reports stored for its request.
    pub fn fulfill_request(&mut self, report: RequestReport) -> (r: Result<
        Option<Fulfillment>,
        OracleError,
    >)
        requires
            old(self).wf(),
        ensures
            final(self).wf(),
            final(self).oracle == old(self).oracle,
            report@.statuses.len() == 0 ==> r == Err::<Option<Fulfillment>, OracleError>(
                OracleError::EmptyReport,
            ) && final(self).reports@ == old(self).reports@ && final(self).requests@ == old(
                self,
            ).requests@,
            report@.statuses.len() > 0 ==> {
                let m = report_mechanism(report@);
                &&& final(self).reports@ == old(self).reports@.with_part(
                    m,
                    upserted(old(self).reports@.part(m), report@),
                )
                &&& reports_for(final(self).reports@.part(m), report@.request_id).len() > 0
                &&& outcome_view(r) == check_result(
                    final(self).reports@,
                    old(self).requests@,
                    report@.request_id,
                    m,
                )
                &&& final(self).requests@ == requests_after_check(
                    final(self).reports@,
                    old(self).requests@,
                    report@.request_id,
                    m,
                )
            },
    {
        if report.statuses.len() == 0 {
            return Err(OracleError::EmptyReport);
        }
        let mechanism = report.statuses[0].status_mechanism;
        let request_id = report.request_id.clone();
        let ghost rv = report@;
        let _ = self.reports.insert_or_update(report);
        proof {
            lemma_reports_for_contents(self.reports@.part(mechanism), rv.request_id);
            crate::stores::lemma_upserted_holds(old(self).reports@.part(mechanism), rv);
        }
        self.check_reports(request_id.as_str(), mechanism)
    }

    /// Forgets that a fulfilment of the request was handed out, so that the next check
    /// hands out another: for when submitting it failed.
    pub fn release_fulfillment(&mut self, request_id: &str, mechanism: StatusMechanism)
        requires
            old(self).wf(),
        ensures
            final(self).wf(),
            final(self).oracle == old(self).oracle,
            final(self).reports@ == old(self).reports@,
            !final(self).requests@.is_fulfilled(request_id@, mechanism),
            forall|x: Seq<char>|
                x != request_id@ ==> (#[trigger] final(self).requests@.is_fulfilled(x, mechanism)
                    <==> old(self).requests@.is_fulfilled(x, mechanism)),
            final(self).requests@.bsl == old(self).requests@.bsl,
            final(self).requests@.merkle == old(self).requests@.merkle,
    {
        self.requests.release_fulfilled(request_id, mechanism);
    }
}

/// A partition of the report store after upserting the reports in order.
pub open spec fn apply_reports(s: Seq<ReportView>, rs: Seq<ReportView>) -> Seq<ReportView>
    decreases rs.len(),
{
    if rs.len() == 0 {
        s
    } else {
        upserted(apply_reports(s, rs.drop_last()), rs.last())
    }
}

/// A stored report that names the request is among the reports stored for it.
pub proof fn lemma_reports_for_member(s: Seq<ReportView>, request_id: Seq<char>, i: int)
    requires
        0 <= i < s.len(),
        s[i].request_id == request_id,
    ensures
        reports_for(s, request_id).contains(s[i]),
    decreases s.len(),
{
    let rf = reports_for(s, request_id);
    if i == s.len() - 1 {
        assert(rf[rf.len() - 1] == s[i]);
    } else {
        let t = s.drop_last();
        assert(t[i] == s[i]);
        lemma_reports_for_member(t, request_id, i);
        let rt = reports_for(t, request_id);
        let k = choose|k: int| 0 <= k < rt.len() && rt[k] == s[i];
        assert(rf[k] == rt[k]);
    }
}

proof fn lemma_apply_distinct_prefix(s: Seq<ReportView>, request_id: Seq<char>, rs: Seq<ReportView>, k: int)
    requires
        keys_unique(s),
        reports_for(s, request_id).len() == 0,
        0 <= k <= rs.len(),
        forall|i: int| 0 <= i < rs.len() ==> (#[trigger] rs[i]).request_id == request_id,
        forall|i: int, j: int|
            #![trigger rs[i], rs[j]]
            0 <= i < rs.len() && 0 <= j < rs.len() && i != j ==> rs[i].oracle_id != rs[j].oracle_id,
    ensures
        keys_unique(apply_reports(s, rs.take(k))),
        reports_for(apply_reports(s, rs.take(k)), request_id) == rs.take(k),
    decreases k,
{
    if k == 0 {
        assert(rs.take(0) =~= Seq::<ReportView>::empty());
        assert(reports_for(s, request_id) =~= rs.take(0));
    } else {
        lemma_apply_distinct_prefix(s, request_id, rs, k - 1);
        let t = apply_reports(s, rs.take(k - 1));
        let r = rs[k - 1];
        assert(rs.take(k).drop_last() =~= rs.take(k - 1));
        assert(rs.take(k).last() == r);
        assert(apply_reports(s, rs.take(k)) == upserted(t, r));
        if has_key(t, r.request_id, r.oracle_id) {
            let i = choose|i: int|
                0 <= i < t.len() && crate::stores::same_key(#[trigger] t[i], r.request_id, r.oracle_id);
            lemma_reports_for_member(t, request_id, i);
            let rt = reports_for(t, request_id);
            let j = choose|j: int| 0 <= j < rt.len() && rt[j] == t[i];
            assert(rt[j] == rs[j]);
            assert(rs[j].oracle_id != rs[k - 1].oracle_id);
        }
        lemma_upserted_unique(t, r);
        let u = t.push(r);
        assert(u.drop_last() =~= t);
        assert(reports_for(u, request_id) =~= rs.take(k));
    }
}

/// Reports for one request from distinct oracles, delivered one at a time to an
/// aggregator that holds no report for it yet, with as many reports as agreements
/// needed: after the k-th delivery exactly the first k reports are stored for the
/// request, so enough oracles have reported after the last delivery and after no
/// earlier one, and the status submitted then is the latest of all the reports.
pub proof fn lemma_aggregation_threshold(
    s: Seq<ReportView>,
    request_id: Seq<char>,
    rs: Seq<ReportView>,
    num_agreements: u8,
)
    requires
        keys_unique(s),
        reports_for(s, request_id).len() == 0,
        rs.len() == num_agreements,
        num_agreements > 0,
        forall|i: int| 0 <= i < rs.len() ==> (#[trigger] rs[i]).request_id == request_id,
        forall|i: int, j: int|
            #![trigger rs[i], rs[j]]
            0 <= i < rs.len() && 0 <= j < rs.len() && i != j ==> rs[i].oracle_id != rs[j].oracle_id,
    ensures
        forall|k: int|
            0 <= k <= rs.len() ==> reports_for(#[trigger] apply_reports(s, rs.take(k)), request_id)
                == rs.take(k),
        forall|k: int|
            0 <= k <= rs.len() ==> (reports_for(#[trigger] apply_reports(s, rs.take(k)), request_id).len()
                >= agreements_needed(num_agreements) <==> k == rs.len()),
        rs.len() > 0 ==> latest_status(
            reports_for(apply_reports(s, rs.take(rs.len() as int)), request_id),
        ) == latest_status(rs),
{
    assert forall|k: int| 0 <= k <= rs.len() implies reports_for(
        #[trigger] apply_reports(s, rs.take(k)),
        request_id,
    ) == rs.take(k) by {
        lemma_apply_distinct_prefix(s, request_id, rs, k);
    }
    assert(rs.take(rs.len() as int) =~= rs);
}

/// A fulfilment is handed out at most once: a check that hands one out records it, and
/// while it is recorded no check, whatever reports are stored, hands out another.
pub proof fn lemma_fulfilment_once(
    reports: ReportStoreView,
    later_reports: ReportStoreView,
    requests: RequestStoreView,
    request_id: Seq<char>,
    m: StatusMechanism,
)
    ensures
        check_result(reports, requests, request_id, m) matches Ok(Some(_)) ==> requests_after_check(
            reports,
            requests,
            request_id,
            m,
        ).is_fulfilled(request_id, m),
        requests.is_fulfilled(request_id, m) ==> !(check_result(
            later_reports,
            requests,
            request_id,
            m,
        ) matches Ok(Some(_))),
{
    let r = requests.with_fulfilled(m, requests.fulfilled(m).push(request_id));
    assert(r.fulfilled(m)[r.fulfilled(m).len() - 1] == request_id);
}

/// Every report stored for a request is one of the stored reports and names the
/// request; if any stored report names it, there is at least one.
pub proof fn lemma_reports_for_contents(s: Seq<ReportView>, request_id: Seq<char>)
    ensures
        forall|i: int|
            0 <= i < reports_for(s, request_id).len() ==> s.contains(
                #[trigger] reports_for(s, request_id)[i],
            ) && reports_for(s, request_id)[i].request_id == request_id,
        (exists|i: int| 0 <= i < s.len() && (#[trigger] s[i]).request_id == request_id) ==> reports_for(
            s,
            request_id,
        ).len() > 0,
        reports_for(s, request_id).len() <= s.len(),
    decreases s.len(),
{
    if s.len() > 0 {
        let t = s.drop_last();
        lemma_reports_for_contents(t, request_id);
        let rf = reports_for(s, request_id);
        let rt = reports_for(t, request_id);
        assert forall|i: int| 0 <= i < rf.len() implies s.contains(#[trigger] rf[i])
            && rf[i].request_id == request_id by {
            if i < rt.len() {
                assert(rf[i] == rt[i]);
                let k = choose|k: int| 0 <= k < t.len() && t[k] == rt[i];
                assert(s[k] == rt[i]);
            } else {
                assert(rf[i] == s.last());
                assert(s[s.len() - 1] == s.last());
            }
        }
        if exists|i: int| 0 <= i < s.len() && (#[trigger] s[i]).request_id == request_id {
            let i = choose|i: int| 0 <= i < s.len() && (#[trigger] s[i]).request_id == request_id;
            if i < s.len() - 1 {
                assert(t[i] == s[i]);
            }
        }
    }
}

} // verus!
