use vstd::prelude::*;

use crate::errors::OracleError;
use crate::models::{OracleRequest, ReportView, RequestReport};
use crate::status::{copy_text, StatusMechanism};

verus! {

/// The report is the one of `oracle_id` for `request_id`.
pub open spec fn same_key(r: ReportView, request_id: Seq<char>, oracle_id: u8) -> bool {
    r.request_id == request_id && r.oracle_id == oracle_id
}

pub open spec fn has_key(s: Seq<ReportView>, request_id: Seq<char>, oracle_id: u8) -> bool {
    exists|i: int| 0 <= i < s.len() && same_key(#[trigger] s[i], request_id, oracle_id)
}

/// No two stored reports share a (request, oracle) key.
pub open spec fn keys_unique(s: Seq<ReportView>) -> bool {
    forall|i: int, j: int|
        #![trigger s[i], s[j]]
        0 <= i < s.len() && 0 <= j < s.len() && i != j ==> !same_key(
            s[i],
            s[j].request_id,
            s[j].oracle_id,
        )
}

/// Exactly one stored report has the key.
pub open spec fn exactly_one(s: Seq<ReportView>, request_id: Seq<char>, oracle_id: u8) -> bool {
    &&& has_key(s, request_id, oracle_id)
    &&& forall|i: int, j: int|
        0 <= i < s.len() && 0 <= j < s.len() && same_key(#[trigger] s[i], request_id, oracle_id)
            && same_key(#[trigger] s[j], request_id, oracle_id) ==> i == j
}

/// Position of the report with the key, when there is one.
pub open spec fn key_index(s: Seq<ReportView>, request_id: Seq<char>, oracle_id: u8) -> int {
    choose|i: int| 0 <= i < s.len() && same_key(#[trigger] s[i], request_id, oracle_id)
}

/// `r` in the place of `stored`: the stored report keeps its storage id.
pub open spec fn keep_id(stored: ReportView, r: ReportView) -> ReportView {
    ReportView { id: stored.id, request_id: r.request_id, oracle_id: r.oracle_id, statuses: r.statuses }
}

/// The form in which `r` is stored by an upsert into `s`.
pub open spec fn stored_form(s: Seq<ReportView>, r: ReportView) -> ReportView {
    if has_key(s, r.request_id, r.oracle_id) {
        keep_id(s[key_index(s, r.request_id, r.oracle_id)], r)
    } else {
        r
    }
}

/// The stored reports after an upsert of `r`: the report with its key takes the
/// statuses of `r` and keeps its storage id, or `r` is added at the end.
pub open spec fn upserted(s: Seq<ReportView>, r: ReportView) -> Seq<ReportView> {
    if has_key(s, r.request_id, r.oracle_id) {
        let k = key_index(s, r.request_id, r.oracle_id);
        s.update(k, keep_id(s[k], r))
    } else {
        s.push(r)
    }
}

/// The stored reports for a request, in storage order.
pub open spec fn reports_for(s: Seq<ReportView>, request_id: Seq<char>) -> Seq<ReportView>
    decreases s.len(),
{
    if s.len() == 0 {
        Seq::empty()
    } else if s.last().request_id == request_id {
        reports_for(s.drop_last(), request_id).push(s.last())
    } else {
        reports_for(s.drop_last(), request_id)
    }
}

/// A partition of the report store: unique keys, every report has a status, and
/// every report's first status names the partition's mechanism.
pub open spec fn partition_wf(s: Seq<ReportView>, m: StatusMechanism) -> bool {
    &&& keys_unique(s)
    &&& forall|i: int|
        0 <= i < s.len() ==> (#[trigger] s[i]).statuses.len() > 0 && s[i].statuses[0].status_mechanism
            == m
}

pub open spec fn report_views(v: Seq<RequestReport>) -> Seq<ReportView> {
    v.map_values(|r: RequestReport| r@)
}

/// The stored reports of each mechanism.
pub struct ReportStoreView {
    pub bsl: Seq<ReportView>,
    pub merkle: Seq<ReportView>,
}

impl ReportStoreView {
    pub open spec fn part(self, m: StatusMechanism) -> Seq<ReportView> {
        match m {
            StatusMechanism::BitStatusList => self.bsl,
            StatusMechanism::MerkleTree => self.merkle,
        }
    }

    pub open spec fn with_part(self, m: StatusMechanism, s: Seq<ReportView>) -> ReportStoreView {
        match m {
            StatusMechanism::BitStatusList => ReportStoreView { bsl: s, merkle: self.merkle },
            StatusMechanism::MerkleTree => ReportStoreView { bsl: self.bsl, merkle: s },
        }
    }

    pub open spec fn wf(self) -> bool {
        partition_wf(self.bsl, StatusMechanism::BitStatusList) && partition_wf(
            self.merkle,
            StatusMechanism::MerkleTree,
        )
    }
}

/// The stored reports, one partition per status mechanism; at most one report per
/// (request, oracle) key in each.
pub struct RequestReportService {
    bsl: Vec<RequestReport>,
    merkle: Vec<RequestReport>,
}

impl View for RequestReportService {
    type V = ReportStoreView;

    closed spec fn view(&self) -> ReportStoreView {
        ReportStoreView { bsl: report_views(self.bsl@), merkle: report_views(self.merkle@) }
    }
}

/// Mechanism of the partition a report belongs to: that of its first status.
pub open spec fn report_mechanism(r: ReportView) -> StatusMechanism {
    r.statuses[0].status_mechanism
}

proof fn lemma_key_index(s: Seq<ReportView>, i: int, request_id: Seq<char>, oracle_id: u8)
    requires
        keys_unique(s),
        0 <= i < s.len(),
        same_key(s[i], request_id, oracle_id),
    ensures
        has_key(s, request_id, oracle_id),
        key_index(s, request_id, oracle_id) == i,
{
    let k = key_index(s, request_id, oracle_id);
    assert(s[k] == s[k]);
}

proof fn lemma_upserted_wf(s: Seq<ReportView>, r: ReportView, m: StatusMechanism)
    requires
        partition_wf(s, m),
        r.statuses.len() > 0,
        r.statuses[0].status_mechanism == m,
    ensures
        partition_wf(upserted(s, r), m),
{
    lemma_upserted_unique(s, r);
    let u = upserted(s, r);
    assert forall|i: int| 0 <= i < u.len() implies (#[trigger] u[i]).statuses.len() > 0
        && u[i].statuses[0].status_mechanism == m by {
        if i < s.len() {
            assert(s[i] == s[i]);
        }
    }
}

/// Finds the stored report with the key.
fn find_position(v: &Vec<RequestReport>, request_id: &String, oracle_id: u8) -> (r: Option<usize>)
    requires
        keys_unique(report_views(v@)),
    ensures
        r is Some <==> has_key(report_views(v@), request_id@, oracle_id),
        r is Some ==> r->Some_0 as int == key_index(report_views(v@), request_id@, oracle_id)
            && r->Some_0 < v@.len(),
{
    let ghost s = report_views(v@);
    let mut i: usize = 0;
    while i < v.len()
        invariant
            i <= v@.len(),
            s == report_views(v@),
            keys_unique(s),
            forall|j: int| 0 <= j < i ==> !same_key(#[trigger] s[j], request_id@, oracle_id),
        decreases v@.len() - i,
    {
        if v[i].request_id == *request_id && v[i].oracle_id == oracle_id {
            proof {
                lemma_key_index(s, i as int, request_id@, oracle_id);
            }
            return Some(i);
        }
        i = i + 1;
    }
    None
}

fn upsert_into(v: &mut Vec<RequestReport>, report: RequestReport)
    requires
        keys_unique(report_views(old(v)@)),
    ensures
        report_views(final(v)@) == upserted(report_views(old(v)@), report@),
{
    match find_position(v, &report.request_id, report.oracle_id) {
        Some(i) => {
            let stored = RequestReport {
                id: copy_text(&v[i].id),
                request_id: report.request_id,
                oracle_id: report.oracle_id,
                statuses: report.statuses,
            };
            v.set(i, stored);
        },
        None => {
            v.push(report);
        },
    }
    assert(report_views(v@) =~= upserted(report_views(old(v)@), report@));
}

fn count_in(v: &Vec<RequestReport>, request_id: &String) -> (r: usize)
    ensures
        r == reports_for(report_views(v@), request_id@).len(),
{
    let ghost s = report_views(v@);
    let mut n: usize = 0;
    let mut i: usize = 0;
    while i < v.len()
        invariant
            i <= v@.len(),
            s == report_views(v@),
            n == reports_for(s.subrange(0, i as int), request_id@).len(),
            n <= i,
        decreases v@.len() - i,
    {
        assert(s.subrange(0, i + 1).drop_last() =~= s.subrange(0, i as int));
        if v[i].request_id == *request_id {
            n = n + 1;
        }
        i = i + 1;
    }
    assert(s.subrange(0, v@.len() as int) =~= s);
    n
}

fn collect_in(v: &Vec<RequestReport>, request_id: &String) -> (r: Vec<RequestReport>)
    ensures
        report_views(r@) == reports_for(report_views(v@), request_id@),
{
    let ghost s = report_views(v@);
    let mut out: Vec<RequestReport> = Vec::new();
    let mut i: usize = 0;
    while i < v.len()
        invariant
            i <= v@.len(),
            s == report_views(v@),
            report_views(out@) == reports_for(s.subrange(0, i as int), request_id@),
        decreases v@.len() - i,
    {
        assert(s.subrange(0, i + 1).drop_last() =~= s.subrange(0, i as int));
        if v[i].request_id == *request_id {
            let ghost before = out@;
            out.push(v[i].duplicate());
            assert(report_views(out@) =~= report_views(before).push(s[i as int]));
        }
        i = i + 1;
    }
    assert(s.subrange(0, v@.len() as int) =~= s);
    out
}

impl RequestReportService {
    pub fn new() -> (r: RequestReportService)
        ensures
            r@.bsl == Seq::<ReportView>::empty(),
            r@.merkle == Seq::<ReportView>::empty(),
            r@.wf(),
    {
        let r = RequestReportService { bsl: Vec::new(), merkle: Vec::new() };
        assert(r@.bsl =~= Seq::<ReportView>::empty());
        assert(r@.merkle =~= Seq::<ReportView>::empty());
        r
    }

    /// Whether a report of `oracle_id` for `request_id` is stored under the mechanism.
    pub fn is_existed(&self, request_id: &str, oracle_id: u8, status_mechanism: StatusMechanism) -> (r:
        bool)
        requires
            self@.wf(),
        ensures
            r == has_key(self@.part(status_mechanism), request_id@, oracle_id),
    {
        let key = String::from_str(request_id);
        let found = match status_mechanism {
            StatusMechanism::BitStatusList => find_position(&self.bsl, &key, oracle_id),
            StatusMechanism::MerkleTree => find_position(&self.merkle, &key, oracle_id),
        };
        found.is_some()
    }

    /// Inserts or replaces the report for its key, in the partition of its first
    /// status's mechanism. A report without status is refused.
    pub fn insert_or_update(&mut self, report: RequestReport) -> (r: Result<(), OracleError>)
        requires
            old(self)@.wf(),
        ensures
            final(self)@.wf(),
            report@.statuses.len() == 0 ==> r == Err::<(), OracleError>(OracleError::EmptyReport)
                && final(self)@ == old(self)@,
            report@.statuses.len() > 0 ==> r is Ok && final(self)@ == old(self)@.with_part(
                report_mechanism(report@),
                upserted(old(self)@.part(report_mechanism(report@)), report@),
            ),
            report@.statuses.len() > 0 && has_key(
                old(self)@.part(report_mechanism(report@)),
                report@.request_id,
                report@.oracle_id,
            ) ==> {
                let m = report_mechanism(report@);
                let k = key_index(old(self)@.part(m), report@.request_id, report@.oracle_id);
                &&& final(self)@.part(m).len() == old(self)@.part(m).len()
                &&& final(self)@.part(m)[k].id == old(self)@.part(m)[k].id
                &&& final(self)@.part(m)[k].statuses == report@.statuses
            },
    {
        if report.statuses.len() == 0 {
            return Err(OracleError::EmptyReport);
        }
        let mechanism = report.statuses[0].status_mechanism;
        let ghost rv = report@;
        proof {
            lemma_upserted_wf(old(self)@.part(mechanism), rv, mechanism);
        }
        match mechanism {
            StatusMechanism::BitStatusList => upsert_into(&mut self.bsl, report),
            StatusMechanism::MerkleTree => upsert_into(&mut self.merkle, report),
        }
        Ok(())
    }

    /// Inserts a report whose key is not stored yet.
    pub fn insert_one(&mut self, report: RequestReport) -> (r: Result<(), OracleError>)
        requires
            old(self)@.wf(),
        ensures
            final(self)@.wf(),
            report@.statuses.len() == 0 ==> r == Err::<(), OracleError>(OracleError::EmptyReport),
            report@.statuses.len() > 0 && has_key(
                old(self)@.part(report_mechanism(report@)),
                report@.request_id,
                report@.oracle_id,
            ) ==> r == Err::<(), OracleError>(OracleError::ReportAlreadyExists),
            r is Err ==> final(self)@ == old(self)@,
            r is Ok <==> report@.statuses.len() > 0 && !has_key(
                old(self)@.part(report_mechanism(report@)),
                report@.request_id,
                report@.oracle_id,
            ),
            r is Ok ==> final(self)@ == old(self)@.with_part(
                report_mechanism(report@),
                old(self)@.part(report_mechanism(report@)).push(report@),
            ),
    {
        if report.statuses.len() == 0 {
            return Err(OracleError::EmptyReport);
        }
        let mechanism = report.statuses[0].status_mechanism;
        if self.is_existed(report.request_id.as_str(), report.oracle_id, mechanism) {
            return Err(OracleError::ReportAlreadyExists);
        }
        self.insert_or_update(report)
    }

    /// Replaces the statuses of the stored report with the key of `report`.
    pub fn update_one(&mut self, report: RequestReport) -> (r: Result<(), OracleError>)
        requires
            old(self)@.wf(),
        ensures
            final(self)@.wf(),
            report@.statuses.len() == 0 ==> r == Err::<(), OracleError>(OracleError::EmptyReport),
            report@.statuses.len() > 0 && !has_key(
                old(self)@.part(report_mechanism(report@)),
                report@.request_id,
                report@.oracle_id,
            ) ==> r == Err::<(), OracleError>(OracleError::ReportNotFound),
            r is Err ==> final(self)@ == old(self)@,
            r is Ok <==> report@.statuses.len() > 0 && has_key(
                old(self)@.part(report_mechanism(report@)),
                report@.request_id,
                report@.oracle_id,
            ),
            r is Ok ==> final(self)@ == old(self)@.with_part(
                report_mechanism(report@),
                upserted(old(self)@.part(report_mechanism(report@)), report@),
            ),
            report@.statuses.len() > 0 && has_key(
                old(self)@.part(report_mechanism(report@)),
                report@.request_id,
                report@.oracle_id,
            ) ==> {
                let m = report_mechanism(report@);
                let k = key_index(old(self)@.part(m), report@.request_id, report@.oracle_id);
                &&& final(self)@.part(m).len() == old(self)@.part(m).len()
                &&& final(self)@.part(m)[k].id == old(self)@.part(m)[k].id
                &&& final(self)@.part(m)[k].statuses == report@.statuses
            },
    {
        if report.statuses.len() == 0 {
            return Err(OracleError::EmptyReport);
        }
        let mechanism = report.statuses[0].status_mechanism;
        if !self.is_existed(report.request_id.as_str(), report.oracle_id, mechanism) {
            return Err(OracleError::ReportNotFound);
        }
        self.insert_or_update(report)
    }

    /// A copy of the stored report with the key of `report`, if any.
    pub fn find_one(&self, report: &RequestReport) -> (r: Result<Option<RequestReport>, OracleError>)
        requires
            self@.wf(),
        ensures
            report@.statuses.len() == 0 ==> r == Err::<Option<RequestReport>, OracleError>(
                OracleError::EmptyReport,
            ),
            report@.statuses.len() > 0 ==> r is Ok,
            r is Ok ==> {
                let s = self@.part(report_mechanism(report@));
                &&& (r->Ok_0 is Some <==> has_key(s, report@.request_id, report@.oracle_id))
                &&& r->Ok_0 is Some ==> r->Ok_0->Some_0@ == s[key_index(
                    s,
                    report@.request_id,
                    report@.oracle_id,
                )]
            },
    {
        if report.statuses.len() == 0 {
            return Err(OracleError::EmptyReport);
        }
        let mechanism = report.statuses[0].status_mechanism;
        let v = match mechanism {
            StatusMechanism::BitStatusList => &self.bsl,
            StatusMechanism::MerkleTree => &self.merkle,
        };
        match find_position(v, &report.request_id, report.oracle_id) {
            Some(i) => Ok(Some(v[i].duplicate())),
            None => Ok(None),
        }
    }

    /// Copies of the reports stored for a request under a mechanism, in storage order.
    pub fn get_reports_by_request_id(&self, request_id: &str, mechanism: StatusMechanism) -> (r: Vec<
        RequestReport,
    >)
        ensures
            report_views(r@) == reports_for(self@.part(mechanism), request_id@),
    {
        let key = String::from_str(request_id);
        match mechanism {
            StatusMechanism::BitStatusList => collect_in(&self.bsl, &key),
            StatusMechanism::MerkleTree => collect_in(&self.merkle, &key),
        }
    }

    /// Number of reports stored for a request under a mechanism: one per distinct oracle.
    pub fn get_num_reports_by_request_id(&self, request_id: &str, mechanism: StatusMechanism) -> (r:
        usize)
        ensures
            r == reports_for(self@.part(mechanism), request_id@).len(),
    {
        let key = String::from_str(request_id);
        match mechanism {
            StatusMechanism::BitStatusList => count_in(&self.bsl, &key),
            StatusMechanism::MerkleTree => count_in(&self.merkle, &key),
        }
    }
}

/// A request with the id is stored.
pub open spec fn has_request(s: Seq<OracleRequest>, request_id: Seq<char>) -> bool {
    exists|i: int| 0 <= i < s.len() && (#[trigger] s[i]).request_id@ == request_id
}

/// Position of the stored request with the id, when there is one.
pub open spec fn request_index(s: Seq<OracleRequest>, request_id: Seq<char>) -> int {
    choose|i: int| 0 <= i < s.len() && (#[trigger] s[i]).request_id@ == request_id
}

/// A partition of the request store: request ids are unique and every request has
/// the partition's mechanism.
pub open spec fn request_partition_wf(s: Seq<OracleRequest>, m: StatusMechanism) -> bool {
    &&& forall|i: int, j: int|
        #![trigger s[i], s[j]]
        0 <= i < s.len() && 0 <= j < s.len() && i != j ==> s[i].request_id@ != s[j].request_id@
    &&& forall|i: int| 0 <= i < s.len() ==> (#[trigger] s[i]).status_mechanism == m
}

/// The stored requests of each mechanism.
pub struct RequestStoreView {
    pub bsl: Seq<OracleRequest>,
    pub merkle: Seq<OracleRequest>,
    /// Ids of the requests under each mechanism that a fulfilment was handed out for.
    pub bsl_fulfilled: Seq<Seq<char>>,
    pub merkle_fulfilled: Seq<Seq<char>>,
}

impl RequestStoreView {
    pub open spec fn part(self, m: StatusMechanism) -> Seq<OracleRequest> {
        match m {
            StatusMechanism::BitStatusList => self.bsl,
            StatusMechanism::MerkleTree => self.merkle,
        }
    }

    pub open spec fn with_part(self, m: StatusMechanism, s: Seq<OracleRequest>) -> RequestStoreView {
        match m {
            StatusMechanism::BitStatusList => RequestStoreView { bsl: s, ..self },
            StatusMechanism::MerkleTree => RequestStoreView { merkle: s, ..self },
        }
    }

    pub open spec fn fulfilled(self, m: StatusMechanism) -> Seq<Seq<char>> {
        match m {
            StatusMechanism::BitStatusList => self.bsl_fulfilled,
            StatusMechanism::MerkleTree => self.merkle_fulfilled,
        }
    }

    pub open spec fn with_fulfilled(self, m: StatusMechanism, s: Seq<Seq<char>>) -> RequestStoreView {
        match m {
            StatusMechanism::BitStatusList => RequestStoreView { bsl_fulfilled: s, ..self },
            StatusMechanism::MerkleTree => RequestStoreView { merkle_fulfilled: s, ..self },
        }
    }

    /// A fulfilment of the request was handed out and not released.
    pub open spec fn is_fulfilled(self, request_id: Seq<char>, m: StatusMechanism) -> bool {
        self.fulfilled(m).contains(request_id)
    }

    pub open spec fn wf(self) -> bool {
        request_partition_wf(self.bsl, StatusMechanism::BitStatusList) && request_partition_wf(
            self.merkle,
            StatusMechanism::MerkleTree,
        )
    }

    /// The stored request with the id under the mechanism, when there is one.
    pub open spec fn lookup(self, request_id: Seq<char>, m: StatusMechanism) -> Option<OracleRequest> {
        if has_request(self.part(m), request_id) {
            Some(self.part(m)[request_index(self.part(m), request_id)])
        } else {
            None
        }
    }
}

/// The requests this node has observed, one partition per status mechanism, at most
/// one per request id in each.
pub struct OracleRequestService {
    bsl: Vec<OracleRequest>,
    merkle: Vec<OracleRequest>,
    bsl_fulfilled: Vec<String>,
    merkle_fulfilled: Vec<String>,
}

pub open spec fn text_views(v: Seq<String>) -> Seq<Seq<char>> {
    v.map_values(|t: String| t@)
}

impl View for OracleRequestService {
    type V = RequestStoreView;

    closed spec fn view(&self) -> RequestStoreView {
        RequestStoreView {
            bsl: self.bsl@,
            merkle: self.merkle@,
            bsl_fulfilled: text_views(self.bsl_fulfilled@),
            merkle_fulfilled: text_views(self.merkle_fulfilled@),
        }
    }
}

fn contains_text(v: &Vec<String>, t: &String) -> (r: bool)
    ensures
        r == text_views(v@).contains(t@),
{
    let mut i: usize = 0;
    while i < v.len()
        invariant
            i <= v@.len(),
            forall|j: int| 0 <= j < i ==> (#[trigger] v@[j])@ != t@,
        decreases v@.len() - i,
    {
        if v[i] == *t {
            assert(text_views(v@)[i as int] == t@);
            return true;
        }
        i = i + 1;
    }
    proof {
        if text_views(v@).contains(t@) {
            let j = choose|j: int| 0 <= j < text_views(v@).len() && text_views(v@)[j] == t@;
            assert(v@[j]@ == t@);
        }
    }
    false
}

fn remove_text(v: &mut Vec<String>, t: &String)
    ensures
        forall|x: Seq<char>| #[trigger] text_views(final(v)@).contains(x) <==> (text_views(old(v)@).contains(x)
            && x != t@),
{
    let mut out: Vec<String> = Vec::new();
    let mut i: usize = 0;
    while i < v.len()
        invariant
            i <= v@.len(),
            v@ == old(v)@,
            forall|x: Seq<char>| #[trigger] text_views(out@).contains(x) <==> (text_views(
                v@.subrange(0, i as int),
            ).contains(x) && x != t@),
        decreases v@.len() - i,
    {
        let ghost before = out@;
        if v[i] != *t {
            out.push(v[i].clone());
        }
        proof {
            broadcast use vstd::seq_lib::lemma_seq_contains_after_push;

            let p = v@.subrange(0, i as int);
            let q = v@.subrange(0, i + 1);
            assert(q =~= p.push(v@[i as int]));
            assert(text_views(q) =~= text_views(p).push(v@[i as int]@));
            if v@[i as int]@ != t@ {
                assert(text_views(out@) =~= text_views(before).push(v@[i as int]@));
            } else {
                assert(out@ == before);
            }
        }
        i = i + 1;
    }
    assert(v@.subrange(0, v@.len() as int) =~= v@);
    *v = out;
}

fn find_request(v: &Vec<OracleRequest>, request_id: &String) -> (r: Option<usize>)
    requires
        forall|i: int, j: int|
            #![trigger v@[i], v@[j]]
            0 <= i < v@.len() && 0 <= j < v@.len() && i != j ==> v@[i].request_id@
                != v@[j].request_id@,
    ensures
        r is Some <==> has_request(v@, request_id@),
        r is Some ==> r->Some_0 as int == request_index(v@, request_id@) && r->Some_0 < v@.len(),
{
    let mut i: usize = 0;
    while i < v.len()
        invariant
            i <= v@.len(),
            forall|a: int, b: int|
                #![trigger v@[a], v@[b]]
                0 <= a < v@.len() && 0 <= b < v@.len() && a != b ==> v@[a].request_id@
                    != v@[b].request_id@,
            forall|j: int| 0 <= j < i ==> (#[trigger] v@[j]).request_id@ != request_id@,
        decreases v@.len() - i,
    {
        if v[i].request_id == *request_id {
            proof {
                let k = request_index(v@, request_id@);
                assert(v@[i as int].request_id@ == request_id@);
                assert(v@[k].request_id@ == request_id@);
                assert(v@[k] == v@[k] && v@[i as int] == v@[i as int]);
            }
            return Some(i);
        }
        i = i + 1;
    }
    None
}

impl OracleRequestService {
    pub fn new() -> (r: OracleRequestService)
        ensures
            r@.bsl == Seq::<OracleRequest>::empty(),
            r@.merkle == Seq::<OracleRequest>::empty(),
            r@.bsl_fulfilled == Seq::<Seq<char>>::empty(),
            r@.merkle_fulfilled == Seq::<Seq<char>>::empty(),
            r@.wf(),
    {
        let r = OracleRequestService {
            bsl: Vec::new(),
            merkle: Vec::new(),
            bsl_fulfilled: Vec::new(),
            merkle_fulfilled: Vec::new(),
        };
        assert(r@.bsl =~= Seq::<OracleRequest>::empty());
        assert(r@.merkle =~= Seq::<OracleRequest>::empty());
        assert(r@.bsl_fulfilled =~= Seq::<Seq<char>>::empty());
        assert(r@.merkle_fulfilled =~= Seq::<Seq<char>>::empty());
        r
    }

    /// Whether a request with the id of `request` is stored under its mechanism.
    pub fn is_existed(&self, request: &OracleRequest) -> (r: bool)
        requires
            self@.wf(),
        ensures
            r == has_request(self@.part(request.status_mechanism), request.request_id@),
    {
        match request.status_mechanism {
            StatusMechanism::BitStatusList => find_request(&self.bsl, &request.request_id).is_some(),
            StatusMechanism::MerkleTree => find_request(&self.merkle, &request.request_id).is_some(),
        }
    }

    /// Stores a request once: a request whose id is already stored is left as it is,
    /// which is no failure. Says whether the request was added.
    pub fn insert_one(&mut self, request: OracleRequest) -> (r: bool)
        requires
            old(self)@.wf(),
        ensures
            final(self)@.wf(),
            r == !has_request(old(self)@.part(request.status_mechanism), request.request_id@),
            r ==> final(self)@ == old(self)@.with_part(
                request.status_mechanism,
                old(self)@.part(request.status_mechanism).push(request),
            ),
            !r ==> final(self)@ == old(self)@,
    {
        if self.is_existed(&request) {
            return false;
        }
        let ghost m = request.status_mechanism;
        let ghost s = old(self)@.part(m);
        let ghost q = request;
        match request.status_mechanism {
            StatusMechanism::BitStatusList => self.bsl.push(request),
            StatusMechanism::MerkleTree => self.merkle.push(request),
        }
        proof {
            let u = s.push(q);
            assert(self@.part(m) == u);
            assert forall|i: int, j: int|
                #![trigger u[i], u[j]]
                0 <= i < u.len() && 0 <= j < u.len() && i != j implies u[i].request_id@
                != u[j].request_id@ by {
                if i < s.len() && j < s.len() {
                    assert(s[i] == s[i] && s[j] == s[j]);
                } else if i < s.len() {
                    assert(s[i] == s[i]);
                } else {
                    assert(s[j] == s[j]);
                }
            }
            assert forall|i: int| 0 <= i < u.len() implies (#[trigger] u[i]).status_mechanism
                == m by {
                if i < s.len() {
                    assert(s[i] == s[i]);
                }
            }
        }
        true
    }

    /// Whether a fulfilment of the request was handed out and not released.
    pub fn is_fulfilled(&self, request_id: &str, mechanism: StatusMechanism) -> (r: bool)
        ensures
            r == self@.is_fulfilled(request_id@, mechanism),
    {
        let key = String::from_str(request_id);
        match mechanism {
            StatusMechanism::BitStatusList => contains_text(&self.bsl_fulfilled, &key),
            StatusMechanism::MerkleTree => contains_text(&self.merkle_fulfilled, &key),
        }
    }

    /// Records that a fulfilment of the request was handed out.
    pub fn mark_fulfilled(&mut self, request_id: &str, mechanism: StatusMechanism)
        requires
            old(self)@.wf(),
        ensures
            final(self)@.wf(),
            final(self)@ == old(self)@.with_fulfilled(
                mechanism,
                old(self)@.fulfilled(mechanism).push(request_id@),
            ),
    {
        let key = String::from_str(request_id);
        match mechanism {
            StatusMechanism::BitStatusList => self.bsl_fulfilled.push(key),
            StatusMechanism::MerkleTree => self.merkle_fulfilled.push(key),
        }
        assert(self@.fulfilled(mechanism) =~= old(self)@.fulfilled(mechanism).push(request_id@));
        assert(self@ =~= old(self)@.with_fulfilled(
            mechanism,
            old(self)@.fulfilled(mechanism).push(request_id@),
        ));
    }

    /// Forgets that a fulfilment of the request was handed out, so that the next check
    /// hands out another: for when submitting it failed.
    pub fn release_fulfilled(&mut self, request_id: &str, mechanism: StatusMechanism)
        requires
            old(self)@.wf(),
        ensures
            final(self)@.wf(),
            final(self)@.bsl == old(self)@.bsl,
            final(self)@.merkle == old(self)@.merkle,
            final(self)@.fulfilled(mechanism.other()) == old(self)@.fulfilled(mechanism.other()),
            forall|x: Seq<char>|
                #[trigger] final(self)@.is_fulfilled(x, mechanism) <==> (old(self)@.is_fulfilled(
                    x,
                    mechanism,
                ) && x != request_id@),
    {
        let key = String::from_str(request_id);
        match mechanism {
            StatusMechanism::BitStatusList => remove_text(&mut self.bsl_fulfilled, &key),
            StatusMechanism::MerkleTree => remove_text(&mut self.merkle_fulfilled, &key),
        }
    }

    /// The stored request with the id under the mechanism.
    pub fn find_one(&self, request_id: &str, mechanism: StatusMechanism) -> (r: Option<&OracleRequest>)
        requires
            self@.wf(),
        ensures
            r is Some <==> self@.lookup(request_id@, mechanism) is Some,
            r is Some ==> *r->Some_0 == self@.lookup(request_id@, mechanism)->Some_0,
    {
        let key = String::from_str(request_id);
        let v = match mechanism {
            StatusMechanism::BitStatusList => &self.bsl,
            StatusMechanism::MerkleTree => &self.merkle,
        };
        match find_request(v, &key) {
            Some(i) => Some(&v[i]),
            None => None,
        }
    }
}

/// After an upsert the report is among the stored ones.
pub proof fn lemma_upserted_holds(s: Seq<ReportView>, r: ReportView)
    requires
        keys_unique(s),
    ensures
        exists|i: int|
            0 <= i < upserted(s, r).len() && (#[trigger] upserted(s, r)[i]).request_id
                == r.request_id,
{
    lemma_upserted_unique(s, r);
    let u = upserted(s, r);
    let k = key_index(u, r.request_id, r.oracle_id);
    assert(u[k].request_id == r.request_id);
}

/// Upserting two reports with one key leaves exactly one report for the key: the
/// second overwrites the first rather than adding to the store, and the report keeps
/// the storage id it got first.
pub proof fn lemma_report_upsert_idempotent(s: Seq<ReportView>, r1: ReportView, r2: ReportView)
    requires
        keys_unique(s),
        r1.request_id == r2.request_id,
        r1.oracle_id == r2.oracle_id,
    ensures
        upserted(upserted(s, r1), r2).len() == upserted(s, r1).len(),
        upserted(upserted(s, r1), r2) == upserted(s, keep_id(stored_form(s, r1), r2)),
        exactly_one(upserted(upserted(s, r1), r2), r2.request_id, r2.oracle_id),
        ({
            let u = upserted(upserted(s, r1), r2);
            u[key_index(u, r2.request_id, r2.oracle_id)] == keep_id(stored_form(s, r1), r2)
        }),
{
    lemma_upserted_unique(s, r1);
    let u1 = upserted(s, r1);
    lemma_upserted_unique(u1, r2);
    let k1 = key_index(u1, r1.request_id, r1.oracle_id);
    assert(u1[k1] == u1[k1]);
    lemma_key_index(u1, k1, r2.request_id, r2.oracle_id);
    assert(upserted(u1, r2) =~= upserted(s, keep_id(stored_form(s, r1), r2)));
}

/// An upsert keeps keys unique, leaves exactly one report with the key of `r`, namely
/// `r` with the storage id the key had, and adds a report only when the key was not stored.
pub proof fn lemma_upserted_unique(s: Seq<ReportView>, r: ReportView)
    requires
        keys_unique(s),
    ensures
        keys_unique(upserted(s, r)),
        exactly_one(upserted(s, r), r.request_id, r.oracle_id),
        upserted(s, r)[key_index(upserted(s, r), r.request_id, r.oracle_id)] == stored_form(s, r),
        has_key(s, r.request_id, r.oracle_id) ==> upserted(s, r).len() == s.len(),
        !has_key(s, r.request_id, r.oracle_id) ==> upserted(s, r).len() == s.len() + 1,
{
    let u = upserted(s, r);
    let k = if has_key(s, r.request_id, r.oracle_id) {
        key_index(s, r.request_id, r.oracle_id)
    } else {
        s.len() as int
    };
    assert(u[k] == stored_form(s, r));
    assert forall|i: int, j: int|
        #![trigger u[i], u[j]]
        0 <= i < u.len() && 0 <= j < u.len() && i != j implies !same_key(
            u[i],
            u[j].request_id,
            u[j].oracle_id,
        ) by {
        if i != k && j != k {
            assert(u[i] == s[i] && u[j] == s[j]);
        } else if i == k {
            assert(u[j] == s[j]);
            if same_key(s[j], r.request_id, r.oracle_id) {
                assert(s[k] == s[k]);
            }
        } else {
            assert(u[i] == s[i]);
            if same_key(s[i], r.request_id, r.oracle_id) {
                assert(s[k] == s[k]);
            }
        }
    }
    lemma_key_index(u, k, r.request_id, r.oracle_id);
    assert forall|i: int, j: int|
        0 <= i < u.len() && 0 <= j < u.len() && same_key(#[trigger] u[i], r.request_id, r.oracle_id)
            && same_key(#[trigger] u[j], r.request_id, r.oracle_id) implies i == j by {}
}

} // verus!
