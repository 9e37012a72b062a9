use vstd::multiset::Multiset;
use vstd::prelude::*;

use crate::errors::OracleError;
use crate::status::StatusState;

verus! {

broadcast use vstd::seq_lib::group_to_multiset_ensures, vstd::multiset::group_multiset_axioms;

/// Times never decrease along the sequence.
pub open spec fn sorted_by_time(s: Seq<StatusState>) -> bool {
    forall|i: int, j: int| 0 <= i < j < s.len() ==> #[trigger] s[i].time <= #[trigger] s[j].time
}

/// One step of a status chain: time does not go back and no set bit is cleared.
pub open spec fn valid_step(prev_time: u64, prev_status: u64, time: u64, status: u64) -> bool {
    time >= prev_time && status & prev_status == prev_status
}

/// The outcome of checking `s` against the state `(time, status)` that precedes it:
/// the first step that goes back in time or clears a bit decides the error.
pub open spec fn chain_check(time: u64, status: u64, s: Seq<StatusState>) -> Result<(), OracleError>
    decreases s.len(),
{
    if s.len() == 0 {
        Ok(())
    } else if s[0].time < time {
        Err(OracleError::StatusesNotSortedByTime)
    } else if s[0].status & status != status {
        Err(OracleError::StatusBitCleared)
    } else {
        chain_check(s[0].time, s[0].status, s.drop_first())
    }
}

/// Time of the state that precedes position `i` of the chain.
pub open spec fn time_before(time: u64, s: Seq<StatusState>, i: int) -> u64 {
    if i == 0 { time } else { s[i - 1].time }
}

/// Bitmask of the state that precedes position `i` of the chain.
pub open spec fn status_before(status: u64, s: Seq<StatusState>, i: int) -> u64 {
    if i == 0 { status } else { s[i - 1].status }
}

/// Every consecutive pair of the chain, starting from `(time, status)`, is a valid step.
pub open spec fn chain_valid(time: u64, status: u64, s: Seq<StatusState>) -> bool {
    forall|i: int|
        0 <= i < s.len() ==> valid_step(
            time_before(time, s, i),
            status_before(status, s, i),
            #[trigger] s[i].time,
            s[i].status,
        )
}

/// Sorts statuses by ascending time; statuses of equal time keep their order.
pub fn sort_by_time(statuses: Vec<StatusState>) -> (r: Vec<StatusState>)
    ensures
        sorted_by_time(r@),
        r@.to_multiset() == statuses@.to_multiset(),
{
    let mut rest = statuses;
    let mut out: Vec<StatusState> = Vec::new();
    while rest.len() > 0
        invariant
            sorted_by_time(out@),
            out@.to_multiset().add(rest@.to_multiset()) == statuses@.to_multiset(),
        decreases rest.len(),
    {
        let ghost before = rest@;
        let s = rest.pop().unwrap();
        proof {
            assert(before =~= rest@.push(s));
        }
        let mut j: usize = 0;
        while j < out.len() && out[j].time < s.time
            invariant
                j <= out.len(),
                forall|k: int| 0 <= k < j ==> #[trigger] out@[k].time < s.time,
            decreases out.len() - j,
        {
            j = j + 1;
        }
        let ghost old_out = out@;
        out.insert(j, s);
        proof {
            assert forall|a: int, b: int| 0 <= a < b < out@.len() implies #[trigger] out@[a].time
                <= #[trigger] out@[b].time by {
                if b < j {
                } else if b == j {
                    assert(out@[a] == old_out[a]);
                } else if a < j {
                    assert(out@[b] == old_out[b - 1]);
                    if j < old_out.len() {
                        assert(old_out[j as int].time <= old_out[b - 1].time);
                    }
                } else if a == j {
                    assert(out@[b] == old_out[b - 1]);
                    assert(old_out[j as int].time <= old_out[b - 1].time);
                } else {
                    assert(out@[a] == old_out[a - 1]);
                    assert(out@[b] == old_out[b - 1]);
                }
            }
        }
    }
    proof {
        assert(rest@.to_multiset() =~= Multiset::empty());
        assert(out@.to_multiset().add(Multiset::empty()) =~= out@.to_multiset());
    }
    out
}

/// The times of the statuses are pairwise distinct.
pub open spec fn distinct_times(s: Seq<StatusState>) -> bool {
    forall|i: int, j: int|
        #![trigger s[i], s[j]]
        0 <= i < s.len() && 0 <= j < s.len() && i != j ==> s[i].time != s[j].time
}

/// Statuses of pairwise distinct times keep that property in any arrangement.
pub proof fn lemma_distinct_times_transfer(a: Seq<StatusState>, b: Seq<StatusState>)
    requires
        distinct_times(a),
        a.to_multiset() == b.to_multiset(),
    ensures
        distinct_times(b),
{
    assert(a.no_duplicates()) by {
        assert forall|i: int, j: int| 0 <= i < a.len() && 0 <= j < a.len() && i != j implies a[i]
            != a[j] by {
            assert(a[i].time != a[j].time);
        }
    }
    a.lemma_multiset_has_no_duplicates();
    b.lemma_multiset_has_no_duplicates_conv();
    assert forall|i: int, j: int|
        #![trigger b[i], b[j]]
        0 <= i < b.len() && 0 <= j < b.len() && i != j implies b[i].time != b[j].time by {
        assert(b.contains(b[i]));
        assert(b.contains(b[j]));
        assert(b.to_multiset().count(b[i]) > 0);
        assert(b.to_multiset().count(b[j]) > 0);
        assert(a.contains(b[i]));
        assert(a.contains(b[j]));
        let p = choose|p: int| 0 <= p < a.len() && a[p] == b[i];
        let q = choose|q: int| 0 <= q < a.len() && a[q] == b[j];
        assert(b[i] != b[j]);
        assert(a[p] == a[p] && a[q] == a[q]);
    }
}

/// Two time-sorted arrangements of the same statuses, of pairwise distinct times, are
/// the same list.
pub proof fn lemma_sorted_arrangement_unique(a: Seq<StatusState>, b: Seq<StatusState>)
    requires
        sorted_by_time(a),
        sorted_by_time(b),
        a.to_multiset() == b.to_multiset(),
        distinct_times(a),
    ensures
        a == b,
    decreases a.len(),
{
    vstd::seq_lib::to_multiset_len(a);
    vstd::seq_lib::to_multiset_len(b);
    if a.len() == 0 {
        assert(a =~= b);
    } else {
        lemma_distinct_times_transfer(a, b);
        assert(a.contains(a[0]));
        assert(a.to_multiset().count(a[0]) > 0);
        assert(b.contains(a[0]));
        assert(b.contains(b[0]));
        assert(b.to_multiset().count(b[0]) > 0);
        assert(a.contains(b[0]));
        let q = choose|q: int| 0 <= q < b.len() && b[q] == a[0];
        let p = choose|p: int| 0 <= p < a.len() && a[p] == b[0];
        if q > 0 {
            assert(b[0].time <= b[q].time);
        }
        if p > 0 {
            assert(a[0].time <= a[p].time);
            assert(a[0] == a[0] && a[p] == a[p]);
        }
        assert(a[0] == b[0]);
        vstd::seq_lib::to_multiset_remove(a, 0);
        vstd::seq_lib::to_multiset_remove(b, 0);
        assert(a.remove(0) =~= a.drop_first());
        assert(b.remove(0) =~= b.drop_first());
        let a1 = a.drop_first();
        let b1 = b.drop_first();
        assert forall|i: int, j: int| 0 <= i < j < a1.len() implies #[trigger] a1[i].time
            <= #[trigger] a1[j].time by {
            assert(a[i + 1].time <= a[j + 1].time);
        }
        assert forall|i: int, j: int| 0 <= i < j < b1.len() implies #[trigger] b1[i].time
            <= #[trigger] b1[j].time by {
            assert(b[i + 1].time <= b[j + 1].time);
        }
        assert forall|i: int, j: int|
            #![trigger a1[i], a1[j]]
            0 <= i < a1.len() && 0 <= j < a1.len() && i != j implies a1[i].time != a1[j].time by {
            assert(a[i + 1] == a1[i] && a[j + 1] == a1[j]);
        }
        lemma_sorted_arrangement_unique(a1, b1);
        assert(a =~= b) by {
            assert forall|i: int| 0 <= i < a.len() implies a[i] == b[i] by {
                if i > 0 {
                    assert(a[i] == a1[i - 1] && b[i] == b1[i - 1]);
                }
            }
        }
    }
}

/// Whether `(time, status)` may follow `(prev_time, prev_status)` in a chain.
pub fn is_valid_transition(prev_time: u64, prev_status: u64, time: u64, status: u64) -> (r: bool)
    ensures
        r == valid_step(prev_time, prev_status, time, status),
{
    time >= prev_time && status & prev_status == prev_status
}

/// Checks a time-ordered status list against the last state known on chain.
pub fn validate_statuses(last: &StatusState, statuses: &Vec<StatusState>) -> (r: Result<(), OracleError>)
    ensures
        r == chain_check(last.time, last.status, statuses@),
{
    validate_chain(last.time, last.status, statuses)
}

/// Checks a status list against the state `(time, status)` that precedes it.
pub fn validate_chain(time: u64, status: u64, statuses: &Vec<StatusState>) -> (r: Result<(), OracleError>)
    ensures
        r == chain_check(time, status, statuses@),
{
    let mut prev_time = time;
    let mut prev_status = status;
    let mut i: usize = 0;
    assert(statuses@.subrange(0, statuses@.len() as int) =~= statuses@);
    while i < statuses.len()
        invariant
            i <= statuses@.len(),
            chain_check(time, status, statuses@) == chain_check(
                prev_time,
                prev_status,
                statuses@.subrange(i as int, statuses@.len() as int),
            ),
        decreases statuses@.len() - i,
    {
        let ghost tail = statuses@.subrange(i as int, statuses@.len() as int);
        assert(tail.drop_first() =~= statuses@.subrange(i + 1, statuses@.len() as int));
        let status = &statuses[i];
        if status.time < prev_time {
            return Err(OracleError::StatusesNotSortedByTime);
        }
        if status.status & prev_status != prev_status {
            return Err(OracleError::StatusBitCleared);
        }
        prev_time = status.time;
        prev_status = status.status;
        i = i + 1;
    }
    assert(statuses@.subrange(i as int, statuses@.len() as int) =~= Seq::<StatusState>::empty());
    Ok(())
}

/// Checking a chain succeeds exactly when every consecutive pair in it,
/// starting from the preceding state, is a valid step.
pub proof fn lemma_chain_check_ok(time: u64, status: u64, s: Seq<StatusState>)
    ensures
        chain_check(time, status, s) is Ok <==> chain_valid(time, status, s),
    decreases s.len(),
{
    if s.len() > 0 {
        let rest = s.drop_first();
        lemma_chain_check_ok(s[0].time, s[0].status, rest);
        if chain_valid(time, status, s) {
            assert(valid_step(time, status, s[0].time, s[0].status));
            assert forall|i: int| 0 <= i < rest.len() implies valid_step(
                time_before(s[0].time, rest, i),
                status_before(s[0].status, rest, i),
                #[trigger] rest[i].time,
                rest[i].status,
            ) by {
                assert(rest[i] == s[i + 1]);
                assert(valid_step(
                    time_before(time, s, i + 1),
                    status_before(status, s, i + 1),
                    s[i + 1].time,
                    s[i + 1].status,
                ));
            }
        }
        if chain_check(time, status, s) is Ok {
            assert forall|i: int| 0 <= i < s.len() implies valid_step(
                time_before(time, s, i),
                status_before(status, s, i),
                #[trigger] s[i].time,
                s[i].status,
            ) by {
                if i > 0 {
                    assert(s[i] == rest[i - 1]);
                    assert(valid_step(
                        time_before(s[0].time, rest, i - 1),
                        status_before(s[0].status, rest, i - 1),
                        rest[i - 1].time,
                        rest[i - 1].status,
                    ));
                }
            }
        }
    }
}

/// For two consecutive statuses `(t1, s1)` and `(t2, s2)`, validation passes
/// exactly when `t2 >= t1` and `s2 & s1 == s1`; it fails when time goes back
/// or a bit of `s1` is cleared.
pub proof fn lemma_consecutive_statuses(t1: u64, s1: u64, next: StatusState)
    ensures
        chain_check(t1, s1, seq![next]) is Ok <==> (next.time >= t1 && next.status & s1 == s1),
        next.time < t1 ==> chain_check(t1, s1, seq![next]) == Err::<(), OracleError>(
            OracleError::StatusesNotSortedByTime,
        ),
        next.time >= t1 && next.status & s1 != s1 ==> chain_check(t1, s1, seq![next]) == Err::<
            (),
            OracleError,
        >(OracleError::StatusBitCleared),
{
    let s = seq![next];
    assert(s.drop_first() =~= Seq::<StatusState>::empty());
    assert(chain_check(next.time, next.status, s.drop_first()) == Ok::<(), OracleError>(()));
}

} // verus!
