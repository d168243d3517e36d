//! Safety properties of Raft that span the node's operations: log
//! matching after a successful AppendEntries, a single vote per term, and
//! commit indices that never move backwards on a leader.

use vstd::prelude::*;
use crate::raft::log::{last_term, LogView, LogEntryView, last_index, spec_matches, term_at, holds_index, entry_at, log_wf, truncated, consecutive_prefix, entry_views};
use crate::raft::message::{AppendEntriesRequest, VoteRequest};
use crate::raft::node::{
    AppendCheck, append_check, append_outcome, conflict_scan, lemma_conflict_scan_bounds, log_after_conflict,
    new_entries, append_start, commit_advanced, grants_vote,
};
use crate::raft::state::{LeaderState, commit_from, match_values};
use crate::order::{count_at_least, lemma_count_le_len, lemma_sorted_descending_count};

verus! {

/// What the scan for a conflict tells: every entry it passed matches the
/// log; a conflict is where an entry first disagrees.
proof fn lemma_scan_passes(v: LogView, prev: int, ents: Seq<LogEntryView>, i: int)
    requires
        0 <= i,
    ensures
        conflict_scan(v, prev, ents, i) matches Some(c) ==> {
            &&& forall|j: int| i <= j < c - prev - 1 ==> #[trigger] spec_matches(v, prev + 1 + j, ents[j].term)
            &&& prev + 1 + i <= c
        },
        conflict_scan(v, prev, ents, i) is None ==> forall|j: int|
            i <= j < ents.len() && prev + 1 + j <= last_index(v) ==> #[trigger] spec_matches(
                v,
                prev + 1 + j,
                ents[j].term,
            ),
    decreases ents.len() - i,
{
    if i < ents.len() && prev + 1 + i <= last_index(v) && spec_matches(v, prev + 1 + i, ents[i].term) {
        lemma_scan_passes(v, prev, ents, i + 1);
        if conflict_scan(v, prev, ents, i + 1) is None {
            assert forall|j: int|
                i <= j < ents.len() && prev + 1 + j <= last_index(v) implies #[trigger] spec_matches(
                v,
                prev + 1 + j,
                ents[j].term,
            ) by {
                if j == i {
                } else {
                    assert(i + 1 <= j);
                }
            }
        }
    } else if i < ents.len() && prev + 1 + i > last_index(v) {
        assert forall|j: int|
            i <= j < ents.len() && prev + 1 + j <= last_index(v) implies #[trigger] spec_matches(
            v,
            prev + 1 + j,
            ents[j].term,
        ) by {
        }
    }
}

/// The consecutive prefix is no longer than the entries.
proof fn lemma_prefix_within(s: Seq<LogEntryView>, start: int)
    ensures
        0 <= consecutive_prefix(s, start) <= s.len(),
    decreases s.len(),
{
    if s.len() > 0 && s[0].index == start {
        lemma_prefix_within(s.drop_first(), start + 1);
    }
}

/// Log matching: after an AppendEntries request is accepted in full, the
/// log holds, at the index of each of the request's entries, an entry of
/// that entry's term; and the entry the request was anchored on is still
/// there with its term.
pub proof fn law_log_matching(v: LogView, request: AppendEntriesRequest, l: LogView)
    requires
        log_wf(v),
        append_check(v, request.prev_log_index as int, request.prev_log_term) == AppendCheck::Consistent,
        append_outcome(v, request) == Some((l, true)),
    ensures
        forall|i: int|
            0 <= i < request.entries@.len() ==> #[trigger] spec_matches(
                l,
                request.prev_log_index + 1 + i,
                request.entries@[i]@.term,
            ),
        request.prev_log_index > 0 ==> spec_matches(l, request.prev_log_index as int, request.prev_log_term),
{
    let ents = entry_views(request.entries@);
    let prev = request.prev_log_index as int;
    let c = conflict_scan(v, prev, ents, 0);
    lemma_scan_passes(v, prev, ents, 0);
    lemma_conflict_scan_bounds(v, prev, ents, 0);
    let l1 = log_after_conflict(v, c);
    let add = new_entries(v, prev, ents, c);
    let k = consecutive_prefix(add, last_index(l1) + 1);
    let l2 = LogView { entries: l1.entries + add.take(k), ..l1 };
    lemma_prefix_within(add, last_index(l1) + 1);
    assert(!(c is Some && c->0 < v.first_index));
    assert(k == add.len());
    assert(l == commit_advanced(l2, request.leader_commit));
    assert(l.entries == l2.entries && l.first_index == l2.first_index);
    let start = append_start(v, c);
    assert(last_index(l1) + 1 == start) by {
        if c is Some {
            assert(c->0 >= v.first_index);
        }
    }
    assert(l1.first_index == v.first_index);
    assert forall|i: int| 0 <= i < request.entries@.len() implies #[trigger] spec_matches(
        l,
        request.prev_log_index + 1 + i,
        request.entries@[i]@.term,
    ) by {
        let idx = prev + 1 + i;
        assert(ents[i] == request.entries@[i]@);
        if idx < start {
            assert(spec_matches(v, idx, ents[i].term)) by {
                if c is Some {
                    assert(i < c->0 - prev - 1);
                } else {
                    assert(idx <= last_index(v));
                }
            }
            assert(idx != 0);
            assert(holds_index(v, idx));
            assert(holds_index(l1, idx));
            assert(entry_at(l1, idx) == entry_at(v, idx));
            assert(l.entries[idx - l.first_index] == l1.entries[idx - l1.first_index]);
        } else {
            let j = idx - start;
            let skip = start - prev - 1;
            assert(0 <= skip);
            assert(skip + j == i);
            assert(skip < ents.len());
            assert(add == ents.skip(skip));
            assert(add[j] == ents[i]);
            assert(l.entries[idx - l.first_index] == add.take(k)[j]);
        }
    }
    if prev > 0 {
        assert(spec_matches(v, prev, request.prev_log_term));
        assert(holds_index(v, prev));
        assert(prev < start) by {
            if c is Some {
                assert(prev + 1 <= c->0);
            }
        }
        assert(holds_index(l1, prev));
        assert(l.entries[prev - l.first_index] == l1.entries[prev - l1.first_index]);
        assert(entry_at(l1, prev) == entry_at(v, prev));
    }
}

/// One vote per term: a node that voted for a candidate grants, in the
/// same term, no vote to another.
pub proof fn law_one_vote_per_term(term: u64, c: u64, v: LogView, request: VoteRequest)
    requires
        grants_vote(term, Some(c), v, request),
    ensures
        request.candidate_id == c,
{
}

/// A leader's commit index never moves backwards: the index it derives
/// from its peers' match indices is at least its current one.
pub proof fn law_commit_never_regresses(values: Seq<u64>, current: u64, majority: int)
    requires
        majority >= 1,
    ensures
        commit_from(values, current, majority) >= current,
{
}

/// A leader commits what a majority holds: when at least `majority` of
/// its peers' match indices reach `m`, beyond the current commit index,
/// the commit index it derives reaches `m`; the derived index never falls
/// below the current one; and when it moves beyond the current one, at
/// least `majority` match indices reach the new index.
pub proof fn law_commit_follows_majority(l: LeaderState, current: u64, majority: int, m: u64)
    requires
        majority >= 1,
    ensures
        m > current && count_at_least(match_values(l), m) >= majority ==> commit_from(
            match_values(l),
            current,
            majority,
        ) >= m,
        commit_from(match_values(l), current, majority) >= current,
        commit_from(match_values(l), current, majority) > current ==> count_at_least(
            match_values(l),
            commit_from(match_values(l), current, majority),
        ) >= majority,
{
    let vals = match_values(l);
    lemma_count_le_len(vals, m);
    if vals.len() >= majority {
        lemma_sorted_descending_count(vals, majority, m);
        let c = commit_from(vals, current, majority);
        lemma_sorted_descending_count(vals, majority, c);
    }
}

/// The election restriction: among requests of a current term from a
/// candidate the node may vote for, a candidate whose last log term is
/// newer than the node's gets the vote whatever its last index, one whose
/// last log term is older never does, and with equal last terms the longer
/// or equal log wins. Granting is monotone in (last term, last index): a
/// request granted stays granted for any candidate log at least as up to
/// date.
pub proof fn law_election_restriction(
    current: u64,
    voted_for: Option<u64>,
    v: LogView,
    request: VoteRequest,
    other: VoteRequest,
)
    requires
        request.term >= current,
        voted_for is None || voted_for == Some(request.candidate_id),
    ensures
        request.last_log_term > last_term(v) ==> grants_vote(current, voted_for, v, request),
        request.last_log_term < last_term(v) ==> !grants_vote(current, voted_for, v, request),
        request.last_log_term == last_term(v) ==> (grants_vote(current, voted_for, v, request) <==> request.last_log_index
            >= last_index(v)),
        grants_vote(current, voted_for, v, request) && other.term == request.term && other.candidate_id
            == request.candidate_id && (other.last_log_term > request.last_log_term || (other.last_log_term
            == request.last_log_term && other.last_log_index >= request.last_log_index)) ==> grants_vote(
            current,
            voted_for,
            v,
            other,
        ),
{
}

} // verus!
