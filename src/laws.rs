use crate::delivery::{
    enqueue_all, lemma_enqueue_keeps_unique, new_entry, after_claim, after_outcome, entry_index, fate, has_pair, is_first_unlocked, next_claim,
    pairs_unique, retried, same_pair, DeliveryOutcome, EntryFate, QueueEntry,
};
use crate::store::{
    accepted_response, commit, gate, has_key, key_index, key_matches, placeholder,
    publish_outcome, store_wf, ContentView, GateView, PublishError, StoreView,
};
use crate::idempotency::RecordView;
use vstd::prelude::*;

verus! {

pub open spec fn pair_of(e: QueueEntry) -> (u64, u128) {
    (e.issue_id, e.subscriber_id)
}

/// A worker run of at most `steps` claim-and-settle cycles in which the
/// transport fails, transiently, on every attempt for a pair in `failing`
/// and succeeds on every other: what is left in the queue, and the pairs
/// the transport was called for, in order.
pub open spec fn worker_run(
    q: Seq<QueueEntry>,
    steps: nat,
    failing: Set<(u64, u128)>,
    max_attempts: u32,
) -> (Seq<QueueEntry>, Seq<(u64, u128)>)
    decreases steps,
{
    if steps == 0 {
        (q, Seq::empty())
    } else {
        match next_claim(q) {
            None => (q, Seq::empty()),
            Some(i) => {
                let p = pair_of(q[i]);
                let outcome = if failing.contains(p) {
                    DeliveryOutcome::TransientFailure
                } else {
                    DeliveryOutcome::Delivered
                };
                let settled = after_outcome(after_claim(q), p.0, p.1, outcome, max_attempts);
                let (rest, calls) = worker_run(settled, (steps - 1) as nat, failing, max_attempts);
                (rest, seq![p] + calls)
            },
        }
    }
}

/// The transport calls one entry gets: one if its pair never fails, else
/// one per attempt it has left.
pub open spec fn calls_for(e: QueueEntry, failing: Set<(u64, u128)>, max_attempts: u32) -> Seq<
    (u64, u128),
> {
    if failing.contains(pair_of(e)) {
        Seq::new((max_attempts - e.n_retries) as nat, |k: int| pair_of(e))
    } else {
        seq![pair_of(e)]
    }
}

/// The transport calls of a whole queue, entry after entry.
pub open spec fn expected_calls(q: Seq<QueueEntry>, failing: Set<(u64, u128)>, max_attempts: u32) -> Seq<
    (u64, u128),
>
    decreases q.len(),
{
    if q.len() == 0 {
        Seq::empty()
    } else {
        calls_for(q[0], failing, max_attempts) + expected_calls(q.drop_first(), failing, max_attempts)
    }
}

/// The queue after `n` attempts on one pair, each a transient failure.
pub open spec fn fail_repeatedly(
    q: Seq<QueueEntry>,
    issue: u64,
    subscriber: u128,
    n: nat,
    max_attempts: u32,
) -> Seq<QueueEntry>
    decreases n,
{
    if n == 0 {
        q
    } else {
        after_outcome(
            fail_repeatedly(q, issue, subscriber, (n - 1) as nat, max_attempts),
            issue,
            subscriber,
            DeliveryOutcome::TransientFailure,
            max_attempts,
        )
    }
}

proof fn lemma_entry_index_is(q: Seq<QueueEntry>, i: int)
    requires
        pairs_unique(q),
        0 <= i < q.len(),
    ensures
        has_pair(q, q[i].issue_id, q[i].subscriber_id),
        entry_index(q, q[i].issue_id, q[i].subscriber_id) == i,
{
    assert(same_pair(q[i], q[i].issue_id, q[i].subscriber_id));
    let c = entry_index(q, q[i].issue_id, q[i].subscriber_id);
    if c != i {
        assert(!same_pair(q[c], q[i].issue_id, q[i].subscriber_id));
    }
}

proof fn lemma_outcome_keeps_unique(
    q: Seq<QueueEntry>,
    issue: u64,
    subscriber: u128,
    outcome: DeliveryOutcome,
    max_attempts: u32,
)
    requires
        pairs_unique(q),
    ensures
        pairs_unique(after_outcome(q, issue, subscriber, outcome, max_attempts)),
{
    let r = after_outcome(q, issue, subscriber, outcome, max_attempts);
    if has_pair(q, issue, subscriber) {
        let k = entry_index(q, issue, subscriber);
        assert forall|a: int, b: int|
            0 <= a < r.len() && 0 <= b < r.len() && a != b implies !same_pair(
            #[trigger] r[a],
            (#[trigger] r[b]).issue_id,
            r[b].subscriber_id,
        ) by {
            match fate(q[k], outcome, max_attempts) {
                EntryFate::Retried => {
                    assert(same_pair(r[a], q[a].issue_id, q[a].subscriber_id));
                    assert(same_pair(r[b], q[b].issue_id, q[b].subscriber_id));
                    assert(!same_pair(q[a], q[b].issue_id, q[b].subscriber_id));
                },
                _ => {
                    let a0 = if a < k { a } else { a + 1 };
                    let b0 = if b < k { b } else { b + 1 };
                    assert(r[a] == q[a0]);
                    assert(r[b] == q[b0]);
                    assert(!same_pair(q[a0], q[b0].issue_id, q[b0].subscriber_id));
                },
            }
        }
    }
}

proof fn lemma_first_is_claimed(q: Seq<QueueEntry>)
    requires
        q.len() > 0,
        !q[0].locked,
    ensures
        next_claim(q) == Some(0int),
        after_claim(q) == q.update(0, QueueEntry { locked: true, ..q[0] }),
{
    assert(is_first_unlocked(q, 0));
    let c = choose|c: int| is_first_unlocked(q, c);
    assert(c == 0) by {
        if c > 0 {
            assert(q[0].locked);
        }
    }
}

proof fn lemma_same_pairs_unique(q: Seq<QueueEntry>, r: Seq<QueueEntry>)
    requires
        pairs_unique(q),
        r.len() == q.len(),
        forall|i: int| 0 <= i < q.len() ==> same_pair(#[trigger] r[i], q[i].issue_id, q[i].subscriber_id),
    ensures
        pairs_unique(r),
{
    assert forall|a: int, b: int|
        0 <= a < r.len() && 0 <= b < r.len() && a != b implies !same_pair(
        #[trigger] r[a],
        (#[trigger] r[b]).issue_id,
        r[b].subscriber_id,
    ) by {
        assert(same_pair(r[a], q[a].issue_id, q[a].subscriber_id));
        assert(same_pair(r[b], q[b].issue_id, q[b].subscriber_id));
        assert(!same_pair(q[a], q[b].issue_id, q[b].subscriber_id));
    }
}

/// Drain completeness: a worker run over a queue of pending entries, in
/// which the pairs of `failing` fail on every attempt and all others
/// succeed, given as many cycles as it makes transport calls, leaves no
/// entry behind, and calls the transport entry by entry in queue order:
/// exactly once for each pair that never fails, and once per attempt left
/// for each pair that always fails.
pub proof fn lemma_drain_completeness(
    q: Seq<QueueEntry>,
    failing: Set<(u64, u128)>,
    max_attempts: u32,
)
    requires
        pairs_unique(q),
        forall|i: int| 0 <= i < q.len() ==> !(#[trigger] q[i]).locked,
        forall|i: int| 0 <= i < q.len() ==> (#[trigger] q[i]).n_retries < max_attempts,
    ensures
        ({
            let calls = expected_calls(q, failing, max_attempts);
            let (rest, made) = worker_run(q, calls.len(), failing, max_attempts);
            rest.len() == 0 && made == calls
        }),
    decreases q.len(), (if q.len() > 0 {
        max_attempts - q[0].n_retries
    } else {
        0
    }),
{
    let calls = expected_calls(q, failing, max_attempts);
    if q.len() == 0 {
        return;
    }
    let p = pair_of(q[0]);
    let n = calls.len();
    lemma_first_is_claimed(q);
    let claimed = after_claim(q);
    lemma_same_pairs_unique(q, claimed);
    lemma_entry_index_is(claimed, 0);
    let tail = q.drop_first();
    assert(pairs_unique(tail)) by {
        assert forall|a: int, b: int|
            0 <= a < tail.len() && 0 <= b < tail.len() && a != b implies !same_pair(
            #[trigger] tail[a],
            (#[trigger] tail[b]).issue_id,
            tail[b].subscriber_id,
        ) by {
            assert(!same_pair(q[a + 1], q[b + 1].issue_id, q[b + 1].subscriber_id));
        }
    }
    let outcome = if failing.contains(p) {
        DeliveryOutcome::TransientFailure
    } else {
        DeliveryOutcome::Delivered
    };
    let settled = after_outcome(claimed, p.0, p.1, outcome, max_attempts);
    assert(n >= 1);
    assert(worker_run(q, n, failing, max_attempts) == ({
        let (rest, made) = worker_run(settled, (n - 1) as nat, failing, max_attempts);
        (rest, seq![p] + made)
    }));
    if fate(claimed[0], outcome, max_attempts) == EntryFate::Retried {
        let next = q.update(0, retried(q[0]));
        assert(settled =~= next);
        lemma_same_pairs_unique(q, next);
        assert(next.drop_first() =~= tail);
        assert(calls_for(q[0], failing, max_attempts) =~= seq![p] + calls_for(
            next[0],
            failing,
            max_attempts,
        ));
        assert(calls =~= seq![p] + expected_calls(next, failing, max_attempts));
        lemma_drain_completeness(next, failing, max_attempts);
    } else {
        assert(settled =~= tail);
        assert(calls_for(q[0], failing, max_attempts) =~= seq![p]);
        assert(calls =~= seq![p] + expected_calls(tail, failing, max_attempts));
        lemma_drain_completeness(tail, failing, max_attempts);
    }
}

/// Retry bound: an entry that starts with no failed attempt and whose every
/// attempt fails transiently stays queued, with `k` retries counted, after
/// each of its first `max_attempts - 1` failures, and is gone after the
/// `max_attempts`-th: the transport is called for it exactly
/// `max_attempts` times and never more.
pub proof fn lemma_retry_bound(q: Seq<QueueEntry>, i: int, max_attempts: u32)
    requires
        pairs_unique(q),
        0 <= i < q.len(),
        q[i].n_retries == 0,
        1 <= max_attempts,
    ensures
        forall|k: nat|
            k < max_attempts ==> {
                let f = #[trigger] fail_repeatedly(
                    q,
                    q[i].issue_id,
                    q[i].subscriber_id,
                    k,
                    max_attempts,
                );
                has_pair(f, q[i].issue_id, q[i].subscriber_id) && f[entry_index(
                    f,
                    q[i].issue_id,
                    q[i].subscriber_id,
                )].n_retries == k
            },
        !has_pair(
            fail_repeatedly(q, q[i].issue_id, q[i].subscriber_id, max_attempts as nat, max_attempts),
            q[i].issue_id,
            q[i].subscriber_id,
        ),
{
    let issue = q[i].issue_id;
    let sub = q[i].subscriber_id;
    assert forall|k: nat| k < max_attempts implies {
        let f = #[trigger] fail_repeatedly(q, issue, sub, k, max_attempts);
        has_pair(f, issue, sub) && f[entry_index(f, issue, sub)].n_retries == k
    } by {
        lemma_failures_counted(q, i, max_attempts, k);
    }
    let m = (max_attempts - 1) as nat;
    lemma_failures_counted(q, i, max_attempts, m);
    let f = fail_repeatedly(q, issue, sub, m, max_attempts);
    let k = entry_index(f, issue, sub);
    let g = fail_repeatedly(q, issue, sub, max_attempts as nat, max_attempts);
    assert(g == after_outcome(f, issue, sub, DeliveryOutcome::TransientFailure, max_attempts));
    assert(g == f.remove(k));
    if has_pair(g, issue, sub) {
        let j = choose|j: int| 0 <= j < g.len() && same_pair(g[j], issue, sub);
        let j0 = if j < k { j } else { j + 1 };
        assert(g[j] == f[j0]);
        assert(same_pair(f[k], issue, sub));
        assert(!same_pair(f[j0], f[k].issue_id, f[k].subscriber_id));
    }
}

proof fn lemma_failures_counted(q: Seq<QueueEntry>, i: int, max_attempts: u32, k: nat)
    requires
        pairs_unique(q),
        0 <= i < q.len(),
        q[i].n_retries == 0,
        k < max_attempts,
    ensures
        ({
            let f = fail_repeatedly(q, q[i].issue_id, q[i].subscriber_id, k, max_attempts);
            has_pair(f, q[i].issue_id, q[i].subscriber_id) && f[entry_index(
                f,
                q[i].issue_id,
                q[i].subscriber_id,
            )].n_retries == k && pairs_unique(f)
        }),
    decreases k,
{
    let issue = q[i].issue_id;
    let sub = q[i].subscriber_id;
    if k == 0 {
        lemma_entry_index_is(q, i);
    } else {
        lemma_failures_counted(q, i, max_attempts, (k - 1) as nat);
        let f = fail_repeatedly(q, issue, sub, (k - 1) as nat, max_attempts);
        let j = entry_index(f, issue, sub);
        let g = fail_repeatedly(q, issue, sub, k, max_attempts);
        assert(fate(f[j], DeliveryOutcome::TransientFailure, max_attempts) == EntryFate::Retried);
        assert(g == f.update(j, retried(f[j])));
        lemma_outcome_keeps_unique(f, issue, sub, DeliveryOutcome::TransientFailure, max_attempts);
        lemma_entry_index_is(g, j);
    }
}

proof fn lemma_only_match(rs: Seq<RecordView>, i: int, operator: u128, key: Seq<char>)
    requires
        0 <= i < rs.len(),
        key_matches(rs[i], operator, key),
        forall|j: int| 0 <= j < rs.len() && j != i ==> !key_matches(#[trigger] rs[j], operator, key),
    ensures
        has_key(rs, operator, key),
        key_index(rs, operator, key) == i,
{
}

/// For a key not yet recorded, claiming it appends a placeholder that
/// is the key's only row.
proof fn lemma_fresh_claim(s: StoreView, operator: u128, key: Seq<char>)
    requires
        !has_key(s.records, operator, key),
    ensures
        gate(s, operator, key).1 is Execute,
        gate(s, operator, key).0.records == s.records.push(placeholder(operator, key)),
        has_key(gate(s, operator, key).0.records, operator, key),
        key_index(gate(s, operator, key).0.records, operator, key) == s.records.len(),
{
    let rs = s.records.push(placeholder(operator, key));
    assert forall|j: int| 0 <= j < rs.len() && j != s.records.len() implies !key_matches(
        #[trigger] rs[j],
        operator,
        key,
    ) by {
        assert(rs[j] == s.records[j]);
    }
    lemma_only_match(rs, s.records.len() as int, operator, key);
}

/// The row that a fresh, committed publish leaves is the key's only row.
proof fn lemma_fresh_commit(
    s: StoreView,
    operator: u128,
    key: Seq<char>,
    c: ContentView,
    subscribers: Seq<u128>,
    published_at: Seq<char>,
)
    requires
        !has_key(s.records, operator, key),
    ensures
        ({
            let s1 = gate(s, operator, key).0;
            let (s2, r) = commit(s1, operator, key, c, subscribers, published_at);
            &&& s.next_issue_id == u64::MAX ==> s2 == s && r == Err::<crate::idempotency::ResponseView, PublishError>(PublishError::IssueIdsExhausted)
            &&& s.next_issue_id < u64::MAX ==> {
                &&& r == Ok::<crate::idempotency::ResponseView, PublishError>(accepted_response())
                &&& s2.issues.len() == s.issues.len() + 1
                &&& s2.queue == enqueue_all(s.queue, s.next_issue_id, subscribers)
                &&& s2.records == s.records.push(RecordView { response: Some(accepted_response()), ..placeholder(operator, key) })
                &&& has_key(s2.records, operator, key)
                &&& key_index(s2.records, operator, key) == s.records.len()
            }
        }),
{
    lemma_fresh_claim(s, operator, key);
    let s1 = gate(s, operator, key).0;
    let n = s.records.len() as int;
    if s.next_issue_id == u64::MAX {
        assert(s1.records.remove(n) =~= s.records);
    } else {
        let rs = s1.records.update(n, RecordView { response: Some(accepted_response()), ..s1.records[n] });
        assert(rs =~= s.records.push(RecordView { response: Some(accepted_response()), ..placeholder(operator, key) }));
        assert forall|j: int| 0 <= j < rs.len() && j != n implies !key_matches(
            #[trigger] rs[j],
            operator,
            key,
        ) by {
            assert(rs[j] == s.records[j]);
        }
        lemma_only_match(rs, n, operator, key);
    }
}

/// Idempotence: calling `publish` a second time with the same arguments
/// returns exactly what the first call returned and writes nothing, so the
/// pair of calls adds at most one issue and one set of queue entries.
pub proof fn lemma_publish_idempotent(
    s: StoreView,
    operator: u128,
    key: Seq<char>,
    c: ContentView,
    subscribers: Seq<u128>,
    published_at: Seq<char>,
)
    requires
        store_wf(s),
    ensures
        ({
            let (s1, r1) = publish_outcome(s, operator, key, c, subscribers, published_at);
            let (s2, r2) = publish_outcome(s1, operator, key, c, subscribers, published_at);
            &&& r2 == r1
            &&& s2 == s1
            &&& s1.issues.len() <= s.issues.len() + 1
        }),
{
    if key.len() > 0 && !has_key(s.records, operator, key) {
        lemma_fresh_commit(s, operator, key, c, subscribers, published_at);
    }
}

/// Concurrent retry safety: of two publishes with the same (operator, key)
/// that race, the first to claim the key runs the atomic unit and the
/// second is told to wait without writing anything; when it asks again
/// after the first committed, it replays the first's response. Where the
/// first did not get to run, both get the same answer. The atomic unit
/// runs at most once.
pub proof fn lemma_concurrent_publish(
    s: StoreView,
    operator: u128,
    key: Seq<char>,
    c: ContentView,
    subscribers: Seq<u128>,
    published_at: Seq<char>,
)
    requires
        store_wf(s),
    ensures
        ({
            let (s1, g1) = gate(s, operator, key);
            let (s2, g2) = gate(s1, operator, key);
            let (s3, r) = commit(s2, operator, key, c, subscribers, published_at);
            let (s4, g3) = gate(s3, operator, key);
            &&& g1 is Execute ==> g2 is InProgress && s2 == s1
            &&& !(g1 is Execute) ==> g2 == g1 && s1 == s && s2 == s
            &&& (g1 is Execute && r is Ok) ==> r == Ok::<crate::idempotency::ResponseView, PublishError>(accepted_response())
                && g3 == GateView::Replay(accepted_response()) && s4 == s3
        }),
{
    if !has_key(s.records, operator, key) {
        lemma_fresh_claim(s, operator, key);
        lemma_fresh_commit(s, operator, key, c, subscribers, published_at);
        let s1 = gate(s, operator, key).0;
        let n = s.records.len() as int;
        assert(key_matches(s1.records[n], operator, key));
    }
}

proof fn lemma_enqueue_fresh(q: Seq<QueueEntry>, issue: u64, subs: Seq<u128>)
    requires
        forall|i: int| 0 <= i < q.len() ==> (#[trigger] q[i]).issue_id != issue,
        subs.no_duplicates(),
    ensures
        enqueue_all(q, issue, subs) == q + subs.map_values(|x: u128| new_entry(issue, x)),
    decreases subs.len(),
{
    let added = subs.map_values(|x: u128| new_entry(issue, x));
    if subs.len() == 0 {
        assert(q + added =~= q);
    } else {
        let front = subs.drop_last();
        assert(front.no_duplicates()) by {
            assert forall|a: int, b: int| 0 <= a < front.len() && 0 <= b < front.len() && a != b
                implies front[a] != front[b] by {
                assert(front[a] == subs[a] && front[b] == subs[b]);
            }
        }
        lemma_enqueue_fresh(q, issue, front);
        let rest = enqueue_all(q, issue, front);
        let front_added = front.map_values(|x: u128| new_entry(issue, x));
        assert(rest == q + front_added);
        if has_pair(rest, issue, subs.last()) {
            let j = choose|j: int| 0 <= j < rest.len() && same_pair(rest[j], issue, subs.last());
            if j >= q.len() {
                let t = j - q.len();
                assert(rest[j] == new_entry(issue, front[t]));
                assert(subs[t] == front[t]);
                assert(subs[subs.len() - 1] == subs.last());
            } else {
                assert(rest[j] == q[j]);
            }
        }
        assert(q + added =~= rest.push(new_entry(issue, subs.last())));
    }
}

/// Fan-out: a publish of a key not yet recorded, with N distinct confirmed
/// subscribers, succeeds, adds exactly one issue and exactly N pending queue
/// entries, one per subscriber, all for the new issue, and every
/// (issue, subscriber) pair stays unique.
pub proof fn lemma_fan_out(
    s: StoreView,
    operator: u128,
    key: Seq<char>,
    c: ContentView,
    subscribers: Seq<u128>,
    published_at: Seq<char>,
)
    requires
        store_wf(s),
        key.len() > 0,
        !has_key(s.records, operator, key),
        s.next_issue_id < u64::MAX,
        subscribers.no_duplicates(),
    ensures
        ({
            let (s1, r) = publish_outcome(s, operator, key, c, subscribers, published_at);
            &&& r == Ok::<crate::idempotency::ResponseView, PublishError>(accepted_response())
            &&& s1.issues.len() == s.issues.len() + 1
            &&& s1.queue == s.queue + subscribers.map_values(
                |x: u128| new_entry(s.next_issue_id, x),
            )
            &&& pairs_unique(s1.queue)
        }),
{
    lemma_fresh_commit(s, operator, key, c, subscribers, published_at);
    lemma_enqueue_fresh(s.queue, s.next_issue_id, subscribers);
    lemma_enqueue_keeps_unique(s.queue, s.next_issue_id, subscribers);
}

} // verus!
