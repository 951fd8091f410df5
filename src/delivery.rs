use vstd::prelude::*;

verus! {

/// One outstanding obligation: send issue `issue_id` to subscriber
/// `subscriber_id`. `n_retries` counts the failed attempts so far; `locked`
/// marks an entry that a worker has claimed and not settled yet.
#[derive(Clone, Copy, Debug, PartialEq, Eq, Structural)]
pub struct QueueEntry {
    pub issue_id: u64,
    pub subscriber_id: u128,
    pub n_retries: u32,
    pub locked: bool,
}

/// What the mail transport made of one attempt.
#[derive(Clone, Copy, Debug, PartialEq, Eq, Structural)]
pub enum DeliveryOutcome {
    Delivered,
    TransientFailure,
    PermanentFailure,
}

/// What became of an entry once an attempt was settled.
#[derive(Clone, Copy, Debug, PartialEq, Eq, Structural)]
pub enum EntryFate {
    /// Delivered: the entry is gone for good.
    Retired,
    /// Failed, with attempts left: the entry is pending again.
    Retried,
    /// Failed for the last time: the entry is gone and the failure is reported.
    Abandoned,
}

/// How the worker judges one attempt: a recipient whose stored address no
/// longer parses can never be served; otherwise a failed send is worth
/// another try.
pub fn attempt_outcome(recipient_valid: bool, sent: bool) -> (r: DeliveryOutcome)
    ensures
        r == (if !recipient_valid {
            DeliveryOutcome::PermanentFailure
        } else if sent {
            DeliveryOutcome::Delivered
        } else {
            DeliveryOutcome::TransientFailure
        }),
{
    if !recipient_valid {
        DeliveryOutcome::PermanentFailure
    } else if sent {
        DeliveryOutcome::Delivered
    } else {
        DeliveryOutcome::TransientFailure
    }
}

pub open spec fn same_pair(e: QueueEntry, issue: u64, subscriber: u128) -> bool {
    e.issue_id == issue && e.subscriber_id == subscriber
}

pub open spec fn has_pair(q: Seq<QueueEntry>, issue: u64, subscriber: u128) -> bool {
    exists|i: int| 0 <= i < q.len() && same_pair(#[trigger] q[i], issue, subscriber)
}

/// At most one entry per (issue, subscriber) pair.
pub open spec fn pairs_unique(q: Seq<QueueEntry>) -> bool {
    forall|i: int, j: int|
        0 <= i < q.len() && 0 <= j < q.len() && i != j ==> !same_pair(
            #[trigger] q[i],
            (#[trigger] q[j]).issue_id,
            q[j].subscriber_id,
        )
}

pub open spec fn new_entry(issue: u64, subscriber: u128) -> QueueEntry {
    QueueEntry { issue_id: issue, subscriber_id: subscriber, n_retries: 0, locked: false }
}

/// The queue after one entry per subscriber of `subs` was inserted for
/// `issue`, in order, a pair that is already queued being left as it is.
pub open spec fn enqueue_all(q: Seq<QueueEntry>, issue: u64, subs: Seq<u128>) -> Seq<QueueEntry>
    decreases subs.len(),
{
    if subs.len() == 0 {
        q
    } else {
        let rest = enqueue_all(q, issue, subs.drop_last());
        if has_pair(rest, issue, subs.last()) {
            rest
        } else {
            rest.push(new_entry(issue, subs.last()))
        }
    }
}

pub open spec fn unlocked(e: QueueEntry) -> QueueEntry {
    QueueEntry { locked: false, ..e }
}

/// `i` is the first entry that no worker holds.
pub open spec fn is_first_unlocked(q: Seq<QueueEntry>, i: int) -> bool {
    0 <= i < q.len() && !q[i].locked && forall|j: int| 0 <= j < i ==> (#[trigger] q[j]).locked
}

/// The entry that the next claim takes, if any.
pub open spec fn next_claim(q: Seq<QueueEntry>) -> Option<int> {
    if exists|i: int| is_first_unlocked(q, i) {
        Some(choose|i: int| is_first_unlocked(q, i))
    } else {
        None
    }
}

pub open spec fn after_claim(q: Seq<QueueEntry>) -> Seq<QueueEntry> {
    match next_claim(q) {
        Some(i) => q.update(i, QueueEntry { locked: true, ..q[i] }),
        None => q,
    }
}

pub open spec fn entry_index(q: Seq<QueueEntry>, issue: u64, subscriber: u128) -> int {
    choose|i: int| 0 <= i < q.len() && same_pair(q[i], issue, subscriber)
}

/// A transient failure retires the entry once it would be the
/// `max_attempts`-th failed attempt.
pub open spec fn fate(e: QueueEntry, outcome: DeliveryOutcome, max_attempts: u32) -> EntryFate {
    match outcome {
        DeliveryOutcome::Delivered => EntryFate::Retired,
        DeliveryOutcome::PermanentFailure => EntryFate::Abandoned,
        DeliveryOutcome::TransientFailure => if e.n_retries + 1 >= max_attempts {
            EntryFate::Abandoned
        } else {
            EntryFate::Retried
        },
    }
}

pub open spec fn retried(e: QueueEntry) -> QueueEntry {
    QueueEntry { n_retries: (e.n_retries + 1) as u32, locked: false, ..e }
}

/// The queue after an attempt on the pair was settled with `outcome`.
pub open spec fn after_outcome(
    q: Seq<QueueEntry>,
    issue: u64,
    subscriber: u128,
    outcome: DeliveryOutcome,
    max_attempts: u32,
) -> Seq<QueueEntry> {
    if has_pair(q, issue, subscriber) {
        let i = entry_index(q, issue, subscriber);
        match fate(q[i], outcome, max_attempts) {
            EntryFate::Retried => q.update(i, retried(q[i])),
            _ => q.remove(i),
        }
    } else {
        q
    }
}

pub fn find_entry(q: &Vec<QueueEntry>, issue: u64, subscriber: u128) -> (r: Option<usize>)
    ensures
        match r {
            Some(i) => i < q@.len() && same_pair(q@[i as int], issue, subscriber),
            None => !has_pair(q@, issue, subscriber),
        },
{
    let mut i: usize = 0;
    while i < q.len()
        invariant
            i <= q@.len(),
            forall|j: int| 0 <= j < i ==> !same_pair(#[trigger] q@[j], issue, subscriber),
        decreases q@.len() - i,
    {
        if q[i].issue_id == issue && q[i].subscriber_id == subscriber {
            return Some(i);
        }
        i = i + 1;
    }
    None
}

pub proof fn lemma_enqueue_keeps_unique(q: Seq<QueueEntry>, issue: u64, subs: Seq<u128>)
    requires
        pairs_unique(q),
    ensures
        pairs_unique(enqueue_all(q, issue, subs)),
    decreases subs.len(),
{
    if subs.len() > 0 {
        lemma_enqueue_keeps_unique(q, issue, subs.drop_last());
    }
}

/// Every entry that `enqueue_all` adds is for `issue`.
pub proof fn lemma_enqueue_issue_bound(q: Seq<QueueEntry>, issue: u64, subs: Seq<u128>, bound: u64)
    requires
        issue < bound,
        forall|i: int| 0 <= i < q.len() ==> (#[trigger] q[i]).issue_id < bound,
    ensures
        forall|i: int|
            0 <= i < enqueue_all(q, issue, subs).len() ==> (#[trigger] enqueue_all(
                q,
                issue,
                subs,
            )[i]).issue_id < bound,
    decreases subs.len(),
{
    if subs.len() > 0 {
        lemma_enqueue_issue_bound(q, issue, subs.drop_last(), bound);
        let rest = enqueue_all(q, issue, subs.drop_last());
        let r = enqueue_all(q, issue, subs);
        assert forall|i: int| 0 <= i < r.len() implies (#[trigger] r[i]).issue_id < bound by {
            if i < rest.len() {
                assert(r[i] == rest[i]);
            }
        }
    }
}

/// Inserts one pending entry per subscriber for `issue`, skipping pairs
/// that are queued already.
pub fn enqueue_deliveries(q: &mut Vec<QueueEntry>, issue: u64, subs: &Vec<u128>)
    ensures
        final(q)@ == enqueue_all(old(q)@, issue, subs@),
        pairs_unique(old(q)@) ==> pairs_unique(final(q)@),
{
    let ghost start = q@;
    let mut k: usize = 0;
    while k < subs.len()
        invariant
            k <= subs@.len(),
            q@ == enqueue_all(start, issue, subs@.take(k as int)),
        decreases subs@.len() - k,
    {
        let s = subs[k];
        assert(subs@.take(k as int + 1).drop_last() == subs@.take(k as int));
        if find_entry(q, issue, s).is_none() {
            q.push(QueueEntry { issue_id: issue, subscriber_id: s, n_retries: 0, locked: false });
        }
        k = k + 1;
    }
    assert(subs@.take(subs@.len() as int) == subs@);
    proof {
        if pairs_unique(start) {
            lemma_enqueue_keeps_unique(start, issue, subs@);
        }
    }
}

/// Releases every entry, as when workers restart after a crash: an entry
/// that a dead worker held becomes pending again.
pub fn unlock_all(q: &mut Vec<QueueEntry>)
    ensures
        final(q)@ == old(q)@.map_values(|e: QueueEntry| unlocked(e)),
{
    let mut i: usize = 0;
    while i < q.len()
        invariant
            i <= q@.len(),
            q@.len() == old(q)@.len(),
            forall|j: int| 0 <= j < i ==> #[trigger] q@[j] == unlocked(old(q)@[j]),
            forall|j: int| i <= j < q@.len() ==> #[trigger] q@[j] == old(q)@[j],
        decreases q@.len() - i,
    {
        let e = q[i];
        q.set(i, QueueEntry { locked: false, ..e });
        i = i + 1;
    }
    assert(q@ =~= old(q)@.map_values(|e: QueueEntry| unlocked(e)));
}

/// Locks the first entry that no worker holds and hands out its pair.
pub fn claim_next(q: &mut Vec<QueueEntry>) -> (r: Option<(u64, u128)>)
    ensures
        final(q)@ == after_claim(old(q)@),
        match next_claim(old(q)@) {
            Some(i) => r == Some((old(q)@[i].issue_id, old(q)@[i].subscriber_id)),
            None => r is None,
        },
{
    let mut i: usize = 0;
    while i < q.len()
        invariant
            q@ == old(q)@,
            i <= q@.len(),
            forall|j: int| 0 <= j < i ==> (#[trigger] q@[j]).locked,
        decreases q@.len() - i,
    {
        if !q[i].locked {
            let e = q[i];
            proof {
                assert(is_first_unlocked(q@, i as int));
                let c = choose|c: int| is_first_unlocked(q@, c);
                assert(c == i) by {
                    if c < i {
                        assert(q@[c].locked);
                    } else if c > i {
                        assert(q@[i as int].locked);
                    }
                }
            }
            q.set(i, QueueEntry { locked: true, ..e });
            return Some((e.issue_id, e.subscriber_id));
        }
        i = i + 1;
    }
    assert(!exists|c: int| is_first_unlocked(q@, c));
    None
}

/// Settles an attempt on the pair: a delivered entry is deleted, a failed
/// one is released with one more retry counted, or deleted once it has had
/// `max_attempts` failed attempts. `None` when no such entry is queued.
pub fn settle(
    q: &mut Vec<QueueEntry>,
    issue: u64,
    subscriber: u128,
    outcome: DeliveryOutcome,
    max_attempts: u32,
) -> (r: Option<EntryFate>)
    requires
        pairs_unique(old(q)@),
    ensures
        final(q)@ == after_outcome(old(q)@, issue, subscriber, outcome, max_attempts),
        pairs_unique(final(q)@),
        r == (if has_pair(old(q)@, issue, subscriber) {
            Some(
                fate(old(q)@[entry_index(old(q)@, issue, subscriber)], outcome, max_attempts),
            )
        } else {
            None::<EntryFate>
        }),
{
    match find_entry(q, issue, subscriber) {
        None => None,
        Some(i) => {
            let e = q[i];
            proof {
                let c = entry_index(q@, issue, subscriber);
                assert(c == i as int);
            }
            let f = match outcome {
                DeliveryOutcome::Delivered => EntryFate::Retired,
                DeliveryOutcome::PermanentFailure => EntryFate::Abandoned,
                DeliveryOutcome::TransientFailure => if e.n_retries >= max_attempts
                    || max_attempts - e.n_retries <= 1 {
                    EntryFate::Abandoned
                } else {
                    EntryFate::Retried
                },
            };
            match f {
                EntryFate::Retried => {
                    q.set(i, QueueEntry { n_retries: e.n_retries + 1, locked: false, ..e });
                },
                _ => {
                    q.remove(i);
                },
            }
            Some(f)
        },
    }
}

/// Claiming keeps every entry's pair and issue.
pub proof fn lemma_claim_keeps_pairs(q: Seq<QueueEntry>)
    ensures
        after_claim(q).len() == q.len(),
        forall|i: int|
            0 <= i < q.len() ==> same_pair(
                #[trigger] after_claim(q)[i],
                q[i].issue_id,
                q[i].subscriber_id,
            ),
{
    if let Some(c) = next_claim(q) {
        let c0 = choose|i: int| is_first_unlocked(q, i);
        assert(is_first_unlocked(q, c0));
    }
}

/// Settling leaves only entries that were queued before, by issue.
pub proof fn lemma_settle_keeps_issues(
    q: Seq<QueueEntry>,
    issue: u64,
    subscriber: u128,
    outcome: DeliveryOutcome,
    max_attempts: u32,
    bound: u64,
)
    requires
        forall|i: int| 0 <= i < q.len() ==> (#[trigger] q[i]).issue_id < bound,
        pairs_unique(q),
    ensures
        forall|i: int|
            0 <= i < after_outcome(q, issue, subscriber, outcome, max_attempts).len()
                ==> (#[trigger] after_outcome(q, issue, subscriber, outcome, max_attempts)[i]).issue_id
                < bound,
{
    let r = after_outcome(q, issue, subscriber, outcome, max_attempts);
    if has_pair(q, issue, subscriber) {
        let k = entry_index(q, issue, subscriber);
        assert forall|i: int| 0 <= i < r.len() implies (#[trigger] r[i]).issue_id < bound by {
            match fate(q[k], outcome, max_attempts) {
                EntryFate::Retried => {
                    assert(r[i].issue_id == q[i].issue_id);
                },
                _ => {
                    if i < k {
                        assert(r[i] == q[i]);
                    } else {
                        assert(r[i] == q[i + 1]);
                    }
                },
            }
        }
    }
}

} // verus!
