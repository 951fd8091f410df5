use crate::delivery::{
    unlock_all, unlocked,
    lemma_claim_keeps_pairs, lemma_settle_keeps_issues, lemma_enqueue_issue_bound, same_pair, after_claim, after_outcome, claim_next, enqueue_all, enqueue_deliveries, entry_index, fate,
    has_pair, next_claim, pairs_unique, settle, DeliveryOutcome, EntryFate, QueueEntry,
};
use crate::idempotency::{
    HeaderPair, IdempotencyKey, KeyRecord, RecordView, ResponseView, SavedResponse,
};
use vstd::prelude::*;
use vstd::string::{StrSliceExecFns, StringExecFns, StringSliceAdditionalSpecFns};

verus! {

/// Status of the response that acknowledges a publish: a redirect.
pub const ACCEPTED_STATUS: u16 = 303;

/// Header that carries the redirect target.
pub const LOCATION_HEADER: &'static str = "location";

/// Where the acknowledging redirect points.
pub const ACCEPTED_LOCATION: &'static str = "/admin/newsletter";

/// Body of the acknowledging response.
pub const ACCEPTED_MESSAGE: &'static str =
    "The newsletter issue has been accepted -> emails will be delivered shortly.";

/// First wait, in milliseconds, of a caller that found its key in progress.
pub const POLL_BASE_MS: u64 = 50;

/// Longest wait between two polls of a key in progress.
pub const POLL_MAX_MS: u64 = 2000;

/// The wait before poll number `attempt`: doubling from `POLL_BASE_MS`,
/// capped at `POLL_MAX_MS`.
pub open spec fn poll_delay(attempt: nat) -> nat
    decreases attempt,
{
    if attempt == 0 {
        POLL_BASE_MS as nat
    } else {
        let d = 2 * poll_delay((attempt - 1) as nat);
        if d > POLL_MAX_MS { POLL_MAX_MS as nat } else { d }
    }
}

pub fn poll_backoff_ms(attempt: u32) -> (r: u64)
    ensures
        r as nat == poll_delay(attempt as nat),
        r <= POLL_MAX_MS,
{
    let mut d: u64 = POLL_BASE_MS;
    let mut k: u32 = 0;
    while k < attempt
        invariant
            k <= attempt,
            d as nat == poll_delay(k as nat),
            d <= POLL_MAX_MS,
        decreases attempt - k,
    {
        d = if 2 * d > POLL_MAX_MS { POLL_MAX_MS } else { 2 * d };
        k = k + 1;
    }
    d
}

/// The fixed response that every successful publish saves and replays.
pub open spec fn accepted_response() -> ResponseView {
    ResponseView {
        status_code: ACCEPTED_STATUS,
        headers: seq![(LOCATION_HEADER@, ACCEPTED_LOCATION.spec_bytes())],
        body: ACCEPTED_MESSAGE.spec_bytes(),
    }
}

/// What an operator submits for one issue.
#[derive(Debug)]
pub struct IssueContent {
    pub title: String,
    pub text_content: String,
    pub html_content: String,
}

pub struct ContentView {
    pub title: Seq<char>,
    pub text_content: Seq<char>,
    pub html_content: Seq<char>,
}

impl View for IssueContent {
    type V = ContentView;

    open spec fn view(&self) -> ContentView {
        ContentView {
            title: self.title@,
            text_content: self.text_content@,
            html_content: self.html_content@,
        }
    }
}

/// A published issue; never changed once written.
#[derive(Debug)]
pub struct NewsletterIssue {
    pub id: u64,
    pub title: String,
    pub text_content: String,
    pub html_content: String,
    pub published_at: String,
}

pub struct IssueView {
    pub id: u64,
    pub title: Seq<char>,
    pub text_content: Seq<char>,
    pub html_content: Seq<char>,
    pub published_at: Seq<char>,
}

impl View for NewsletterIssue {
    type V = IssueView;

    open spec fn view(&self) -> IssueView {
        IssueView {
            id: self.id,
            title: self.title@,
            text_content: self.text_content@,
            html_content: self.html_content@,
            published_at: self.published_at@,
        }
    }
}

#[derive(Clone, Copy, Debug, PartialEq, Eq, Structural)]
pub enum PublishError {
    /// The idempotency key is empty; nothing was touched.
    EmptyKey,
    /// Another execution holds the key and has not finished; retry later.
    ClaimConflict,
    /// An operator rejected the key; nothing was touched.
    KeyRejected,
    /// The key was not claimed by the caller, so nothing was written.
    NotClaimed,
    /// No issue id is left; the claim was released.
    IssueIdsExhausted,
}

#[derive(Clone, Copy, Debug, PartialEq, Eq, Structural)]
pub enum SaveError {
    /// A response is saved for the key already; it is never replaced.
    AlreadyExists,
    /// The key was never claimed, so there is nothing to complete.
    NotClaimed,
}

/// What the concurrency gate tells the caller of `begin`.
#[derive(Debug)]
pub enum GateDecision {
    /// The caller now holds the key and must run the operation.
    Execute,
    /// The operation already ran: replay its response.
    Replay(SavedResponse),
    /// Another execution holds the key: wait and ask again.
    InProgress,
    /// The key was rejected by an operator.
    Rejected,
}

pub enum GateView {
    Execute,
    Replay(ResponseView),
    InProgress,
    Rejected,
}

impl View for GateDecision {
    type V = GateView;

    open spec fn view(&self) -> GateView {
        match self {
            GateDecision::Execute => GateView::Execute,
            GateDecision::Replay(r) => GateView::Replay(r@),
            GateDecision::InProgress => GateView::InProgress,
            GateDecision::Rejected => GateView::Rejected,
        }
    }
}

pub open spec fn outcome_view(r: Result<SavedResponse, PublishError>) -> Result<
    ResponseView,
    PublishError,
> {
    match r {
        Ok(x) => Ok(x@),
        Err(e) => Err(e),
    }
}

/// The durable state: the idempotency ledger, the issues and the delivery
/// queue, changed together or not at all.
pub struct StoreView {
    pub records: Seq<RecordView>,
    pub issues: Seq<IssueView>,
    pub queue: Seq<QueueEntry>,
    pub next_issue_id: u64,
}

pub open spec fn key_matches(r: RecordView, operator: u128, key: Seq<char>) -> bool {
    r.operator == operator && r.key == key
}

pub open spec fn has_key(rs: Seq<RecordView>, operator: u128, key: Seq<char>) -> bool {
    exists|i: int| 0 <= i < rs.len() && key_matches(#[trigger] rs[i], operator, key)
}

pub open spec fn key_index(rs: Seq<RecordView>, operator: u128, key: Seq<char>) -> int {
    choose|i: int| 0 <= i < rs.len() && key_matches(rs[i], operator, key)
}

/// At most one ledger row per (operator, key).
pub open spec fn keys_unique(rs: Seq<RecordView>) -> bool {
    forall|i: int, j: int|
        0 <= i < rs.len() && 0 <= j < rs.len() && i != j ==> !key_matches(
            #[trigger] rs[i],
            (#[trigger] rs[j]).operator,
            rs[j].key,
        )
}

pub open spec fn store_wf(s: StoreView) -> bool {
    &&& keys_unique(s.records)
    &&& pairs_unique(s.queue)
    &&& forall|i: int| 0 <= i < s.queue.len() ==> (#[trigger] s.queue[i]).issue_id < s.next_issue_id
    &&& forall|i: int| 0 <= i < s.issues.len() ==> (#[trigger] s.issues[i]).id < s.next_issue_id
}

pub open spec fn lookup_record(s: StoreView, operator: u128, key: Seq<char>) -> Option<RecordView> {
    if has_key(s.records, operator, key) {
        Some(s.records[key_index(s.records, operator, key)])
    } else {
        None
    }
}

/// The response saved for the key, if the operation has completed.
pub open spec fn saved_response(s: StoreView, operator: u128, key: Seq<char>) -> Option<
    ResponseView,
> {
    match lookup_record(s, operator, key) {
        Some(r) => r.response,
        None => None,
    }
}

pub open spec fn placeholder(operator: u128, key: Seq<char>) -> RecordView {
    RecordView { operator, key, valid: true, response: None }
}

/// The concurrency gate: the first caller inserts a placeholder and runs the
/// operation; later callers replay, wait, or are turned away, and change
/// nothing.
pub open spec fn gate(s: StoreView, operator: u128, key: Seq<char>) -> (StoreView, GateView) {
    match lookup_record(s, operator, key) {
        None => (
            StoreView { records: s.records.push(placeholder(operator, key)), ..s },
            GateView::Execute,
        ),
        Some(r) => if !r.valid {
            (s, GateView::Rejected)
        } else {
            match r.response {
                Some(resp) => (s, GateView::Replay(resp)),
                None => (s, GateView::InProgress),
            }
        },
    }
}

/// The key holds a placeholder: claimed, with no response yet.
pub open spec fn is_claimed(s: StoreView, operator: u128, key: Seq<char>) -> bool {
    match lookup_record(s, operator, key) {
        Some(r) => r.response is None,
        None => false,
    }
}

/// Saving completes a claimed key with its response, exactly once.
pub open spec fn save(s: StoreView, operator: u128, key: Seq<char>, response: ResponseView) -> (
    StoreView,
    Result<(), SaveError>,
) {
    match lookup_record(s, operator, key) {
        None => (s, Err(SaveError::NotClaimed)),
        Some(r) => if r.response is Some {
            (s, Err(SaveError::AlreadyExists))
        } else {
            (
                StoreView {
                    records: s.records.update(
                        key_index(s.records, operator, key),
                        RecordView { response: Some(response), ..r },
                    ),
                    ..s
                },
                Ok(()),
            )
        },
    }
}

/// Releasing a claim drops its placeholder, so that the next caller with
/// the key runs the operation; a completed key is left as it is.
pub open spec fn release(s: StoreView, operator: u128, key: Seq<char>) -> (StoreView, bool) {
    if is_claimed(s, operator, key) {
        (
            StoreView { records: s.records.remove(key_index(s.records, operator, key)), ..s },
            true,
        )
    } else {
        (s, false)
    }
}

pub open spec fn new_issue(id: u64, c: ContentView, published_at: Seq<char>) -> IssueView {
    IssueView {
        id,
        title: c.title,
        text_content: c.text_content,
        html_content: c.html_content,
        published_at,
    }
}

/// The atomic unit run by the holder of a claim: one new issue, one queue
/// entry per subscriber, and the saved response, all at once; or, where no
/// issue id is left, the claim released and nothing else changed.
pub open spec fn commit(
    s: StoreView,
    operator: u128,
    key: Seq<char>,
    c: ContentView,
    subscribers: Seq<u128>,
    published_at: Seq<char>,
) -> (StoreView, Result<ResponseView, PublishError>) {
    if !is_claimed(s, operator, key) {
        (s, Err(PublishError::NotClaimed))
    } else {
        let i = key_index(s.records, operator, key);
        if s.next_issue_id == u64::MAX {
            (StoreView { records: s.records.remove(i), ..s }, Err(PublishError::IssueIdsExhausted))
        } else {
            let id = s.next_issue_id;
            (
                StoreView {
                    records: s.records.update(
                        i,
                        RecordView { response: Some(accepted_response()), ..s.records[i] },
                    ),
                    issues: s.issues.push(new_issue(id, c, published_at)),
                    queue: enqueue_all(s.queue, id, subscribers),
                    next_issue_id: (id + 1) as u64,
                },
                Ok(accepted_response()),
            )
        }
    }
}

/// Publishing under a key: an empty key is refused, a recorded key is
/// answered from the ledger, and a new key runs the atomic unit.
pub open spec fn publish_outcome(
    s: StoreView,
    operator: u128,
    key: Seq<char>,
    c: ContentView,
    subscribers: Seq<u128>,
    published_at: Seq<char>,
) -> (StoreView, Result<ResponseView, PublishError>) {
    if key.len() == 0 {
        (s, Err(PublishError::EmptyKey))
    } else {
        let (s1, g) = gate(s, operator, key);
        match g {
            GateView::Execute => commit(s1, operator, key, c, subscribers, published_at),
            GateView::Replay(r) => (s, Ok(r)),
            GateView::InProgress => (s, Err(PublishError::ClaimConflict)),
            GateView::Rejected => (s, Err(PublishError::KeyRejected)),
        }
    }
}

/// Claims do not expire on their own: a claimant that gives up calls
/// `release_claim`, and a claim left by a crashed process stays until an
/// operator releases it the same way.
pub struct Store {
    records: Vec<KeyRecord>,
    issues: Vec<NewsletterIssue>,
    queue: Vec<QueueEntry>,
    next_issue_id: u64,
}

impl View for Store {
    type V = StoreView;

    closed spec fn view(&self) -> StoreView {
        StoreView {
            records: self.records@.map_values(|r: KeyRecord| r@),
            issues: self.issues@.map_values(|i: NewsletterIssue| i@),
            queue: self.queue@,
            next_issue_id: self.next_issue_id,
        }
    }
}

/// Builds the response that acknowledges a publish.
pub fn accepted_response_value() -> (r: SavedResponse)
    ensures
        r@ == accepted_response(),
{
    let mut headers: Vec<HeaderPair> = Vec::new();
    headers.push(
        HeaderPair {
            name: String::from_str(LOCATION_HEADER),
            value: ACCEPTED_LOCATION.as_bytes_vec(),
        },
    );
    let r = SavedResponse {
        status_code: ACCEPTED_STATUS,
        headers,
        body: ACCEPTED_MESSAGE.as_bytes_vec(),
    };
    assert(r@.headers =~= accepted_response().headers);
    r
}

impl Store {
    pub fn new() -> (r: Store)
        ensures
            r@.records.len() == 0,
            r@.issues.len() == 0,
            r@.queue.len() == 0,
            r@.next_issue_id == 0,
            store_wf(r@),
    {
        let r = Store { records: Vec::new(), issues: Vec::new(), queue: Vec::new(), next_issue_id: 0 };
        assert(r@.records =~= Seq::<RecordView>::empty());
        assert(r@.issues =~= Seq::<IssueView>::empty());
        r
    }

    fn find_record(&self, operator: u128, key: &String) -> (r: Option<usize>)
        requires
            keys_unique(self@.records),
        ensures
            match r {
                Some(i) => i < self@.records.len() && has_key(self@.records, operator, key@)
                    && i as int == key_index(self@.records, operator, key@),
                None => !has_key(self@.records, operator, key@),
            },
    {
        let mut i: usize = 0;
        while i < self.records.len()
            invariant
                i <= self.records@.len(),
                self@.records.len() == self.records@.len(),
                keys_unique(self@.records),
                forall|j: int| 0 <= j < i ==> !key_matches(#[trigger] self@.records[j], operator, key@),
            decreases self.records@.len() - i,
        {
            if self.records[i].operator == operator && self.records[i].key == *key {
                assert(key_matches(self@.records[i as int], operator, key@));
                let ghost c = key_index(self@.records, operator, key@);
                assert(0 <= c < self@.records.len() && key_matches(self@.records[c], operator, key@));
                assert(c == i as int) by {
                    if c != i as int {
                        assert(!key_matches(
                            self@.records[c],
                            self@.records[i as int].operator,
                            self@.records[i as int].key,
                        ));
                    }
                }
                return Some(i);
            }
            i = i + 1;
        }
        None
    }

    /// The response saved for (operator, key), if the operation completed.
    pub fn lookup(&self, operator: u128, key: &str) -> (r: Option<SavedResponse>)
        requires
            store_wf(self@),
        ensures
            match r {
                Some(x) => saved_response(self@, operator, key@) == Some(x@),
                None => saved_response(self@, operator, key@) is None,
            },
    {
        let k = String::from_str(key);
        match self.find_record(operator, &k) {
            None => None,
            Some(i) => match &self.records[i].response {
                Some(resp) => Some(resp.duplicate()),
                None => None,
            },
        }
    }

    /// Passes the concurrency gate for (operator, key).
    pub fn begin(&mut self, operator: u128, key: &str) -> (r: GateDecision)
        requires
            store_wf(old(self)@),
        ensures
            store_wf(final(self)@),
            (final(self)@, r@) == gate(old(self)@, operator, key@),
    {
        let k = String::from_str(key);
        match self.find_record(operator, &k) {
            None => {
                let ghost before = self@;
                self.records.push(KeyRecord { operator, key: k, valid: true, response: None });
                assert(self@.records =~= before.records.push(placeholder(operator, key@)));
                assert(self@ == StoreView { records: before.records.push(placeholder(operator, key@)), ..before });
                GateDecision::Execute
            },
            Some(i) => {
                if !self.records[i].valid {
                    GateDecision::Rejected
                } else {
                    match &self.records[i].response {
                        Some(resp) => GateDecision::Replay(resp.duplicate()),
                        None => GateDecision::InProgress,
                    }
                }
            },
        }
    }

    /// Runs the atomic unit for a key that the caller claimed through
    /// `begin`: the issue, its queue entries and the saved response are
    /// written together.
    pub fn commit(
        &mut self,
        operator: u128,
        key: &str,
        content: &IssueContent,
        subscribers: &Vec<u128>,
        published_at: &str,
    ) -> (r: Result<SavedResponse, PublishError>)
        requires
            store_wf(old(self)@),
        ensures
            store_wf(final(self)@),
            (final(self)@, outcome_view(r)) == commit(
                old(self)@,
                operator,
                key@,
                content@,
                subscribers@,
                published_at@,
            ),
    {
        let ghost before = self@;
        let k = String::from_str(key);
        let i = match self.find_record(operator, &k) {
            None => {
                return Err(PublishError::NotClaimed);
            },
            Some(i) => i,
        };
        if self.records[i].response.is_some() {
            return Err(PublishError::NotClaimed);
        }
        if self.next_issue_id == u64::MAX {
            self.records.remove(i);
            assert(self@.records =~= before.records.remove(i as int));
            assert(keys_unique(self@.records)) by {
                assert forall|a: int, b: int|
                    0 <= a < self@.records.len() && 0 <= b < self@.records.len() && a != b
                        implies !key_matches(
                        #[trigger] self@.records[a],
                        (#[trigger] self@.records[b]).operator,
                        self@.records[b].key,
                    ) by {
                    let a0 = if a < i { a } else { a + 1 };
                    let b0 = if b < i { b } else { b + 1 };
                    assert(self@.records[a] == before.records[a0]);
                    assert(self@.records[b] == before.records[b0]);
                }
            }
            return Err(PublishError::IssueIdsExhausted);
        }
        let id = self.next_issue_id;
        let valid = self.records[i].valid;
        self.issues.push(
            NewsletterIssue {
                id,
                title: content.title.clone(),
                text_content: content.text_content.clone(),
                html_content: content.html_content.clone(),
                published_at: String::from_str(published_at),
            },
        );
        enqueue_deliveries(&mut self.queue, id, subscribers);
        let resp = accepted_response_value();
        let saved = resp.duplicate();
        self.records.set(i, KeyRecord { operator, key: k, valid, response: Some(saved) });
        self.next_issue_id = id + 1;
        proof {
            let rs = before.records.update(
                i as int,
                RecordView { response: Some(accepted_response()), ..before.records[i as int] },
            );
            assert(self@.records =~= rs);
            assert(self@.issues =~= before.issues.push(new_issue(id, content@, published_at@)));
            lemma_enqueue_issue_bound(before.queue, id, subscribers@, (id + 1) as u64);
            assert(keys_unique(self@.records)) by {
                assert forall|a: int, b: int|
                    0 <= a < self@.records.len() && 0 <= b < self@.records.len() && a != b
                        implies !key_matches(
                        #[trigger] self@.records[a],
                        (#[trigger] self@.records[b]).operator,
                        self@.records[b].key,
                    ) by {
                    assert(key_matches(self@.records[a], before.records[a].operator, before.records[a].key));
                    assert(key_matches(self@.records[b], before.records[b].operator, before.records[b].key));
                    assert(!key_matches(before.records[a], before.records[b].operator, before.records[b].key));
                }
            }
        }
        Ok(resp)
    }

    /// Publishes an issue under an idempotency key: the first call with a
    /// key writes the issue, its deliveries and the response at once; a
    /// later call with the same key replays that response and writes
    /// nothing.
    pub fn publish(
        &mut self,
        operator: u128,
        key: &str,
        content: &IssueContent,
        subscribers: &Vec<u128>,
        published_at: &str,
    ) -> (r: Result<SavedResponse, PublishError>)
        requires
            store_wf(old(self)@),
        ensures
            store_wf(final(self)@),
            (final(self)@, outcome_view(r)) == publish_outcome(
                old(self)@,
                operator,
                key@,
                content@,
                subscribers@,
                published_at@,
            ),
            key@.len() == 0 ==> final(self)@ == old(self)@ && r == Err::<SavedResponse, PublishError>(
                PublishError::EmptyKey,
            ),
    {
        if key.is_empty() {
            return Err(PublishError::EmptyKey);
        }
        match self.begin(operator, key) {
            GateDecision::Execute => self.commit(operator, key, content, subscribers, published_at),
            GateDecision::Replay(r) => Ok(r),
            GateDecision::InProgress => Err(PublishError::ClaimConflict),
            GateDecision::Rejected => Err(PublishError::KeyRejected),
        }
    }

    /// Worker claim step: locks the first pending entry that no worker
    /// holds and hands out its (issue, subscriber) pair.
    pub fn claim_next_delivery(&mut self) -> (r: Option<(u64, u128)>)
        requires
            store_wf(old(self)@),
        ensures
            store_wf(final(self)@),
            final(self)@ == (StoreView { queue: after_claim(old(self)@.queue), ..old(self)@ }),
            match next_claim(old(self)@.queue) {
                Some(i) => r == Some(
                    (old(self)@.queue[i].issue_id, old(self)@.queue[i].subscriber_id),
                ),
                None => r is None,
            },
    {
        let ghost before = self@;
        let r = claim_next(&mut self.queue);
        proof {
            let q = before.queue;
            lemma_claim_keeps_pairs(q);
            assert(pairs_unique(self@.queue)) by {
                assert forall|a: int, b: int|
                    0 <= a < self@.queue.len() && 0 <= b < self@.queue.len() && a != b
                        implies !same_pair(
                        #[trigger] self@.queue[a],
                        (#[trigger] self@.queue[b]).issue_id,
                        self@.queue[b].subscriber_id,
                    ) by {
                    assert(same_pair(after_claim(q)[a], q[a].issue_id, q[a].subscriber_id));
                    assert(same_pair(after_claim(q)[b], q[b].issue_id, q[b].subscriber_id));
                    assert(!same_pair(q[a], q[b].issue_id, q[b].subscriber_id));
                }
            }
            assert forall|a: int| 0 <= a < self@.queue.len() implies (#[trigger] self@.queue[a]).issue_id
                < self@.next_issue_id by {
                assert(same_pair(after_claim(q)[a], q[a].issue_id, q[a].subscriber_id));
            }
        }
        r
    }

    /// Worker settle step: records the transport's outcome for a claimed
    /// pair; `None` when no such entry is queued.
    pub fn settle_delivery(
        &mut self,
        issue: u64,
        subscriber: u128,
        outcome: DeliveryOutcome,
        max_attempts: u32,
    ) -> (r: Option<EntryFate>)
        requires
            store_wf(old(self)@),
        ensures
            store_wf(final(self)@),
            final(self)@ == (StoreView {
                queue: after_outcome(old(self)@.queue, issue, subscriber, outcome, max_attempts),
                ..old(self)@
            }),
            r == (if has_pair(old(self)@.queue, issue, subscriber) {
                Some(
                    fate(
                        old(self)@.queue[entry_index(old(self)@.queue, issue, subscriber)],
                        outcome,
                        max_attempts,
                    ),
                )
            } else {
                None::<EntryFate>
            }),
    {
        let ghost before = self@;
        let r = settle(&mut self.queue, issue, subscriber, outcome, max_attempts);
        proof {
            lemma_settle_keeps_issues(
                before.queue,
                issue,
                subscriber,
                outcome,
                max_attempts,
                before.next_issue_id,
            );
        }
        r
    }

    /// The issue with id `id`, if one was published.
    pub fn issue(&self, id: u64) -> (r: Option<&NewsletterIssue>)
        ensures
            match r {
                Some(x) => x.id == id && exists|i: int|
                    0 <= i < self@.issues.len() && #[trigger] self@.issues[i] == x@,
                None => forall|i: int| 0 <= i < self@.issues.len() ==> (#[trigger] self@.issues[i]).id != id,
            },
    {
        let mut i: usize = 0;
        while i < self.issues.len()
            invariant
                i <= self.issues@.len(),
                self@.issues.len() == self.issues@.len(),
                forall|j: int| 0 <= j < i ==> (#[trigger] self@.issues[j]).id != id,
            decreases self.issues@.len() - i,
        {
            if self.issues[i].id == id {
                assert(self@.issues[i as int] == self.issues@[i as int]@);
                return Some(&self.issues[i]);
            }
            i = i + 1;
        }
        None
    }

    /// Marks the key accepted or rejected; `false` when no such key is
    /// recorded, in which case nothing changes.
    pub fn set_key_validity(&mut self, operator: u128, key: &IdempotencyKey, valid: bool) -> (r: bool)
        requires
            store_wf(old(self)@),
        ensures
            store_wf(final(self)@),
            r == has_key(old(self)@.records, operator, key@),
            r ==> final(self)@ == (StoreView {
                records: old(self)@.records.update(
                    key_index(old(self)@.records, operator, key@),
                    RecordView {
                        valid,
                        ..old(self)@.records[key_index(old(self)@.records, operator, key@)]
                    },
                ),
                ..old(self)@
            }),
            !r ==> final(self)@ == old(self)@,
    {
        let ghost before = self@;
        let k = String::from_str(key.as_str());
        match self.find_record(operator, &k) {
            None => false,
            Some(i) => {
                let resp = match &self.records[i].response {
                    Some(x) => Some(x.duplicate()),
                    None => None,
                };
                self.records.set(i, KeyRecord { operator, key: k, valid, response: resp });
                proof {
                    let rs = before.records.update(
                        i as int,
                        RecordView { valid, ..before.records[i as int] },
                    );
                    assert(self@.records =~= rs);
                    assert forall|a: int, b: int|
                        0 <= a < self@.records.len() && 0 <= b < self@.records.len() && a != b
                            implies !key_matches(
                            #[trigger] self@.records[a],
                            (#[trigger] self@.records[b]).operator,
                            self@.records[b].key,
                        ) by {
                        assert(!key_matches(before.records[a], before.records[b].operator, before.records[b].key));
                    }
                }
                true
            },
        }
    }

    /// The pending deliveries, in queue order.
    pub fn queue(&self) -> (r: &Vec<QueueEntry>)
        ensures
            r@ == self@.queue,
    {
        &self.queue
    }

    /// How many issues were published.
    pub fn issue_count(&self) -> (r: usize)
        ensures
            r == self@.issues.len(),
    {
        self.issues.len()
    }

    /// How many keys the ledger holds, placeholders included.
    pub fn record_count(&self) -> (r: usize)
        ensures
            r == self@.records.len(),
    {
        self.records.len()
    }

    /// Response Cache write: completes a key claimed through `begin`.
    pub fn save_response(&mut self, operator: u128, key: &str, response: SavedResponse) -> (r: Result<
        (),
        SaveError,
    >)
        requires
            store_wf(old(self)@),
        ensures
            store_wf(final(self)@),
            (final(self)@, r) == save(old(self)@, operator, key@, response@),
    {
        let ghost before = self@;
        let k = String::from_str(key);
        match self.find_record(operator, &k) {
            None => Err(SaveError::NotClaimed),
            Some(i) => {
                if self.records[i].response.is_some() {
                    return Err(SaveError::AlreadyExists);
                }
                let valid = self.records[i].valid;
                let ghost rv = response@;
                self.records.set(i, KeyRecord { operator, key: k, valid, response: Some(response) });
                proof {
                    let rs = before.records.update(
                        i as int,
                        RecordView { response: Some(rv), ..before.records[i as int] },
                    );
                    assert(self@.records =~= rs);
                    assert forall|a: int, b: int|
                        0 <= a < self@.records.len() && 0 <= b < self@.records.len() && a != b
                            implies !key_matches(
                            #[trigger] self@.records[a],
                            (#[trigger] self@.records[b]).operator,
                            self@.records[b].key,
                        ) by {
                        assert(!key_matches(before.records[a], before.records[b].operator, before.records[b].key));
                    }
                }
                Ok(())
            },
        }
    }

    /// Gives up a claim: the placeholder is dropped and the key is free
    /// again. `false`, with nothing changed, when the key is not claimed.
    pub fn release_claim(&mut self, operator: u128, key: &str) -> (r: bool)
        requires
            store_wf(old(self)@),
        ensures
            store_wf(final(self)@),
            (final(self)@, r) == release(old(self)@, operator, key@),
    {
        let ghost before = self@;
        let k = String::from_str(key);
        match self.find_record(operator, &k) {
            None => false,
            Some(i) => {
                if self.records[i].response.is_some() {
                    return false;
                }
                self.records.remove(i);
                assert(self@.records =~= before.records.remove(i as int));
                assert forall|a: int, b: int|
                    0 <= a < self@.records.len() && 0 <= b < self@.records.len() && a != b
                        implies !key_matches(
                        #[trigger] self@.records[a],
                        (#[trigger] self@.records[b]).operator,
                        self@.records[b].key,
                    ) by {
                    let a0 = if a < i { a } else { a + 1 };
                    let b0 = if b < i { b } else { b + 1 };
                    assert(self@.records[a] == before.records[a0]);
                    assert(self@.records[b] == before.records[b0]);
                }
                true
            },
        }
    }

    /// Run when workers start: every entry that a crashed worker held
    /// becomes pending again, so at worst one attempt is repeated.
    pub fn recover_deliveries(&mut self)
        requires
            store_wf(old(self)@),
        ensures
            store_wf(final(self)@),
            final(self)@ == (StoreView {
                queue: old(self)@.queue.map_values(|e: QueueEntry| unlocked(e)),
                ..old(self)@
            }),
    {
        let ghost before = self@;
        unlock_all(&mut self.queue);
        proof {
            let q = before.queue;
            assert forall|a: int, b: int|
                0 <= a < self@.queue.len() && 0 <= b < self@.queue.len() && a != b implies !same_pair(
                #[trigger] self@.queue[a],
                (#[trigger] self@.queue[b]).issue_id,
                self@.queue[b].subscriber_id,
            ) by {
                assert(!same_pair(q[a], q[b].issue_id, q[b].subscriber_id));
            }
            assert forall|a: int| 0 <= a < self@.queue.len() implies (#[trigger] self@.queue[a]).issue_id
                < self@.next_issue_id by {
                assert(self@.queue[a].issue_id == q[a].issue_id);
            }
        }
    }
}

} // verus!
