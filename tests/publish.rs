use newsletter_core::delivery::{DeliveryOutcome, EntryFate};
use newsletter_core::idempotency::{HeaderPair, SavedResponse};
use newsletter_core::store::{
    accepted_response_value, poll_backoff_ms, GateDecision, IssueContent, PublishError, SaveError,
    Store,
    ACCEPTED_LOCATION, ACCEPTED_MESSAGE, ACCEPTED_STATUS, LOCATION_HEADER,
};

const U1: u128 = 0x1111;
const U2: u128 = 0x2222;
const MAX_ATTEMPTS: u32 = 5;

fn content() -> IssueContent {
    IssueContent {
        title: "Newsletter title".to_string(),
        text_content: "Newsletter body as plain text".to_string(),
        html_content: "<p>Newsletter body as HTML</p>".to_string(),
    }
}

fn expected_accepted() -> SavedResponse {
    SavedResponse {
        status_code: 303,
        headers: vec![HeaderPair {
            name: "location".to_string(),
            value: b"/admin/newsletter".to_vec(),
        }],
        body: b"The newsletter issue has been accepted -> emails will be delivered shortly."
            .to_vec(),
    }
}

/// Runs the worker until the queue is empty, every send succeeding;
/// returns the pairs that were sent.
fn drain_all(store: &mut Store) -> Vec<(u64, u128)> {
    let mut calls = Vec::new();
    while let Some((issue, subscriber)) = store.claim_next_delivery() {
        calls.push((issue, subscriber));
        assert_eq!(
            store.settle_delivery(issue, subscriber, DeliveryOutcome::Delivered, MAX_ATTEMPTS),
            Some(EntryFate::Retired)
        );
    }
    calls
}

#[test]
fn accepted_response_is_the_fixed_redirect() {
    let r = accepted_response_value();
    assert_eq!(r, expected_accepted());
    assert_eq!(r.status_code, ACCEPTED_STATUS);
    assert_eq!(r.headers[0].name, LOCATION_HEADER);
    assert_eq!(r.headers[0].value, ACCEPTED_LOCATION.as_bytes());
    assert_eq!(r.body, ACCEPTED_MESSAGE.as_bytes());
}

#[test]
fn publish_scenario_three_subscribers() {
    let mut store = Store::new();
    let subs = vec![11u128, 12, 13];
    let first = store.publish(U1, "K1", &content(), &subs, "2024-05-01T10:00:00Z").unwrap();
    assert_eq!(first, expected_accepted());
    assert_eq!(store.issue_count(), 1);
    assert_eq!(store.queue().len(), 3);

    let calls = drain_all(&mut store);
    assert_eq!(store.queue().len(), 0);
    assert_eq!(calls, vec![(0, 11), (0, 12), (0, 13)]);

    let again = store.publish(U1, "K1", &content(), &subs, "2024-05-01T10:00:05Z").unwrap();
    assert_eq!(again, first);
    assert_eq!(store.issue_count(), 1);
    assert_eq!(store.queue().len(), 0);
}

#[test]
fn newsletter_creation_is_idempotent() {
    let mut store = Store::new();
    let subs = vec![7u128];
    let key = "9c1f2d8e-5b7a-4c3e-8f21-6d0a9b4e7c12";
    let r1 = store.publish(U1, key, &content(), &subs, "now").unwrap();
    assert_eq!(r1.body, ACCEPTED_MESSAGE.as_bytes());
    let r2 = store.publish(U1, key, &content(), &subs, "later").unwrap();
    assert_eq!(r2, r1);
    assert_eq!(store.issue_count(), 1);
    assert_eq!(store.queue().len(), 1);
    assert_eq!(drain_all(&mut store).len(), 1);
}

#[test]
fn graceful_handling_concurrent_form_submission() {
    let mut store = Store::new();
    let subs = vec![7u128];
    let key = "concurrent-key";
    // The first request claims the key; the second arrives while it runs.
    assert!(matches!(store.begin(U1, key), GateDecision::Execute));
    assert!(matches!(store.begin(U1, key), GateDecision::InProgress));
    assert_eq!(
        store.publish(U1, key, &content(), &subs, "now"),
        Err(PublishError::ClaimConflict)
    );
    assert_eq!(store.issue_count(), 0);
    let r1 = store.commit(U1, key, &content(), &subs, "now").unwrap();
    // The waiting request polls again and replays.
    let r2 = match store.begin(U1, key) {
        GateDecision::Replay(r) => r,
        other => panic!("expected a replay, got {:?}", other),
    };
    assert_eq!(r1.status_code, r2.status_code);
    assert_eq!(r1.body, r2.body);
    assert_eq!(store.issue_count(), 1);
    assert_eq!(store.queue().len(), 1);
}

#[test]
fn empty_key_is_rejected_and_nothing_is_written() {
    let mut store = Store::new();
    let subs = vec![1u128, 2];
    assert_eq!(
        store.publish(U1, "", &content(), &subs, "now"),
        Err(PublishError::EmptyKey)
    );
    assert_eq!(store.issue_count(), 0);
    assert_eq!(store.queue().len(), 0);
    assert_eq!(store.record_count(), 0);
    assert_eq!(store.lookup(U1, ""), None);
}

#[test]
fn newsletters_unavailable_for_unconfirmed_subscribers() {
    let mut store = Store::new();
    let no_confirmed: Vec<u128> = Vec::new();
    let r = store.publish(U1, "k", &content(), &no_confirmed, "now");
    assert_eq!(r, Ok(expected_accepted()));
    assert_eq!(store.issue_count(), 1);
    assert_eq!(store.queue().len(), 0);
    assert!(drain_all(&mut store).is_empty());
}

#[test]
fn newsletters_available_for_confirmed_subscribers() {
    let mut store = Store::new();
    let subs = vec![42u128];
    store.publish(U1, "k", &content(), &subs, "now").unwrap();
    let (issue, subscriber) = store.claim_next_delivery().unwrap();
    assert_eq!(subscriber, 42);
    let published = store.issue(issue).unwrap();
    assert_eq!(published.title, "Newsletter title");
    assert_eq!(published.text_content, "Newsletter body as plain text");
    assert_eq!(published.html_content, "<p>Newsletter body as HTML</p>");
    assert_eq!(published.published_at, "now");
    assert_eq!(
        store.settle_delivery(issue, subscriber, DeliveryOutcome::Delivered, MAX_ATTEMPTS),
        Some(EntryFate::Retired)
    );
    assert!(store.claim_next_delivery().is_none());
}

#[test]
fn fan_out_makes_one_entry_per_subscriber() {
    let mut store = Store::new();
    let subs = vec![5u128, 6, 7, 8];
    store.publish(U1, "a", &content(), &subs, "now").unwrap();
    let q = store.queue();
    assert_eq!(q.len(), 4);
    for (entry, sub) in q.iter().zip(subs.iter()) {
        assert_eq!(entry.issue_id, 0);
        assert_eq!(entry.subscriber_id, *sub);
        assert_eq!(entry.n_retries, 0);
        assert!(!entry.locked);
    }
}

#[test]
fn duplicate_subscribers_are_enqueued_once() {
    let mut store = Store::new();
    let subs = vec![5u128, 6, 5, 6, 5];
    store.publish(U1, "a", &content(), &subs, "now").unwrap();
    assert_eq!(store.queue().len(), 2);
}

#[test]
fn keys_are_scoped_by_operator() {
    let mut store = Store::new();
    let subs = vec![1u128];
    store.publish(U1, "same", &content(), &subs, "now").unwrap();
    store.publish(U2, "same", &content(), &subs, "now").unwrap();
    assert_eq!(store.issue_count(), 2);
    assert_eq!(store.queue().len(), 2);
    let ids: Vec<u64> = store.queue().iter().map(|e| e.issue_id).collect();
    assert_eq!(ids, vec![0, 1]);
}

#[test]
fn lookup_sees_only_completed_keys() {
    let mut store = Store::new();
    assert_eq!(store.lookup(U1, "k"), None);
    assert!(matches!(store.begin(U1, "k"), GateDecision::Execute));
    assert_eq!(store.lookup(U1, "k"), None);
    store.commit(U1, "k", &content(), &vec![], "now").unwrap();
    assert_eq!(store.lookup(U1, "k"), Some(expected_accepted()));
    assert_eq!(store.lookup(U2, "k"), None);
}

#[test]
fn commit_without_claim_writes_nothing() {
    let mut store = Store::new();
    assert_eq!(
        store.commit(U1, "k", &content(), &vec![1], "now"),
        Err(PublishError::NotClaimed)
    );
    store.publish(U1, "k", &content(), &vec![1], "now").unwrap();
    assert_eq!(
        store.commit(U1, "k", &content(), &vec![1], "now"),
        Err(PublishError::NotClaimed)
    );
    assert_eq!(store.issue_count(), 1);
    assert_eq!(store.queue().len(), 1);
}

#[test]
fn republishing_after_drain_adds_nothing() {
    let mut store = Store::new();
    let subs = vec![1u128, 2];
    store.publish(U1, "k", &content(), &subs, "now").unwrap();
    drain_all(&mut store);
    store.publish(U1, "k", &content(), &subs, "now").unwrap();
    assert_eq!(store.queue().len(), 0);
    assert_eq!(store.issue_count(), 1);
}

#[test]
fn poll_backoff_doubles_up_to_the_cap() {
    assert_eq!(poll_backoff_ms(0), 50);
    assert_eq!(poll_backoff_ms(1), 100);
    assert_eq!(poll_backoff_ms(3), 400);
    assert_eq!(poll_backoff_ms(5), 1600);
    assert_eq!(poll_backoff_ms(6), 2000);
    assert_eq!(poll_backoff_ms(u32::MAX), 2000);
}

#[test]
fn save_completes_a_claim_once() {
    let mut store = Store::new();
    assert_eq!(
        store.save_response(U1, "k", expected_accepted()),
        Err(SaveError::NotClaimed)
    );
    assert!(matches!(store.begin(U1, "k"), GateDecision::Execute));
    let custom = SavedResponse { status_code: 500, headers: Vec::new(), body: b"oops".to_vec() };
    assert_eq!(store.save_response(U1, "k", custom), Ok(()));
    assert_eq!(
        store.save_response(U1, "k", expected_accepted()),
        Err(SaveError::AlreadyExists)
    );
    let replayed = store.lookup(U1, "k").unwrap();
    assert_eq!(replayed.status_code, 500);
    assert_eq!(replayed.body, b"oops".to_vec());
}

#[test]
fn released_claim_lets_the_next_caller_run() {
    let mut store = Store::new();
    assert!(matches!(store.begin(U1, "k"), GateDecision::Execute));
    assert!(store.release_claim(U1, "k"));
    assert_eq!(store.record_count(), 0);
    assert!(!store.release_claim(U1, "k"));
    let r = store.publish(U1, "k", &content(), &vec![1], "now");
    assert_eq!(r, Ok(expected_accepted()));
    assert!(!store.release_claim(U1, "k"));
    assert_eq!(store.record_count(), 1);
}
