use newsletter_core::delivery::{attempt_outcome, DeliveryOutcome, EntryFate};
use newsletter_core::store::{IssueContent, Store};

const OP: u128 = 99;

fn content() -> IssueContent {
    IssueContent {
        title: "t".to_string(),
        text_content: "text".to_string(),
        html_content: "<p>html</p>".to_string(),
    }
}

fn store_with(subs: Vec<u128>) -> Store {
    let mut store = Store::new();
    store.publish(OP, "key", &content(), &subs, "now").unwrap();
    store
}

#[test]
fn retry_bound_reaches_ceiling_then_abandons() {
    let mut store = store_with(vec![1]);
    let max_attempts = 3;
    let mut calls = 0;
    let mut fates = Vec::new();
    while let Some((issue, sub)) = store.claim_next_delivery() {
        calls += 1;
        let fate = store
            .settle_delivery(issue, sub, DeliveryOutcome::TransientFailure, max_attempts)
            .unwrap();
        fates.push(fate);
        if fate == EntryFate::Retried {
            assert_eq!(store.queue()[0].n_retries as usize, calls);
            assert!(!store.queue()[0].locked);
        }
        assert!(calls <= max_attempts as usize);
    }
    assert_eq!(calls, 3);
    assert_eq!(fates, vec![EntryFate::Retried, EntryFate::Retried, EntryFate::Abandoned]);
    assert_eq!(store.queue().len(), 0);
}

#[test]
fn a_ceiling_of_one_allows_a_single_attempt() {
    let mut store = store_with(vec![1]);
    let (issue, sub) = store.claim_next_delivery().unwrap();
    assert_eq!(
        store.settle_delivery(issue, sub, DeliveryOutcome::TransientFailure, 1),
        Some(EntryFate::Abandoned)
    );
    assert!(store.claim_next_delivery().is_none());
}

#[test]
fn permanent_failure_abandons_at_once() {
    let mut store = store_with(vec![1, 2]);
    let (issue, sub) = store.claim_next_delivery().unwrap();
    assert_eq!(
        store.settle_delivery(issue, sub, DeliveryOutcome::PermanentFailure, 10),
        Some(EntryFate::Abandoned)
    );
    assert_eq!(store.queue().len(), 1);
    assert_eq!(store.queue()[0].subscriber_id, 2);
}

#[test]
fn claimed_entries_are_skipped_by_other_workers() {
    let mut store = store_with(vec![1, 2]);
    let first = store.claim_next_delivery().unwrap();
    let second = store.claim_next_delivery().unwrap();
    assert_eq!(first.1, 1);
    assert_eq!(second.1, 2);
    assert!(store.claim_next_delivery().is_none());
    assert!(store.queue().iter().all(|e| e.locked));
}

#[test]
fn a_failed_entry_is_released_for_a_later_pass() {
    let mut store = store_with(vec![1, 2]);
    let (issue, sub) = store.claim_next_delivery().unwrap();
    assert_eq!(
        store.settle_delivery(issue, sub, DeliveryOutcome::TransientFailure, 5),
        Some(EntryFate::Retried)
    );
    assert_eq!(store.claim_next_delivery(), Some((issue, sub)));
}

#[test]
fn settling_an_unknown_pair_changes_nothing() {
    let mut store = store_with(vec![1]);
    assert_eq!(store.settle_delivery(0, 2, DeliveryOutcome::Delivered, 5), None);
    assert_eq!(store.settle_delivery(1, 1, DeliveryOutcome::Delivered, 5), None);
    assert_eq!(store.queue().len(), 1);
}

#[test]
fn drain_completeness_mixed_outcomes() {
    let mut store = store_with(vec![1, 2, 3, 4]);
    let mut sends: Vec<u128> = Vec::new();
    while let Some((issue, sub)) = store.claim_next_delivery() {
        sends.push(sub);
        // Subscriber 3 always fails; the others succeed on the first try.
        let outcome = attempt_outcome(true, sub != 3);
        store.settle_delivery(issue, sub, outcome, 2);
    }
    assert_eq!(store.queue().len(), 0);
    assert_eq!(sends, vec![1, 2, 3, 3, 4]);
}

#[test]
fn attempt_outcome_classifies() {
    assert_eq!(attempt_outcome(true, true), DeliveryOutcome::Delivered);
    assert_eq!(attempt_outcome(true, false), DeliveryOutcome::TransientFailure);
    assert_eq!(attempt_outcome(false, true), DeliveryOutcome::PermanentFailure);
    assert_eq!(attempt_outcome(false, false), DeliveryOutcome::PermanentFailure);
}

#[test]
fn recovery_releases_entries_of_a_crashed_worker() {
    let mut store = store_with(vec![1, 2]);
    let held = store.claim_next_delivery().unwrap();
    // The worker dies here; on restart every entry is pending again.
    store.recover_deliveries();
    assert!(store.queue().iter().all(|e| !e.locked));
    assert_eq!(store.claim_next_delivery(), Some(held));
    assert_eq!(store.queue()[0].n_retries, 0);
}
