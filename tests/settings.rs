use newsletter_core::idempotency::{IdempotencyKey, IdempotencyKeyError};
use newsletter_core::notice::FlashLevel;
use newsletter_core::settings::{change_key_state, key_state, parse_validity, FormData, KeyStateError};
use newsletter_core::store::{GateDecision, IssueContent, PublishError, Store};

const USER: u128 = 5;

fn content() -> IssueContent {
    IssueContent {
        title: "Newsletter title".to_string(),
        text_content: "Newsletter body as plain text".to_string(),
        html_content: "<p>Newsletter body as HTML</p>".to_string(),
    }
}

fn form(key: &str, validity: &str) -> FormData {
    FormData { idempotency_key: key.to_string(), validity: validity.to_string() }
}

#[test]
fn key_states_are_mutable() {
    let mut store = Store::new();
    let key = "4f1e0c52-1d1b-4c55-9a8b-0f7c2e6d3a10";
    store.publish(USER, key, &content(), &vec![1], "now").unwrap();

    let notice = change_key_state(&mut store, USER, form(key, "1")).unwrap();
    assert_eq!(notice.level, FlashLevel::Info);
    assert_eq!(notice.message, "The key state has been changed.");

    let notice = change_key_state(&mut store, USER, form(key, "0")).unwrap();
    assert_eq!(notice.level, FlashLevel::Info);
    assert_eq!(notice.message, "The key state has been changed.");
}

#[test]
fn rejected_key_prevents_action() {
    let mut store = Store::new();
    let key = "b3a9a0f4-2e55-4d7b-8e0f-3c9e1a6b5d22";
    store.publish(USER, key, &content(), &vec![1], "now").unwrap();
    let notice = change_key_state(&mut store, USER, form(key, "0")).unwrap();
    assert_eq!(notice.message, "The key state has been changed.");

    let again = store.publish(USER, key, &content(), &vec![1], "now");
    assert_eq!(again, Err(PublishError::KeyRejected));
    assert!(matches!(store.begin(USER, key), GateDecision::Rejected));
    assert_eq!(store.issue_count(), 1);
    assert_eq!(store.queue().len(), 1);
}

#[test]
fn invalid_key_prevents_action() {
    let mut store = Store::new();
    let err = change_key_state(&mut store, USER, form("", "1")).unwrap_err();
    assert_eq!(err, IdempotencyKeyError::Empty);
    assert_eq!(err.message(), "The idempotency key cannot be empty!");
    assert_eq!(store.record_count(), 0);
}

#[test]
fn unknown_key_leaves_the_store_alone() {
    let mut store = Store::new();
    let notice = change_key_state(&mut store, USER, form("missing", "1")).unwrap();
    assert_eq!(notice.level, FlashLevel::Error);
    assert_eq!(notice.message, "Failed to change the key state.");
    let key = IdempotencyKey::try_from("missing".to_string()).unwrap();
    let err = key_state(&mut store, USER, key, "1").unwrap_err();
    assert_eq!(err, KeyStateError::NoMatchingKey);
    assert_eq!(err.message(), "No matching key found.");
}

#[test]
fn key_state_belongs_to_its_operator() {
    let mut store = Store::new();
    store.publish(USER, "k", &content(), &vec![], "now").unwrap();
    let key = IdempotencyKey::try_from("k".to_string()).unwrap();
    assert_eq!(key_state(&mut store, USER + 1, key, "0"), Err(KeyStateError::NoMatchingKey));
    assert!(store.publish(USER, "k", &content(), &vec![], "now").is_ok());
}

#[test]
fn reaccepted_key_replays_again() {
    let mut store = Store::new();
    let first = store.publish(USER, "k", &content(), &vec![1], "now").unwrap();
    change_key_state(&mut store, USER, form("k", "0")).unwrap();
    change_key_state(&mut store, USER, form("k", "1")).unwrap();
    assert_eq!(store.publish(USER, "k", &content(), &vec![1], "now"), Ok(first));
}

#[test]
fn validity_text_is_one_for_accept() {
    assert!(parse_validity("1"));
    assert!(!parse_validity("0"));
    assert!(!parse_validity(""));
    assert!(!parse_validity("11"));
    assert!(!parse_validity("yes"));
}

#[test]
fn idempotency_key_must_not_be_empty() {
    assert_eq!(IdempotencyKey::try_from(String::new()).unwrap_err(), IdempotencyKeyError::Empty);
    let key = IdempotencyKey::try_from("abc".to_string()).unwrap();
    assert_eq!(key.as_str(), "abc");
    assert_eq!(key.into_string(), "abc");
}
