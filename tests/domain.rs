use newsletter_core::domain::{is_acceptable_name, SubscriberEmail, SubscriberName};
use newsletter_core::subscriptions::{FormData, NewSubscriber};

#[test]
fn reject_empty_email() {
    let email = "".to_string();
    assert!(SubscriberEmail::parse(email).is_err());
}

#[test]
fn reject_missing_at_email() {
    let email = "carthage.com".to_string();
    assert!(SubscriberEmail::parse(email).is_err());
}

#[test]
fn reject_missing_subject_email() {
    let email = "@phoenecian.com".to_string();
    assert!(SubscriberEmail::parse(email).is_err());
}

#[test]
fn accept_name() {
    let name = "Hannibal Barca".to_string();
    assert!(SubscriberName::parse(name).is_ok());
}

#[test]
fn accept_256_grapheme_name() {
    let name = "\u{eb}".repeat(256);
    assert!(SubscriberName::parse(name).is_ok());
}

#[test]
fn reject_256_grapheme_name() {
    let name = "e".repeat(257);
    assert!(SubscriberName::parse(name).is_err());
}

#[test]
fn reject_whitespace_name() {
    let name = " ".to_string();
    assert!(SubscriberName::parse(name).is_err());
}

#[test]
fn reject_empty_name() {
    let name = "".to_string();
    assert!(SubscriberName::parse(name).is_err());
}

#[test]
fn reject_invalid_character_name() {
    for name in &['/', '(', ')', '"', '<', '>', '\\', '{', '}'] {
        let name = name.to_string();
        assert!(SubscriberName::parse(name).is_err());
    }
}

#[test]
fn accept_valid_email_keeps_text() {
    let email = SubscriberEmail::parse("calth_invigilatus@gmail.com".to_string()).unwrap();
    assert_eq!(email.as_str(), "calth_invigilatus@gmail.com");
}

#[test]
fn invalid_email_message_names_the_input() {
    let err = SubscriberEmail::parse("invalid-email".to_string()).unwrap_err();
    assert_eq!(err, "invalid-email is not a valid subscriber email.");
}

#[test]
fn invalid_name_message_names_the_input() {
    let err = SubscriberName::parse("a<b".to_string()).unwrap_err();
    assert_eq!(err, "a<b is not a valid subscriber name.");
}

#[test]
fn combining_marks_count_as_one_grapheme() {
    // 256 clusters of "e" plus a combining acute accent: 512 chars, 256 graphemes.
    let name = "e\u{301}".repeat(256);
    assert!(SubscriberName::parse(name).is_ok());
    let name = "e\u{301}".repeat(257);
    assert!(SubscriberName::parse(name).is_err());
}

#[test]
fn name_rules_on_a_given_grapheme_count() {
    assert!(is_acceptable_name("Aeonid Thiel", 12));
    assert!(is_acceptable_name("Aeonid Thiel", 256));
    assert!(!is_acceptable_name("Aeonid Thiel", 257));
    assert!(!is_acceptable_name("\t\u{a0}\u{3000}", 3));
    assert!(!is_acceptable_name("Aeonid {Thiel}", 14));
}

#[test]
fn unicode_whitespace_only_name_is_rejected() {
    assert!(SubscriberName::parse("\u{2003}\n".to_string()).is_err());
}

#[test]
fn new_subscriber_checks_email_then_name() {
    let ok = NewSubscriber::try_from(FormData {
        email: "calth_invigilatus@gmail.com".to_string(),
        name: "Aeonid Thiel".to_string(),
    })
    .unwrap();
    assert_eq!(ok.email.as_str(), "calth_invigilatus@gmail.com");
    assert_eq!(ok.name.as_str(), "Aeonid Thiel");

    let both_bad = NewSubscriber::try_from(FormData {
        email: "".to_string(),
        name: "".to_string(),
    })
    .unwrap_err();
    assert_eq!(both_bad, " is not a valid subscriber email.");

    let bad_name = NewSubscriber::try_from(FormData {
        email: "calth_invigilatus@gmail.com".to_string(),
        name: "".to_string(),
    })
    .unwrap_err();
    assert_eq!(bad_name, " is not a valid subscriber name.");
}
