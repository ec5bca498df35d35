use nail::email::{normalize_email, parse_intent, validate_email, EmailReadIntent};

#[test]
fn _email_parse_intent_maps_the_wire_values() {
    assert_eq!(parse_intent("authenticate"), Some(EmailReadIntent::Authenticate));
    assert_eq!(parse_intent("change_email"), Some(EmailReadIntent::ChangeEmail));
    assert_eq!(parse_intent("deregister"), Some(EmailReadIntent::Deregister));
    assert_eq!(parse_intent("bogus"), None);
    assert_eq!(parse_intent(""), None);
}

#[test]
fn _email_normalize_email_trims_and_lowercases() {
    assert_eq!(normalize_email("  Alice@Example.COM  "), "alice@example.com");
    assert_eq!(normalize_email("alice@example.com"), "alice@example.com");
}

#[test]
fn _email_validate_email_accepts_allowed_domains_case_insensitively() {
    let allowed = vec!["example.com".to_string(), "test.org".to_string()];
    assert!(validate_email("alice@example.com", &allowed));
    assert!(validate_email("bob@EXAMPLE.COM", &allowed));
    assert!(validate_email("c@test.org", &allowed));
}

#[test]
fn _email_validate_email_rejects_disallowed_or_malformed_addresses() {
    let allowed = vec!["example.com".to_string()];
    assert!(!validate_email("alice@other.org", &allowed));
    assert!(!validate_email("not-an-email", &allowed));
    assert!(!validate_email("", &allowed));
    assert!(!validate_email(&"a".repeat(255), &allowed));
}

#[test]
fn email_parse_intent_maps_the_wire_values() {
    assert_eq!(parse_intent("authenticate"), Some(EmailReadIntent::Authenticate));
    assert_eq!(parse_intent("change_email"), Some(EmailReadIntent::ChangeEmail));
    assert_eq!(parse_intent("deregister"), Some(EmailReadIntent::Deregister));
    assert_eq!(parse_intent("bogus"), None);
    assert_eq!(parse_intent(""), None);
}

#[test]
fn email_normalize_email_trims_and_lowercases() {
    assert_eq!(normalize_email("  Alice@Example.COM  "), "alice@example.com");
    assert_eq!(normalize_email("alice@example.com"), "alice@example.com");
}

#[test]
fn email_validate_email_accepts_allowed_domains_case_insensitively() {
    let allowed = vec!["example.com".to_string(), "test.org".to_string()];
    assert!(validate_email("alice@example.com", &allowed));
    assert!(validate_email("bob@EXAMPLE.COM", &allowed));
    assert!(validate_email("c@test.org", &allowed));
}

#[test]
fn email_validate_email_rejects_disallowed_or_malformed_addresses() {
    let allowed = vec!["example.com".to_string()];
    assert!(!validate_email("alice@other.org", &allowed));
    assert!(!validate_email("not-an-email", &allowed));
    assert!(!validate_email("", &allowed));
    assert!(!validate_email(&"a".repeat(255), &allowed));
}

#[test]
fn validate_email_requires_one_at_sign_and_a_local_part() {
    let allowed = vec!["Example.com".to_string()];
    assert!(validate_email("x@example.com", &allowed));
    assert!(!validate_email("@example.com", &allowed));
    assert!(!validate_email("a@b@example.com", &allowed));
    assert!(!validate_email("a b@example.com", &allowed));
    assert!(!validate_email("a@sub.example.com", &allowed));
    let local = "a".repeat(242);
    assert!(validate_email(&format!("{local}@example.com"), &allowed));
    assert!(!validate_email(&format!("{local}a@example.com"), &allowed));
}
