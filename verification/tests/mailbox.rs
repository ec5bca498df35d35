use nail::mailbox::RecordingSender;

#[test]
fn recording_sender_starts_empty() {
    let r = RecordingSender::new();
    assert!(r.emails().is_empty());
    let d = RecordingSender::default();
    assert!(d.emails().is_empty());
}

#[test]
fn recording_sender_keeps_messages_in_order() {
    let mut r = RecordingSender::new();
    r.send("a@example.com", "Sign in", "token one");
    r.send("b@example.com", "Sign in", "token two");
    let sent = r.emails();
    assert_eq!(sent.len(), 2);
    assert_eq!(
        sent[0],
        (
            "a@example.com".to_string(),
            "Sign in".to_string(),
            "token one".to_string()
        )
    );
    assert_eq!(sent[1].0, "b@example.com");
    assert_eq!(sent[1].2, "token two");
    assert_eq!(r.sent.len(), 2);
}
