use nail::tokens::TokenStore;

#[test]
fn a_token_is_taken_back_once() {
    let mut store = TokenStore::new(300);
    store.issue(7, "challenge", 1_000);
    assert_eq!(store.consume(7, 2_000), Some("challenge"));
    assert_eq!(store.consume(7, 2_000), None);
}

#[test]
fn a_token_expires_after_its_lifetime() {
    let mut store = TokenStore::new(60);
    store.issue(1, 10u32, 0);
    store.issue(2, 20u32, 0);
    assert_eq!(store.consume(1, 59_999), Some(10));
    assert_eq!(store.consume(2, 60_000), None);
    assert_eq!(store.consume(2, 0), None);
}

#[test]
fn unknown_tokens_are_refused_and_reissue_replaces() {
    let mut store = TokenStore::new(60);
    assert_eq!(store.consume(9, 0), None);
    store.issue(9, 'a', 0);
    store.issue(9, 'b', 100_000);
    assert_eq!(store.consume(9, 130_000), Some('b'));
    store.issue(u128::MAX, 'z', u64::MAX - 5);
    assert_eq!(store.consume(u128::MAX, u64::MAX - 1), Some('z'));
}
