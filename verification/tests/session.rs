use nail::error::LogicError;
use nail::session::{
    cache_key, hash_canonical_token, hash_token, normalize_token, session_token_from_storage,
    token_from_stored,
};

#[test]
fn session_normalize_token_strips_whitespace_and_requires_a_uuid() {
    let uuid = uuid::Uuid::now_v7().to_string();
    assert_eq!(
        normalize_token(&format!(" {uuid}\n")).as_deref(),
        Some(uuid.as_str())
    );
    assert_eq!(normalize_token("not-a-uuid"), None);
    assert_eq!(normalize_token(""), None);
}

#[test]
fn authenticate_normalize_token_strips_whitespace_and_requires_a_uuid() {
    let uuid = uuid::Uuid::now_v7().to_string();
    assert_eq!(
        normalize_token(&format!(" {uuid}\n")).as_deref(),
        Some(uuid.as_str())
    );
    assert_eq!(normalize_token("not-a-uuid"), None);
    assert_eq!(normalize_token(""), None);
}

#[test]
fn hash_canonical_token_matches_cache_key() {
    let token = uuid::Uuid::now_v7().to_string();
    let via_logic = hash_canonical_token(&token).expect("hash");
    assert_eq!(via_logic, cache_key(&token).expect("cache key"));
}

#[test]
fn hash_token_normalizes_then_hashes() {
    let token = uuid::Uuid::now_v7().to_string();
    let key = hash_token(&format!(" {token}\n"), LogicError::bad_request("invalid")).expect("hash");
    assert_eq!(key, cache_key(&token).expect("cache key"));
}

#[test]
fn hash_token_rejects_a_non_uuid_payload_with_the_given_error() {
    let error = hash_token(
        "not-a-uuid",
        LogicError::bad_request("invalid or expired token"),
    )
    .unwrap_err();
    assert_eq!(error, LogicError::bad_request("invalid or expired token"));
}

#[test]
fn hash_token_rejects_an_empty_payload_with_the_given_error() {
    let error = hash_token("", LogicError::bad_request("invalid delete token")).unwrap_err();
    assert_eq!(error, LogicError::bad_request("invalid delete token"));
}

#[test]
fn tokens_normalize_to_lowercase_hyphenated_text() {
    let upper = "0196F71A4C1C7F008000000000000001";
    assert_eq!(
        normalize_token(upper).as_deref(),
        Some("0196f71a-4c1c-7f00-8000-000000000001")
    );
    let once = normalize_token(" {0196F71A-4C1C-7F00-8000-000000000001} ").unwrap();
    assert_eq!(once, "0196f71a-4c1c-7f00-8000-000000000001");
    assert_eq!(normalize_token(&once).unwrap(), once);
    assert_eq!(cache_key(upper), cache_key(&once));
    assert_eq!(hash_canonical_token(upper), None);
    assert_eq!(cache_key(&once).unwrap(), nail::hash::token(&once));
}

#[test]
fn tokens_in_every_uuid_form_normalize_alike() {
    let canonical = "67e55044-10b1-426f-9247-bb680e5fe0c8";
    for form in [
        "67e55044-10b1-426f-9247-bb680e5fe0c8",
        "67E55044-10B1-426F-9247-BB680E5FE0C8",
        "67e5504410b1426f9247bb680e5fe0c8",
        "{67e55044-10b1-426f-9247-bb680e5fe0c8}",
        "urn:uuid:67e55044-10b1-426f-9247-bb680e5fe0c8",
        "URN:UUID:67E55044-10B1-426F-9247-BB680E5FE0C8",
    ] {
        assert_eq!(normalize_token(form).as_deref(), Some(canonical), "{form}");
    }
    for bad in [
        "67e55044-10b1-426f-9247-bb680e5fe0c",
        "67e55044_10b1_426f_9247_bb680e5fe0c8",
        "(67e55044-10b1-426f-9247-bb680e5fe0c8)",
        "urn:uid:067e55044-10b1-426f-9247-bb680e5fe0c8",
        "67e55044-10b1-426f-9247-bb680e5fe0cé",
        "67e5504410b1426f9247bb680e5fe0cg",
    ] {
        assert_eq!(normalize_token(bad), None, "{bad}");
    }
}

#[test]
fn stored_session_token_is_decoded_or_taken_as_it_is() {
    assert_eq!(
        session_token_from_storage(Some("\"tok-123\"")).as_deref(),
        Some("tok-123")
    );
    assert_eq!(
        session_token_from_storage(Some("  \"a\\nb\" ")).as_deref(),
        Some("a\nb")
    );
    assert_eq!(
        session_token_from_storage(Some("tok-123")).as_deref(),
        Some("tok-123")
    );
    assert_eq!(session_token_from_storage(Some("\"\"")), None);
    assert_eq!(session_token_from_storage(Some("")), None);
    assert_eq!(session_token_from_storage(None), None);
    assert_eq!(
        token_from_stored("\"x\"", Some("x".to_string())).as_deref(),
        Some("x")
    );
    assert_eq!(token_from_stored("raw", None).as_deref(), Some("raw"));
    assert_eq!(token_from_stored("", None), None);
}
