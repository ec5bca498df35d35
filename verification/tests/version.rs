use nail::error::LogicError;
use nail::role::validate_role_name;
use nail::search::{parse_search_ranges, SearchRange};
use nail::version::{is_strictly_greater, parse_version, validate_version};

#[test]
fn validate_version_canonicalizes_valid_semver() {
    assert_eq!(validate_version("1.0.0").expect("valid"), "1.0.0");
    assert_eq!(validate_version(" 1.2.3 ").expect("valid"), "1.2.3");
    assert!(matches!(
        validate_version("not-semver"),
        Err(LogicError::BadRequest(_))
    ));
}

#[test]
fn version_numbers_are_parsed_strictly() {
    assert_eq!(parse_version("10.20.30"), Some((10, 20, 30)));
    assert_eq!(parse_version("1.02.3"), None);
    assert_eq!(parse_version("1.2"), None);
    assert_eq!(parse_version("1.2.3.4"), None);
    assert_eq!(parse_version("1..3"), None);
    assert_eq!(parse_version("18446744073709551615.0.0"), Some((u64::MAX, 0, 0)));
    assert_eq!(parse_version("18446744073709551616.0.0"), None);
    assert_eq!(
        validate_version("v1.0.0").unwrap_err(),
        LogicError::bad_request("invalid version number")
    );
}

#[test]
fn versions_compare_numerically() {
    assert!(is_strictly_greater((1, 10, 0), (1, 9, 9)));
    assert!(is_strictly_greater((2, 0, 0), (1, 99, 99)));
    assert!(!is_strictly_greater((1, 0, 0), (1, 0, 0)));
    assert!(!is_strictly_greater((1, 0, 0), (1, 0, 1)));
}

#[test]
fn validate_role_name_rejects_empty() {
    assert_eq!(
        validate_role_name(""),
        Err(LogicError::bad_request("invalid role name"))
    );
}

#[test]
fn validate_role_name_rejects_too_long() {
    let long = "a".repeat(65);
    assert_eq!(
        validate_role_name(&long),
        Err(LogicError::bad_request("invalid role name"))
    );
}

#[test]
fn validate_role_name_rejects_invalid_chars() {
    assert_eq!(
        validate_role_name("bad name!"),
        Err(LogicError::bad_request("invalid role name"))
    );
}

#[test]
fn validate_role_name_accepts_valid() {
    assert_eq!(
        validate_role_name("admin-role"),
        Ok("admin-role".to_string())
    );
    assert_eq!(validate_role_name(" editor "), Ok("editor".to_string()));
}

#[test]
fn search_ranges_default_to_all_and_reject_unknown_names() {
    assert_eq!(parse_search_ranges(None).unwrap().len(), 7);
    assert_eq!(
        parse_search_ranges(Some("title, note,title")).unwrap(),
        vec![SearchRange::Title, SearchRange::Note]
    );
    assert_eq!(
        parse_search_ranges(Some("title,summary,author_name,comment,note,tag,version_number"))
            .unwrap()
            .len(),
        7
    );
    assert_eq!(
        parse_search_ranges(Some("bogus")).unwrap_err(),
        LogicError::bad_request("unknown search range: bogus")
    );
}
