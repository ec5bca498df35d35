use nail::name::{validate_name, NameError};

#[test]
fn error_precedence_whitelist_before_length() {
    let long_non_ascii: String = "名".repeat(33);
    assert!(matches!(
        validate_name(&long_non_ascii),
        Err(NameError::ContainsForbiddenChar(_))
    ));
    assert!(matches!(
        validate_name("中"),
        Err(NameError::ContainsForbiddenChar(_))
    ));
    let long_ascii = "a".repeat(33);
    assert!(matches!(
        validate_name(&long_ascii),
        Err(NameError::TooLong)
    ));
    let boundary = "a".repeat(32);
    assert_eq!(validate_name(&boundary).unwrap(), boundary);
}

#[test]
fn trims_surrounding_whitespace_and_returns_canonical_form() {
    assert_eq!(validate_name("  alice  ").unwrap(), "alice");
    assert_eq!(validate_name("\t alice_2\n").unwrap(), "alice_2");
    assert_eq!(validate_name("  ").unwrap_err(), NameError::Empty);
    assert!(matches!(
        validate_name("a b"),
        Err(NameError::ContainsForbiddenChar(_))
    ));
}

#[test]
fn validated_name_validates_to_itself() {
    let once = validate_name(" bob-the_2nd ").unwrap();
    assert_eq!(validate_name(&once).unwrap(), once);
    assert_eq!(validate_name("a.b"), Err(NameError::ContainsForbiddenChar('.')));
}
