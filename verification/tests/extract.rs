use nail::extract::{policy_action_names, strip_marks, token_from_url};
use nail::fixtures::pdf_hash;

#[test]
fn strip_marks_removes_both_highlight_tags() {
    assert_eq!(strip_marks("<mark>Quantum</mark> Index"), "Quantum Index");
    assert_eq!(strip_marks("plain"), "plain");
    assert_eq!(strip_marks("<mark></mark>"), "");
    assert_eq!(strip_marks("<ma<mark>rk>x"), "<mark>x");
    assert_eq!(strip_marks("</<mark>mark>é"), "é");
    assert_eq!(strip_marks("<mark"), "<mark");
}

#[test]
fn token_from_url_takes_the_text_after_the_marker() {
    assert_eq!(token_from_url("/content/download?token=abc-123"), "abc-123");
    assert_eq!(token_from_url("/x?token="), "");
    assert_eq!(token_from_url("/x?token=a?token=b"), "a");
    let (prefix, token) = ("/article/1/version/2/content/download", "tok-9");
    let url = format!("{prefix}?token={token}");
    assert_eq!(format!("{prefix}?token={}", token_from_url(&url)), url);
}

#[test]
fn pdf_hash_repeats_the_seed_digits() {
    assert_eq!(pdf_hash(7), "7".repeat(32));
    assert_eq!(pdf_hash(0xab), "ab".repeat(32));
    assert_eq!(pdf_hash(0), "0".repeat(32));
    assert_eq!(pdf_hash(16).len(), 64);
}

#[test]
fn policy_action_names_are_sorted_and_unique() {
    let policy = r#"
permit(principal, action == Action::"User::Read", resource);
permit(principal, action in [Action::"Article::Read", Action::"User::Read"], resource);
forbid(principal, action == Action::"Role::Grant", resource) when { false };
permit(principal, action == Action::"Ärger", resource);
permit(principal, action == Action::"never closed
"#;
    assert_eq!(
        policy_action_names(policy),
        vec![
            "Article::Read".to_string(),
            "Role::Grant".to_string(),
            "User::Read".to_string(),
            "Ärger".to_string(),
        ]
    );
    assert!(policy_action_names("no actions here").is_empty());
    assert!(policy_action_names("Action::\"open").is_empty());
}
