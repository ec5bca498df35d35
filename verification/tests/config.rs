use nail::config::{test_config, ConfigField, ServerConfig, SmtpConfig};

fn valid_server() -> ServerConfig {
    test_config().server
}

fn assert_invalid_server(mutate: impl FnOnce(&mut ServerConfig)) {
    let mut server = valid_server();
    mutate(&mut server);
    assert!(server.validate().is_err());
}

#[test]
fn server_config_accepts_a_valid_shape() {
    assert!(valid_server().validate().is_ok());
}

#[test]
fn server_config_rejects_empty_paths() {
    assert_invalid_server(|server| server.listen_addr.clear());
    assert_invalid_server(|server| server.db_path.clear());
    assert_invalid_server(|server| server.log_dir.clear());
}

#[test]
fn server_config_rejects_an_invalid_difficulty() {
    assert_invalid_server(|server| server.pow_difficulty_iterations = 0);
    assert_invalid_server(|server| server.pow_difficulty_iterations = 10_001);
}

#[test]
fn server_config_rejects_zero_ttls_and_capacity() {
    assert_invalid_server(|server| server.token_ttl_seconds = 0);
    assert_invalid_server(|server| server.session_ttl_seconds = 0);
    assert_invalid_server(|server| server.challenge_ttl_seconds = 0);
    assert_invalid_server(|server| server.token_cache_capacity = 0);
    assert_invalid_server(|server| server.email_cooldown_seconds = 0);
    assert_invalid_server(|server| server.log_prune_interval_secs = 0);
}

#[test]
fn server_config_rejects_an_invalid_timezone_offset() {
    assert_invalid_server(|server| server.timezone_offset_seconds = 90);
    assert_invalid_server(|server| server.timezone_offset_seconds = 86_400);
    assert_invalid_server(|server| server.timezone_offset_seconds = -86_400);
}

#[test]
fn server_config_rejects_an_invalid_user_zero_email() {
    assert_invalid_server(|server| server.user_zero_email.clear());
    assert_invalid_server(|server| server.user_zero_email = "no-at-sign".to_string());
}

#[test]
fn server_config_error_names_the_first_bad_setting() {
    let mut server = valid_server();
    server.token_ttl_seconds = 0;
    server.timezone_offset_seconds = 90;
    assert_eq!(server.validate().unwrap_err().field, ConfigField::TokenTtlSeconds);
    let mut server = valid_server();
    server.timezone_offset_seconds = -20_700;
    assert!(server.validate().is_ok());
}

#[test]
fn smtp_config_rejects_invalid_shapes() {
    let valid = test_config().smtp;
    let mut empty_host = valid.clone();
    empty_host.host.clear();
    assert!(empty_host.validate().is_err());

    let mut zero_port = valid.clone();
    zero_port.port = 0;
    assert!(zero_port.validate().is_err());

    let mut zero_timeout = valid.clone();
    zero_timeout.timeout_secs = 0;
    assert!(zero_timeout.validate().is_err());

    let mut bad_wall_clock = valid.clone();
    bad_wall_clock.timeout_secs = 30;
    bad_wall_clock.wall_clock_timeout_secs = 10;
    assert!(bad_wall_clock.validate().is_err());

    assert!(SmtpConfig {
        host: "localhost".to_string(),
        port: 25,
        username: String::new(),
        password: String::new(),
        from_email: "noreply@example.com".to_string(),
        from_name: "nail".to_string(),
        timeout_secs: 10,
        wall_clock_timeout_secs: 30,
        starttls: false,
    }
    .validate()
    .is_ok());
}

#[test]
fn max_request_body_bytes_sums_pdf_and_five_text_fields_plus_64kib() {
    let mut config = test_config();
    config.server.max_pdf_size_bytes = 4096;
    config.server.max_text_field_bytes = 64;
    assert_eq!(
        config.server.max_request_body_bytes(),
        4096 + 5 * 64 + 64 * 1024
    );
}

#[test]
fn max_request_body_bytes_is_saturating() {
    let config = ServerConfig {
        max_pdf_size_bytes: u64::MAX,
        max_text_field_bytes: u64::MAX,
        ..test_config().server
    };
    assert_eq!(config.max_request_body_bytes(), u64::MAX);
}

#[test]
fn test_config_holds_the_suite_limits() {
    let config = test_config();
    assert_eq!(config.server.listen_addr, "127.0.0.1:0");
    assert_eq!(config.server.pdf_storage_path, "/tmp/nail_test_pdf");
    assert_eq!(config.server.max_tags_per_article, 8);
    assert_eq!(config.server.max_comment_body_chars, 1024);
    assert_eq!(config.server.max_version_note_chars, 1024);
    assert_eq!(config.server.max_title_chars, 200);
    assert_eq!(config.server.max_summary_chars, 2000);
    assert_eq!(config.server.max_pdf_size_bytes, 32 * 1024 * 1024);
    assert_eq!(config.server.max_text_field_bytes, 1024 * 1024);
    assert_eq!(config.server.download_token_ttl_seconds, 60);
    assert_eq!(config.server.search_page_size, 8);
    assert_eq!(config.server.max_search_pages, 1024);
    assert_eq!(config.logging.filter, "warn");
    assert_eq!(config.emailer.global_max_per_minute, 30);
    assert_eq!(config.email_allowed_domains, vec!["example.com".to_string()]);
    assert!(config.server.validate().is_ok());
    assert!(config.smtp.validate().is_ok());
}
