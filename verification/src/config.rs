//! Shape checks on the server and SMTP configuration.

use vstd::prelude::*;
use crate::chars::owned;
use crate::pow::MAX_DIFFICULTY;

verus! {

/// Largest absolute timezone offset, exclusive, in seconds (one day).
pub const MAX_TIMEZONE_OFFSET_SECONDS: i64 = 86400;

/// Timezone offsets are whole quarter hours.
pub const TIMEZONE_OFFSET_STEP_SECONDS: i64 = 900;

/// Room for the multipart framing of an upload request, in bytes.
pub const MULTIPART_OVERHEAD_BYTES: u64 = 65536;

/// Number of text fields that accompany an uploaded PDF.
pub const UPLOAD_TEXT_FIELDS: u64 = 5;

/// The server's settings.
#[derive(Clone, Debug)]
pub struct ServerConfig {
    pub listen_addr: String,
    pub db_path: String,
    pub search_index_path: String,
    pub pdf_storage_path: String,
    pub log_dir: String,
    pub pow_difficulty_iterations: u64,
    pub token_ttl_seconds: u64,
    pub session_ttl_seconds: u64,
    pub challenge_ttl_seconds: u64,
    pub download_token_ttl_seconds: u64,
    pub token_cache_capacity: u64,
    pub email_cooldown_seconds: u64,
    pub timezone_offset_seconds: i64,
    pub user_zero_email: String,
    pub log_retention_days: u64,
    pub log_max_file_count: u64,
    pub log_prune_interval_secs: u64,
    pub max_pdf_size_bytes: u64,
    pub max_tags_per_article: u64,
    pub max_title_chars: u64,
    pub max_summary_chars: u64,
    pub max_comment_body_chars: u64,
    pub max_version_note_chars: u64,
    pub max_text_field_bytes: u64,
    pub max_search_query_chars: u64,
    pub search_page_size: u64,
    pub max_search_pages: u64,
}

/// Where and how long the service keeps its logs.
#[derive(Clone, Debug)]
pub struct LoggingConfig {
    pub dir: String,
    pub retention_days: u64,
    pub filter: String,
}

/// The mail sender's settings: the SMTP connection and its sending limits.
#[derive(Clone, Debug)]
pub struct EmailerConfig {
    pub host: String,
    pub port: u16,
    pub username: String,
    pub password: String,
    pub from_email: String,
    pub from_name: String,
    pub timeout_secs: u64,
    pub wall_clock_timeout_secs: u64,
    pub starttls: bool,
    pub per_recipient_cooldown_secs: u64,
    pub global_max_per_minute: u64,
}

/// All of the service's settings.
#[derive(Clone, Debug)]
pub struct AppConfig {
    pub server: ServerConfig,
    pub logging: LoggingConfig,
    pub emailer: EmailerConfig,
    pub smtp: SmtpConfig,
    pub email_allowed_domains: Vec<String>,
}

/// The outgoing mail settings.
#[derive(Clone, Debug)]
pub struct SmtpConfig {
    pub host: String,
    pub port: u16,
    pub username: String,
    pub password: String,
    pub from_email: String,
    pub from_name: String,
    pub timeout_secs: u64,
    pub wall_clock_timeout_secs: u64,
    pub starttls: bool,
}

/// The setting that a configuration check rejected.
#[derive(Clone, Copy, Debug, PartialEq, Eq, Structural)]
pub enum ConfigField {
    ListenAddr,
    DbPath,
    LogDir,
    PowDifficultyIterations,
    TokenTtlSeconds,
    SessionTtlSeconds,
    ChallengeTtlSeconds,
    TokenCacheCapacity,
    EmailCooldownSeconds,
    LogPruneIntervalSecs,
    TimezoneOffsetSeconds,
    UserZeroEmail,
    Host,
    Port,
    TimeoutSecs,
    WallClockTimeoutSecs,
}

/// A rejected configuration, naming the first offending setting.
#[derive(Clone, Copy, Debug, PartialEq, Eq, Structural)]
pub struct ConfigError {
    pub field: ConfigField,
}

/// Whether a timezone offset is a whole quarter hour within a day.
pub open spec fn valid_timezone_offset(x: i64) -> bool {
    -MAX_TIMEZONE_OFFSET_SECONDS < x < MAX_TIMEZONE_OFFSET_SECONDS && x % TIMEZONE_OFFSET_STEP_SECONDS
        == 0
}

/// The first setting of a server configuration that breaks its rule, in
/// declaration order.
pub open spec fn server_config_error(c: ServerConfig) -> Option<ConfigField> {
    if c.listen_addr@.len() == 0 {
        Some(ConfigField::ListenAddr)
    } else if c.db_path@.len() == 0 {
        Some(ConfigField::DbPath)
    } else if c.log_dir@.len() == 0 {
        Some(ConfigField::LogDir)
    } else if !(1 <= c.pow_difficulty_iterations <= MAX_DIFFICULTY) {
        Some(ConfigField::PowDifficultyIterations)
    } else if c.token_ttl_seconds == 0 {
        Some(ConfigField::TokenTtlSeconds)
    } else if c.session_ttl_seconds == 0 {
        Some(ConfigField::SessionTtlSeconds)
    } else if c.challenge_ttl_seconds == 0 {
        Some(ConfigField::ChallengeTtlSeconds)
    } else if c.token_cache_capacity == 0 {
        Some(ConfigField::TokenCacheCapacity)
    } else if c.email_cooldown_seconds == 0 {
        Some(ConfigField::EmailCooldownSeconds)
    } else if c.log_prune_interval_secs == 0 {
        Some(ConfigField::LogPruneIntervalSecs)
    } else if !valid_timezone_offset(c.timezone_offset_seconds) {
        Some(ConfigField::TimezoneOffsetSeconds)
    } else if !c.user_zero_email@.contains('@') {
        Some(ConfigField::UserZeroEmail)
    } else {
        None
    }
}

/// The first setting of an SMTP configuration that breaks its rule.
pub open spec fn smtp_config_error(c: SmtpConfig) -> Option<ConfigField> {
    if c.host@.len() == 0 {
        Some(ConfigField::Host)
    } else if c.port == 0 {
        Some(ConfigField::Port)
    } else if c.timeout_secs == 0 {
        Some(ConfigField::TimeoutSecs)
    } else if c.wall_clock_timeout_secs < c.timeout_secs {
        Some(ConfigField::WallClockTimeoutSecs)
    } else {
        None
    }
}

/// `a + b`, or `u64::MAX` when the sum does not fit.
pub open spec fn sat_add(a: int, b: int) -> u64 {
    if a + b > u64::MAX {
        u64::MAX
    } else {
        (a + b) as u64
    }
}

/// Whether `s` holds the character `c`.
fn holds_char(s: &str, c: char) -> (r: bool)
    ensures
        r == s@.contains(c),
{
    let v = crate::chars::chars_of(s);
    for i in 0..v.len()
        invariant
            v@ == s@,
            forall|j: int| 0 <= j < i ==> v@[j] != c,
    {
        if v[i] == c {
            assert(s@[i as int] == c);
            return true;
        }
    }
    false
}

impl ServerConfig {
    /// Checks every setting; the error names the first bad one.
    pub fn validate(&self) -> (r: Result<(), ConfigError>)
        ensures
            match server_config_error(*self) {
                Some(f) => r == Err::<(), ConfigError>(ConfigError { field: f }),
                None => r is Ok,
            },
    {
        let fail = |f: ConfigField| -> (e: Result<(), ConfigError>)
            ensures
                e == Err::<(), ConfigError>(ConfigError { field: f }),
            { Err(ConfigError { field: f }) };
        if self.listen_addr.as_str().is_empty() {
            return fail(ConfigField::ListenAddr);
        }
        if self.db_path.as_str().is_empty() {
            return fail(ConfigField::DbPath);
        }
        if self.log_dir.as_str().is_empty() {
            return fail(ConfigField::LogDir);
        }
        if self.pow_difficulty_iterations < 1 || self.pow_difficulty_iterations > MAX_DIFFICULTY {
            return fail(ConfigField::PowDifficultyIterations);
        }
        if self.token_ttl_seconds == 0 {
            return fail(ConfigField::TokenTtlSeconds);
        }
        if self.session_ttl_seconds == 0 {
            return fail(ConfigField::SessionTtlSeconds);
        }
        if self.challenge_ttl_seconds == 0 {
            return fail(ConfigField::ChallengeTtlSeconds);
        }
        if self.token_cache_capacity == 0 {
            return fail(ConfigField::TokenCacheCapacity);
        }
        if self.email_cooldown_seconds == 0 {
            return fail(ConfigField::EmailCooldownSeconds);
        }
        if self.log_prune_interval_secs == 0 {
            return fail(ConfigField::LogPruneIntervalSecs);
        }
        let tz = self.timezone_offset_seconds;
        if !(-MAX_TIMEZONE_OFFSET_SECONDS < tz && tz < MAX_TIMEZONE_OFFSET_SECONDS && tz
            % TIMEZONE_OFFSET_STEP_SECONDS == 0) {
            return fail(ConfigField::TimezoneOffsetSeconds);
        }
        if !holds_char(self.user_zero_email.as_str(), '@') {
            return fail(ConfigField::UserZeroEmail);
        }
        Ok(())
    }

    /// The largest request body accepted: a PDF, five text fields and the
    /// multipart framing, saturating at `u64::MAX`.
    pub fn max_request_body_bytes(&self) -> (r: u64)
        ensures
            r == sat_add(
                self.max_pdf_size_bytes as int,
                UPLOAD_TEXT_FIELDS * self.max_text_field_bytes + MULTIPART_OVERHEAD_BYTES,
            ),
    {
        let text = match self.max_text_field_bytes.checked_mul(UPLOAD_TEXT_FIELDS) {
            Some(t) => t,
            None => u64::MAX,
        };
        let with_framing = match text.checked_add(MULTIPART_OVERHEAD_BYTES) {
            Some(t) => t,
            None => u64::MAX,
        };
        match self.max_pdf_size_bytes.checked_add(with_framing) {
            Some(t) => t,
            None => u64::MAX,
        }
    }
}

impl SmtpConfig {
    /// Checks every setting; the error names the first bad one.
    pub fn validate(&self) -> (r: Result<(), ConfigError>)
        ensures
            match smtp_config_error(*self) {
                Some(f) => r == Err::<(), ConfigError>(ConfigError { field: f }),
                None => r is Ok,
            },
    {
        if self.host.as_str().is_empty() {
            return Err(ConfigError { field: ConfigField::Host });
        }
        if self.port == 0 {
            return Err(ConfigError { field: ConfigField::Port });
        }
        if self.timeout_secs == 0 {
            return Err(ConfigError { field: ConfigField::TimeoutSecs });
        }
        if self.wall_clock_timeout_secs < self.timeout_secs {
            return Err(ConfigError { field: ConfigField::WallClockTimeoutSecs });
        }
        Ok(())
    }
}

/// The configuration the test suites run against: in-memory storage, the
/// smallest proof of work, and a mail server that is never reached.
pub fn test_config() -> (c: AppConfig)
    ensures
        c.server.listen_addr@ == "127.0.0.1:0"@,
        c.server.db_path@ == "memory"@,
        c.server.search_index_path@ == "memory-search"@,
        c.server.pdf_storage_path@ == "/tmp/nail_test_pdf"@,
        c.server.log_dir@ == "log/back"@,
        c.server.pow_difficulty_iterations == 1,
        c.server.token_ttl_seconds == 8000,
        c.server.session_ttl_seconds == 8000,
        c.server.challenge_ttl_seconds == 300,
        c.server.download_token_ttl_seconds == 60,
        c.server.token_cache_capacity == 100,
        c.server.email_cooldown_seconds == 60,
        c.server.timezone_offset_seconds == 28800,
        c.server.user_zero_email@ == "user-zero@example.com"@,
        c.server.log_retention_days == 7,
        c.server.log_max_file_count == 10080,
        c.server.log_prune_interval_secs == 1800,
        c.server.max_pdf_size_bytes == 33554432,
        c.server.max_tags_per_article == 8,
        c.server.max_title_chars == 200,
        c.server.max_summary_chars == 2000,
        c.server.max_comment_body_chars == 1024,
        c.server.max_version_note_chars == 1024,
        c.server.max_text_field_bytes == 1048576,
        c.server.max_search_query_chars == 512,
        c.server.search_page_size == 8,
        c.server.max_search_pages == 1024,
        c.logging.dir@ == "log/back"@,
        c.logging.retention_days == 7,
        c.logging.filter@ == "warn"@,
        c.emailer.host@ == "localhost"@,
        c.emailer.port == 1,
        c.emailer.username@ == Seq::<char>::empty(),
        c.emailer.password@ == Seq::<char>::empty(),
        c.emailer.from_email@ == "noreply@example.com"@,
        c.emailer.from_name@ == "nail"@,
        c.emailer.timeout_secs == 10,
        c.emailer.wall_clock_timeout_secs == 30,
        !c.emailer.starttls,
        c.emailer.per_recipient_cooldown_secs == 0,
        c.emailer.global_max_per_minute == 30,
        c.smtp.host@ == "localhost"@,
        c.smtp.port == 1,
        c.smtp.username@ == Seq::<char>::empty(),
        c.smtp.password@ == Seq::<char>::empty(),
        c.smtp.from_email@ == "noreply@example.com"@,
        c.smtp.from_name@ == "nail"@,
        c.smtp.timeout_secs == 10,
        c.smtp.wall_clock_timeout_secs == 30,
        !c.smtp.starttls,
        c.email_allowed_domains@.len() == 1,
        c.email_allowed_domains@[0]@ == "example.com"@,
        server_config_error(c.server) is None,
        smtp_config_error(c.smtp) is None,
{
    let server = ServerConfig {
        listen_addr: owned("127.0.0.1:0"),
        db_path: owned("memory"),
        search_index_path: owned("memory-search"),
        pdf_storage_path: owned("/tmp/nail_test_pdf"),
        log_dir: owned("log/back"),
        pow_difficulty_iterations: 1,
        token_ttl_seconds: 8000,
        session_ttl_seconds: 8000,
        challenge_ttl_seconds: 300,
        download_token_ttl_seconds: 60,
        token_cache_capacity: 100,
        email_cooldown_seconds: 60,
        timezone_offset_seconds: 28800,
        user_zero_email: owned("user-zero@example.com"),
        log_retention_days: 7,
        log_max_file_count: 10080,
        log_prune_interval_secs: 1800,
        max_pdf_size_bytes: 32 * 1024 * 1024,
        max_tags_per_article: 8,
        max_title_chars: 200,
        max_summary_chars: 2000,
        max_comment_body_chars: 1024,
        max_version_note_chars: 1024,
        max_text_field_bytes: 1024 * 1024,
        max_search_query_chars: 512,
        search_page_size: 8,
        max_search_pages: 1024,
    };
    let logging = LoggingConfig {
        dir: owned("log/back"),
        retention_days: 7,
        filter: owned("warn"),
    };
    let emailer = EmailerConfig {
        host: owned("localhost"),
        port: 1,
        username: String::new(),
        password: String::new(),
        from_email: owned("noreply@example.com"),
        from_name: owned("nail"),
        timeout_secs: 10,
        wall_clock_timeout_secs: 30,
        starttls: false,
        per_recipient_cooldown_secs: 0,
        global_max_per_minute: 30,
    };
    let smtp = SmtpConfig {
        host: owned("localhost"),
        port: 1,
        username: String::new(),
        password: String::new(),
        from_email: owned("noreply@example.com"),
        from_name: owned("nail"),
        timeout_secs: 10,
        wall_clock_timeout_secs: 30,
        starttls: false,
    };
    let mut email_allowed_domains: Vec<String> = Vec::new();
    email_allowed_domains.push(owned("example.com"));
    proof {
        reveal_strlit("127.0.0.1:0");
        reveal_strlit("memory");
        reveal_strlit("log/back");
        reveal_strlit("user-zero@example.com");
        reveal_strlit("localhost");
        assert(server.user_zero_email@[9] == '@');
    }
    AppConfig { server, logging, emailer, smtp, email_allowed_domains }
}

} // verus!
