use clickvault::config::{
    BackupSection, ClickHouseSection, Config, ConfigFile, EnvOverrides, FileOutcome,
    NotificationProvider, NotificationSection, ProviderSection, RetentionSection, RetrySection,
    S3Section, ScheduleConfig, default_method, default_true, default_user, validate_endpoint_url,
};
use clickvault::error::ClickVaultError;
use clickvault::time::Duration;

const VALID: &str = r#"
    [clickhouse]
    url = "http://localhost:8123"
    database = "mydb"

    [s3]
    endpoint = "https://s3.example.com"
    bucket = "bucket"
    region = "eu-central-1"

    [schedule]
    full_backup_interval_days = 7

    [retention]
    keep_full_backups = 4
"#;

fn text(table: &toml::Table, key: &str) -> Option<String> {
    table.get(key).map(|v| v.as_str().expect("a string").to_string())
}

fn number(table: &toml::Table, key: &str) -> Option<u64> {
    table.get(key).map(|v| v.as_integer().expect("a number") as u64)
}

fn small(table: &toml::Table, key: &str) -> Option<u32> {
    number(table, key).map(|n| n as u32)
}

fn flag(table: &toml::Table, key: &str) -> Option<bool> {
    table.get(key).map(|v| v.as_bool().expect("a flag"))
}

fn section<'a>(table: &'a toml::Table, key: &str) -> Option<&'a toml::Table> {
    table.get(key).map(|v| v.as_table().expect("a section"))
}

fn provider(table: &toml::Table) -> ProviderSection {
    match text(table, "type").expect("a type").as_str() {
        "slack" => ProviderSection::Slack { webhook_url: text(table, "webhook_url").unwrap() },
        _ => ProviderSection::Webhook {
            url: text(table, "url").unwrap(),
            method: text(table, "method"),
            headers: section(table, "headers").map(|headers| {
                headers
                    .iter()
                    .map(|(k, v)| (k.clone(), v.as_str().unwrap().to_string()))
                    .collect()
            }),
        },
    }
}

fn file(toml_str: &str) -> ConfigFile {
    let table: toml::Table = toml::from_str(toml_str).expect("valid TOML");
    let ch = section(&table, "clickhouse").unwrap();
    let s3 = section(&table, "s3").unwrap();
    let retention = section(&table, "retention").unwrap();
    ConfigFile {
        clickhouse: ClickHouseSection {
            url: text(ch, "url").unwrap(),
            user: text(ch, "user"),
            password: text(ch, "password"),
            database: text(ch, "database").unwrap(),
        },
        s3: S3Section {
            endpoint: text(s3, "endpoint").unwrap(),
            clickhouse_endpoint: text(s3, "clickhouse_endpoint"),
            bucket: text(s3, "bucket").unwrap(),
            prefix: text(s3, "prefix"),
            region: text(s3, "region").unwrap(),
            access_key: text(s3, "access_key"),
            secret_key: text(s3, "secret_key"),
            path_style: flag(s3, "path_style"),
        },
        backup: section(&table, "backup").map(|t| BackupSection {
            poll_interval_secs: number(t, "poll_interval_secs"),
            timeout_secs: number(t, "timeout_secs"),
        }),
        retry: section(&table, "retry").map(|t| RetrySection {
            attempts: small(t, "attempts"),
            base_delay_ms: number(t, "base_delay_ms"),
            max_delay_ms: number(t, "max_delay_ms"),
        }),
        schedule: ScheduleConfig {
            full_backup_interval_days: small(
                section(&table, "schedule").unwrap(),
                "full_backup_interval_days",
            )
            .unwrap(),
        },
        retention: RetentionSection {
            keep_full_backups: small(retention, "keep_full_backups").unwrap(),
            keep_days: small(retention, "keep_days"),
            auto_cleanup: flag(retention, "auto_cleanup"),
        },
        notifications: section(&table, "notifications").map(|t| NotificationSection {
            on_success: flag(t, "on_success"),
            on_failure: flag(t, "on_failure"),
            providers: t.get("providers").map(|list| {
                list.as_array()
                    .unwrap()
                    .iter()
                    .map(|p| provider(p.as_table().unwrap()))
                    .collect()
            }),
        }),
    }
}

fn parse(toml_str: &str) -> Config {
    Config::from_file(file(toml_str))
}

fn no_env() -> EnvOverrides {
    EnvOverrides {
        clickhouse_user: None,
        clickhouse_password: None,
        s3_access_key: None,
        s3_secret_key: None,
    }
}

fn problem(cfg: &Config) -> String {
    match cfg.validate() {
        Err(ClickVaultError::Config(text)) => text,
        other => panic!("unexpected: {other:?}"),
    }
}

#[test]
fn valid_config_passes_validation() {
    let cfg = parse(VALID);
    assert!(cfg.validate().is_ok());
}

#[test]
fn defaults_are_applied() {
    let cfg = parse(VALID);
    assert_eq!(cfg.clickhouse.user.as_deref(), Some("default"));
    assert_eq!(cfg.clickhouse.password, None);
    assert_eq!(cfg.s3.prefix, "");
    assert!(!cfg.s3.path_style);
    assert!(cfg.notifications.is_none());
}

#[test]
fn clickhouse_endpoint_falls_back_to_endpoint() {
    let mut cfg = parse(VALID);
    assert_eq!(cfg.s3.clickhouse_endpoint(), "https://s3.example.com");
    cfg.s3.clickhouse_endpoint = Some("http://rustfs:9000".into());
    assert_eq!(cfg.s3.clickhouse_endpoint(), "http://rustfs:9000");
}

#[test]
fn validation_rejects_empty_and_zero_fields() {
    let mut cfg = parse(VALID);
    cfg.s3.bucket = String::new();
    assert!(cfg.validate().is_err());

    let mut cfg = parse(VALID);
    cfg.clickhouse.database = String::new();
    assert!(cfg.validate().is_err());

    let mut cfg = parse(VALID);
    cfg.s3.region = String::new();
    assert!(cfg.validate().is_err());

    let mut cfg = parse(VALID);
    cfg.schedule.full_backup_interval_days = 0;
    assert!(cfg.validate().is_err());

    let mut cfg = parse(VALID);
    cfg.retention.keep_full_backups = 0;
    assert!(cfg.validate().is_err());
}

#[test]
fn validation_rejects_malformed_endpoint_urls() {
    // Missing scheme: fails at load time instead of an opaque client
    // error at first use.
    let mut cfg = parse(VALID);
    cfg.clickhouse.url = "localhost:8123".into();
    assert!(cfg.validate().is_err());

    let mut cfg = parse(VALID);
    cfg.s3.endpoint = "s3.example.com".into();
    assert!(cfg.validate().is_err());

    // Trailing slash would yield double slashes in derived URLs/SQL.
    let mut cfg = parse(VALID);
    cfg.s3.endpoint = "https://s3.example.com/".into();
    assert!(cfg.validate().is_err());

    let mut cfg = parse(VALID);
    cfg.s3.clickhouse_endpoint = Some("rustfs:9000".into());
    assert!(cfg.validate().is_err());

    // Well-formed override passes.
    let mut cfg = parse(VALID);
    cfg.s3.clickhouse_endpoint = Some("http://rustfs:9000".into());
    assert!(cfg.validate().is_ok());
}

#[test]
fn validation_rejects_prefix_with_leading_or_trailing_slash() {
    // A slash in the prefix silently splits the S3 keyspace
    // ("backups//full/..." vs "backups/full/...").
    let mut cfg = parse(VALID);
    cfg.s3.prefix = "backups/".into();
    assert!(cfg.validate().is_err());

    let mut cfg = parse(VALID);
    cfg.s3.prefix = "/backups".into();
    assert!(cfg.validate().is_err());

    // Interior slashes are legitimate nesting; empty stays allowed.
    let mut cfg = parse(VALID);
    cfg.s3.prefix = "team/clickhouse-backups".into();
    assert!(cfg.validate().is_ok());

    let mut cfg = parse(VALID);
    cfg.s3.prefix = String::new();
    assert!(cfg.validate().is_ok());
}

#[test]
fn keep_days_defaults_none_parses_and_rejects_zero() {
    let cfg = parse(VALID);
    assert_eq!(cfg.retention.keep_days, None);

    let toml_str = VALID.replace(
        "keep_full_backups = 4",
        "keep_full_backups = 4\nkeep_days = 30",
    );
    let cfg = parse(&toml_str);
    assert_eq!(cfg.retention.keep_days, Some(30));

    let mut cfg = parse(VALID);
    cfg.retention.keep_days = Some(0);
    assert!(cfg.validate().is_err());
}

#[test]
fn auto_cleanup_defaults_off_and_parses() {
    let cfg = parse(VALID);
    assert!(!cfg.retention.auto_cleanup);

    let toml_str = VALID.replace(
        "keep_full_backups = 4",
        "keep_full_backups = 4\nauto_cleanup = true",
    );
    let cfg = parse(&toml_str);
    assert!(cfg.retention.auto_cleanup);
}

#[test]
fn retry_section_defaults_and_overrides() {
    let cfg = parse(VALID);
    assert_eq!(cfg.retry.attempts, 3);
    assert_eq!(cfg.retry.base_delay_ms, 200);
    assert_eq!(cfg.retry.max_delay_ms, 5_000);
    let policy = cfg.retry.policy();
    assert_eq!(policy.attempts, 3);
    assert_eq!(policy.base_delay, Duration::from_millis(200));
    assert_eq!(policy.max_delay, Duration::from_secs(5));

    let toml_str = format!("{VALID}\n[retry]\nattempts = 5\n");
    let cfg = parse(&toml_str);
    assert_eq!(cfg.retry.attempts, 5);
    assert_eq!(cfg.retry.max_delay_ms, 5_000);
}

#[test]
fn validation_rejects_bad_retry_tuning() {
    let mut cfg = parse(VALID);
    cfg.retry.attempts = 0;
    assert!(cfg.validate().is_err());

    let mut cfg = parse(VALID);
    cfg.retry.base_delay_ms = 0;
    assert!(cfg.validate().is_err());

    let mut cfg = parse(VALID);
    cfg.retry.base_delay_ms = 10_000;
    cfg.retry.max_delay_ms = 5_000;
    assert!(cfg.validate().is_err());
}

#[test]
fn backup_section_defaults_when_absent() {
    let cfg = parse(VALID);
    assert_eq!(cfg.backup.poll_interval_secs, 5);
    assert_eq!(cfg.backup.timeout_secs, 86_400);
    assert_eq!(cfg.backup.poll_interval(), Duration::from_secs(5));
    assert_eq!(cfg.backup.timeout(), Duration::from_secs(86_400));
}

#[test]
fn backup_section_overrides_and_partial_defaults() {
    let toml_str = format!("{VALID}\n[backup]\npoll_interval_secs = 2\n");
    let cfg = parse(&toml_str);
    assert_eq!(cfg.backup.poll_interval_secs, 2);
    // Unspecified key keeps its default.
    assert_eq!(cfg.backup.timeout_secs, 86_400);
}

#[test]
fn validation_rejects_bad_backup_tuning() {
    let mut cfg = parse(VALID);
    cfg.backup.poll_interval_secs = 0;
    assert!(cfg.validate().is_err());

    let mut cfg = parse(VALID);
    cfg.backup.poll_interval_secs = 10;
    cfg.backup.timeout_secs = 5;
    assert!(cfg.validate().is_err());
}

#[test]
fn redact_secrets_masks_all_configured_secrets() {
    let mut cfg = parse(VALID);
    cfg.s3.access_key = Some("AKIAKEY".into());
    cfg.s3.secret_key = Some("supersecret".into());
    cfg.clickhouse.password = Some("chpass".into());

    let text = "S3('http://e/b/p/', 'AKIAKEY', 'supersecret') pw=chpass again: supersecret";
    assert_eq!(
        cfg.redact_secrets(text),
        "S3('http://e/b/p/', '***', '***') pw=*** again: ***"
    );
}

#[test]
fn redact_secrets_handles_missing_and_empty_secrets() {
    let mut cfg = parse(VALID);
    cfg.s3.secret_key = Some(String::new());

    let text = "nothing to hide";
    assert_eq!(cfg.redact_secrets(text), text);
}

#[test]
fn notification_provider_defaults_parse() {
    let toml_str = format!(
        "{VALID}\n[notifications]\n[[notifications.providers]]\ntype = \"webhook\"\nurl = \"https://example.com/hook\"\n"
    );
    let cfg = parse(&toml_str);
    let notifications = cfg.notifications.expect("notifications present");
    assert!(notifications.on_success);
    assert!(notifications.on_failure);
    match &notifications.providers[0] {
        NotificationProvider::Webhook { method, url, .. } => {
            assert_eq!(method, "POST");
            assert_eq!(url, "https://example.com/hook");
        }
        _ => panic!("expected webhook provider"),
    }
}

#[test]
fn providers_keep_their_settings_and_order() {
    let toml_str = format!(
        "{VALID}\n[notifications]\non_success = false\n[[notifications.providers]]\ntype = \"slack\"\nwebhook_url = \"https://hooks.slack.example/x\"\n[[notifications.providers]]\ntype = \"webhook\"\nurl = \"https://example.com/hook\"\nmethod = \"PUT\"\nheaders = {{ Authorization = \"Bearer t\" }}\n"
    );
    let notifications = parse(&toml_str).notifications.unwrap();
    assert!(!notifications.on_success);
    assert!(notifications.on_failure);
    assert!(matches!(
        &notifications.providers[0],
        NotificationProvider::Slack { webhook_url } if webhook_url == "https://hooks.slack.example/x"
    ));
    match &notifications.providers[1] {
        NotificationProvider::Webhook { method, headers, .. } => {
            assert_eq!(method, "PUT");
            assert_eq!(headers.len(), 1);
            assert_eq!(headers[0].0, "Authorization");
            assert_eq!(headers[0].1, "Bearer t");
        }
        other => panic!("unexpected: {other:?}"),
    }
}

#[test]
fn problems_are_explained_in_the_order_of_the_sections() {
    let mut cfg = parse(VALID);
    cfg.retention.keep_days = Some(0);
    assert_eq!(
        problem(&cfg),
        "retention.keep_days must be > 0 when set (omit it for count-only retention)"
    );
    cfg.retention.keep_full_backups = 0;
    assert_eq!(problem(&cfg), "retention.keep_full_backups must be > 0");
    cfg.schedule.full_backup_interval_days = 0;
    assert_eq!(problem(&cfg), "schedule.full_backup_interval_days must be > 0");
    cfg.retry.base_delay_ms = 0;
    assert_eq!(
        problem(&cfg),
        "retry.base_delay_ms must be > 0 and <= retry.max_delay_ms"
    );
    cfg.retry.attempts = 0;
    assert_eq!(problem(&cfg), "retry.attempts must be >= 1");
    cfg.backup.timeout_secs = 1;
    assert_eq!(
        problem(&cfg),
        "backup.timeout_secs must be >= backup.poll_interval_secs"
    );
    cfg.backup.poll_interval_secs = 0;
    assert_eq!(problem(&cfg), "backup.poll_interval_secs must be > 0");
    cfg.s3.region = String::new();
    assert_eq!(problem(&cfg), "s3.region must not be empty");
    cfg.s3.prefix = "p/".into();
    assert_eq!(
        problem(&cfg),
        "s3.prefix must not start or end with '/' (got 'p/'); path segments are joined automatically"
    );
    cfg.s3.bucket = String::new();
    assert_eq!(problem(&cfg), "s3.bucket must not be empty");
    cfg.s3.clickhouse_endpoint = Some("rustfs:9000".into());
    assert_eq!(
        problem(&cfg),
        "s3.clickhouse_endpoint must start with http:// or https:// (got 'rustfs:9000')"
    );
    cfg.s3.endpoint = "https://e/".into();
    assert_eq!(problem(&cfg), "s3.endpoint must not end with '/' (got 'https://e/')");
    cfg.clickhouse.database = String::new();
    assert_eq!(problem(&cfg), "clickhouse.database must not be empty");
    cfg.clickhouse.url = "ftp://h".into();
    assert_eq!(
        problem(&cfg),
        "clickhouse.url must start with http:// or https:// (got 'ftp://h')"
    );
}

#[test]
fn the_environment_wins_over_the_file() {
    let mut cfg = parse(VALID);
    cfg.s3.access_key = Some("from file".into());
    cfg.apply_env_overrides(no_env());
    assert_eq!(cfg.clickhouse.user.as_deref(), Some("default"));
    assert_eq!(cfg.s3.access_key.as_deref(), Some("from file"));
    cfg.apply_env_overrides(EnvOverrides {
        clickhouse_user: Some("u".into()),
        clickhouse_password: Some("p".into()),
        s3_access_key: Some("a".into()),
        s3_secret_key: Some("s".into()),
    });
    assert_eq!(cfg.clickhouse.user.as_deref(), Some("u"));
    assert_eq!(cfg.clickhouse.password.as_deref(), Some("p"));
    assert_eq!(cfg.s3.access_key.as_deref(), Some("a"));
    assert_eq!(cfg.s3.secret_key.as_deref(), Some("s"));
    assert_eq!(cfg.secrets(), vec!["a", "s", "p"]);
}

#[test]
fn loading_reports_what_went_wrong() {
    let unreadable = FileOutcome::Unreadable("No such file".into());
    match Config::load("/no/config.toml", unreadable, no_env()) {
        Err(e) => assert_eq!(
            e.message(),
            "Configuration error: Failed to read config file /no/config.toml: No such file"
        ),
        Ok(_) => panic!("loaded"),
    }
    match Config::load("c.toml", FileOutcome::Invalid("missing field".into()), no_env()) {
        Err(e) => assert_eq!(
            e.message(),
            "Configuration error: Invalid TOML config: missing field"
        ),
        Ok(_) => panic!("loaded"),
    }
    let mut bad = file(VALID);
    bad.s3.bucket = String::new();
    match Config::load("c.toml", FileOutcome::Parsed(bad), no_env()) {
        Err(e) => assert_eq!(e.message(), "Configuration error: s3.bucket must not be empty"),
        Ok(_) => panic!("loaded"),
    }
    let mut env = no_env();
    env.clickhouse_password = Some("p".into());
    let loaded = Config::load("c.toml", FileOutcome::Parsed(file(VALID)), env).unwrap();
    assert_eq!(loaded.clickhouse.password.as_deref(), Some("p"));
}

#[test]
fn redaction_hides_overlapping_and_repeated_secrets() {
    let mut cfg = parse(VALID);
    cfg.s3.access_key = Some("ab".into());
    cfg.s3.secret_key = Some("aab".into());
    // The access key is masked first.
    assert_eq!(cfg.redact_secrets("aab abab"), "a*** ******");
}

#[test]
fn endpoint_urls_and_defaults_stand_on_their_own() {
    assert!(validate_endpoint_url("https://h", "f").is_ok());
    assert!(validate_endpoint_url("http://", "f").is_err());
    assert!(validate_endpoint_url("HTTP://h", "f").is_err());
    assert_eq!(default_user().as_deref(), Some("default"));
    assert_eq!(default_method(), "POST");
    assert!(default_true());
}
