//! The configuration: sections, defaults, overrides, validation and secrets.
use vstd::prelude::*;
use vstd::string::*;

use crate::error::ClickVaultError;
use crate::retry::RetryPolicy;
use crate::text::{
    ends_with_char, has_prefix, has_prefix_char, has_suffix_char, occurs, replace_all, replaced,
    stands_clear, starts_with, starts_with_char,
};
use crate::time::Duration;

verus! {

/// The whole configuration.
#[derive(Debug)]
pub struct Config {
    pub clickhouse: ClickHouseConfig,
    pub s3: S3Config,
    pub backup: BackupConfig,
    pub retry: RetryConfig,
    pub schedule: ScheduleConfig,
    pub retention: RetentionConfig,
    pub notifications: Option<NotificationConfig>,
}

/// Retry tuning for S3 operations, idempotent ClickHouse reads, and notification sends.
#[derive(Debug)]
pub struct RetryConfig {
    /// Total attempts per operation (1 = no retry).
    pub attempts: u32,
    /// First backoff; doubles per attempt with full jitter.
    pub base_delay_ms: u64,
    /// Ceiling for a single backoff sleep.
    pub max_delay_ms: u64,
}

impl Default for RetryConfig {
    fn default() -> (r: Self)
        ensures
            r == (RetryConfig { attempts: 3, base_delay_ms: 200, max_delay_ms: 5_000 }),
    {
        RetryConfig { attempts: 3, base_delay_ms: 200, max_delay_ms: 5_000 }
    }
}

impl RetryConfig {
    /// The retry policy that this section describes.
    pub fn policy(&self) -> (r: RetryPolicy)
        ensures
            r.attempts == self.attempts,
            r.base_delay.nanos() == self.base_delay_ms * 1_000_000,
            r.max_delay.nanos() == self.max_delay_ms * 1_000_000,
    {
        RetryPolicy {
            attempts: self.attempts,
            base_delay: Duration::from_millis(self.base_delay_ms),
            max_delay: Duration::from_millis(self.max_delay_ms),
        }
    }
}

/// Tuning for backup execution.
#[derive(Debug)]
pub struct BackupConfig {
    /// Seconds between polls of system.backups while a backup is running.
    pub poll_interval_secs: u64,
    /// Overall time budget for a single backup before failing with TIMEOUT.
    pub timeout_secs: u64,
}

impl Default for BackupConfig {
    fn default() -> (r: Self)
        ensures
            r == (BackupConfig { poll_interval_secs: 5, timeout_secs: 86_400 }),
    {
        BackupConfig { poll_interval_secs: 5, timeout_secs: 86_400 }
    }
}

impl BackupConfig {
    /// The time between two polls.
    pub fn poll_interval(&self) -> (r: Duration)
        ensures
            r.nanos() == self.poll_interval_secs * 1_000_000_000,
    {
        Duration::from_secs(self.poll_interval_secs)
    }

    /// The time budget for a single backup.
    pub fn timeout(&self) -> (r: Duration)
        ensures
            r.nanos() == self.timeout_secs * 1_000_000_000,
    {
        Duration::from_secs(self.timeout_secs)
    }
}

/// How to reach ClickHouse, and what to back up.
#[derive(Debug)]
pub struct ClickHouseConfig {
    pub url: String,
    pub user: Option<String>,
    pub password: Option<String>,
    pub database: String,
}

/// The user where the configuration names none.
pub fn default_user() -> (r: Option<String>)
    ensures
        r is Some,
        r->0@ == "default"@,
{
    Some("default".to_owned())
}

/// Where backups are stored.
#[derive(Debug)]
pub struct S3Config {
    pub endpoint: String,
    /// S3 endpoint as seen by ClickHouse (e.g. a Docker-internal URL). `endpoint` counts where it
    /// is not set.
    pub clickhouse_endpoint: Option<String>,
    pub bucket: String,
    pub prefix: String,
    pub region: String,
    pub access_key: Option<String>,
    pub secret_key: Option<String>,
    pub path_style: bool,
}

impl S3Config {
    /// The endpoint that ClickHouse uses.
    pub open spec fn endpoint_for_clickhouse(self) -> Seq<char> {
        match self.clickhouse_endpoint {
            Some(endpoint) => endpoint@,
            None => self.endpoint@,
        }
    }

    /// Returns the endpoint that ClickHouse should use in BACKUP/RESTORE SQL.
    pub fn clickhouse_endpoint(&self) -> (r: &str)
        ensures
            r@ == self.endpoint_for_clickhouse(),
    {
        match &self.clickhouse_endpoint {
            Some(endpoint) => endpoint.as_str(),
            None => self.endpoint.as_str(),
        }
    }
}

/// When full backups are due.
#[derive(Debug)]
pub struct ScheduleConfig {
    pub full_backup_interval_days: u32,
}

/// What cleanup keeps.
#[derive(Debug)]
pub struct RetentionConfig {
    pub keep_full_backups: u32,
    /// Never delete a chain whose newest backup is younger than this many days, even when it is
    /// beyond `keep_full_backups`.
    pub keep_days: Option<u32>,
    /// Run cleanup automatically after each successful backup.
    pub auto_cleanup: bool,
}

/// Who is told about what.
#[derive(Debug)]
pub struct NotificationConfig {
    pub on_success: bool,
    pub on_failure: bool,
    pub providers: Vec<NotificationProvider>,
}

/// The setting of an option that is on by default.
pub fn default_true() -> (r: bool)
    ensures
        r,
{
    true
}

/// One receiver of notifications.
#[derive(Debug)]
pub enum NotificationProvider {
    Slack { webhook_url: String },
    Webhook {
        url: String,
        method: String,
        /// Header names and values. No name is listed twice.
        headers: Vec<(String, String)>,
    },
}

/// Whether no name is listed twice.
pub open spec fn names_are_distinct(headers: Seq<(String, String)>) -> bool {
    forall|i: int, j: int|
        0 <= i < j < headers.len() ==> (#[trigger] headers[i]).0@ != (#[trigger] headers[j]).0@
}

impl NotificationProvider {
    /// What holds of every provider that a table of names and values describes.
    pub open spec fn well_formed(self) -> bool {
        self matches NotificationProvider::Webhook { headers, .. } ==> names_are_distinct(headers@)
    }
}

/// The HTTP method of a webhook where the configuration names none.
pub fn default_method() -> (r: String)
    ensures
        r@ == "POST"@,
{
    "POST".to_owned()
}

/// What is wrong with an endpoint URL, if anything.
pub open spec fn endpoint_problem(value: Seq<char>, field: Seq<char>) -> Option<Seq<char>> {
    if !(has_prefix(value, "http://"@) || has_prefix(value, "https://"@)) {
        Some(field + " must start with http:// or https:// (got '"@ + value + "')"@)
    } else if has_suffix_char(value, '/') {
        Some(field + " must not end with '/' (got '"@ + value + "')"@)
    } else {
        None
    }
}

/// Whether a result is success exactly where there is no problem, and otherwise the configuration
/// error that says what the problem is.
pub open spec fn reports(r: Result<(), ClickVaultError>, problem: Option<Seq<char>>) -> bool {
    match r {
        Ok(_) => problem is None,
        Err(ClickVaultError::Config(text)) => problem == Some(text@),
        Err(_) => false,
    }
}

/// Endpoint URLs must carry an explicit scheme and no trailing slash.
pub fn validate_endpoint_url(value: &str, field: &str) -> (r: Result<(), ClickVaultError>)
    ensures
        reports(r, endpoint_problem(value@, field@)),
{
    if !(starts_with(value, "http://") || starts_with(value, "https://")) {
        return Err(
            ClickVaultError::Config(
                field.to_owned().concat(" must start with http:// or https:// (got '").concat(
                    value,
                ).concat("')"),
            ),
        );
    }
    if ends_with_char(value, '/') {
        return Err(
            ClickVaultError::Config(
                field.to_owned().concat(" must not end with '/' (got '").concat(value).concat("')"),
            ),
        );
    }
    Ok(())
}

/// What is wrong with a configuration, if anything: the first problem in the order of the
/// sections.
pub open spec fn config_problem(config: Config) -> Option<Seq<char>> {
    let ch_url = endpoint_problem(config.clickhouse.url@, "clickhouse.url"@);
    let s3_url = endpoint_problem(config.s3.endpoint@, "s3.endpoint"@);
    let s3_ch_url = match config.s3.clickhouse_endpoint {
        Some(endpoint) => endpoint_problem(endpoint@, "s3.clickhouse_endpoint"@),
        None => None,
    };
    if ch_url is Some {
        ch_url
    } else if config.clickhouse.database@.len() == 0 {
        Some("clickhouse.database must not be empty"@)
    } else if s3_url is Some {
        s3_url
    } else if s3_ch_url is Some {
        s3_ch_url
    } else if config.s3.bucket@.len() == 0 {
        Some("s3.bucket must not be empty"@)
    } else if has_prefix_char(config.s3.prefix@, '/') || has_suffix_char(config.s3.prefix@, '/') {
        Some(
            "s3.prefix must not start or end with '/' (got '"@ + config.s3.prefix@
                + "'); path segments are joined automatically"@,
        )
    } else if config.s3.region@.len() == 0 {
        Some("s3.region must not be empty"@)
    } else if config.backup.poll_interval_secs == 0 {
        Some("backup.poll_interval_secs must be > 0"@)
    } else if config.backup.timeout_secs < config.backup.poll_interval_secs {
        Some("backup.timeout_secs must be >= backup.poll_interval_secs"@)
    } else if config.retry.attempts == 0 {
        Some("retry.attempts must be >= 1"@)
    } else if config.retry.base_delay_ms == 0 || config.retry.base_delay_ms
        > config.retry.max_delay_ms {
        Some("retry.base_delay_ms must be > 0 and <= retry.max_delay_ms"@)
    } else if config.schedule.full_backup_interval_days == 0 {
        Some("schedule.full_backup_interval_days must be > 0"@)
    } else if config.retention.keep_full_backups == 0 {
        Some("retention.keep_full_backups must be > 0"@)
    } else if config.retention.keep_days == Some(0u32) {
        Some("retention.keep_days must be > 0 when set (omit it for count-only retention)"@)
    } else {
        None
    }
}

fn config_error(text: &str) -> (r: Result<(), ClickVaultError>)
    ensures
        reports(r, Some(text@)),
{
    Err(ClickVaultError::Config(text.to_owned()))
}

/// The values of the environment variables that override the configuration, where they are set.
#[derive(Debug)]
pub struct EnvOverrides {
    /// `CLICKVAULT_CLICKHOUSE_USER`
    pub clickhouse_user: Option<String>,
    /// `CLICKVAULT_CLICKHOUSE_PASSWORD`
    pub clickhouse_password: Option<String>,
    /// `CLICKVAULT_S3_ACCESS_KEY`
    pub s3_access_key: Option<String>,
    /// `CLICKVAULT_S3_SECRET_KEY`
    pub s3_secret_key: Option<String>,
}

/// An override where it is set, and the configured value where it is not.
pub open spec fn overridden(value: Option<String>, by: Option<String>) -> Option<String> {
    match by {
        Some(_) => by,
        None => value,
    }
}

/// The configuration with the overrides in force.
pub open spec fn with_overrides(config: Config, env: EnvOverrides) -> Config {
    Config {
        clickhouse: ClickHouseConfig {
            user: overridden(config.clickhouse.user, env.clickhouse_user),
            password: overridden(config.clickhouse.password, env.clickhouse_password),
            ..config.clickhouse
        },
        s3: S3Config {
            access_key: overridden(config.s3.access_key, env.s3_access_key),
            secret_key: overridden(config.s3.secret_key, env.s3_secret_key),
            ..config.s3
        },
        ..config
    }
}

/// The text of a setting that hides behind `***`, if it is set and not empty.
pub open spec fn secret_in(value: Option<String>) -> Seq<Seq<char>> {
    match value {
        Some(text) => if text@.len() > 0 {
            seq![text@]
        } else {
            Seq::empty()
        },
        None => Seq::empty(),
    }
}

/// The secrets of a configuration.
pub open spec fn secret_texts(config: Config) -> Seq<Seq<char>> {
    secret_in(config.s3.access_key) + secret_in(config.s3.secret_key) + secret_in(
        config.clickhouse.password,
    )
}

/// The texts of some strings.
pub open spec fn texts(strings: Seq<String>) -> Seq<Seq<char>> {
    strings.map_values(|s: String| s@)
}

/// A text with every occurrence of each of the secrets replaced by `***`, one secret after the
/// other.
pub open spec fn redacted(text: Seq<char>, secrets: Seq<Seq<char>>) -> Seq<char>
    decreases secrets.len(),
{
    if secrets.len() == 0 {
        text
    } else {
        redacted(replaced(text, secrets[0], "***"@), secrets.skip(1))
    }
}

fn push_secret(secrets: &mut Vec<String>, value: &Option<String>)
    ensures
        texts(final(secrets)@) == texts(old(secrets)@) + secret_in(*value),
{
    match value {
        Some(text) => {
            if !text.as_str().is_empty() {
                secrets.push(text.clone());
            }
        },
        None => {},
    }
    assert(texts(secrets@) =~= texts(old(secrets)@) + secret_in(*value));
}

/// What came of reading and parsing the configuration file.
#[derive(Debug)]
pub enum FileOutcome {
    /// The file was read and parsed.
    Parsed(ConfigFile),
    /// The file could not be read; the text says why.
    Unreadable(String),
    /// The file is no configuration in TOML; the text says why.
    Invalid(String),
}

impl Config {
    /// Replaces what the environment overrides.
    pub fn apply_env_overrides(&mut self, env: EnvOverrides)
        ensures
            *final(self) == with_overrides(*old(self), env),
    {
        if let Some(val) = env.clickhouse_user {
            self.clickhouse.user = Some(val);
        }
        if let Some(val) = env.clickhouse_password {
            self.clickhouse.password = Some(val);
        }
        if let Some(val) = env.s3_access_key {
            self.s3.access_key = Some(val);
        }
        if let Some(val) = env.s3_secret_key {
            self.s3.secret_key = Some(val);
        }
    }

    /// Values that must never appear in logs, stderr, or notification payloads.
    pub fn secrets(&self) -> (r: Vec<String>)
        ensures
            texts(r@) == secret_texts(*self),
    {
        let mut r: Vec<String> = Vec::new();
        assert(texts(r@) =~= Seq::<Seq<char>>::empty());
        push_secret(&mut r, &self.s3.access_key);
        assert(texts(r@) =~= secret_in(self.s3.access_key));
        push_secret(&mut r, &self.s3.secret_key);
        push_secret(&mut r, &self.clickhouse.password);
        r
    }

    /// Replaces every occurrence of a configured secret in `text` with `***`.
    pub fn redact_secrets(&self, text: &str) -> (r: String)
        ensures
            r@ == redacted(text@, secret_texts(*self)),
    {
        let secrets = self.secrets();
        let ghost all = texts(secrets@);
        proof {
            lemma_secrets_are_not_empty(*self);
        }
        let mut out: String = text.to_owned();
        let mut i: usize = 0;
        assert(all.skip(0) =~= all);
        while i < secrets.len()
            invariant
                i <= secrets@.len(),
                all == texts(secrets@),
                forall|k: int| 0 <= k < all.len() ==> (#[trigger] all[k]).len() > 0,
                redacted(out@, all.skip(i as int)) == redacted(text@, all),
            decreases secrets@.len() - i,
        {
            assert(all[i as int] == secrets@[i as int]@);
            out = replace_all(out.as_str(), secrets[i].as_str(), "***");
            assert(all.skip(i as int).skip(1) =~= all.skip(i + 1));
            i = i + 1;
        }
        out
    }

    /// Whether the configuration can be used; the error says what is wrong with it.
    pub fn validate(&self) -> (r: Result<(), ClickVaultError>)
        ensures
            reports(r, config_problem(*self)),
    {
        validate_endpoint_url(self.clickhouse.url.as_str(), "clickhouse.url")?;
        if self.clickhouse.database.as_str().is_empty() {
            return config_error("clickhouse.database must not be empty");
        }
        validate_endpoint_url(self.s3.endpoint.as_str(), "s3.endpoint")?;
        if let Some(endpoint) = &self.s3.clickhouse_endpoint {
            validate_endpoint_url(endpoint.as_str(), "s3.clickhouse_endpoint")?;
        }
        if self.s3.bucket.as_str().is_empty() {
            return config_error("s3.bucket must not be empty");
        }
        // Path builders join the prefix with '/' themselves; a slash here would silently split
        // the S3 keyspace (e.g. "backups//full/...").
        if starts_with_char(self.s3.prefix.as_str(), '/') || ends_with_char(
            self.s3.prefix.as_str(),
            '/',
        ) {
            return Err(
                ClickVaultError::Config(
                    "s3.prefix must not start or end with '/' (got '".to_owned().concat(
                        self.s3.prefix.as_str(),
                    ).concat("'); path segments are joined automatically"),
                ),
            );
        }
        if self.s3.region.as_str().is_empty() {
            return config_error("s3.region must not be empty");
        }
        if self.backup.poll_interval_secs == 0 {
            return config_error("backup.poll_interval_secs must be > 0");
        }
        if self.backup.timeout_secs < self.backup.poll_interval_secs {
            return config_error("backup.timeout_secs must be >= backup.poll_interval_secs");
        }
        if self.retry.attempts == 0 {
            return config_error("retry.attempts must be >= 1");
        }
        if self.retry.base_delay_ms == 0 || self.retry.base_delay_ms > self.retry.max_delay_ms {
            return config_error("retry.base_delay_ms must be > 0 and <= retry.max_delay_ms");
        }
        if self.schedule.full_backup_interval_days == 0 {
            return config_error("schedule.full_backup_interval_days must be > 0");
        }
        if self.retention.keep_full_backups == 0 {
            return config_error("retention.keep_full_backups must be > 0");
        }
        if let Some(days) = self.retention.keep_days {
            if days == 0 {
                return config_error(
                    "retention.keep_days must be > 0 when set (omit it for count-only retention)",
                );
            }
        }
        Ok(())
    }

    /// The configuration that a file describes, with the defaults for what it leaves out.
    pub fn from_file(file: ConfigFile) -> (r: Config)
        ensures
            describes(file, r),
    {
        Config {
            clickhouse: ClickHouseConfig {
                url: file.clickhouse.url,
                user: match file.clickhouse.user {
                    Some(user) => Some(user),
                    None => default_user(),
                },
                password: file.clickhouse.password,
                database: file.clickhouse.database,
            },
            s3: S3Config {
                endpoint: file.s3.endpoint,
                clickhouse_endpoint: file.s3.clickhouse_endpoint,
                bucket: file.s3.bucket,
                prefix: match file.s3.prefix {
                    Some(prefix) => prefix,
                    None => String::new(),
                },
                region: file.s3.region,
                access_key: file.s3.access_key,
                secret_key: file.s3.secret_key,
                path_style: match file.s3.path_style {
                    Some(on) => on,
                    None => false,
                },
            },
            backup: match file.backup {
                Some(section) => {
                    let whole = BackupConfig::default();
                    BackupConfig {
                        poll_interval_secs: match section.poll_interval_secs {
                            Some(secs) => secs,
                            None => whole.poll_interval_secs,
                        },
                        timeout_secs: match section.timeout_secs {
                            Some(secs) => secs,
                            None => whole.timeout_secs,
                        },
                    }
                },
                None => BackupConfig::default(),
            },
            retry: match file.retry {
                Some(section) => {
                    let whole = RetryConfig::default();
                    RetryConfig {
                        attempts: match section.attempts {
                            Some(attempts) => attempts,
                            None => whole.attempts,
                        },
                        base_delay_ms: match section.base_delay_ms {
                            Some(ms) => ms,
                            None => whole.base_delay_ms,
                        },
                        max_delay_ms: match section.max_delay_ms {
                            Some(ms) => ms,
                            None => whole.max_delay_ms,
                        },
                    }
                },
                None => RetryConfig::default(),
            },
            schedule: file.schedule,
            retention: RetentionConfig {
                keep_full_backups: file.retention.keep_full_backups,
                keep_days: file.retention.keep_days,
                auto_cleanup: match file.retention.auto_cleanup {
                    Some(on) => on,
                    None => false,
                },
            },
            notifications: match file.notifications {
                Some(section) => Some(notifications_of(section)),
                None => None,
            },
        }
    }

    /// Loads the configuration at `path`: what came of the file, with the environment's overrides
    /// in force, if it passes validation.
    pub fn load(path: &str, file: FileOutcome, env: EnvOverrides) -> (r: Result<
        Config,
        ClickVaultError,
    >)
        ensures
            match file {
                FileOutcome::Unreadable(text) => r matches Err(ClickVaultError::Config(e)) && e@
                    == "Failed to read config file "@ + path@ + ": "@ + text@,
                FileOutcome::Invalid(text) => r matches Err(ClickVaultError::Config(e)) && e@
                    == "Invalid TOML config: "@ + text@,
                FileOutcome::Parsed(parsed) => exists|config: Config| #[trigger]
                    describes(parsed, config) && match r {
                        Ok(loaded) => loaded == with_overrides(config, env) && config_problem(
                            loaded,
                        ) is None,
                        Err(ClickVaultError::Config(e)) => config_problem(
                            with_overrides(config, env),
                        ) == Some(e@),
                        Err(_) => false,
                    },
            },
    {
        match file {
            FileOutcome::Unreadable(text) => Err(
                ClickVaultError::Config(
                    "Failed to read config file ".to_owned().concat(path).concat(": ").concat(
                        text.as_str(),
                    ),
                ),
            ),
            FileOutcome::Invalid(text) => Err(
                ClickVaultError::Config(
                    "Invalid TOML config: ".to_owned().concat(text.as_str()),
                ),
            ),
            FileOutcome::Parsed(parsed) => {
                let mut config = Config::from_file(parsed);
                let ghost described = config;
                config.apply_env_overrides(env);
                assert(describes(parsed, described));
                match config.validate() {
                    Ok(_) => Ok(config),
                    Err(e) => Err(e),
                }
            },
        }
    }
}

/// What a configuration file may say: keys that are not required are optional.
#[derive(Debug)]
pub struct ConfigFile {
    pub clickhouse: ClickHouseSection,
    pub s3: S3Section,
    pub backup: Option<BackupSection>,
    pub retry: Option<RetrySection>,
    pub schedule: ScheduleConfig,
    pub retention: RetentionSection,
    pub notifications: Option<NotificationSection>,
}

/// The section `[clickhouse]`.
#[derive(Debug)]
pub struct ClickHouseSection {
    pub url: String,
    pub user: Option<String>,
    pub password: Option<String>,
    pub database: String,
}

/// The section `[s3]`.
#[derive(Debug)]
pub struct S3Section {
    pub endpoint: String,
    pub clickhouse_endpoint: Option<String>,
    pub bucket: String,
    pub prefix: Option<String>,
    pub region: String,
    pub access_key: Option<String>,
    pub secret_key: Option<String>,
    pub path_style: Option<bool>,
}

/// The section `[backup]`.
#[derive(Debug)]
pub struct BackupSection {
    pub poll_interval_secs: Option<u64>,
    pub timeout_secs: Option<u64>,
}

/// The section `[retry]`.
#[derive(Debug)]
pub struct RetrySection {
    pub attempts: Option<u32>,
    pub base_delay_ms: Option<u64>,
    pub max_delay_ms: Option<u64>,
}

/// The section `[retention]`.
#[derive(Debug)]
pub struct RetentionSection {
    pub keep_full_backups: u32,
    pub keep_days: Option<u32>,
    pub auto_cleanup: Option<bool>,
}

/// The section `[notifications]`.
#[derive(Debug)]
pub struct NotificationSection {
    pub on_success: Option<bool>,
    pub on_failure: Option<bool>,
    pub providers: Option<Vec<ProviderSection>>,
}

/// One entry of `[[notifications.providers]]`.
#[derive(Debug)]
pub enum ProviderSection {
    Slack { webhook_url: String },
    Webhook {
        url: String,
        method: Option<String>,
        headers: Option<Vec<(String, String)>>,
    },
}

impl ProviderSection {
    /// What holds of every entry: a table lists no name twice.
    pub open spec fn well_formed(self) -> bool {
        self matches ProviderSection::Webhook { headers: Some(headers), .. } ==> names_are_distinct(
            headers@,
        )
    }
}

/// A value, or the default where there is none.
pub open spec fn or_default<T>(value: Option<T>, default_value: T) -> T {
    match value {
        Some(v) => v,
        None => default_value,
    }
}

/// The text of a value, or the default where there is none.
pub open spec fn text_or(value: Option<String>, default_text: Seq<char>) -> Seq<char> {
    match value {
        Some(text) => text@,
        None => default_text,
    }
}

/// Whether a provider is the one that an entry of the file describes.
pub open spec fn provider_is(section: ProviderSection, provider: NotificationProvider) -> bool {
    match (section, provider) {
        (
            ProviderSection::Slack { webhook_url },
            NotificationProvider::Slack { webhook_url: provided },
        ) => provided == webhook_url,
        (
            ProviderSection::Webhook { url, method, headers },
            NotificationProvider::Webhook { url: u, method: m, headers: h },
        ) => u == url && m@ == text_or(method, "POST"@) && match headers {
            Some(given) => h == given,
            None => h@.len() == 0,
        },
        _ => false,
    }
}

/// A provider lists no header name twice where its entry in the file does not.
pub proof fn law_header_names_stay_distinct(
    section: ProviderSection,
    provider: NotificationProvider,
)
    requires
        section.well_formed(),
        provider_is(section, provider),
    ensures
        provider.well_formed(),
{
}

/// Whether the providers are those that the file lists, in the file's order.
pub open spec fn providers_are(
    section: Option<Vec<ProviderSection>>,
    providers: Seq<NotificationProvider>,
) -> bool {
    match section {
        None => providers.len() == 0,
        Some(list) => providers.len() == list@.len() && forall|i: int|
            0 <= i < providers.len() ==> provider_is(list@[i], #[trigger] providers[i]),
    }
}

/// Whether a configuration is the one that a file describes: what the file says, and the default
/// for everything that it leaves out.
pub open spec fn describes(file: ConfigFile, config: Config) -> bool {
    &&& config.clickhouse.url == file.clickhouse.url
    &&& config.clickhouse.user is Some
    &&& config.clickhouse.user->0@ == text_or(file.clickhouse.user, "default"@)
    &&& config.clickhouse.password == file.clickhouse.password
    &&& config.clickhouse.database == file.clickhouse.database
    &&& config.s3.endpoint == file.s3.endpoint
    &&& config.s3.clickhouse_endpoint == file.s3.clickhouse_endpoint
    &&& config.s3.bucket == file.s3.bucket
    &&& config.s3.prefix@ == text_or(file.s3.prefix, Seq::empty())
    &&& config.s3.region == file.s3.region
    &&& config.s3.access_key == file.s3.access_key
    &&& config.s3.secret_key == file.s3.secret_key
    &&& config.s3.path_style == or_default(file.s3.path_style, false)
    &&& config.backup == match file.backup {
        Some(section) => BackupConfig {
            poll_interval_secs: or_default(section.poll_interval_secs, 5),
            timeout_secs: or_default(section.timeout_secs, 86_400),
        },
        None => BackupConfig { poll_interval_secs: 5, timeout_secs: 86_400 },
    }
    &&& config.retry == match file.retry {
        Some(section) => RetryConfig {
            attempts: or_default(section.attempts, 3),
            base_delay_ms: or_default(section.base_delay_ms, 200),
            max_delay_ms: or_default(section.max_delay_ms, 5_000),
        },
        None => RetryConfig { attempts: 3, base_delay_ms: 200, max_delay_ms: 5_000 },
    }
    &&& config.schedule == file.schedule
    &&& config.retention.keep_full_backups == file.retention.keep_full_backups
    &&& config.retention.keep_days == file.retention.keep_days
    &&& config.retention.auto_cleanup == or_default(file.retention.auto_cleanup, false)
    &&& match (file.notifications, config.notifications) {
        (None, None) => true,
        (Some(section), Some(notifications)) => {
            &&& notifications.on_success == or_default(section.on_success, true)
            &&& notifications.on_failure == or_default(section.on_failure, true)
            &&& providers_are(section.providers, notifications.providers@)
        },
        _ => false,
    }
}

fn provider_of(section: ProviderSection) -> (r: NotificationProvider)
    ensures
        provider_is(section, r),
{
    match section {
        ProviderSection::Slack { webhook_url } => NotificationProvider::Slack { webhook_url },
        ProviderSection::Webhook { url, method, headers } => NotificationProvider::Webhook {
            url,
            method: match method {
                Some(method) => method,
                None => default_method(),
            },
            headers: match headers {
                Some(headers) => headers,
                None => Vec::new(),
            },
        },
    }
}

fn notifications_of(section: NotificationSection) -> (r: NotificationConfig)
    ensures
        r.on_success == or_default(section.on_success, true),
        r.on_failure == or_default(section.on_failure, true),
        providers_are(section.providers, r.providers@),
{
    let mut providers: Vec<NotificationProvider> = Vec::new();
    if let Some(list) = section.providers {
        let ghost all = list@;
        let mut list = list;
        while list.len() > 0
            invariant
                providers@.len() + list@.len() == all.len(),
                list@ == all.skip(providers@.len() as int),
                forall|i: int|
                    0 <= i < providers@.len() ==> provider_is(all[i], #[trigger] providers@[i]),
            decreases list@.len(),
        {
            let ghost n = providers@.len() as int;
            let next = list.remove(0);
            assert(next == all[n]);
            providers.push(provider_of(next));
            assert(list@ =~= all.skip(n + 1));
        }
    }
    NotificationConfig {
        on_success: match section.on_success {
            Some(on) => on,
            None => default_true(),
        },
        on_failure: match section.on_failure {
            Some(on) => on,
            None => default_true(),
        },
        providers,
    }
}

proof fn lemma_secrets_are_not_empty(config: Config)
    ensures
        forall|k: int|
            0 <= k < secret_texts(config).len() ==> (#[trigger] secret_texts(config)[k]).len() > 0,
{
    let a = secret_in(config.s3.access_key);
    let b = secret_in(config.s3.secret_key);
    let c = secret_in(config.clickhouse.password);
    assert forall|k: int| 0 <= k < secret_texts(config).len() implies (#[trigger] secret_texts(
        config,
    )[k]).len() > 0 by {
        if k < a.len() {
            assert(secret_texts(config)[k] == a[k]);
        } else if k < a.len() + b.len() {
            assert(secret_texts(config)[k] == b[k - a.len()]);
        } else {
            assert(secret_texts(config)[k] == c[k - a.len() - b.len()]);
        }
    }
}

proof fn lemma_redacted_occurrence(text: Seq<char>, secrets: Seq<Seq<char>>, part: Seq<char>)
    requires
        forall|k: int| 0 <= k < secrets.len() ==> (#[trigger] secrets[k]).len() > 0,
        stands_clear(part, "***"@),
    ensures
        occurs(redacted(text, secrets), part) ==> occurs(text, part) && !secrets.contains(part),
    decreases secrets.len(),
{
    reveal_strlit("***");
    if secrets.len() > 0 {
        let first = replaced(text, secrets[0], "***"@);
        let rest = secrets.skip(1);
        assert forall|k: int| 0 <= k < rest.len() implies (#[trigger] rest[k]).len() > 0 by {
            assert(rest[k] == secrets[k + 1]);
        }
        lemma_redacted_occurrence(first, rest, part);
        crate::text::lemma_replaced_occurrence(text, secrets[0], "***"@, part);
        if occurs(redacted(text, secrets), part) && secrets.contains(part) {
            let k = choose|k: int| 0 <= k < secrets.len() && secrets[k] == part;
            if k > 0 {
                assert(rest[k - 1] == part);
            }
        }
    }
}

/// No configured secret is left in a redacted text. A secret that starts or ends with an asterisk
/// or holds three of them in a row is not covered: the mask itself can complete such a one.
pub proof fn law_no_secret_survives(config: Config, text: Seq<char>, secret: Seq<char>)
    requires
        secret_texts(config).contains(secret),
        stands_clear(secret, "***"@),
    ensures
        !occurs(redacted(text, secret_texts(config)), secret),
{
    lemma_secrets_are_not_empty(config);
    lemma_redacted_occurrence(text, secret_texts(config), secret);
}

/// A text in which no configured secret occurs stays as it is.
pub proof fn law_redaction_keeps_other_text(config: Config, text: Seq<char>)
    requires
        forall|secret: Seq<char>| #[trigger]
            secret_texts(config).contains(secret) ==> !occurs(text, secret),
    ensures
        redacted(text, secret_texts(config)) == text,
{
    lemma_redacted_is_unchanged(text, secret_texts(config));
}

proof fn lemma_redacted_is_unchanged(text: Seq<char>, secrets: Seq<Seq<char>>)
    requires
        forall|secret: Seq<char>| #[trigger] secrets.contains(secret) ==> !occurs(text, secret),
    ensures
        redacted(text, secrets) == text,
    decreases secrets.len(),
{
    if secrets.len() > 0 {
        assert(secrets.contains(secrets[0]));
        crate::text::lemma_replaced_is_unchanged(text, secrets[0], "***"@);
        let rest = secrets.skip(1);
        assert forall|secret: Seq<char>| #[trigger] rest.contains(secret) implies !occurs(
            text,
            secret,
        ) by {
            let k = choose|k: int| 0 <= k < rest.len() && rest[k] == secret;
            assert(secrets[k + 1] == secret);
            assert(secrets.contains(secret));
        }
        lemma_redacted_is_unchanged(text, rest);
    }
}

/// The environment wins over the file: an override that is set is in force whatever the file
/// says, and where none is set the file's value stands.
pub proof fn law_environment_wins(config: Config, env: EnvOverrides)
    ensures
        with_overrides(config, env).clickhouse.user == overridden(
            config.clickhouse.user,
            env.clickhouse_user,
        ),
        with_overrides(config, env).clickhouse.password == overridden(
            config.clickhouse.password,
            env.clickhouse_password,
        ),
        with_overrides(config, env).s3.access_key == overridden(
            config.s3.access_key,
            env.s3_access_key,
        ),
        with_overrides(config, env).s3.secret_key == overridden(
            config.s3.secret_key,
            env.s3_secret_key,
        ),
        with_overrides(with_overrides(config, env), env) == with_overrides(config, env),
{
}

/// A configuration passes validation exactly where every setting can be used: the endpoints carry
/// a scheme and end in no slash, what is required is not empty, the prefix has no slash around it,
/// and the numbers are within their bounds. No other setting is looked at.
pub proof fn law_usable_configurations_are_valid(config: Config)
    ensures
        config_problem(config) is None <==> {
            &&& "http://"@.is_prefix_of(config.clickhouse.url@) || "https://"@.is_prefix_of(
                config.clickhouse.url@,
            )
            &&& config.clickhouse.url@.last() != '/'
            &&& config.clickhouse.database@.len() > 0
            &&& "http://"@.is_prefix_of(config.s3.endpoint@) || "https://"@.is_prefix_of(
                config.s3.endpoint@,
            )
            &&& config.s3.endpoint@.last() != '/'
            &&& config.s3.clickhouse_endpoint matches Some(url) ==> ("http://"@.is_prefix_of(url@)
                || "https://"@.is_prefix_of(url@)) && url@.last() != '/'
            &&& config.s3.bucket@.len() > 0
            &&& config.s3.prefix@.len() > 0 ==> config.s3.prefix@[0] != '/'
                && config.s3.prefix@.last() != '/'
            &&& config.s3.region@.len() > 0
            &&& 0 < config.backup.poll_interval_secs <= config.backup.timeout_secs
            &&& 0 < config.retry.attempts
            &&& 0 < config.retry.base_delay_ms <= config.retry.max_delay_ms
            &&& 0 < config.schedule.full_backup_interval_days
            &&& 0 < config.retention.keep_full_backups
            &&& config.retention.keep_days matches Some(days) ==> 0 < days
        },
{
    lemma_usable_endpoint(config.clickhouse.url@, "clickhouse.url"@);
    lemma_usable_endpoint(config.s3.endpoint@, "s3.endpoint"@);
    if config.s3.clickhouse_endpoint is Some {
        lemma_usable_endpoint(config.s3.clickhouse_endpoint->0@, "s3.clickhouse_endpoint"@);
    }
}

proof fn lemma_usable_endpoint(url: Seq<char>, field: Seq<char>)
    ensures
        endpoint_problem(url, field) is None <==> ("http://"@.is_prefix_of(url)
            || "https://"@.is_prefix_of(url)) && url.last() != '/',
{
    reveal_strlit("http://");
    reveal_strlit("https://");
    let a = "http://"@;
    let b = "https://"@;
    assert(has_prefix(url, a) <==> a.is_prefix_of(url)) by {
        if url.len() >= a.len() {
            assert(url.take(a.len() as int) =~= url.subrange(0, a.len() as int));
        }
    }
    assert(has_prefix(url, b) <==> b.is_prefix_of(url)) by {
        if url.len() >= b.len() {
            assert(url.take(b.len() as int) =~= url.subrange(0, b.len() as int));
        }
    }
}

/// A problem with an endpoint is told under the name of its setting, with the value.
pub proof fn law_endpoint_problems_name_setting_and_value(url: Seq<char>, field: Seq<char>)
    ensures
        endpoint_problem(url, field) matches Some(text) ==> field.is_prefix_of(text) && (url
            + "')"@).is_suffix_of(text),
{
    if endpoint_problem(url, field) is Some {
        let text = endpoint_problem(url, field)->0;
        let end = url + "')"@;
        assert(text.subrange(0, field.len() as int) =~= field);
        assert(text.subrange(text.len() - end.len(), text.len() as int) =~= end);
    }
}

/// An override that is set is in force, and where it is not set the setting stays. The environment
/// changes the user, the password and the two keys, and nothing else.
pub proof fn law_overrides_replace_four_settings(config: Config, env: EnvOverrides)
    ensures
        ({
            let r = with_overrides(config, env);
            &&& env.clickhouse_user is Some ==> r.clickhouse.user == env.clickhouse_user
            &&& env.clickhouse_user is None ==> r.clickhouse.user == config.clickhouse.user
            &&& env.clickhouse_password is Some ==> r.clickhouse.password
                == env.clickhouse_password
            &&& env.clickhouse_password is None ==> r.clickhouse.password
                == config.clickhouse.password
            &&& env.s3_access_key is Some ==> r.s3.access_key == env.s3_access_key
            &&& env.s3_access_key is None ==> r.s3.access_key == config.s3.access_key
            &&& env.s3_secret_key is Some ==> r.s3.secret_key == env.s3_secret_key
            &&& env.s3_secret_key is None ==> r.s3.secret_key == config.s3.secret_key
            &&& r.clickhouse.url == config.clickhouse.url
            &&& r.clickhouse.database == config.clickhouse.database
            &&& r.s3.endpoint == config.s3.endpoint
            &&& r.s3.clickhouse_endpoint == config.s3.clickhouse_endpoint
            &&& r.s3.bucket == config.s3.bucket
            &&& r.s3.prefix == config.s3.prefix
            &&& r.s3.region == config.s3.region
            &&& r.s3.path_style == config.s3.path_style
            &&& r.backup == config.backup
            &&& r.retry == config.retry
            &&& r.schedule == config.schedule
            &&& r.retention == config.retention
            &&& r.notifications == config.notifications
        }),
{
}

/// The secrets are the two S3 keys and the ClickHouse password, as far as they are set and not
/// empty.
pub proof fn law_secrets_are_keys_and_password(config: Config, text: Seq<char>)
    ensures
        secret_texts(config).contains(text) <==> text.len() > 0 && {
            ||| config.s3.access_key matches Some(key) && key@ == text
            ||| config.s3.secret_key matches Some(key) && key@ == text
            ||| config.clickhouse.password matches Some(password) && password@ == text
        },
{
    let a = secret_in(config.s3.access_key);
    let b = secret_in(config.s3.secret_key);
    let c = secret_in(config.clickhouse.password);
    let all = secret_texts(config);
    lemma_secrets_are_not_empty(config);
    if all.contains(text) {
        let k = choose|k: int| 0 <= k < all.len() && all[k] == text;
        if k < a.len() {
            assert(a[k] == text);
        } else if k < a.len() + b.len() {
            assert(b[k - a.len()] == text);
        } else {
            assert(c[k - a.len() - b.len()] == text);
        }
    }
    if text.len() > 0 {
        if config.s3.access_key is Some && config.s3.access_key->0@ == text {
            assert(all[0] == text);
        }
        if config.s3.secret_key is Some && config.s3.secret_key->0@ == text {
            assert(all[a.len() as int] == text);
        }
        if config.clickhouse.password is Some && config.clickhouse.password->0@ == text {
            assert(all[(a.len() + b.len()) as int] == text);
        }
    }
}

/// A configuration says what its file says, and a setting that the file leaves out has its
/// default, in a section that the file leaves out as well as in one that it holds.
pub proof fn law_files_are_taken_at_their_word(file: ConfigFile, config: Config)
    requires
        describes(file, config),
    ensures
        config.clickhouse.url == file.clickhouse.url,
        config.clickhouse.database == file.clickhouse.database,
        config.clickhouse.password == file.clickhouse.password,
        config.clickhouse.user matches Some(user) && (file.clickhouse.user matches Some(named)
            ==> user@ == named@) && (file.clickhouse.user is None ==> user@ == "default"@),
        config.s3.endpoint == file.s3.endpoint,
        config.s3.clickhouse_endpoint == file.s3.clickhouse_endpoint,
        config.s3.bucket == file.s3.bucket,
        config.s3.region == file.s3.region,
        config.s3.access_key == file.s3.access_key,
        config.s3.secret_key == file.s3.secret_key,
        file.s3.prefix matches Some(prefix) ==> config.s3.prefix@ == prefix@,
        file.s3.prefix is None ==> config.s3.prefix@.len() == 0,
        config.s3.path_style <==> file.s3.path_style == Some(true),
        config.schedule == file.schedule,
        config.retention.keep_full_backups == file.retention.keep_full_backups,
        config.retention.keep_days == file.retention.keep_days,
        config.retention.auto_cleanup <==> file.retention.auto_cleanup == Some(true),
        file.backup matches Some(section) && section.poll_interval_secs is Some
            ==> file.backup->0.poll_interval_secs == Some(config.backup.poll_interval_secs),
        file.backup is None || file.backup->0.poll_interval_secs is None
            ==> config.backup.poll_interval_secs == 5,
        file.backup matches Some(section) && section.timeout_secs is Some
            ==> file.backup->0.timeout_secs == Some(config.backup.timeout_secs),
        file.backup is None || file.backup->0.timeout_secs is None ==> config.backup.timeout_secs
            == 24 * 60 * 60,
        file.retry matches Some(section) && section.attempts is Some ==> file.retry->0.attempts
            == Some(config.retry.attempts),
        file.retry is None || file.retry->0.attempts is None ==> config.retry.attempts == 3,
        file.retry matches Some(section) && section.base_delay_ms is Some
            ==> file.retry->0.base_delay_ms == Some(config.retry.base_delay_ms),
        file.retry is None || file.retry->0.base_delay_ms is None ==> config.retry.base_delay_ms
            == 200,
        file.retry matches Some(section) && section.max_delay_ms is Some
            ==> file.retry->0.max_delay_ms == Some(config.retry.max_delay_ms),
        file.retry is None || file.retry->0.max_delay_ms is None ==> config.retry.max_delay_ms
            == 5_000,
{
}

/// Notifications are sent as the file says: on success and on failure unless it says otherwise,
/// and to the providers that it lists, in its order.
pub proof fn law_notifications_are_taken_at_their_word(
    file: ConfigFile,
    config: Config,
    i: int,
)
    requires
        describes(file, config),
    ensures
        config.notifications is Some <==> file.notifications is Some,
        config.notifications matches Some(told) ==> {
            let section = file.notifications->0;
            &&& told.on_success <==> section.on_success != Some(false)
            &&& told.on_failure <==> section.on_failure != Some(false)
            &&& section.providers is None ==> told.providers@.len() == 0
            &&& section.providers matches Some(list) ==> told.providers@.len() == list@.len() && (0
                <= i < list@.len() ==> match list@[i] {
                ProviderSection::Slack { webhook_url } => told.providers@[i]
                    == (NotificationProvider::Slack { webhook_url }),
                ProviderSection::Webhook { url, method, headers } => {
                    told.providers@[i] matches NotificationProvider::Webhook {
                        url: u,
                        method: m,
                        headers: h,
                    } && u == url && (method matches Some(named) ==> m@ == named@) && (method
                        is None ==> m@ == "POST"@) && (headers matches Some(given) ==> h == given)
                        && (headers is None ==> h@.len() == 0)
                },
            })
        },
{
    if config.notifications is Some && file.notifications is Some {
        let told = config.notifications->0;
        let section = file.notifications->0;
        if section.providers is Some && 0 <= i < told.providers@.len() {
            assert(provider_is(section.providers->0@[i], told.providers@[i]));
        }
    }
}

/// Redaction goes secret by secret, in their order: one more secret is hidden behind three
/// asterisks in what the others left of the text.
pub proof fn law_redaction_goes_secret_by_secret(
    text: Seq<char>,
    secrets: Seq<Seq<char>>,
    secret: Seq<char>,
)
    ensures
        redacted(text, Seq::empty()) == text,
        redacted(text, secrets.push(secret)) == replaced(
            redacted(text, secrets),
            secret,
            seq!['*', '*', '*'],
        ),
    decreases secrets.len(),
{
    reveal_strlit("***");
    assert("***"@ =~= seq!['*', '*', '*']);
    let all = secrets.push(secret);
    if secrets.len() == 0 {
        assert(all[0] == secret);
        assert(all.skip(1) =~= Seq::<Seq<char>>::empty());
        assert(redacted(replaced(text, secret, "***"@), all.skip(1)) == replaced(
            text,
            secret,
            "***"@,
        ));
    } else {
        assert(all[0] == secrets[0]);
        assert(all.skip(1) =~= secrets.skip(1).push(secret));
        law_redaction_goes_secret_by_secret(
            replaced(text, secrets[0], "***"@),
            secrets.skip(1),
            secret,
        );
    }
}

} // verus!
