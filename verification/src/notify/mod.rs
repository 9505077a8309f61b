//! Notifications: events, receivers, and what is sent to whom.
pub mod slack;
pub mod webhook;

use vstd::prelude::*;
use vstd::string::*;

use crate::backup::BackupKind;
use crate::config::{NotificationConfig, NotificationProvider};
use crate::error::ClickVaultError;
use crate::retry::{
    RetryPolicy, RetryStep, cap_nanos, delay_is_defined, is_jitter, is_retried, with_retry,
};
use crate::s3::RequestStep;
use crate::time::{Duration, Timestamp};
use self::slack::SlackNotifier;
use self::webhook::{WebhookNotifier, headers_fit, is_webhook};

verus! {

/// What receivers are told about.
#[derive(Debug)]
pub enum BackupEvent {
    BackupCompleted {
        kind: BackupKind,
        timestamp: Timestamp,
        duration_secs: u64,
        total_size: u64,
        database: String,
    },
    BackupFailed { kind: BackupKind, timestamp: Timestamp, error: String, database: String },
    CleanupCompleted { chains_deleted: usize, objects_deleted: u64 },
}

impl BackupEvent {
    /// Whether the event tells of a success.
    pub open spec fn tells_success(self) -> bool {
        self is BackupCompleted || self is CleanupCompleted
    }

    /// Whether the event tells of a success.
    pub fn is_success(&self) -> (r: bool)
        ensures
            r == self.tells_success(),
    {
        match self {
            BackupEvent::BackupCompleted { .. } => true,
            BackupEvent::BackupFailed { .. } => false,
            BackupEvent::CleanupCompleted { .. } => true,
        }
    }

    /// Whether the event tells of a failure.
    pub fn is_failure(&self) -> (r: bool)
        ensures
            r == self is BackupFailed,
    {
        match self {
            BackupEvent::BackupFailed { .. } => true,
            _ => false,
        }
    }

    /// A backup completed now.
    pub fn backup_completed(
        kind: BackupKind,
        duration: Duration,
        total_size: u64,
        database: String,
    ) -> (r: BackupEvent)
        ensures
            r matches BackupEvent::BackupCompleted {
                kind: k,
                timestamp,
                duration_secs,
                total_size: size,
                database: db,
            } && {
                &&& k == kind
                &&& timestamp.valid()
                &&& duration_secs == duration.nanos() / 1_000_000_000
                &&& size == total_size
                &&& db == database
            },
    {
        BackupEvent::BackupCompleted {
            kind,
            timestamp: Timestamp::now(),
            duration_secs: duration.as_secs(),
            total_size,
            database,
        }
    }

    /// A backup failed now.
    pub fn backup_failed(kind: BackupKind, error: String, database: String) -> (r: BackupEvent)
        ensures
            r matches BackupEvent::BackupFailed { kind: k, timestamp, error: e, database: db } && {
                &&& k == kind
                &&& timestamp.valid()
                &&& e == error
                &&& db == database
            },
    {
        BackupEvent::BackupFailed { kind, timestamp: Timestamp::now(), error, database }
    }
}

/// Every event tells either of a success or of a failure.
pub proof fn law_events_tell_success_or_failure(event: BackupEvent)
    ensures
        event.tells_success() <==> !(event is BackupFailed),
{
}

/// The status of an HTTP response: a number of three digits.
#[derive(Debug, Clone, Copy, PartialEq, Eq, Structural)]
pub struct StatusCode {
    code: u16,
}

impl StatusCode {
    /// The number of the status.
    pub closed spec fn number(self) -> int {
        self.code as int
    }

    /// A status has three digits.
    #[verifier::type_invariant]
    pub open spec fn valid(self) -> bool {
        100 <= self.number() <= 999
    }

    /// The status with this number, if it has three digits.
    pub fn from_u16(code: u16) -> (r: Option<StatusCode>)
        ensures
            r is Some <==> 100 <= code <= 999,
            r matches Some(status) ==> status.number() == code,
    {
        if 100 <= code && code <= 999 {
            Some(StatusCode { code })
        } else {
            None
        }
    }

    /// The number of the status.
    pub fn as_u16(&self) -> (r: u16)
        ensures
            r == self.number(),
    {
        self.code
    }

    /// Whether the status tells of a success.
    pub fn is_success(&self) -> (r: bool)
        ensures
            r == (200 <= self.number() <= 299),
    {
        200 <= self.code && self.code <= 299
    }
}

/// What an HTTP status is displayed as, such as `404 Not Found`.
pub uninterp spec fn status_text(code: int) -> Seq<char>;

/// This is the `Display` text of reqwest's `StatusCode`: the number and the phrase that goes with
/// it.
#[verifier::external_body]
fn status_message(code: u16) -> (r: String)
    requires
        100 <= code <= 999,
    ensures
        r@ == status_text(code as int),
{
    reqwest::StatusCode::from_u16(code).unwrap().to_string()
}

/// One notification send attempt that failed, classified so the retry layer can tell transient
/// failures from definitive ones.
#[derive(Debug)]
pub enum SendError {
    /// No response came.
    Transport {
        /// Whether no connection could be made.
        connect: bool,
        /// Whether it took too long.
        timeout: bool,
        /// What the HTTP client says of it.
        message: String,
    },
    /// The response has a status other than success; this is its body.
    Status(StatusCode, String),
    /// The request cannot be sent twice.
    NotCloneable,
}

/// Whether a failed send may succeed when it is tried again.
pub open spec fn is_transient_failure(e: SendError) -> bool {
    match e {
        SendError::Transport { connect, timeout, .. } => connect || timeout,
        SendError::Status(status, _) => status.number() == 408 || status.number() == 429 || 500
            <= status.number() <= 599,
        SendError::NotCloneable => false,
    }
}

impl SendError {
    /// What the error says.
    pub open spec fn text(self) -> Seq<char> {
        match self {
            SendError::Transport { message, .. } => "request failed: "@ + message@,
            SendError::Status(status, body) => "returned "@ + status_text(status.number()) + ": "@
                + body@,
            SendError::NotCloneable => "request body cannot be cloned for retry"@,
        }
    }

    /// What the error says.
    pub fn message(&self) -> (r: String)
        ensures
            r@ == self.text(),
    {
        match self {
            SendError::Transport { message, .. } => "request failed: ".to_owned().concat(
                message.as_str(),
            ),
            SendError::Status(status, body) => {
                proof {
                    use_type_invariant(status);
                }
                "returned ".to_owned().concat(status_message(status.as_u16()).as_str()).concat(
                    ": ",
                ).concat(body.as_str())
            },
            SendError::NotCloneable => "request body cannot be cloned for retry".to_owned(),
        }
    }
}

/// Whether a failed send may succeed when it is tried again: connect and timeout errors, and
/// 408/429/5xx responses.
pub fn is_transient_send(e: &SendError) -> (r: bool)
    ensures
        r == is_transient_failure(*e),
{
    match e {
        SendError::Transport { connect, timeout, .. } => *connect || *timeout,
        SendError::Status(status, _) => {
            let code: u16 = status.as_u16();
            code == 408 || code == 429 || (500 <= code && code <= 599)
        },
        SendError::NotCloneable => false,
    }
}

/// What a response means: success, or the error with its body.
pub fn response_result(status: StatusCode, body: String) -> (r: Result<(), SendError>)
    ensures
        match r {
            Ok(_) => 200 <= status.number() <= 299,
            Err(e) => !(200 <= status.number() <= 299) && e == SendError::Status(status, body),
        },
{
    if status.is_success() {
        Ok(())
    } else {
        Err(SendError::Status(status, body))
    }
}

/// What follows when attempt number `attempt` (0-based) to send a notification ended: transient
/// failures are retried per the policy. Other non-2xx responses fail immediately; a misconfigured
/// endpoint won't heal.
pub fn send_with_retry(
    policy: &RetryPolicy,
    attempt: u32,
    provider: &str,
    result: Result<(), SendError>,
) -> (r: RequestStep<Result<(), ClickVaultError>>)
    requires
        result matches Err(e) && is_retried(*policy, attempt as nat, is_transient_failure(e))
            ==> delay_is_defined(*policy, attempt as nat),
    ensures
        match result {
            Ok(_) => r == RequestStep::Done(Ok::<(), ClickVaultError>(())),
            Err(e) => match r {
                RequestStep::RetryAfter(delay) => is_retried(
                    *policy,
                    attempt as nat,
                    is_transient_failure(e),
                ) && is_jitter(cap_nanos(*policy, attempt as nat), delay.nanos()),
                RequestStep::Done(result) => !is_retried(
                    *policy,
                    attempt as nat,
                    is_transient_failure(e),
                ) && (result matches Err(ClickVaultError::Notification(text)) && text@ == provider@
                    + " "@ + e.text()),
            },
        },
{
    match result {
        Ok(_) => RequestStep::Done(Ok(())),
        Err(e) => match with_retry(policy, attempt, is_transient_send(&e)) {
            RetryStep::RetryAfter(delay) => RequestStep::RetryAfter(delay),
            RetryStep::GiveUp => RequestStep::Done(
                Err(
                    ClickVaultError::Notification(
                        provider.to_owned().concat(" ").concat(e.message().as_str()),
                    ),
                ),
            ),
        },
    }
}

/// A receiver of notifications.
#[derive(Debug)]
pub enum Notifier {
    Slack(SlackNotifier),
    Webhook(WebhookNotifier),
}

/// Whether a receiver is the one that a provider in the configuration describes.
pub open spec fn notifies(
    provider: NotificationProvider,
    retry: RetryPolicy,
    notifier: Notifier,
) -> bool {
    match (provider, notifier) {
        (NotificationProvider::Slack { webhook_url }, Notifier::Slack(slack)) => {
            slack.webhook_url == webhook_url && slack.retry == retry
        },
        (
            NotificationProvider::Webhook { url, method, headers },
            Notifier::Webhook(webhook),
        ) => is_webhook(url, method, headers@, retry, webhook),
        _ => false,
    }
}

/// Whether the headers of a provider, if it has any, can be held.
pub open spec fn provider_fits(provider: NotificationProvider) -> bool {
    provider matches NotificationProvider::Webhook { headers, .. } ==> headers_fit(headers@)
}

fn cloned_headers(headers: &Vec<(String, String)>) -> (r: Vec<(String, String)>)
    ensures
        r@ == headers@,
{
    let mut r: Vec<(String, String)> = Vec::new();
    let mut i: usize = 0;
    while i < headers.len()
        invariant
            i <= headers@.len(),
            r@ == headers@.take(i as int),
        decreases headers@.len() - i,
    {
        let header = &headers[i];
        r.push((header.0.clone(), header.1.clone()));
        assert(headers@.take(i + 1) =~= headers@.take(i as int).push(headers@[i as int]));
        i = i + 1;
    }
    assert(headers@.take(i as int) =~= headers@);
    r
}

/// The receivers that the configuration describes, in its order.
pub fn build_notifiers(config: &NotificationConfig, retry: RetryPolicy) -> (r: Vec<Notifier>)
    requires
        forall|i: int|
            0 <= i < config.providers@.len() ==> provider_fits(#[trigger] config.providers@[i]),
    ensures
        r@.len() == config.providers@.len(),
        forall|i: int|
            0 <= i < r@.len() ==> notifies(config.providers@[i], retry, #[trigger] r@[i]),
{
    let mut notifiers: Vec<Notifier> = Vec::new();
    let mut i: usize = 0;
    while i < config.providers.len()
        invariant
            i <= config.providers@.len(),
            notifiers@.len() == i,
            forall|k: int|
                0 <= k < config.providers@.len() ==> provider_fits(#[trigger] config.providers@[k]),
            forall|k: int|
                0 <= k < i ==> notifies(config.providers@[k], retry, #[trigger] notifiers@[k]),
        decreases config.providers@.len() - i,
    {
        let provider = &config.providers[i];
        assert(provider_fits(config.providers@[i as int]));
        let notifier = match provider {
            NotificationProvider::Slack { webhook_url } => Notifier::Slack(
                SlackNotifier::new(webhook_url.clone(), retry),
            ),
            NotificationProvider::Webhook { url, method, headers } => Notifier::Webhook(
                WebhookNotifier::new(url.clone(), method.clone(), cloned_headers(headers), retry),
            ),
        };
        notifiers.push(notifier);
        i = i + 1;
    }
    notifiers
}

/// Whether an event is to be sent at all.
pub open spec fn is_sent(config: NotificationConfig, event: BackupEvent) -> bool {
    (event.tells_success() && config.on_success) || (event is BackupFailed && config.on_failure)
}

/// Whether an event should be sent given the on_success/on_failure config.
pub fn should_send(config: &NotificationConfig, event: &BackupEvent) -> (r: bool)
    ensures
        r == is_sent(*config, *event),
{
    (event.is_success() && config.on_success) || (event.is_failure() && config.on_failure)
}

/// The receivers that a backup event goes to: all of them, or none where the on_success/on_failure
/// config rules it out. A receiver that fails does not keep the event from the others.
pub fn dispatch<'a>(
    config: &NotificationConfig,
    notifiers: &'a [Notifier],
    event: &BackupEvent,
) -> (r: &'a [Notifier])
    ensures
        r@ == if is_sent(*config, *event) {
            notifiers@
        } else {
            Seq::empty()
        },
{
    if should_send(config, event) {
        notifiers
    } else {
        assert(notifiers@.subrange(0, 0) =~= Seq::<Notifier>::empty());
        vstd::slice::slice_subrange(notifiers, 0, 0)
    }
}

/// A failed backup is told of exactly where failures are to be told of, and everything else
/// exactly where successes are. The other switch has no say.
pub proof fn law_switches_decide_what_is_sent(config: NotificationConfig, event: BackupEvent)
    ensures
        event is BackupFailed ==> (is_sent(config, event) <==> config.on_failure),
        event is BackupCompleted ==> (is_sent(config, event) <==> config.on_success),
        event is CleanupCompleted ==> (is_sent(config, event) <==> config.on_success),
{
}

/// A failed send is tried again where no connection could be made, where it took too long, or
/// where the receiver was busy or failed itself, and for no other reason.
pub proof fn law_only_passing_failures_are_transient(
    connect: bool,
    timeout: bool,
    status: StatusCode,
    text: String,
)
    ensures
        is_transient_failure(SendError::Transport { connect, timeout, message: text }) <==> connect
            || timeout,
        is_transient_failure(SendError::Status(status, text)) <==> status.number() == 408
            || status.number() == 429 || status.number() / 100 == 5,
        !is_transient_failure(SendError::NotCloneable),
{
}

/// What is said of a failed send ends in what the HTTP client or the receiver said of it.
pub proof fn law_send_errors_tell_their_cause(
    connect: bool,
    timeout: bool,
    status: StatusCode,
    text: String,
)
    ensures
        text@.is_suffix_of((SendError::Transport { connect, timeout, message: text }).text()),
        (status_text(status.number()) + ": "@ + text@).is_suffix_of(
            SendError::Status(status, text).text(),
        ),
{
    let a = (SendError::Transport { connect, timeout, message: text }).text();
    assert(a.subrange(a.len() - text@.len(), a.len() as int) =~= text@);
    let b = SendError::Status(status, text).text();
    let end = status_text(status.number()) + ": "@ + text@;
    assert(b.subrange(b.len() - end.len(), b.len() as int) =~= end);
}

/// A receiver is reached as its provider says: at the same URL, with the configured retries, and a
/// webhook with the method and the headers that can be used.
pub proof fn law_receivers_are_those_of_the_configuration(
    provider: NotificationProvider,
    retry: RetryPolicy,
    notifier: Notifier,
)
    requires
        notifies(provider, retry, notifier),
    ensures
        provider is Slack <==> notifier is Slack,
        provider matches NotificationProvider::Slack { webhook_url } ==> (
        notifier matches Notifier::Slack(slack) && slack.webhook_url == webhook_url && slack.retry
            == retry),
        provider matches NotificationProvider::Webhook { url, method, headers } ==> (
        notifier matches Notifier::Webhook(webhook) && webhook.url == url && webhook.retry == retry
            && webhook.method@ == webhook::used_method(method@) && webhook::header_entries(
            webhook.headers,
        ) == webhook::used_headers(headers@)),
{
}

} // verus!
