use clickvault::backup::BackupKind;
use clickvault::config::{NotificationConfig, NotificationProvider};
use clickvault::notify::slack::{SlackNotifier, size_in_mb};
use clickvault::notify::webhook::{WebhookNotifier, can_hold_headers};
use clickvault::notify::{
    BackupEvent, Notifier, SendError, StatusCode, build_notifiers, dispatch, is_transient_send,
    response_result, send_with_retry, should_send,
};
use clickvault::retry::RetryPolicy;
use clickvault::s3::RequestStep;
use clickvault::time::{Duration, Timestamp};

fn completed() -> BackupEvent {
    BackupEvent::backup_completed(BackupKind::Full, Duration::from_secs(12), 100, "db".into())
}

fn failed() -> BackupEvent {
    BackupEvent::backup_failed(BackupKind::Incremental, "boom".into(), "db".into())
}

fn cfg(on_success: bool, on_failure: bool) -> NotificationConfig {
    NotificationConfig {
        on_success,
        on_failure,
        providers: vec![],
    }
}

#[test]
fn success_and_failure_classification() {
    assert!(completed().is_success());
    assert!(!completed().is_failure());
    assert!(failed().is_failure());
    assert!(!failed().is_success());

    let cleanup = BackupEvent::CleanupCompleted {
        chains_deleted: 1,
        objects_deleted: 2,
    };
    assert!(cleanup.is_success());
    assert!(!cleanup.is_failure());
}

#[test]
fn should_send_respects_config() {
    assert!(should_send(&cfg(true, true), &completed()));
    assert!(!should_send(&cfg(false, true), &completed()));
    assert!(should_send(&cfg(true, true), &failed()));
    assert!(!should_send(&cfg(true, false), &failed()));
}

#[test]
fn send_errors_classify_transient_vs_definitive() {
    let status = |code: u16| {
        SendError::Status(StatusCode::from_u16(code).unwrap(), String::new())
    };
    assert!(is_transient_send(&status(500)));
    assert!(is_transient_send(&status(503)));
    assert!(is_transient_send(&status(429)));
    assert!(is_transient_send(&status(408)));
    assert!(!is_transient_send(&status(404)));
    assert!(!is_transient_send(&status(400)));
    assert!(!is_transient_send(&SendError::NotCloneable));
    let transport = |connect, timeout| SendError::Transport {
        connect,
        timeout,
        message: "x".into(),
    };
    assert!(is_transient_send(&transport(true, false)));
    assert!(is_transient_send(&transport(false, true)));
    assert!(!is_transient_send(&transport(false, false)));
}

fn notifier() -> SlackNotifier {
    SlackNotifier::new(
        "https://hooks.slack.example/x".into(),
        RetryPolicy::default(),
    )
}

#[test]
fn formats_completed_with_size_in_mb() {
    let event = BackupEvent::backup_completed(
        BackupKind::Full,
        Duration::from_secs(42),
        5 * 1024 * 1024 + 512 * 1024, // 5.5 MB
        "mydb".into(),
    );
    let text = notifier().format_message(&event);
    assert!(text.contains("backup completed"));
    assert!(text.contains("Database: `mydb`"));
    assert!(text.contains("Type: full"));
    assert!(text.contains("Size: 5.5 MB"));
    assert!(text.contains("Duration: 42s"));
}

#[test]
fn formats_failed_with_error() {
    let event = BackupEvent::backup_failed(
        BackupKind::Incremental,
        "disk exploded".into(),
        "mydb".into(),
    );
    let text = notifier().format_message(&event);
    assert!(text.contains("backup failed"));
    assert!(text.contains("Type: incremental"));
    assert!(text.contains("Error: disk exploded"));
}

#[test]
fn formats_cleanup_summary() {
    let event = BackupEvent::CleanupCompleted {
        chains_deleted: 2,
        objects_deleted: 78,
    };
    let text = notifier().format_message(&event);
    assert!(text.contains("cleanup completed"));
    assert!(text.contains("Chains deleted: 2"));
    assert!(text.contains("Objects deleted: 78"));
}

#[test]
fn messages_are_exact() {
    let timestamp = Timestamp::from_parts(1_767_322_645, 0).unwrap();
    let event = BackupEvent::BackupCompleted {
        kind: BackupKind::Incremental,
        timestamp,
        duration_secs: 3,
        total_size: 1_048_576,
        database: "d".into(),
    };
    assert_eq!(
        notifier().format_message(&event),
        ":white_check_mark: *ClickVault backup completed*\nDatabase: `d`\nType: incremental\nSize: 1.0 MB\nDuration: 3s\nTime: 2026-01-02 02:57:25 UTC"
    );
    let event = BackupEvent::BackupFailed {
        kind: BackupKind::Full,
        timestamp,
        error: "e".into(),
        database: "d".into(),
    };
    assert_eq!(
        notifier().format_message(&event),
        ":x: *ClickVault backup failed*\nDatabase: `d`\nType: full\nError: e\nTime: 2026-01-02 02:57:25 UTC"
    );
}

#[test]
fn payloads_are_json_objects_with_the_message() {
    let event = BackupEvent::backup_failed(
        BackupKind::Full,
        "quote \" backslash \\ newline \n".into(),
        "d".into(),
    );
    let payload = notifier().payload(&event);
    let value: serde_json::Value = serde_json::from_str(&payload).unwrap();
    assert_eq!(value["text"].as_str().unwrap(), notifier().format_message(&event));
    assert_eq!(value.as_object().unwrap().len(), 1);
}

#[test]
fn sizes_round_like_double_precision_numbers() {
    let mut sizes = vec![0u64, 1, 52_428, 52_429, 104_857, 157_286, 1_048_575, u64::MAX];
    for shift in 0..64 {
        for offset in [0u64, 1, 2, 3, 5, 1023, 1024, 1025, 2047, 2048, 2049] {
            sizes.push((1u64 << shift).wrapping_add(offset));
            sizes.push((1u64 << shift).wrapping_sub(offset));
        }
    }
    // Exact ties between two decimals.
    for k in 0..200u64 {
        sizes.push(k * 52_429);
        sizes.push(k * 262_144);
    }
    let mut x = 88_172_645_463_325_252u64;
    for _ in 0..2000 {
        x ^= x << 13;
        x ^= x >> 7;
        x ^= x << 17;
        sizes.push(x);
        sizes.push(x >> 20);
        sizes.push(x >> 40);
    }
    for size in sizes {
        let mb = size as f64 / (1024.0 * 1024.0);
        assert_eq!(size_in_mb(size), format!("{mb:.1}"), "{size} bytes");
    }
}

fn build(method: &str, headers: Vec<(String, String)>) -> WebhookNotifier {
    WebhookNotifier::new(
        "https://example.com/hook".into(),
        method.into(),
        headers,
        RetryPolicy::default(),
    )
}

#[test]
fn parses_known_method_and_falls_back_to_post() {
    assert_eq!(build("PUT", vec![]).method, "PUT");
    assert_eq!(build("not a method!", vec![]).method, "POST");
    assert_eq!(build("", vec![]).method, "POST");
    assert_eq!(build("put", vec![]).method, "put");
    assert_eq!(build("X-Very-Long-Method-Name~1", vec![]).method, "X-Very-Long-Method-Name~1");
}

#[test]
fn keeps_valid_headers_and_drops_invalid_ones() {
    let headers = vec![
        ("Authorization".to_string(), "Bearer t".to_string()),
        ("bad header name".to_string(), "x".to_string()),
        ("X-Ok".to_string(), "value\nwith newline".to_string()),
    ];

    let notifier = build("POST", headers);
    assert_eq!(notifier.headers.len(), 1);
    assert_eq!(notifier.headers["authorization"], "Bearer t");
}

#[test]
fn later_headers_replace_earlier_ones() {
    let headers = vec![
        ("X-A".to_string(), "1".to_string()),
        ("x-a".to_string(), "2".to_string()),
        ("".to_string(), "empty name".to_string()),
        ("X-Tab".to_string(), "a\tb".to_string()),
        ("X-Del".to_string(), "\u{7f}".to_string()),
    ];
    let notifier = build("POST", headers);
    assert_eq!(notifier.headers.len(), 2);
    assert_eq!(notifier.headers["x-a"], "2");
    assert_eq!(notifier.headers["x-tab"], "a\tb");
}

#[test]
fn header_names_and_values_are_judged_character_by_character() {
    for code in 1u32..=0x7f {
        let c = char::from_u32(code).unwrap();
        let token = c.is_ascii_alphanumeric() || "!#$%&'*+-.^_`|~".contains(c);
        let named = build("POST", vec![(format!("a{c}"), "v".to_string())]);
        assert_eq!(named.headers.len() == 1, token, "name with {code}");
        assert_eq!(build(&format!("A{c}"), vec![]).method != "POST", token, "method with {code}");
        let valued = build("POST", vec![("a".to_string(), format!("v{c}"))]);
        let fine = c == '\t' || (code >= 32 && code != 127);
        assert_eq!(valued.headers.len() == 1, fine, "value with {code}");
    }
    let accented = build("POST", vec![("a".to_string(), "\u{e9}".to_string())]);
    assert_eq!(accented.headers["a"].as_bytes(), "\u{e9}".as_bytes());
    let accented = build("POST", vec![("\u{e9}".to_string(), "v".to_string())]);
    assert!(accented.headers.is_empty());
    let longest = "n".repeat(65_535);
    assert_eq!(build("POST", vec![(longest.clone(), "v".to_string())]).headers.len(), 1);
    assert_eq!(build("POST", vec![(longest + "n", "v".to_string())]).headers.len(), 0);
}

#[test]
fn many_headers_fit() {
    let headers: Vec<(String, String)> = (0..6554)
        .map(|k| (format!("x-{k}"), k.to_string()))
        .collect();
    let notifier = build("POST", headers);
    assert_eq!(notifier.headers.len(), 6554);
    assert_eq!(notifier.headers["x-6553"], "6553");
}

#[test]
fn notifiers_are_built_in_the_order_of_the_configuration() {
    let mut config = cfg(true, true);
    config.providers.push(NotificationProvider::Webhook {
        url: "https://example.com/hook".into(),
        method: "PUT".into(),
        headers: vec![("X-A".into(), "1".into())],
    });
    config.providers.push(NotificationProvider::Slack {
        webhook_url: "https://hooks.slack.example/x".into(),
    });
    let notifiers = build_notifiers(&config, RetryPolicy::default());
    assert_eq!(notifiers.len(), 2);
    match &notifiers[0] {
        Notifier::Webhook(w) => {
            assert_eq!(w.url, "https://example.com/hook");
            assert_eq!(w.method, "PUT");
            assert_eq!(w.headers["x-a"], "1");
            assert_eq!(w.retry, RetryPolicy::default());
        }
        other => panic!("unexpected: {other:?}"),
    }
    assert!(matches!(
        &notifiers[1],
        Notifier::Slack(s) if s.webhook_url == "https://hooks.slack.example/x"
    ));
    assert_eq!(dispatch(&config, &notifiers, &completed()).len(), 2);
    assert_eq!(dispatch(&cfg(false, true), &notifiers, &completed()).len(), 0);
    assert_eq!(dispatch(&cfg(false, true), &notifiers, &failed()).len(), 2);
}

#[test]
fn statuses_have_three_digits() {
    assert!(StatusCode::from_u16(99).is_none());
    assert!(StatusCode::from_u16(1000).is_none());
    assert_eq!(StatusCode::from_u16(999).unwrap().as_u16(), 999);
    for code in 100..1000u16 {
        let theirs = reqwest::StatusCode::from_u16(code).unwrap();
        let ours = StatusCode::from_u16(code).unwrap();
        assert_eq!(ours.is_success(), theirs.is_success());
        let e = SendError::Status(ours, "b".into());
        assert_eq!(e.message(), format!("returned {theirs}: b"));
        let transient = matches!(code, 408 | 429) || theirs.is_server_error();
        assert_eq!(is_transient_send(&e), transient);
    }
}

#[test]
fn responses_other_than_success_are_errors() {
    let status = |code: u16| StatusCode::from_u16(code).unwrap();
    assert!(response_result(status(200), "ok".into()).is_ok());
    assert!(response_result(status(204), String::new()).is_ok());
    match response_result(status(404), "gone".into()) {
        Err(e) => assert_eq!(e.message(), "returned 404 Not Found: gone"),
        Ok(()) => panic!("accepted"),
    }
    assert!(response_result(status(302), String::new()).is_err());
}

#[test]
fn sends_are_retried_and_then_reported() {
    let policy = RetryPolicy::default();
    let unavailable = || {
        Err(SendError::Status(StatusCode::from_u16(503).unwrap(), "later".into()))
    };
    assert!(matches!(
        send_with_retry(&policy, 0, "Webhook", Ok(())),
        RequestStep::Done(Ok(()))
    ));
    assert!(matches!(
        send_with_retry(&policy, 0, "Webhook", unavailable()),
        RequestStep::RetryAfter(_)
    ));
    match send_with_retry(&policy, 2, "Webhook", unavailable()) {
        RequestStep::Done(Err(e)) => assert_eq!(
            e.message(),
            "Notification error: Webhook returned 503 Service Unavailable: later"
        ),
        other => panic!("unexpected: {other:?}"),
    }
    let refused = Err(SendError::Transport {
        connect: false,
        timeout: false,
        message: "bad url".into(),
    });
    match send_with_retry(&policy, 0, "Slack webhook", refused) {
        RequestStep::Done(Err(e)) => assert_eq!(
            e.message(),
            "Notification error: Slack webhook request failed: bad url"
        ),
        other => panic!("unexpected: {other:?}"),
    }
    match send_with_retry(&policy, 0, "Webhook", Err(SendError::NotCloneable)) {
        RequestStep::Done(Err(e)) => assert_eq!(
            e.message(),
            "Notification error: Webhook request body cannot be cloned for retry"
        ),
        other => panic!("unexpected: {other:?}"),
    }
}

#[test]
fn events_are_stamped_with_the_current_time() {
    let before = chrono::Utc::now().timestamp();
    match completed() {
        BackupEvent::BackupCompleted { timestamp, duration_secs, .. } => {
            assert!(timestamp.unix_secs() >= before);
            assert!(timestamp.unix_secs() <= chrono::Utc::now().timestamp());
            assert_eq!(duration_secs, 12);
        }
        other => panic!("unexpected: {other:?}"),
    }
}

#[test]
fn invalid_and_repeated_headers_do_not_count() {
    let header = |name: String| (name, "v".to_string());
    let mut headers: Vec<(String, String)> = (0..6553).map(|i| header(format!("X-{i}"))).collect();
    headers.extend((0..1000).map(|i| header(format!("not a name {i}"))));
    headers.extend((0..1000).map(|i| header(format!("x-{i}"))));
    headers.push(header("X-Last".into()));
    assert!(can_hold_headers(&headers));
    assert_eq!(build("POST", headers.clone()).headers.len(), 6554);
    headers.push(header("X-One-More".into()));
    assert!(!can_hold_headers(&headers));
    assert!(can_hold_headers(&vec![]));
}
