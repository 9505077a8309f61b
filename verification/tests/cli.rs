use clickvault::cli::{Cli, Command, max_age_fits, parse_max_age};
use clickvault::time::Duration;

#[test]
fn parse_max_age_accepts_suffixed_and_bare_values() {
    assert_eq!(parse_max_age("90s").unwrap(), Duration::from_secs(90));
    assert_eq!(parse_max_age("30m").unwrap(), Duration::from_secs(1800));
    assert_eq!(parse_max_age("26h").unwrap(), Duration::from_secs(93_600));
    assert_eq!(parse_max_age("2d").unwrap(), Duration::from_secs(172_800));
    assert_eq!(parse_max_age("45").unwrap(), Duration::from_secs(45));
    assert_eq!(parse_max_age(" 26h ").unwrap(), Duration::from_secs(93_600));
}

#[test]
fn parse_max_age_rejects_bad_input() {
    assert!(parse_max_age("").is_err());
    assert!(parse_max_age("h").is_err());
    assert!(parse_max_age("26x").is_err());
    assert!(parse_max_age("-5h").is_err());
    assert!(parse_max_age("0h").is_err());
    assert!(parse_max_age("1.5h").is_err());
}

#[test]
fn bad_durations_are_explained() {
    assert_eq!(parse_max_age("  ").unwrap_err(), "empty duration");
    assert_eq!(
        parse_max_age("26x").unwrap_err(),
        "unknown duration unit 'x' (use s, m, h or d)"
    );
    assert_eq!(
        parse_max_age(" 1.5h").unwrap_err(),
        "invalid duration '1.5h' (e.g. 90s, 30m, 26h, 2d)"
    );
    assert_eq!(
        parse_max_age("0").unwrap_err(),
        "duration must be greater than zero"
    );
    // More than 64 bits hold.
    assert!(parse_max_age("18446744073709551616").is_err());
}

#[test]
fn a_plus_sign_and_leading_zeros_are_accepted() {
    assert_eq!(parse_max_age("+5m").unwrap(), Duration::from_secs(300));
    assert_eq!(parse_max_age("007d").unwrap(), Duration::from_secs(604_800));
    assert!(parse_max_age("+").is_err());
    assert!(parse_max_age("+h").is_err());
}

#[test]
fn only_durations_of_countable_seconds_fit() {
    assert!(max_age_fits("18446744073709551615s"));
    assert!(!max_age_fits("18446744073709551615m"));
    assert!(max_age_fits("213503982334601d"));
    assert!(!max_age_fits("213503982334602d"));
    assert!(max_age_fits("no duration"));
}

#[test]
fn written_durations_are_read_back() {
    for n in [1u64, 9, 10, 59, 100, 12_345] {
        assert_eq!(parse_max_age(&format!("{n}")).unwrap(), Duration::from_secs(n));
        assert_eq!(parse_max_age(&format!("{n}s")).unwrap(), Duration::from_secs(n));
        assert_eq!(parse_max_age(&format!("{n}m")).unwrap(), Duration::from_secs(n * 60));
        assert_eq!(parse_max_age(&format!("{n}h")).unwrap(), Duration::from_secs(n * 3600));
        assert_eq!(parse_max_age(&format!("{n}d")).unwrap(), Duration::from_secs(n * 86_400));
    }
}

#[test]
fn commands_hold_their_options() {
    let cli = Cli {
        config: "/etc/clickvault/config.toml".into(),
        log_level: "info".into(),
        command: Command::Check { max_age: Duration::from_secs(60), json: true },
    };
    assert!(matches!(
        cli.command,
        Command::Check { max_age, json: true } if max_age.as_secs() == 60
    ));
}
