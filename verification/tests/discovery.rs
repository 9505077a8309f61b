use chrono::{DateTime, Duration, TimeZone, Utc};
use clickvault::backup::discovery::{
    BackupRead, discover_chains, discover_chains_strict, find_chain_for_incremental,
    full_backup_due, group_chains, latest_across, latest_backup, list_full_backups,
    list_incremental_backups, should_do_full_backup,
};
use clickvault::backup::{BackupChain, BackupKind, BackupMetadata};
use clickvault::error::{ClickVaultError, MetadataReadError, S3Failure};
use clickvault::time::Timestamp;

fn stamp(t: DateTime<Utc>) -> Timestamp {
    Timestamp::from_parts(t.timestamp(), t.timestamp_subsec_nanos()).unwrap()
}

fn t(secs: i64) -> DateTime<Utc> {
    Utc.with_ymd_and_hms(2026, 1, 1, 0, 0, 0).unwrap() + Duration::seconds(secs)
}

fn md(kind: BackupKind, ts: DateTime<Utc>, base: Option<&str>) -> BackupMetadata {
    BackupMetadata {
        version: 1,
        backup_id: "id".into(),
        kind,
        timestamp: stamp(ts),
        base_backup_path: base.map(|s| s.to_string()),
        status: "BACKUP_CREATED".into(),
        total_size: 0,
        database: "db".into(),
        started_at: None,
        finished_at: None,
    }
}

fn incremental_paths(chain: &BackupChain) -> Vec<&str> {
    chain.incrementals.iter().map(|(p, _)| p.as_str()).collect()
}

#[test]
fn should_do_full_backup_when_none_exists() {
    assert!(should_do_full_backup(None, 7));
}

#[test]
fn should_do_full_backup_respects_interval() {
    let recent = md(BackupKind::Full, Utc::now() - Duration::days(1), None);
    assert!(!should_do_full_backup(Some(&recent), 7));

    let old = md(BackupKind::Full, Utc::now() - Duration::days(8), None);
    assert!(should_do_full_backup(Some(&old), 7));

    // Exactly at the interval boundary triggers a full backup.
    let boundary = md(BackupKind::Full, Utc::now() - Duration::days(7), None);
    assert!(should_do_full_backup(Some(&boundary), 7));
}

#[test]
fn full_backup_is_due_exactly_at_the_boundary() {
    let full = md(BackupKind::Full, t(0), None);
    let week = 7 * 86_400;
    assert!(full_backup_due(Some(&full), 7, &stamp(t(week))));
    let just_before = t(week) - Duration::nanoseconds(1);
    assert!(!full_backup_due(Some(&full), 7, &stamp(just_before)));
    // A backup from the future is not due.
    assert!(!full_backup_due(Some(&full), 7, &stamp(t(-week))));
}

#[test]
fn group_chains_single_full_no_incrementals() {
    let chains = group_chains(
        vec![("full/f1/".into(), md(BackupKind::Full, t(0), None))],
        vec![],
    );
    assert_eq!(chains.len(), 1);
    assert_eq!(chains[0].full_path, "full/f1/");
    assert!(chains[0].incrementals.is_empty());
}

#[test]
fn group_chains_nests_direct_incremental() {
    let fulls = vec![("full/f1/".into(), md(BackupKind::Full, t(0), None))];
    let incrs = vec![(
        "incremental/i1/".into(),
        md(BackupKind::Incremental, t(10), Some("full/f1/")),
    )];
    let chains = group_chains(fulls, incrs);
    assert_eq!(chains.len(), 1);
    assert_eq!(chains[0].incrementals.len(), 1);
    assert_eq!(chains[0].incrementals[0].0, "incremental/i1/");
}

#[test]
fn group_chains_traces_deep_chain_and_sorts_incrementals() {
    let fulls = vec![("full/f1/".into(), md(BackupKind::Full, t(0), None))];
    // Provided out of order; i2 chains off i1 which chains off the full.
    let incrs = vec![
        (
            "incremental/i2/".into(),
            md(BackupKind::Incremental, t(20), Some("incremental/i1/")),
        ),
        (
            "incremental/i1/".into(),
            md(BackupKind::Incremental, t(10), Some("full/f1/")),
        ),
    ];
    let chains = group_chains(fulls, incrs);
    assert_eq!(chains.len(), 1);
    let paths: Vec<&str> = chains[0]
        .incrementals
        .iter()
        .map(|(p, _)| p.as_str())
        .collect();
    assert_eq!(paths, vec!["incremental/i1/", "incremental/i2/"]);
    assert_eq!(chains[0].latest().0, "incremental/i2/");
}

#[test]
fn group_chains_drops_orphan_incremental() {
    let fulls = vec![("full/f1/".into(), md(BackupKind::Full, t(0), None))];
    let incrs = vec![(
        "incremental/orphan/".into(),
        md(BackupKind::Incremental, t(10), Some("full/does-not-exist/")),
    )];
    let chains = group_chains(fulls, incrs);
    assert_eq!(chains.len(), 1);
    assert!(chains[0].incrementals.is_empty());
}

#[test]
fn group_chains_sorts_chains_newest_first_and_routes_incrementals() {
    let fulls = vec![
        ("full/old/".into(), md(BackupKind::Full, t(0), None)),
        ("full/new/".into(), md(BackupKind::Full, t(100), None)),
    ];
    let incrs = vec![(
        "incremental/i1/".into(),
        md(BackupKind::Incremental, t(10), Some("full/old/")),
    )];
    let chains = group_chains(fulls, incrs);
    assert_eq!(chains.len(), 2);
    // Newest chain first.
    assert_eq!(chains[0].full_path, "full/new/");
    assert_eq!(chains[1].full_path, "full/old/");
    // Incremental routed to the correct (older) full.
    assert!(chains[0].incrementals.is_empty());
    assert_eq!(chains[1].incrementals.len(), 1);
}

#[test]
fn slashes_at_the_end_of_paths_do_not_count() {
    let fulls = vec![("full/f1/".into(), md(BackupKind::Full, t(0), None))];
    let incrs = vec![
        (
            "incremental/i1".into(),
            md(BackupKind::Incremental, t(10), Some("full/f1")),
        ),
        (
            "incremental/i2/".into(),
            md(BackupKind::Incremental, t(20), Some("incremental/i1//")),
        ),
    ];
    let chains = group_chains(fulls, incrs);
    assert_eq!(incremental_paths(&chains[0]), vec!["incremental/i1", "incremental/i2/"]);
}

#[test]
fn backups_with_equal_timestamps_keep_their_order() {
    let fulls = vec![
        ("full/a/".into(), md(BackupKind::Full, t(0), None)),
        ("full/b/".into(), md(BackupKind::Full, t(0), None)),
    ];
    let chains = group_chains(fulls, vec![]);
    assert_eq!(chains[0].full_path, "full/a/");
    assert_eq!(chains[1].full_path, "full/b/");
}

#[test]
fn an_incremental_without_a_base_belongs_to_no_chain() {
    let fulls = vec![("full/f1/".into(), md(BackupKind::Full, t(0), None))];
    let chains = group_chains(fulls, vec![]);
    let meta = md(BackupKind::Incremental, t(5), None);
    assert_eq!(find_chain_for_incremental(&chains, "incremental/x/", &meta), None);
    let meta = md(BackupKind::Incremental, t(5), Some("full/f1"));
    assert_eq!(
        find_chain_for_incremental(&chains, "incremental/x/", &meta),
        Some("full/f1/".to_string())
    );
}

fn deep_chain(n: usize) -> Vec<BackupChain> {
    let fulls = vec![("full/f/".into(), md(BackupKind::Full, t(0), None))];
    let mut incrs = Vec::new();
    for k in 0..n {
        let base = if k == 0 {
            "full/f/".to_string()
        } else {
            format!("incremental/{}/", k - 1)
        };
        incrs.push((
            format!("incremental/{k}/"),
            md(BackupKind::Incremental, t(k as i64 + 1), Some(&base)),
        ));
    }
    group_chains(fulls, incrs)
}

#[test]
fn deep_chains_are_traced_back_however_long_they_are() {
    for n in [1, 2, 101, 102, 150] {
        let chains = deep_chain(n);
        assert_eq!(chains.len(), 1);
        assert_eq!(chains[0].incrementals.len(), n);
        assert_eq!(chains[0].latest().0, format!("incremental/{}/", n - 1));
    }
}

#[test]
fn links_in_a_circle_lead_nowhere() {
    let mut chains = deep_chain(2);
    // A chain that no grouping makes: its incrementals are based on each other.
    chains[0].incrementals[0].1.base_backup_path = Some("incremental/1/".into());
    let lost = md(BackupKind::Incremental, t(9), Some("incremental/1/"));
    assert_eq!(find_chain_for_incremental(&chains, "incremental/x/", &lost), None);
}

#[test]
fn incrementals_stand_where_their_bases_lead() {
    let fulls = vec![
        ("full/a/".into(), md(BackupKind::Full, t(0), None)),
        ("full/b/".into(), md(BackupKind::Full, t(1), None)),
    ];
    let incr = |path: &str, secs: i64, base: Option<&str>| {
        (path.to_string(), md(BackupKind::Incremental, t(secs), base))
    };
    let incrs = vec![
        incr("i/b2/", 6, Some("i/b1")),
        incr("i/a1/", 2, Some("full/a")),
        incr("i/a3/", 7, Some("i/a2/")),
        incr("i/b1/", 3, Some("full/b/")),
        incr("i/a2/", 5, Some("i/a1/")),
        incr("i/fork/", 8, Some("i/a1/")),
        incr("i/none/", 4, None),
        incr("i/lost/", 9, Some("i/gone/")),
        incr("i/after_lost/", 10, Some("i/lost/")),
        incr("i/after_none/", 11, Some("i/none/")),
    ];
    let chains = group_chains(fulls, incrs);
    assert_eq!(chains[0].full_path, "full/b/");
    assert_eq!(incremental_paths(&chains[0]), ["i/b1/", "i/b2/"]);
    assert_eq!(incremental_paths(&chains[1]), ["i/a1/", "i/a2/", "i/a3/", "i/fork/"]);
}

#[test]
fn the_order_of_the_given_backups_does_not_matter() {
    let fulls = vec![
        ("full/a/".to_string(), md(BackupKind::Full, t(0), None)),
        ("full/b/".to_string(), md(BackupKind::Full, t(10), None)),
        ("full/c/".to_string(), md(BackupKind::Full, t(20), None)),
    ];
    let incrs = vec![
        ("i/1/".to_string(), md(BackupKind::Incremental, t(11), Some("full/b/"))),
        ("i/2/".to_string(), md(BackupKind::Incremental, t(12), Some("i/1/"))),
        ("i/3/".to_string(), md(BackupKind::Incremental, t(5), Some("full/a/"))),
        ("i/4/".to_string(), md(BackupKind::Incremental, t(4), Some("i/3/"))),
    ];
    let shape = |chains: Vec<BackupChain>| -> Vec<(String, Vec<String>)> {
        chains
            .into_iter()
            .map(|c| (c.full_path, c.incrementals.into_iter().map(|(p, _)| p).collect()))
            .collect()
    };
    let expected = shape(group_chains(fulls.clone(), incrs.clone()));
    assert_eq!(expected[0], ("full/c/".to_string(), vec![]));
    assert_eq!(expected[1].1, ["i/1/", "i/2/"]);
    assert_eq!(expected[2].1, ["i/3/"]);
    for f in 0..fulls.len() {
        for i in 0..incrs.len() {
            let (mut other_fulls, mut other_incrs) = (fulls.clone(), incrs.clone());
            other_fulls.rotate_left(f);
            other_incrs.rotate_left(i);
            other_incrs.swap(0, 2);
            assert_eq!(shape(group_chains(other_fulls, other_incrs)), expected);
        }
    }
}

fn read(path: &str, outcome: Result<BackupMetadata, MetadataReadError>) -> BackupRead {
    BackupRead { path: path.into(), outcome }
}

#[test]
fn lenient_listing_skips_whatever_cannot_be_read() {
    let reads = vec![
        read("full/b/", Ok(md(BackupKind::Full, t(20), None))),
        read("full/orphan/", Err(MetadataReadError::Missing)),
        read("full/broken/", Err(MetadataReadError::Invalid("bad".into()))),
        read(
            "full/denied/",
            Err(MetadataReadError::Unreadable(S3Failure::HttpFailWithBody(403, "no".into()))),
        ),
        read("full/a/", Ok(md(BackupKind::Full, t(10), None))),
    ];
    let backups = list_full_backups(Ok(reads), false).unwrap();
    let paths: Vec<&str> = backups.iter().map(|(p, _)| p.as_str()).collect();
    assert_eq!(paths, vec!["full/a/", "full/b/"]);
}

#[test]
fn strict_listing_skips_orphans_and_fails_on_the_first_unavailable_backup() {
    let reads = vec![
        read("incremental/orphan/", Err(MetadataReadError::Missing)),
        read("incremental/a/", Ok(md(BackupKind::Incremental, t(10), None))),
    ];
    assert_eq!(list_incremental_backups(Ok(reads), true).unwrap().len(), 1);

    let reads = vec![
        read("incremental/a/", Ok(md(BackupKind::Incremental, t(10), None))),
        read("incremental/broken/", Err(MetadataReadError::Invalid("bad".into()))),
        read(
            "incremental/denied/",
            Err(MetadataReadError::Unreadable(S3Failure::Io("gone".into()))),
        ),
    ];
    match list_incremental_backups(Ok(reads), true) {
        Err(ClickVaultError::MetadataUnavailable { path, source }) => {
            assert_eq!(path, "incremental/broken/");
            assert!(matches!(source, MetadataReadError::Invalid(_)));
        }
        other => panic!("unexpected: {other:?}"),
    }
}

#[test]
fn discovery_hands_on_the_first_listing_error() {
    let failed = || Err(ClickVaultError::S3(S3Failure::Other("listing".into())));
    assert!(matches!(
        discover_chains(failed(), Ok(vec![])),
        Err(ClickVaultError::S3(S3Failure::Other(_)))
    ));
    assert!(matches!(
        discover_chains(Ok(vec![]), failed()),
        Err(ClickVaultError::S3(S3Failure::Other(_)))
    ));
    assert!(discover_chains(Ok(vec![]), Ok(vec![])).unwrap().is_empty());
}

#[test]
fn strict_discovery_refuses_an_incomplete_view() {
    let fulls = || vec![
        read("full/a/", Ok(md(BackupKind::Full, t(0), None))),
        read("full/broken/", Err(MetadataReadError::Invalid("bad".into()))),
    ];
    assert!(matches!(
        discover_chains_strict(Ok(fulls()), Ok(vec![])),
        Err(ClickVaultError::MetadataUnavailable { .. })
    ));
    assert_eq!(discover_chains(Ok(fulls()), Ok(vec![])).unwrap().len(), 1);
}

#[test]
fn latest_backup_is_the_end_of_the_newest_chain() {
    let fulls = vec![
        read("full/old/", Ok(md(BackupKind::Full, t(0), None))),
        read("full/new/", Ok(md(BackupKind::Full, t(100), None))),
    ];
    let incrs = vec![read(
        "incremental/i1/",
        Ok(md(BackupKind::Incremental, t(110), Some("full/new/"))),
    )];
    let (path, meta) = latest_backup(Ok(fulls), Ok(incrs)).unwrap().unwrap();
    assert_eq!(path, "incremental/i1/");
    assert_eq!(meta.kind, BackupKind::Incremental);
    assert!(latest_backup(Ok(vec![]), Ok(vec![])).unwrap().is_none());
}

#[test]
fn latest_backup_looks_at_all_chains() {
    let fulls = vec![
        read("full/a/", Ok(md(BackupKind::Full, t(100), None))),
        read("full/b/", Ok(md(BackupKind::Full, t(0), None))),
    ];
    let incrs = vec![read(
        "incremental/i/",
        Ok(md(BackupKind::Incremental, t(200), Some("full/b/"))),
    )];
    let (path, meta) = latest_backup(Ok(fulls), Ok(incrs)).unwrap().unwrap();
    assert_eq!(path, "incremental/i/");
    assert_eq!(meta.timestamp, stamp(t(200)));
    let failed = latest_backup(Ok(vec![]), Err(ClickVaultError::NoBaseBackup));
    assert!(matches!(failed, Err(ClickVaultError::NoBaseBackup)));
}

#[test]
fn of_equally_new_backups_the_last_of_the_newest_chain_counts() {
    let chain = |path: &str, full: i64, incrs: &[(&str, i64)]| BackupChain {
        full_path: path.into(),
        full: md(BackupKind::Full, t(full), None),
        incrementals: incrs
            .iter()
            .map(|(p, secs)| (p.to_string(), md(BackupKind::Incremental, t(*secs), None)))
            .collect(),
    };
    let latest = |chains: &[BackupChain]| latest_across(chains).map(|(path, _)| path);
    assert_eq!(latest(&[]), None);
    let chains = [chain("f1/", 5, &[("i1/", 7), ("i2/", 7)]), chain("f2/", 3, &[("i3/", 7)])];
    assert_eq!(latest(&chains), Some("i2/".to_string()));
    let chains = [chain("f1/", 9, &[("i1/", 7)]), chain("f2/", 3, &[("i3/", 9)])];
    assert_eq!(latest(&chains), Some("f1/".to_string()));
    let chains = [chain("f1/", 5, &[]), chain("f2/", 3, &[("i1/", 8), ("i2/", 6)])];
    assert_eq!(latest(&chains), Some("i1/".to_string()));
}

#[test]
fn a_new_incremental_is_found_at_the_end_of_the_newest_chain() {
    let fulls = || {
        vec![
            ("full/f1/".into(), md(BackupKind::Full, t(0), None)),
            ("full/f2/".into(), md(BackupKind::Full, t(100), None)),
        ]
    };
    let mut incrementals = vec![
        ("incremental/a/".into(), md(BackupKind::Incremental, t(10), Some("full/f1/"))),
        ("incremental/b/".into(), md(BackupKind::Incremental, t(110), Some("full/f2/"))),
    ];
    let before = group_chains(fulls(), incrementals.clone());
    let latest = before[0].latest().0.to_string();
    assert_eq!(latest, "incremental/b/");
    incrementals.push(("incremental/c/".into(), md(BackupKind::Incremental, t(120), Some(&latest))));
    let after = group_chains(fulls(), incrementals);
    assert_eq!(after.len(), before.len());
    assert_eq!(after[0].full_path, "full/f2/");
    assert_eq!(incremental_paths(&after[0]), ["incremental/b/", "incremental/c/"]);
    assert_eq!(after[0].latest().0, "incremental/c/");
    assert_eq!(latest_across(&after).unwrap().0, "incremental/c/");
    assert_eq!(after[1].full_path, "full/f1/");
    assert_eq!(incremental_paths(&after[1]), ["incremental/a/"]);
}

#[test]
fn a_new_full_backup_is_found_in_front_of_the_other_chains() {
    let mut fulls = vec![("full/f1/".into(), md(BackupKind::Full, t(0), None))];
    let incrementals =
        || vec![("incremental/a/".into(), md(BackupKind::Incremental, t(10), Some("full/f1/")))];
    fulls.push(("full/f2/".into(), md(BackupKind::Full, t(100), None)));
    let after = group_chains(fulls, incrementals());
    assert_eq!(after.len(), 2);
    assert_eq!(after[0].full_path, "full/f2/");
    assert!(after[0].incrementals.is_empty());
    assert_eq!(latest_across(&after).unwrap().0, "full/f2/");
    assert_eq!(after[1].full_path, "full/f1/");
    assert_eq!(incremental_paths(&after[1]), ["incremental/a/"]);
}
