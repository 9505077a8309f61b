//! Checking that the newest backup is fresh enough.
use vstd::prelude::*;
use vstd::string::*;

use crate::backup::discovery::{has_backup, is_latest, made_at, models};
use crate::backup::{BackupChain, BackupKind, BackupMetadata, ChainModel};
use crate::cli::{MaxAge, law_written_durations_are_read_back, max_age, unit_secs};
use crate::text::{decimal, decimal_text};
use crate::time::{CHECK_TIMESTAMP_FORMAT, Duration, Timestamp, timestamp_text, whole_seconds};

verus! {

/// What a staleness check finds.
#[derive(Debug, Clone, Copy, PartialEq, Eq, Structural)]
pub enum CheckStatus {
    /// The newest backup is fresh enough.
    Fresh,
    /// The newest backup is too old.
    Stale,
    /// There is no backup.
    Missing,
}

/// Summary of a staleness check, printable as one line or as JSON.
#[derive(Debug)]
pub struct CheckReport {
    pub status: CheckStatus,
    pub kind: Option<BackupKind>,
    pub timestamp: Option<Timestamp>,
    pub age_secs: Option<u64>,
    pub max_age_secs: u64,
    pub chains: usize,
}

/// The one-line summary of a check.
pub open spec fn summary(report: CheckReport) -> Seq<char> {
    match (report.kind, report.timestamp, report.age_secs) {
        (Some(kind), Some(ts), Some(age)) => {
            let verdict = if report.status is Fresh {
                "OK"@
            } else {
                "STALE"@
            };
            verdict + ": last backup "@ + kind.text() + " at "@ + ts.text(CHECK_TIMESTAMP_FORMAT@)
                + " (age "@ + age_text(age as nat) + ", max "@ + limit_text(
                report.max_age_secs as nat,
            ) + "), "@ + decimal_text(report.chains as nat) + " chain(s)"@
        },
        _ => "MISSING: no backups found (max "@ + limit_text(report.max_age_secs as nat) + ")"@,
    }
}

impl CheckReport {
    /// Whether the newest backup is fresh enough.
    pub fn is_healthy(&self) -> (r: bool)
        ensures
            r == (self.status is Fresh),
    {
        self.status == CheckStatus::Fresh
    }

    /// One-line human-readable summary.
    pub fn human_line(&self) -> (r: String)
        ensures
            r@ == summary(*self),
    {
        match (self.kind, self.timestamp, self.age_secs) {
            (Some(kind), Some(ts), Some(age)) => {
                let verdict: String = if self.is_healthy() {
                    "OK".to_owned()
                } else {
                    "STALE".to_owned()
                };
                proof {
                    use_type_invariant(&ts);
                }
                verdict.concat(": last backup ").concat(kind.to_string().as_str()).concat(
                    " at ",
                ).concat(ts.format(CHECK_TIMESTAMP_FORMAT).as_str()).concat(" (age ").concat(
                    format_age(age).as_str(),
                ).concat(", max ").concat(format_limit(self.max_age_secs).as_str()).concat(
                    "), ",
                ).concat(decimal(self.chains as u64).as_str()).concat(" chain(s)")
            },
            _ => "MISSING: no backups found (max ".to_owned().concat(
                format_limit(self.max_age_secs).as_str(),
            ).concat(")"),
        }
    }
}

/// The age of a backup in whole seconds. Clock skew between this host and the backup writer can
/// make the age marginally negative; it then counts as 0.
pub open spec fn age_at(meta: BackupMetadata, now: Timestamp) -> int {
    let age = whole_seconds(now.nanos_since(meta.timestamp));
    if age > 0 {
        age
    } else {
        0
    }
}

/// Whether a report is what a check of the chains comes to: the latest backup of the newest chain
/// must not be older than `max_age_secs` seconds.
pub open spec fn is_report(
    chains: Seq<ChainModel>,
    now: Timestamp,
    max_age_secs: nat,
    report: CheckReport,
) -> bool {
    &&& report.max_age_secs == max_age_secs
    &&& report.chains == chains.len()
    &&& if chains.len() == 0 {
        &&& report.status is Missing
        &&& report.kind is None
        &&& report.timestamp is None
        &&& report.age_secs is None
    } else {
        let latest = chains[0].latest();
        let age = age_at(latest, now);
        &&& report.status == if age <= max_age_secs {
            CheckStatus::Fresh
        } else {
            CheckStatus::Stale
        }
        &&& report.kind == Some(latest.kind)
        &&& report.timestamp == Some(latest.timestamp)
        &&& report.age_secs is Some
        &&& report.age_secs->0 == age
    }
}

/// Evaluates backup freshness against `max_age`.
///
/// `chains` must be sorted newest-first (as returned by discovery); the newest chain's latest
/// backup is the most recent backup overall, since new incrementals always chain off the newest
/// chain. Discovery only sees backups whose metadata sidecar was written, i.e. successful ones.
pub fn evaluate(chains: &[BackupChain], now: Timestamp, max_age: Duration) -> (r: CheckReport)
    ensures
        is_report(models(chains@), now, max_age.nanos() / 1_000_000_000, r),
{
    let max_age_secs: u64 = max_age.as_secs();
    if chains.len() == 0 {
        return CheckReport {
            status: CheckStatus::Missing,
            kind: None,
            timestamp: None,
            age_secs: None,
            max_age_secs,
            chains: 0,
        };
    }
    assert(models(chains@)[0] == chains@[0]@);
    let latest = chains[0].latest().1;
    let age: i64 = now.seconds_since(&latest.timestamp);
    let age_secs: u64 = if age > 0 {
        age as u64
    } else {
        0
    };
    let status = if age_secs <= max_age_secs {
        CheckStatus::Fresh
    } else {
        CheckStatus::Stale
    };
    CheckReport {
        status,
        kind: Some(latest.kind),
        timestamp: Some(latest.timestamp),
        age_secs: Some(age_secs),
        max_age_secs,
        chains: chains.len(),
    }
}

/// A check is healthy exactly where there is a backup that is not too old.
pub proof fn law_checks_fail_without_a_fresh_backup(
    chains: Seq<ChainModel>,
    now: Timestamp,
    max_age_secs: nat,
    report: CheckReport,
)
    requires
        is_report(chains, now, max_age_secs, report),
    ensures
        report.status is Fresh <==> chains.len() > 0 && age_at(chains[0].latest(), now)
            <= max_age_secs,
{
}

/// A check looks at the newest backup of all, where the newest chain ends in it: no backup of any
/// chain is newer than the one that the report tells of.
pub proof fn law_checks_look_at_the_newest_backup(
    chains: Seq<ChainModel>,
    now: Timestamp,
    max_age_secs: nat,
    report: CheckReport,
    k: int,
    j: int,
)
    requires
        is_report(chains, now, max_age_secs, report),
        chains.len() > 0,
        is_latest(chains, 0, chains[0].incrementals.len() as int),
        has_backup(chains, k, j),
    ensures
        report.timestamp matches Some(timestamp) && made_at(chains, k, j) <= timestamp.instant(),
{
    assert(made_at(chains, 0, chains[0].incrementals.len() as int)
        == chains[0].latest().timestamp.instant());
}

/// Two units of a duration, the second one only where it is not 0.
pub open spec fn units(first: nat, first_unit: Seq<char>, second: nat, second_unit: Seq<char>) -> Seq<
    char,
> {
    let start = decimal_text(first) + first_unit;
    if second > 0 {
        start + decimal_text(second) + second_unit
    } else {
        start
    }
}

/// A duration in seconds as text, with at most two units.
pub open spec fn age_text(secs: nat) -> Seq<char> {
    if secs >= 86_400 {
        units(secs / 86_400, "d"@, (secs % 86_400) / 3600, "h"@)
    } else if secs >= 3600 {
        units(secs / 3600, "h"@, (secs % 3600) / 60, "m"@)
    } else if secs >= 60 {
        units(secs / 60, "m"@, secs % 60, "s"@)
    } else {
        decimal_text(secs) + "s"@
    }
}

fn two_units(first: u64, first_unit: &str, second: u64, second_unit: &str) -> (r: String)
    ensures
        r@ == units(first as nat, first_unit@, second as nat, second_unit@),
{
    let start = decimal(first).concat(first_unit);
    if second > 0 {
        start.concat(decimal(second).as_str()).concat(second_unit)
    } else {
        start
    }
}

/// A limit in seconds as text: in the largest unit that it is a multiple of.
pub open spec fn limit_text(secs: nat) -> Seq<char> {
    if secs > 0 && secs % 86_400 == 0 {
        decimal_text(secs / 86_400) + "d"@
    } else if secs > 0 && secs % 3600 == 0 {
        decimal_text(secs / 3600) + "h"@
    } else if secs > 0 && secs % 60 == 0 {
        decimal_text(secs / 60) + "m"@
    } else {
        decimal_text(secs) + "s"@
    }
}

/// Formats a limit in seconds with the largest unit that it is a multiple of, e.g. "90s", "30m",
/// "26h", "2d".
pub fn format_limit(secs: u64) -> (r: String)
    ensures
        r@ == limit_text(secs as nat),
{
    if secs > 0 && secs % 86_400 == 0 {
        decimal(secs / 86_400).concat("d")
    } else if secs > 0 && secs % 3600 == 0 {
        decimal(secs / 3600).concat("h")
    } else if secs > 0 && secs % 60 == 0 {
        decimal(secs / 60).concat("m")
    } else {
        decimal(secs).concat("s")
    }
}

/// A limit is printed in a form that stands for the same limit on the command line.
pub proof fn law_printed_limits_are_read_back(secs: nat)
    requires
        0 < secs <= u64::MAX,
    ensures
        max_age(limit_text(secs)) == MaxAge::Secs(secs),
{
    reveal_strlit("d");
    reveal_strlit("h");
    reveal_strlit("m");
    reveal_strlit("s");
    let (n, unit): (nat, char) = if secs % 86_400 == 0 {
        (secs / 86_400, 'd')
    } else if secs % 3600 == 0 {
        (secs / 3600, 'h')
    } else if secs % 60 == 0 {
        (secs / 60, 'm')
    } else {
        (secs, 's')
    };
    assert(n * unit_secs(unit)->0 == secs);
    law_written_durations_are_read_back(n, unit);
    assert(limit_text(secs) =~= decimal_text(n).push(unit));
}

/// Formats seconds as a compact duration with at most two units, e.g. "50s", "3m20s", "3h42m",
/// "1d2h".
pub fn format_age(secs: u64) -> (r: String)
    ensures
        r@ == age_text(secs as nat),
{
    if secs >= 86_400 {
        two_units(secs / 86_400, "d", (secs % 86_400) / 3600, "h")
    } else if secs >= 3600 {
        two_units(secs / 3600, "h", (secs % 3600) / 60, "m")
    } else if secs >= 60 {
        two_units(secs / 60, "m", secs % 60, "s")
    } else {
        decimal(secs).concat("s")
    }
}

/// The age in a report is the time that passed since the latest backup of the newest chain, in
/// whole seconds, and 0 where that backup lies after now. The report calls for no alarm exactly
/// where not a whole second more than allowed has passed.
pub proof fn law_reports_tell_the_age_of_the_latest_backup(
    chains: Seq<ChainModel>,
    now: Timestamp,
    max_age_secs: nat,
    report: CheckReport,
)
    requires
        is_report(chains, now, max_age_secs, report),
    ensures
        report.chains == chains.len(),
        report.max_age_secs == max_age_secs,
        report.status is Missing <==> chains.len() == 0,
        chains.len() == 0 ==> report.kind is None && report.timestamp is None && report.age_secs
            is None,
        chains.len() > 0 ==> {
            let latest = if chains[0].incrementals.len() > 0 {
                chains[0].incrementals[chains[0].incrementals.len() - 1].1
            } else {
                chains[0].full
            };
            let passed = now.nanos_since(latest.timestamp);
            &&& report.kind == Some(latest.kind)
            &&& report.timestamp == Some(latest.timestamp)
            &&& report.age_secs matches Some(age) && {
                &&& passed >= 0 ==> age * 1_000_000_000 <= passed < (age + 1) * 1_000_000_000
                &&& passed < 0 ==> age == 0
            }
            &&& report.status is Fresh <==> passed < (max_age_secs + 1) * 1_000_000_000
            &&& report.status is Stale <==> passed >= (max_age_secs + 1) * 1_000_000_000
        },
{
}

/// A duration is written with its largest unit and, where it is more than a multiple of that, the
/// whole number of the next smaller unit that is left over.
pub proof fn law_durations_are_written_with_two_units(days: nat, hours: nat, minutes: nat, secs: nat)
    requires
        hours < 24,
        minutes < 60,
        secs < 60,
    ensures
        ({
            let text = age_text(days * 86_400 + hours * 3600 + minutes * 60 + secs);
            &&& days > 0 && hours > 0 ==> text == decimal_text(days) + "d"@ + decimal_text(hours)
                + "h"@
            &&& days > 0 && hours == 0 ==> text == decimal_text(days) + "d"@
            &&& days == 0 && hours > 0 && minutes > 0 ==> text == decimal_text(hours) + "h"@
                + decimal_text(minutes) + "m"@
            &&& days == 0 && hours > 0 && minutes == 0 ==> text == decimal_text(hours) + "h"@
            &&& days == 0 && hours == 0 && minutes > 0 && secs > 0 ==> text == decimal_text(minutes)
                + "m"@ + decimal_text(secs) + "s"@
            &&& days == 0 && hours == 0 && minutes > 0 && secs == 0 ==> text == decimal_text(
                minutes,
            ) + "m"@
            &&& days == 0 && hours == 0 && minutes == 0 ==> text == decimal_text(secs) + "s"@
        }),
{
    let total = days * 86_400 + hours * 3600 + minutes * 60 + secs;
    assert(total / 86_400 == days);
    assert((total % 86_400) / 3600 == hours);
    if days == 0 {
        assert(total / 3600 == hours);
        assert((total % 3600) / 60 == minutes);
    }
    if days == 0 && hours == 0 {
        assert(total / 60 == minutes);
        assert(total % 60 == secs);
    }
}

/// The summary line starts with the verdict, and tells what the report holds in this order: the
/// kind, the time, the age, the limit and the number of chains.
#[verifier::rlimit(40)]
pub proof fn law_summaries_tell_the_report(report: CheckReport)
    ensures
        report.kind is None || report.timestamp is None || report.age_secs is None ==> summary(
            report,
        ) == "MISSING: no backups found (max "@ + limit_text(report.max_age_secs as nat) + ")"@,
        report.kind is Some && report.timestamp is Some && report.age_secs is Some ==> ({
            let verdict = match report.status {
                CheckStatus::Fresh => "OK"@,
                _ => "STALE"@,
            };
            let head = verdict + ": last backup "@ + report.kind->0.text() + " at "@;
            let time = timestamp_text(
                report.timestamp->0.secs(),
                report.timestamp->0.nanos(),
                CHECK_TIMESTAMP_FORMAT@,
            );
            let age = " (age "@ + age_text(report.age_secs->0 as nat);
            let limit = ", max "@ + limit_text(report.max_age_secs as nat);
            let count = "), "@ + decimal_text(report.chains as nat) + " chain(s)"@;
            summary(report) == head + time + age + limit + count
        }),
{
    if report.kind is Some && report.timestamp is Some && report.age_secs is Some {
        let verdict = if report.status is Fresh {
            "OK"@
        } else {
            "STALE"@
        };
        let head = verdict + ": last backup "@ + report.kind->0.text() + " at "@;
        let time = report.timestamp->0.text(CHECK_TIMESTAMP_FORMAT@);
        let age = " (age "@ + age_text(report.age_secs->0 as nat);
        let limit = ", max "@ + limit_text(report.max_age_secs as nat);
        let count = "), "@ + decimal_text(report.chains as nat) + " chain(s)"@;
        assert(summary(report) =~= head + time + age + limit + count);
    }
}

} // verus!
