//! The command line: options, commands and durations.
use vstd::prelude::*;
use vstd::string::*;

use crate::text::{chars, decimal_text, is_white_space, parse_u64, parsed_u64, slice, trim, trimmed};
use crate::time::Duration;

verus! {

/// What the program is asked to do, and how.
#[derive(Debug)]
pub struct Cli {
    /// Path to the TOML configuration file.
    pub config: String,
    /// Log level (trace, debug, info, warn, error).
    pub log_level: String,
    pub command: Command,
}

/// What the program is asked to do.
#[derive(Debug)]
pub enum Command {
    /// Run a backup (auto-detects full vs incremental).
    Backup {
        /// Force a full backup regardless of schedule.
        full: bool,
        /// Skip the in-progress backup check (use when a previous backup is stuck).
        force: bool,
    },
    /// List known backups in S3.
    List {
        /// Show only full backups.
        full_only: bool,
    },
    /// Show the status of running and recent backups.
    Status,
    /// Check that the newest backup is fresh enough (exit code for monitoring).
    Check {
        /// Maximum acceptable age of the newest backup.
        max_age: Duration,
        /// Print the summary as JSON.
        json: bool,
    },
    /// Clean up expired backup chains.
    Cleanup {
        /// Show what would be deleted without actually deleting.
        dry_run: bool,
    },
}

/// What a duration says: how many seconds, or what is wrong with it.
pub enum MaxAge {
    Secs(nat),
    Invalid(Seq<char>),
}

/// How many seconds a unit stands for. A digit is no unit, and stands for seconds.
pub open spec fn unit_secs(unit: char) -> Option<nat> {
    if unit == 's' || '0' <= unit <= '9' {
        Some(1)
    } else if unit == 'm' {
        Some(60)
    } else if unit == 'h' {
        Some(3600)
    } else if unit == 'd' {
        Some(86_400)
    } else {
        None
    }
}

/// The number in front of the unit, or the whole text where it ends in a digit.
pub open spec fn value_text(s: Seq<char>) -> Seq<char> {
    if '0' <= s.last() <= '9' {
        s
    } else {
        s.drop_last()
    }
}

/// What a duration without white space around it says.
pub open spec fn age_in(s: Seq<char>) -> MaxAge {
    if s.len() == 0 {
        MaxAge::Invalid("empty duration"@)
    } else {
        match unit_secs(s.last()) {
            None => MaxAge::Invalid(
                "unknown duration unit '"@ + seq![s.last()] + "' (use s, m, h or d)"@,
            ),
            Some(unit) => match parsed_u64(value_text(s)) {
                None => MaxAge::Invalid(
                    "invalid duration '"@ + s + "' (e.g. 90s, 30m, 26h, 2d)"@,
                ),
                Some(value) => if value == 0 {
                    MaxAge::Invalid("duration must be greater than zero"@)
                } else {
                    MaxAge::Secs(value as nat * unit)
                },
            },
        }
    }
}

/// What a duration says; white space around it does not count.
pub open spec fn max_age(s: Seq<char>) -> MaxAge {
    age_in(trimmed(s))
}

/// Whether the seconds of a duration can be counted in 64 bits.
pub open spec fn is_countable(age: MaxAge) -> bool {
    age matches MaxAge::Secs(secs) ==> secs <= u64::MAX
}

/// The value and the factor of a duration, or what is wrong with it.
fn parts_of(s: &str) -> (r: Result<(u64, u64), String>)
    ensures
        match (r, max_age(s@)) {
            (Ok(parts), MaxAge::Secs(secs)) => parts.0 * parts.1 == secs,
            (Err(text), MaxAge::Invalid(message)) => text@ == message,
            _ => false,
        },
{
    let s = trim(s);
    let v = chars(s.as_str());
    if v.len() == 0 {
        return Err("empty duration".to_owned());
    }
    let unit: char = v[v.len() - 1];
    let (end, multiplier): (usize, u64) = if unit == 's' {
        (v.len() - 1, 1)
    } else if unit == 'm' {
        (v.len() - 1, 60)
    } else if unit == 'h' {
        (v.len() - 1, 3600)
    } else if unit == 'd' {
        (v.len() - 1, 86_400)
    } else if '0' <= unit && unit <= '9' {
        (v.len(), 1)
    } else {
        let mut message = "unknown duration unit '".to_owned();
        message.push(unit);
        assert(message@ =~= "unknown duration unit '"@ + seq![unit]);
        return Err(message.concat("' (use s, m, h or d)"));
    };
    let value = slice(&v, 0, end);
    assert(value@ =~= value_text(v@));
    match parse_u64(value.as_str()) {
        None => Err(
            "invalid duration '".to_owned().concat(s.as_str()).concat(
                "' (e.g. 90s, 30m, 26h, 2d)",
            ),
        ),
        Some(value) => {
            if value == 0 {
                Err("duration must be greater than zero".to_owned())
            } else {
                Ok((value, multiplier))
            }
        },
    }
}

/// Whether the seconds of a duration can be counted in 64 bits; only such durations can be parsed.
pub fn max_age_fits(s: &str) -> (r: bool)
    ensures
        r == is_countable(max_age(s@)),
{
    match parts_of(s) {
        Err(_) => true,
        Ok((value, multiplier)) => value.checked_mul(multiplier).is_some(),
    }
}

/// Parses a duration like "90s", "30m", "26h", "2d"; a bare number is seconds.
pub fn parse_max_age(s: &str) -> (r: Result<Duration, String>)
    requires
        is_countable(max_age(s@)),
    ensures
        match (r, max_age(s@)) {
            (Ok(d), MaxAge::Secs(secs)) => d.nanos() == secs * 1_000_000_000,
            (Err(text), MaxAge::Invalid(message)) => text@ == message,
            _ => false,
        },
{
    match parts_of(s) {
        Err(message) => Err(message),
        Ok((value, multiplier)) => Ok(Duration::from_secs(value * multiplier)),
    }
}

/// A number that is written out in front of a unit is read back as that many units.
pub proof fn law_written_durations_are_read_back(n: nat, unit: char)
    requires
        0 < n <= u64::MAX,
        unit == 's' || unit == 'm' || unit == 'h' || unit == 'd',
    ensures
        max_age(decimal_text(n).push(unit)) == MaxAge::Secs(n * unit_secs(unit)->0),
{
    crate::text::lemma_decimal_text_denotes(n);
    let s = decimal_text(n).push(unit);
    assert(s[0] == decimal_text(n)[0]);
    assert(crate::text::is_digit(s[0]));
    crate::text::lemma_trimmed_is_unchanged(s);
    assert(value_text(s) =~= decimal_text(n));
}

/// A bare number is read back as that many seconds.
pub proof fn law_bare_numbers_are_seconds(n: nat)
    requires
        0 < n <= u64::MAX,
    ensures
        max_age(decimal_text(n)) == MaxAge::Secs(n),
{
    crate::text::lemma_decimal_text_denotes(n);
    let s = decimal_text(n);
    assert(crate::text::is_digit(s[0]));
    assert(crate::text::is_digit(s[s.len() - 1]));
    crate::text::lemma_trimmed_is_unchanged(s);
}

/// The units are seconds, minutes, hours and days: a number in front of a unit is read as so many
/// of them.
pub proof fn law_units_are_seconds_minutes_hours_and_days(n: nat)
    requires
        0 < n <= u64::MAX,
    ensures
        max_age(decimal_text(n).push('s')) == MaxAge::Secs(n),
        max_age(decimal_text(n).push('m')) == MaxAge::Secs(n * 60),
        max_age(decimal_text(n).push('h')) == MaxAge::Secs(n * (60 * 60)),
        max_age(decimal_text(n).push('d')) == MaxAge::Secs(n * (24 * 60 * 60)),
{
    law_written_durations_are_read_back(n, 's');
    law_written_durations_are_read_back(n, 'm');
    law_written_durations_are_read_back(n, 'h');
    law_written_durations_are_read_back(n, 'd');
}

/// A duration is refused exactly where it is empty, ends in something that is neither a unit nor a
/// digit, or has no number other than zero in front of its unit.
pub proof fn law_durations_are_numbers_with_a_unit(s: Seq<char>)
    ensures
        ({
            let t = trimmed(s);
            let number = if '0' <= t.last() <= '9' {
                parsed_u64(t)
            } else {
                parsed_u64(t.drop_last())
            };
            &&& max_age(s) is Secs <==> {
                &&& t.len() > 0
                &&& '0' <= t.last() <= '9' || t.last() == 's' || t.last() == 'm' || t.last() == 'h'
                    || t.last() == 'd'
                &&& number is Some
                &&& number->0 > 0
            }
            &&& max_age(s) matches MaxAge::Secs(secs) ==> secs >= number->0 && secs % (
            number->0 as nat) == 0
        }),
{
    if max_age(s) is Secs {
        let t = trimmed(s);
        let value = parsed_u64(value_text(t))->0 as int;
        let unit = unit_secs(t.last())->0 as int;
        assert((value * unit) % value == 0) by {
            vstd::arithmetic::div_mod::lemma_mod_multiples_basic(unit, value);
            assert(value * unit == unit * value) by (nonlinear_arith);
        }
        assert(value * unit >= value) by (nonlinear_arith)
            requires
                value > 0,
                unit >= 1,
        ;
    }
}

/// White space around a duration does not count.
pub proof fn law_space_around_durations_does_not_count(
    before: Seq<char>,
    s: Seq<char>,
    after: Seq<char>,
)
    requires
        forall|i: int| 0 <= i < before.len() ==> is_white_space(#[trigger] before[i]),
        forall|i: int| 0 <= i < after.len() ==> is_white_space(#[trigger] after[i]),
        s.len() > 0 ==> !is_white_space(s[0]) && !is_white_space(s.last()),
    ensures
        max_age(before + s + after) == max_age(s),
{
    crate::text::law_only_space_around_is_trimmed(before, s, after);
    crate::text::law_only_space_around_is_trimmed(Seq::empty(), s, Seq::empty());
    assert(Seq::<char>::empty() + s + Seq::<char>::empty() =~= s);
}

/// Every duration of at most as many seconds as 64 bits hold can be parsed, and what is no duration
/// can be refused.
pub proof fn law_durations_of_countable_seconds_are_parsed(secs: nat, text: Seq<char>)
    ensures
        is_countable(MaxAge::Secs(secs)) <==> secs < 0x1_0000_0000_0000_0000,
        is_countable(MaxAge::Invalid(text)),
{
}

} // verus!
