//! Notifications via a Slack webhook.
use vstd::prelude::*;
use vstd::string::*;

use super::BackupEvent;
use crate::retry::RetryPolicy;
use crate::text::{decimal, decimal_text};
use crate::time::timestamp_display;

verus! {

/// A Slack webhook.
#[derive(Debug)]
pub struct SlackNotifier {
    pub webhook_url: String,
    pub retry: RetryPolicy,
}

/// The quotient of two numbers, rounded to the nearest whole number; a tie goes to the even one.
pub open spec fn rounded(n: nat, d: nat) -> nat
    recommends
        d > 0,
{
    let q = n / d;
    if 2 * (n % d) > d || (2 * (n % d) == d && q % 2 == 1) {
        q + 1
    } else {
        q
    }
}

/// The smallest power of two, from `unit` on, in which a number has at most 53 binary digits.
pub open spec fn granule(n: nat, unit: nat) -> nat
    decreases n / unit,
{
    if unit == 0 || n / unit < 0x20_0000_0000_0000 {
        unit
    } else {
        proof {
            assert(n / (2 * unit) == n / unit / 2) by (nonlinear_arith)
                requires
                    unit > 0,
            ;
        }
        granule(n, 2 * unit)
    }
}

/// A number, rounded to 53 significant binary digits.
pub open spec fn in_double_precision(n: nat) -> nat {
    rounded(n, granule(n, 1)) * granule(n, 1)
}

/// A number of bytes in tenths of a mebibyte. The bytes are rounded to 53 significant binary
/// digits first.
pub open spec fn tenths_of_mb(bytes: nat) -> nat {
    rounded(in_double_precision(bytes) * 10, 1_048_576)
}

/// A number of bytes in mebibytes, with one decimal.
pub open spec fn mb_text(bytes: nat) -> Seq<char> {
    decimal_text(tenths_of_mb(bytes) / 10) + "."@ + decimal_text(tenths_of_mb(bytes) % 10)
}

fn round_quotient(n: u128, d: u128) -> (r: u128)
    requires
        0 < d < 0x1_0000_0000,
        n < 0x1_0000_0000_0000_0000_0000_0000,
    ensures
        r == rounded(n as nat, d as nat),
        r <= n + 1,
{
    let q: u128 = n / d;
    let rest: u128 = n % d;
    assert(q <= n) by (nonlinear_arith)
        requires
            q == n / d,
            d > 0,
    ;
    if 2 * rest > d || (2 * rest == d && q % 2 == 1) {
        q + 1
    } else {
        q
    }
}

/// Rounds to 53 significant binary digits.
fn double_precision(n: u64) -> (r: u128)
    ensures
        r == in_double_precision(n as nat),
        r <= 0x2_0000_0000_0000_0000,
{
    let mut unit: u128 = 1;
    while n as u128 / unit >= 0x20_0000_0000_0000
        invariant
            0 < unit <= 0x1000,
            granule(n as nat, 1) == granule(n as nat, unit as nat),
        decreases 0x1000 - unit,
    {
        assert(unit <= 0x800) by {
            if unit > 0x800 {
                assert(n as u128 / unit < 0x20_0000_0000_0000) by (nonlinear_arith)
                    requires
                        unit > 0x800,
                        n as u128 <= 0xffff_ffff_ffff_ffff,
                ;
            }
        }
        unit = 2 * unit;
    }
    let q: u128 = round_quotient(n as u128, unit);
    assert(q <= 0x20_0000_0000_0000);
    assert(q * unit <= 0x20_0000_0000_0000 * 0x1000) by (nonlinear_arith)
        requires
            q <= 0x20_0000_0000_0000,
            unit <= 0x1000,
    ;
    q * unit
}

/// A number of bytes in mebibytes, with one decimal.
pub fn size_in_mb(bytes: u64) -> (r: String)
    ensures
        r@ == mb_text(bytes as nat),
{
    let tenths: u128 = round_quotient(double_precision(bytes) * 10, 1_048_576);
    assert(tenths <= 0xffff_ffff_ffff_ffff);
    let tenths: u64 = tenths as u64;
    decimal(tenths / 10).concat(".").concat(decimal(tenths % 10).as_str())
}

/// What a message about an event says.
pub open spec fn message_text(event: BackupEvent) -> Seq<char> {
    match event {
        BackupEvent::BackupCompleted { kind, timestamp, duration_secs, total_size, database } => {
            ":white_check_mark: *ClickVault backup completed*\nDatabase: `"@ + database@
                + "`\nType: "@ + kind.text() + "\nSize: "@ + mb_text(total_size as nat)
                + " MB\nDuration: "@ + decimal_text(duration_secs as nat) + "s\nTime: "@
                + timestamp_display(timestamp.secs(), timestamp.nanos())
        },
        BackupEvent::BackupFailed { kind, timestamp, error, database } => {
            ":x: *ClickVault backup failed*\nDatabase: `"@ + database@ + "`\nType: "@ + kind.text()
                + "\nError: "@ + error@ + "\nTime: "@ + timestamp_display(
                timestamp.secs(),
                timestamp.nanos(),
            )
        },
        BackupEvent::CleanupCompleted { chains_deleted, objects_deleted } => {
            ":broom: *ClickVault cleanup completed*\nChains deleted: "@ + decimal_text(
                chains_deleted as nat,
            ) + "\nObjects deleted: "@ + decimal_text(objects_deleted as nat)
        },
    }
}

/// A JSON object with one member whose value is a string, as serde_json writes it.
pub uninterp spec fn json_object_text(key: Seq<char>, value: Seq<char>) -> Seq<char>;

/// This is the `Display` text of serde_json's `Value`, for an object with one string member: a
/// JSON document without white space.
#[verifier::external_body]
fn json_object(key: &str, value: &str) -> (r: String)
    ensures
        r@ == json_object_text(key@, value@),
{
    let mut members = serde_json::Map::new();
    members.insert(key.to_string(), serde_json::Value::String(value.to_string()));
    serde_json::Value::Object(members).to_string()
}

impl SlackNotifier {
    /// A notifier that posts to the webhook.
    pub fn new(webhook_url: String, retry: RetryPolicy) -> (r: SlackNotifier)
        ensures
            r == (SlackNotifier { webhook_url, retry }),
    {
        SlackNotifier { webhook_url, retry }
    }

    /// The text of the message about an event.
    pub fn format_message(&self, event: &BackupEvent) -> (r: String)
        ensures
            r@ == message_text(*event),
    {
        match event {
            BackupEvent::BackupCompleted {
                kind,
                timestamp,
                duration_secs,
                total_size,
                database,
            } => {
                proof {
                    use_type_invariant(timestamp);
                }
                ":white_check_mark: *ClickVault backup completed*\nDatabase: `".to_owned().concat(
                    database.as_str(),
                ).concat("`\nType: ").concat(kind.to_string().as_str()).concat("\nSize: ").concat(
                    size_in_mb(*total_size).as_str(),
                ).concat(" MB\nDuration: ").concat(decimal(*duration_secs).as_str()).concat(
                    "s\nTime: ",
                ).concat(timestamp.display().as_str())
            },
            BackupEvent::BackupFailed { kind, timestamp, error, database } => {
                proof {
                    use_type_invariant(timestamp);
                }
                ":x: *ClickVault backup failed*\nDatabase: `".to_owned().concat(
                    database.as_str(),
                ).concat("`\nType: ").concat(kind.to_string().as_str()).concat("\nError: ").concat(
                    error.as_str(),
                ).concat("\nTime: ").concat(timestamp.display().as_str())
            },
            BackupEvent::CleanupCompleted { chains_deleted, objects_deleted } => {
                ":broom: *ClickVault cleanup completed*\nChains deleted: ".to_owned().concat(
                    decimal(*chains_deleted as u64).as_str(),
                ).concat("\nObjects deleted: ").concat(decimal(*objects_deleted).as_str())
            },
        }
    }

    /// What is posted to the webhook: a JSON object with the message as its `text`.
    pub fn payload(&self, event: &BackupEvent) -> (r: String)
        ensures
            r@ == json_object_text("text"@, message_text(*event)),
    {
        json_object("text", self.format_message(event).as_str())
    }
}

/// A rounded quotient is off by half at most, and by exactly half only to be even.
pub proof fn law_rounding_goes_to_the_nearest(n: nat, d: nat)
    requires
        d > 0,
    ensures
        2 * n - d <= 2 * (rounded(n, d) * d) <= 2 * n + d,
        2 * (rounded(n, d) * d) == 2 * n - d || 2 * (rounded(n, d) * d) == 2 * n + d ==> rounded(
            n,
            d,
        ) % 2 == 0,
{
    let q = n / d;
    let rest = n % d;
    vstd::arithmetic::div_mod::lemma_fundamental_div_mod(n as int, d as int);
    assert(d * q == q * d) by (nonlinear_arith);
    assert((q + 1) * d == q * d + d) by (nonlinear_arith);
}

/// Sizes are given to the nearest tenth of a mebibyte. Where a size has more than 53 binary digits
/// they are rounded first, which moves it by no more than one part in so many.
pub proof fn law_sizes_are_given_to_the_nearest_tenth(bytes: nat)
    ensures
        bytes < 0x20_0000_0000_0000 ==> 20 * bytes - 1_048_576 <= 2 * (tenths_of_mb(bytes)
            * 1_048_576) <= 20 * bytes + 1_048_576,
        bytes < 0x20_0000_0000_0000 ==> in_double_precision(bytes) == bytes,
        20 * in_double_precision(bytes) - 1_048_576 <= 2 * (tenths_of_mb(bytes) * 1_048_576) <= 20
            * in_double_precision(bytes) + 1_048_576,
        (in_double_precision(bytes) - bytes) * 0x20_0000_0000_0000 <= bytes,
        (bytes - in_double_precision(bytes)) * 0x20_0000_0000_0000 <= bytes,
{
    lemma_granule(bytes, 1);
    let g = granule(bytes, 1);
    law_rounding_goes_to_the_nearest(bytes, g);
    law_rounding_goes_to_the_nearest(in_double_precision(bytes) * 10, 1_048_576);
    if bytes < 0x20_0000_0000_0000 {
        assert(bytes / 1 == bytes);
        assert(bytes % 1 == 0);
        assert(in_double_precision(bytes) == bytes);
    }
}

proof fn lemma_granule(n: nat, unit: nat)
    requires
        unit > 0,
        unit == 1 || unit * 0x10_0000_0000_0000 <= n,
    ensures
        granule(n, unit) > 0,
        granule(n, unit) == 1 || granule(n, unit) * 0x10_0000_0000_0000 <= n,
        unit == 1 && n < 0x20_0000_0000_0000 ==> granule(n, unit) == 1,
    decreases n / unit,
{
    if n / unit >= 0x20_0000_0000_0000 {
        assert(n / (2 * unit) == n / unit / 2) by (nonlinear_arith)
            requires
                unit > 0,
        ;
        assert(2 * unit * 0x10_0000_0000_0000 <= n) by (nonlinear_arith)
            requires
                unit > 0,
                n / unit >= 0x20_0000_0000_0000,
        ;
        lemma_granule(n, 2 * unit);
    }
}

/// A message tells at its start whether it is about a completed backup, a failed one or a cleanup,
/// names the database and the kind next, and ends in what came of it and when, with nothing else
/// between these.
#[verifier::rlimit(40)]
pub proof fn law_messages_tell_outcome_database_and_time(event: BackupEvent)
    ensures
        ({
            let text = message_text(event);
            let (start, end) = match event {
                BackupEvent::BackupCompleted {
                    kind,
                    timestamp,
                    duration_secs,
                    total_size,
                    database,
                } => (
                    ":white_check_mark: *ClickVault backup completed*\nDatabase: `"@ + database@
                        + "`\nType: "@ + kind.text(),
                    "\nSize: "@ + mb_text(total_size as nat) + " MB\nDuration: "@ + decimal_text(
                        duration_secs as nat,
                    ) + "s\nTime: "@ + timestamp_display(timestamp.secs(), timestamp.nanos()),
                ),
                BackupEvent::BackupFailed { kind, timestamp, error, database } => (
                    ":x: *ClickVault backup failed*\nDatabase: `"@ + database@ + "`\nType: "@
                        + kind.text(),
                    "\nError: "@ + error@ + "\nTime: "@ + timestamp_display(
                        timestamp.secs(),
                        timestamp.nanos(),
                    ),
                ),
                BackupEvent::CleanupCompleted { chains_deleted, objects_deleted } => (
                    ":broom: *ClickVault cleanup completed*\nChains deleted: "@ + decimal_text(
                        chains_deleted as nat,
                    ),
                    "\nObjects deleted: "@ + decimal_text(objects_deleted as nat),
                ),
            };
            start.is_prefix_of(text) && end.is_suffix_of(text) && text.len() == start.len()
                + end.len()
        }),
{
    let text = message_text(event);
    let (start, end) = match event {
        BackupEvent::BackupCompleted {
            kind,
            timestamp,
            duration_secs,
            total_size,
            database,
        } => (
            ":white_check_mark: *ClickVault backup completed*\nDatabase: `"@ + database@
                + "`\nType: "@ + kind.text(),
            "\nSize: "@ + mb_text(total_size as nat) + " MB\nDuration: "@ + decimal_text(
                duration_secs as nat,
            ) + "s\nTime: "@ + timestamp_display(timestamp.secs(), timestamp.nanos()),
        ),
        BackupEvent::BackupFailed { kind, timestamp, error, database } => (
            ":x: *ClickVault backup failed*\nDatabase: `"@ + database@ + "`\nType: "@
                + kind.text(),
            "\nError: "@ + error@ + "\nTime: "@ + timestamp_display(
                timestamp.secs(),
                timestamp.nanos(),
            ),
        ),
        BackupEvent::CleanupCompleted { chains_deleted, objects_deleted } => (
            ":broom: *ClickVault cleanup completed*\nChains deleted: "@ + decimal_text(
                chains_deleted as nat,
            ),
            "\nObjects deleted: "@ + decimal_text(objects_deleted as nat),
        ),
    };
    assert(text.subrange(0, start.len() as int) =~= start);
    assert(text.subrange(text.len() - end.len(), text.len() as int) =~= end);
}

/// A size is written with a point before its last digit, the tenths.
pub proof fn law_sizes_are_written_with_one_decimal(bytes: nat, whole: nat, tenth: nat)
    requires
        tenths_of_mb(bytes) == 10 * whole + tenth,
        tenth < 10,
    ensures
        mb_text(bytes) == decimal_text(whole).push('.') + decimal_text(tenth),
{
    reveal_strlit(".");
    assert(mb_text(bytes) =~= decimal_text(whole).push('.') + decimal_text(tenth));
}

} // verus!
