//! What the commands print and report.
use vstd::prelude::*;
use vstd::string::*;

use crate::backup::discovery::models;
use crate::backup::executor::BackupResult;
use crate::backup::progress::BackupStatus;
use crate::backup::{BackupChain, BackupKind, BackupMetadata, ChainModel};
use crate::cleanup::CleanupReport;
use crate::config::{Config, redacted, secret_texts, texts};
use crate::error::ClickVaultError;
use crate::notify::BackupEvent;
use crate::text::{decimal, decimal_text};
use crate::time::timestamp_display;

verus! {

/// How many backups the status command shows.
pub const STATUS_LIMIT: u32 = 10;

/// What is printed of a successful backup.
pub fn backup_summary(result: &BackupResult) -> (r: String)
    ensures
        r@ == "Backup completed: "@ + result.metadata.kind.text() + " | size: "@ + decimal_text(
            result.metadata.total_size as nat,
        ) + " bytes | duration: "@ + decimal_text(result.duration.nanos() / 1_000_000_000) + "s"@,
{
    "Backup completed: ".to_owned().concat(result.metadata.kind.to_string().as_str()).concat(
        " | size: ",
    ).concat(decimal(result.metadata.total_size).as_str()).concat(" bytes | duration: ").concat(
        decimal(result.duration.as_secs()).as_str(),
    ).concat("s")
}

/// The event that tells of a successful backup.
pub fn completion_event(config: &Config, result: &BackupResult) -> (r: BackupEvent)
    ensures
        r matches BackupEvent::BackupCompleted {
            kind,
            timestamp,
            duration_secs,
            total_size,
            database,
        } && {
            &&& kind == result.metadata.kind
            &&& timestamp.valid()
            &&& duration_secs == result.duration.nanos() / 1_000_000_000
            &&& total_size == result.metadata.total_size
            &&& database == config.clickhouse.database
        },
{
    BackupEvent::backup_completed(
        result.metadata.kind,
        result.duration,
        result.metadata.total_size,
        config.clickhouse.database.clone(),
    )
}

/// The kind that a failed backup is reported with: the one that the run decided on, or the one
/// that was asked for where it did not get that far.
pub open spec fn reported_kind(decided: Option<BackupKind>, full: bool) -> BackupKind {
    match decided {
        Some(kind) => kind,
        None => if full {
            BackupKind::Full
        } else {
            BackupKind::Incremental
        },
    }
}

/// What is logged, printed and sent of an error: its text without the configured secrets.
pub fn failure_text(config: &Config, error: &ClickVaultError) -> (r: String)
    ensures
        r@ == redacted(error.text(), secret_texts(*config)),
{
    config.redact_secrets(error.message().as_str())
}

/// The event that tells of a failed backup.
pub fn failure_event(
    config: &Config,
    decided: Option<BackupKind>,
    full: bool,
    error: &ClickVaultError,
) -> (r: BackupEvent)
    ensures
        r matches BackupEvent::BackupFailed { kind, timestamp, error: text, database } && {
            &&& kind == reported_kind(decided, full)
            &&& timestamp.valid()
            &&& text@ == redacted(error.text(), secret_texts(*config))
            &&& database == config.clickhouse.database
        },
{
    let kind = match decided {
        Some(kind) => kind,
        None => if full {
            BackupKind::Full
        } else {
            BackupKind::Incremental
        },
    };
    BackupEvent::backup_failed(
        kind,
        failure_text(config, error),
        config.clickhouse.database.clone(),
    )
}

/// What the list command prints of one backup.
pub open spec fn list_entry(label: Seq<char>, path: Seq<char>, meta: BackupMetadata) -> Seq<char> {
    label + path + " | "@ + timestamp_display(meta.timestamp.secs(), meta.timestamp.nanos())
        + " | "@ + decimal_text(meta.total_size as nat) + " bytes | "@ + meta.status@
}

fn list_line(label: &str, path: &str, meta: &BackupMetadata) -> (r: String)
    ensures
        r@ == list_entry(label@, path@, *meta),
{
    proof {
        use_type_invariant(&meta.timestamp);
    }
    label.to_owned().concat(path).concat(" | ").concat(meta.timestamp.display().as_str()).concat(
        " | ",
    ).concat(decimal(meta.total_size).as_str()).concat(" bytes | ").concat(meta.status.as_str())
}

/// What the list command prints of the incrementals of a chain.
pub open spec fn incremental_entries(incrementals: Seq<(String, BackupMetadata)>) -> Seq<
    Seq<char>,
> {
    incrementals.map_values(
        |e: (String, BackupMetadata)| list_entry("  INCR  "@, e.0@, e.1),
    )
}

/// What the list command prints of one chain.
pub open spec fn chain_entries(chain: ChainModel, full_only: bool) -> Seq<Seq<char>> {
    let full = seq![list_entry("FULL  "@, chain.full_path, chain.full)];
    if full_only {
        full
    } else {
        full + incremental_entries(chain.incrementals)
    }
}

/// What the list command prints of several chains.
pub open spec fn all_entries(chains: Seq<ChainModel>, full_only: bool) -> Seq<Seq<char>>
    decreases chains.len(),
{
    if chains.len() == 0 {
        Seq::empty()
    } else {
        all_entries(chains.drop_last(), full_only) + chain_entries(chains.last(), full_only)
    }
}

/// What the list command prints.
pub open spec fn listing(chains: Seq<ChainModel>, full_only: bool) -> Seq<Seq<char>> {
    if chains.len() == 0 {
        seq!["No backups found."@]
    } else {
        all_entries(chains, full_only)
    }
}

/// The lines that the list command prints: each chain's full backup, followed by its incrementals
/// unless only full backups are asked for.
pub fn list_lines(chains: &Vec<BackupChain>, full_only: bool) -> (r: Vec<String>)
    ensures
        texts(r@) == listing(models(chains@), full_only),
{
    let mut lines: Vec<String> = Vec::new();
    if chains.len() == 0 {
        lines.push("No backups found.".to_owned());
        assert(texts(lines@) =~= listing(models(chains@), full_only));
        return lines;
    }
    let ghost all = models(chains@);
    let mut i: usize = 0;
    proof {
        assert(all.take(0) =~= Seq::<ChainModel>::empty());
        assert(texts(lines@) =~= Seq::<Seq<char>>::empty());
    }
    while i < chains.len()
        invariant
            i <= chains@.len(),
            all == models(chains@),
            texts(lines@) == all_entries(all.take(i as int), full_only),
        decreases chains@.len() - i,
    {
        let chain = &chains[i];
        let ghost before = texts(lines@);
        let ghost entries = incremental_entries(chain@.incrementals);
        lines.push(list_line("FULL  ", chain.full_path.as_str(), &chain.full));
        let ghost full = seq![list_entry("FULL  "@, chain@.full_path, chain@.full)];
        assert(texts(lines@) =~= before + full);
        if !full_only {
            let mut j: usize = 0;
            assert(before + full + entries.take(0) =~= before + full);
            while j < chain.incrementals.len()
                invariant
                    j <= chain.incrementals@.len(),
                    entries == incremental_entries(chain@.incrementals),
                    texts(lines@) == before + full + entries.take(j as int),
                decreases chain.incrementals@.len() - j,
            {
                let entry = &chain.incrementals[j];
                let ghost so_far = texts(lines@);
                lines.push(list_line("  INCR  ", entry.0.as_str(), &entry.1));
                proof {
                    assert(texts(lines@) =~= so_far.push(entries[j as int]));
                    assert(entries.take(j + 1) =~= entries.take(j as int).push(entries[j as int]));
                    assert(before + full + entries.take(j + 1) =~= (before + full + entries.take(
                        j as int,
                    )).push(entries[j as int]));
                }
                j = j + 1;
            }
            assert(entries.take(j as int) =~= entries);
        }
        proof {
            assert(all.take(i + 1).drop_last() =~= all.take(i as int));
            assert(before + (full + entries) =~= before + full + entries);
        }
        i = i + 1;
    }
    assert(all.take(i as int) =~= all);
    lines
}

/// So many copies of a character.
pub open spec fn repeated(c: char, n: nat) -> Seq<char> {
    Seq::new(n, |i: int| c)
}

/// The spaces that are missing to a width.
pub open spec fn missing_spaces(text: Seq<char>, width: nat) -> Seq<char> {
    repeated(
        ' ',
        if text.len() < width {
            (width - text.len()) as nat
        } else {
            0
        },
    )
}

/// A text that is padded with spaces on the right.
pub open spec fn left_aligned(text: Seq<char>, width: nat) -> Seq<char> {
    text + missing_spaces(text, width)
}

/// A text that is padded with spaces on the left.
pub open spec fn right_aligned(text: Seq<char>, width: nat) -> Seq<char> {
    missing_spaces(text, width) + text
}

fn repeat_char(c: char, n: usize) -> (r: String)
    ensures
        r@ == repeated(c, n as nat),
{
    let mut r = String::new();
    let mut i: usize = 0;
    assert(r@ =~= repeated(c, 0));
    while i < n
        invariant
            i <= n,
            r@ == repeated(c, i as nat),
        decreases n - i,
    {
        r.push(c);
        assert(r@ =~= repeated(c, (i + 1) as nat));
        i = i + 1;
    }
    r
}

fn spaces_for(text: &str, width: usize) -> (r: String)
    ensures
        r@ == missing_spaces(text@, width as nat),
{
    let n: usize = crate::text::chars(text).len();
    if n < width {
        repeat_char(' ', width - n)
    } else {
        repeat_char(' ', 0)
    }
}

fn pad_right(text: &str, width: usize) -> (r: String)
    ensures
        r@ == left_aligned(text@, width as nat),
{
    text.to_owned().concat(spaces_for(text, width).as_str())
}

fn pad_left(text: &str, width: usize) -> (r: String)
    ensures
        r@ == right_aligned(text@, width as nat),
{
    spaces_for(text, width).concat(text)
}

/// One row of the status table.
pub open spec fn status_row(
    id: Seq<char>,
    status: Seq<char>,
    start: Seq<char>,
    end: Seq<char>,
    size: Seq<char>,
    error: Seq<char>,
) -> Seq<char> {
    left_aligned(id, 38) + " "@ + left_aligned(status, 18) + " "@ + left_aligned(start, 22) + " "@
        + left_aligned(end, 22) + " "@ + right_aligned(size, 12) + "  "@ + error
}

fn table_row(id: &str, status: &str, start: &str, end: &str, size: &str, error: &str) -> (r: String)
    ensures
        r@ == status_row(id@, status@, start@, end@, size@, error@),
{
    pad_right(id, 38).concat(" ").concat(pad_right(status, 18).as_str()).concat(" ").concat(
        pad_right(start, 22).as_str(),
    ).concat(" ").concat(pad_right(end, 22).as_str()).concat(" ").concat(
        pad_left(size, 12).as_str(),
    ).concat("  ").concat(error)
}

/// What the status command prints of one backup.
pub open spec fn status_entry(s: BackupStatus) -> Seq<char> {
    status_row(
        s.id@,
        s.status@,
        s.start_time@,
        s.end_time@,
        decimal_text(s.total_size as nat),
        s.error@,
    )
}

/// What the status command prints.
pub open spec fn status_table(rows: Seq<BackupStatus>) -> Seq<Seq<char>> {
    if rows.len() == 0 {
        seq!["No backup records found in system.backups."@]
    } else {
        seq![
            status_row("ID"@, "STATUS"@, "START"@, "END"@, "SIZE"@, "ERROR"@),
            repeated('-', 130),
        ] + rows.map_values(|s: BackupStatus| status_entry(s))
    }
}

/// The lines that the status command prints: a table of the rows.
pub fn status_lines(rows: &Vec<BackupStatus>) -> (r: Vec<String>)
    ensures
        texts(r@) == status_table(rows@),
{
    let mut lines: Vec<String> = Vec::new();
    if rows.len() == 0 {
        lines.push("No backup records found in system.backups.".to_owned());
        assert(texts(lines@) =~= status_table(rows@));
        return lines;
    }
    lines.push(table_row("ID", "STATUS", "START", "END", "SIZE", "ERROR"));
    lines.push(repeat_char('-', 130));
    let ghost head = seq![
        status_row("ID"@, "STATUS"@, "START"@, "END"@, "SIZE"@, "ERROR"@),
        repeated('-', 130),
    ];
    let ghost entries = rows@.map_values(|s: BackupStatus| status_entry(s));
    let mut i: usize = 0;
    assert(texts(lines@) =~= head + entries.take(0));
    while i < rows.len()
        invariant
            i <= rows@.len(),
            entries == rows@.map_values(|s: BackupStatus| status_entry(s)),
            texts(lines@) == head + entries.take(i as int),
        decreases rows@.len() - i,
    {
        let s = &rows[i];
        let ghost before = texts(lines@);
        lines.push(
            table_row(
                s.id.as_str(),
                s.status.as_str(),
                s.start_time.as_str(),
                s.end_time.as_str(),
                decimal(s.total_size).as_str(),
                s.error.as_str(),
            ),
        );
        proof {
            assert(texts(lines@) =~= before.push(entries[i as int]));
            assert(head + entries.take(i + 1) =~= before.push(entries[i as int]));
        }
        i = i + 1;
    }
    assert(entries.take(i as int) =~= entries);
    lines
}

/// What the cleanup command prints.
pub fn cleanup_summary(report: &CleanupReport, dry_run: bool) -> (r: String)
    ensures
        r@ == if dry_run {
            "Dry run: would delete "@ + decimal_text(report.chains_deleted as nat)
                + " backup chain(s)"@
        } else {
            "Cleanup complete: deleted "@ + decimal_text(report.chains_deleted as nat)
                + " chain(s), "@ + decimal_text(report.objects_deleted as nat) + " object(s)"@
        },
{
    if dry_run {
        "Dry run: would delete ".to_owned().concat(
            decimal(report.chains_deleted as u64).as_str(),
        ).concat(" backup chain(s)")
    } else {
        "Cleanup complete: deleted ".to_owned().concat(
            decimal(report.chains_deleted as u64).as_str(),
        ).concat(" chain(s), ").concat(decimal(report.objects_deleted).as_str()).concat(
            " object(s)",
        )
    }
}

/// The event that tells of a cleanup. A dry run is not told of.
pub fn cleanup_event(report: &CleanupReport, dry_run: bool) -> (r: Option<BackupEvent>)
    ensures
        r == if dry_run {
            None::<BackupEvent>
        } else {
            Some(
                BackupEvent::CleanupCompleted {
                    chains_deleted: report.chains_deleted,
                    objects_deleted: report.objects_deleted,
                },
            )
        },
{
    if dry_run {
        None
    } else {
        Some(
            BackupEvent::CleanupCompleted {
                chains_deleted: report.chains_deleted,
                objects_deleted: report.objects_deleted,
            },
        )
    }
}

/// What is said of a cleanup that could not delete everything; such a cleanup fails.
pub fn cleanup_failure(report: &CleanupReport) -> (r: Option<String>)
    ensures
        match r {
            None => report.chains_failed == 0 && report.objects_failed == 0,
            Some(text) => (report.chains_failed > 0 || report.objects_failed > 0) && text@
                == "Cleanup incomplete: "@ + decimal_text(report.chains_failed as nat)
                + " chain(s), "@ + decimal_text(report.objects_failed as nat)
                + " object(s) could not be deleted"@,
        },
{
    if report.has_failures() {
        Some(
            "Cleanup incomplete: ".to_owned().concat(
                decimal(report.chains_failed as u64).as_str(),
            ).concat(" chain(s), ").concat(decimal(report.objects_failed).as_str()).concat(
                " object(s) could not be deleted",
            ),
        )
    } else {
        None
    }
}

/// A failed backup is reported as the kind that was decided on; before the decision, as a full one
/// exactly where that was asked for.
pub proof fn law_failures_are_reported_as_decided(decided: BackupKind, full: bool)
    ensures
        reported_kind(Some(decided), full) == decided,
        reported_kind(None, full) is Full <==> full,
{
}

/// How many backups there are in some chains.
pub open spec fn backup_count(chains: Seq<ChainModel>) -> nat
    decreases chains.len(),
{
    if chains.len() == 0 {
        0
    } else {
        backup_count(chains.drop_last()) + 1 + chains.last().incrementals.len()
    }
}

proof fn lemma_entries(chains: Seq<ChainModel>, full_only: bool, k: int, j: int)
    ensures
        full_only ==> all_entries(chains, full_only).len() == chains.len(),
        !full_only ==> all_entries(chains, full_only).len() == backup_count(chains),
        0 <= k < chains.len() ==> all_entries(chains, full_only).contains(
            list_entry("FULL  "@, chains[k].full_path, chains[k].full),
        ),
        0 <= k < chains.len() && 0 <= j < chains[k].incrementals.len() && !full_only
            ==> all_entries(chains, full_only).contains(
            list_entry("  INCR  "@, chains[k].incrementals[j].0@, chains[k].incrementals[j].1),
        ),
    decreases chains.len(),
{
    if chains.len() > 0 {
        let first = chains.drop_last();
        let last = chains.last();
        let before = all_entries(first, full_only);
        let own = chain_entries(last, full_only);
        lemma_entries(first, full_only, k, j);
        assert(own[0] == list_entry("FULL  "@, last.full_path, last.full));
        if 0 <= k < first.len() {
            assert(first[k] == chains[k]);
            let full = list_entry("FULL  "@, chains[k].full_path, chains[k].full);
            let a = choose|a: int| 0 <= a < before.len() && before[a] == full;
            assert((before + own)[a] == full);
            if 0 <= j < chains[k].incrementals.len() && !full_only {
                let entry = list_entry(
                    "  INCR  "@,
                    chains[k].incrementals[j].0@,
                    chains[k].incrementals[j].1,
                );
                let b = choose|b: int| 0 <= b < before.len() && before[b] == entry;
                assert((before + own)[b] == entry);
            }
        } else if k == first.len() {
            assert((before + own)[before.len() as int] == own[0]);
            if 0 <= j < last.incrementals.len() && !full_only {
                assert(own[1 + j] == incremental_entries(last.incrementals)[j]);
                assert((before + own)[before.len() + 1 + j] == own[1 + j]);
            }
        }
    }
}

/// Every backup is listed on a line of its own: the full ones always, the incrementals unless only
/// full ones are asked for. There are no other lines, but for the one that says that there are no
/// backups.
pub proof fn law_every_backup_is_listed(
    chains: Seq<ChainModel>,
    full_only: bool,
    k: int,
    j: int,
)
    requires
        0 <= k < chains.len(),
    ensures
        listing(chains, full_only).contains(
            list_entry("FULL  "@, chains[k].full_path, chains[k].full),
        ),
        0 <= j < chains[k].incrementals.len() && !full_only ==> listing(
            chains,
            full_only,
        ).contains(
            list_entry("  INCR  "@, chains[k].incrementals[j].0@, chains[k].incrementals[j].1),
        ),
        full_only ==> listing(chains, full_only).len() == chains.len(),
        !full_only ==> listing(chains, full_only).len() == backup_count(chains),
{
    lemma_entries(chains, full_only, k, j);
}

/// Chains are listed one after the other, and each starts with its full backup.
pub proof fn law_chains_are_listed_in_order(
    chains: Seq<ChainModel>,
    chain: ChainModel,
    full_only: bool,
)
    requires
        chains.len() > 0,
    ensures
        listing(chains, full_only).is_prefix_of(listing(chains.push(chain), full_only)),
        listing(chains.push(chain), full_only)[listing(chains, full_only).len() as int]
            == list_entry("FULL  "@, chain.full_path, chain.full),
{
    assert(chains.push(chain).drop_last() =~= chains);
    let before = listing(chains, full_only);
    let all = listing(chains.push(chain), full_only);
    assert(all.subrange(0, before.len() as int) =~= before);
    let own = chain_entries(chain, full_only);
    assert(own[0] == list_entry("FULL  "@, chain.full_path, chain.full));
}

/// The line about a backup starts with its label and path, goes on with its time, and ends in its
/// size and status, with nothing else between these.
#[verifier::rlimit(40)]
pub proof fn law_lines_tell_path_time_size_and_status(
    label: Seq<char>,
    path: Seq<char>,
    meta: BackupMetadata,
)
    ensures
        ({
            let line = list_entry(label, path, meta);
            let start = label + path + " | "@;
            let end = timestamp_display(meta.timestamp.secs(), meta.timestamp.nanos()) + " | "@
                + decimal_text(meta.total_size as nat) + " bytes | "@ + meta.status@;
            start.is_prefix_of(line) && end.is_suffix_of(line) && line.len() == start.len()
                + end.len()
        }),
{
    let line = list_entry(label, path, meta);
    let start = label + path + " | "@;
    let end = timestamp_display(meta.timestamp.secs(), meta.timestamp.nanos()) + " | "@
        + decimal_text(meta.total_size as nat) + " bytes | "@ + meta.status@;
    assert(line.subrange(0, start.len() as int) =~= start);
    assert(line.subrange(line.len() - end.len(), line.len() as int) =~= end);
}

/// A padded text keeps what it says, on the one side or the other, is at least as wide as its
/// column, and no wider than that or than the text; the rest of it are spaces.
pub proof fn law_padding_fills_up_with_spaces(text: Seq<char>, width: nat)
    ensures
        text.is_prefix_of(left_aligned(text, width)),
        text.is_suffix_of(right_aligned(text, width)),
        left_aligned(text, width).len() == if text.len() < width {
            width
        } else {
            text.len()
        },
        right_aligned(text, width).len() == left_aligned(text, width).len(),
        forall|i: int|
            text.len() <= i < left_aligned(text, width).len() ==> #[trigger] left_aligned(
                text,
                width,
            )[i] == ' ',
        forall|i: int|
            0 <= i < right_aligned(text, width).len() - text.len() ==> #[trigger] right_aligned(
                text,
                width,
            )[i] == ' ',
{
    let l = left_aligned(text, width);
    let r = right_aligned(text, width);
    assert(l.subrange(0, text.len() as int) =~= text);
    assert(r.subrange(r.len() - text.len(), r.len() as int) =~= text);
}

/// The status table has a row for each backup, in the given order, under a heading of two lines. A
/// row starts with the backup's id and ends in its size and error.
pub proof fn law_every_status_has_a_row(rows: Seq<BackupStatus>, k: int)
    requires
        0 <= k < rows.len(),
    ensures
        status_table(rows).len() == rows.len() + 2,
        rows[k].id@.is_prefix_of(status_table(rows)[k + 2]),
        (decimal_text(rows[k].total_size as nat) + "  "@ + rows[k].error@).is_suffix_of(
            status_table(rows)[k + 2],
        ),
{
    let s = rows[k];
    let size = decimal_text(s.total_size as nat);
    assert(status_table(rows)[k + 2] == status_entry(s));
    let id = left_aligned(s.id@, 38);
    let status = id + " "@ + left_aligned(s.status@, 18);
    let start = status + " "@ + left_aligned(s.start_time@, 22);
    let end = start + " "@ + left_aligned(s.end_time@, 22);
    let before = end + " "@;
    law_padding_fills_up_with_spaces(s.id@, 38);
    lemma_prefix_grows(s.id@, id, " "@, left_aligned(s.status@, 18));
    lemma_prefix_grows(s.id@, status, " "@, left_aligned(s.start_time@, 22));
    lemma_prefix_grows(s.id@, start, " "@, left_aligned(s.end_time@, 22));
    lemma_prefix_grows(s.id@, end, " "@, right_aligned(size, 12));
    lemma_prefix_grows(s.id@, before + right_aligned(size, 12), "  "@, s.error@);
    lemma_row_end(before, missing_spaces(size, 12), size, "  "@, s.error@);
}

proof fn lemma_prefix_grows(part: Seq<char>, s: Seq<char>, next: Seq<char>, last: Seq<char>)
    requires
        part.is_prefix_of(s),
    ensures
        part.is_prefix_of(s + next + last),
{
    let whole = s + next + last;
    assert(whole.subrange(0, part.len() as int) =~= s.subrange(0, part.len() as int));
}

proof fn lemma_row_end(
    before: Seq<char>,
    spaces: Seq<char>,
    size: Seq<char>,
    between: Seq<char>,
    error: Seq<char>,
)
    ensures
        (size + between + error).is_suffix_of(before + (spaces + size) + between + error),
{
    let row = before + (spaces + size) + between + error;
    let end = size + between + error;
    assert(row.subrange(row.len() - end.len(), row.len() as int) =~= end);
}

/// The columns of the status table stand below one another: as long as the values fit, each starts
/// at a fixed place, the size ends at one, and the error stands at the end of the row.
pub proof fn law_columns_stand_below_one_another(s: BackupStatus)
    requires
        s.id@.len() <= 38,
        s.status@.len() <= 18,
        s.start_time@.len() <= 22,
        s.end_time@.len() <= 22,
        decimal_text(s.total_size as nat).len() <= 12,
    ensures
        ({
            let row = status_entry(s);
            let size = decimal_text(s.total_size as nat);
            &&& row.subrange(0, s.id@.len() as int) == s.id@
            &&& row.subrange(39, 39int + s.status@.len()) == s.status@
            &&& row.subrange(58, 58int + s.start_time@.len()) == s.start_time@
            &&& row.subrange(81, 81int + s.end_time@.len()) == s.end_time@
            &&& row.subrange(116 - size.len(), 116) == size
            &&& row.subrange(118, row.len() as int) == s.error@
        }),
{
    reveal_strlit(" ");
    reveal_strlit("  ");
    let row = status_entry(s);
    let size = decimal_text(s.total_size as nat);
    let a = left_aligned(s.id@, 38);
    let b = left_aligned(s.status@, 18);
    let c = left_aligned(s.start_time@, 22);
    let d = left_aligned(s.end_time@, 22);
    let e = right_aligned(size, 12);
    law_padding_fills_up_with_spaces(s.id@, 38);
    law_padding_fills_up_with_spaces(s.status@, 18);
    law_padding_fills_up_with_spaces(s.start_time@, 22);
    law_padding_fills_up_with_spaces(s.end_time@, 22);
    law_padding_fills_up_with_spaces(size, 12);
    lemma_columns(a, b, c, d, e, s.error@, " "@, "  "@);
    lemma_within(row, 0, 38, 0, s.id@.len() as int);
    lemma_within(row, 39, 57, 0, s.status@.len() as int);
    lemma_within(row, 58, 80, 0, s.start_time@.len() as int);
    lemma_within(row, 81, 103, 0, s.end_time@.len() as int);
    lemma_within(row, 104, 116, 12 - size.len(), 12);
}

proof fn lemma_within(row: Seq<char>, from: int, to: int, i: int, j: int)
    requires
        0 <= from <= to <= row.len(),
        0 <= i <= j <= to - from,
    ensures
        row.subrange(from, to).subrange(i, j) == row.subrange(from + i, from + j),
{
    assert(row.subrange(from, to).subrange(i, j) =~= row.subrange(from + i, from + j));
}

proof fn lemma_columns(
    a: Seq<char>,
    b: Seq<char>,
    c: Seq<char>,
    d: Seq<char>,
    e: Seq<char>,
    error: Seq<char>,
    space: Seq<char>,
    spaces: Seq<char>,
)
    requires
        a.len() == 38,
        b.len() == 18,
        c.len() == 22,
        d.len() == 22,
        e.len() == 12,
        space.len() == 1,
        spaces.len() == 2,
    ensures
        ({
            let row = a + space + b + space + c + space + d + space + e + spaces + error;
            &&& row.len() == 118 + error.len()
            &&& row.subrange(0, 38) == a
            &&& row.subrange(39, 57) == b
            &&& row.subrange(58, 80) == c
            &&& row.subrange(81, 103) == d
            &&& row.subrange(104, 116) == e
            &&& row.subrange(118, row.len() as int) == error
        }),
{
    let two = a + space + b;
    let three = two + space + c;
    let four = three + space + d;
    let five = four + space + e;
    let row = five + spaces + error;
    assert(two.subrange(0, 38) =~= a);
    assert(two.subrange(39, 57) =~= b);
    assert(three.subrange(0, 57) =~= two);
    assert(three.subrange(58, 80) =~= c);
    assert(four.subrange(0, 80) =~= three);
    assert(four.subrange(81, 103) =~= d);
    assert(five.subrange(0, 103) =~= four);
    assert(five.subrange(104, 116) =~= e);
    assert(row.subrange(0, 116) =~= five);
    assert(row.subrange(118, row.len() as int) =~= error);
    lemma_within(row, 0, 116, 104, 116);
    lemma_within(row, 0, 116, 0, 103);
    lemma_within(row, 0, 103, 81, 103);
    lemma_within(row, 0, 103, 0, 80);
    lemma_within(row, 0, 80, 58, 80);
    lemma_within(row, 0, 80, 0, 57);
    lemma_within(row, 0, 57, 39, 57);
    lemma_within(row, 0, 57, 0, 38);
}

} // verus!
