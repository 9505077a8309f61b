//! S3: bucket settings, path conventions, SQL fragments, metadata sidecars and deletion.
use vstd::prelude::*;
use vstd::string::*;

use crate::backup::{BackupKind, BackupMetadata};
use crate::config::S3Config;
use crate::error::{ClickVaultError, MetadataReadError, S3Failure};
use crate::order::{Ranked, Sortable, sort, sorted};
use crate::retry::{
    RetryPolicy, RetryStep, cap_nanos, delay_is_defined, is_jitter, is_retried,
    with_retry,
};
use crate::text::{
    has_prefix, text_at_most, text_le,
};
use crate::time::{Duration, PATH_TIMESTAMP_FORMAT, Timestamp, timestamp_text};

verus! {

/// The name of the metadata sidecar within a backup.
pub const METADATA_FILENAME: &'static str = ".clickvault_meta.json";

/// Whether an S3 failure is worth retrying: transport-level failures, throttling and server-side
/// HTTP statuses. Other statuses are definitive answers.
pub open spec fn is_transient(failure: S3Failure) -> bool {
    match failure {
        S3Failure::HttpFailWithBody(status, _) => status == 408 || status == 429 || 500 <= status
            <= 599,
        S3Failure::Reqwest(_) => true,
        S3Failure::Io(_) => true,
        S3Failure::Other(_) => false,
    }
}

/// Whether an S3 failure is worth retrying.
pub fn is_transient_s3(e: &S3Failure) -> (r: bool)
    ensures
        r == is_transient(*e),
{
    match e {
        S3Failure::HttpFailWithBody(status, _) => {
            *status == 408 || *status == 429 || (500 <= *status && *status <= 599)
        },
        S3Failure::Reqwest(_) => true,
        S3Failure::Io(_) => true,
        S3Failure::Other(_) => false,
    }
}

/// What the S3 client is set up with.
#[derive(Debug)]
pub struct BucketSettings {
    /// How often the client retries on its own. Never: retrying is decided at each call instead,
    /// selectively and with jitter.
    pub client_retries: u32,
    pub region: String,
    pub endpoint: String,
    pub bucket: String,
    pub access_key: Option<String>,
    pub secret_key: Option<String>,
    /// Whether the bucket stands in the path of URLs rather than in the host name.
    pub path_style: bool,
}

fn cloned_text(value: &Option<String>) -> (r: Option<String>)
    ensures
        r == *value,
{
    match value {
        Some(text) => Some(text.clone()),
        None => None,
    }
}

/// The settings of the bucket that holds the backups.
pub fn build_bucket(config: &S3Config) -> (r: BucketSettings)
    ensures
        r == (BucketSettings {
            client_retries: 0,
            region: config.region,
            endpoint: config.endpoint,
            bucket: config.bucket,
            access_key: config.access_key,
            secret_key: config.secret_key,
            path_style: config.path_style,
        }),
{
    BucketSettings {
        client_retries: 0,
        region: config.region.clone(),
        endpoint: config.endpoint.clone(),
        bucket: config.bucket.clone(),
        access_key: cloned_text(&config.access_key),
        secret_key: cloned_text(&config.secret_key),
        path_style: config.path_style,
    }
}

/// What stands in the way of a bucket handle.
#[derive(Debug)]
pub enum BucketFailure {
    /// The client does not accept the credentials; the text says why.
    Credentials(String),
    /// The client cannot make a handle; the text says why.
    Handle(String),
}

/// The error for a bucket handle that could not be made.
pub fn bucket_error(failure: BucketFailure) -> (r: ClickVaultError)
    ensures
        r matches ClickVaultError::Config(text) && text@ == match failure {
            BucketFailure::Credentials(e) => "Invalid S3 credentials: "@ + e@,
            BucketFailure::Handle(e) => "Failed to create S3 bucket handle: "@ + e@,
        },
{
    match failure {
        BucketFailure::Credentials(e) => ClickVaultError::Config(
            "Invalid S3 credentials: ".to_owned().concat(e.as_str()),
        ),
        BucketFailure::Handle(e) => ClickVaultError::Config(
            "Failed to create S3 bucket handle: ".to_owned().concat(e.as_str()),
        ),
    }
}

/// Where the backups of a kind stand.
pub open spec fn backup_dir(prefix: Seq<char>, kind: BackupKind) -> Seq<char> {
    if prefix.len() == 0 {
        kind.text() + "/"@
    } else {
        prefix + "/"@ + kind.text() + "/"@
    }
}

/// Where the backups of a kind stand.
pub fn kind_prefix(prefix: &str, kind: BackupKind) -> (r: String)
    ensures
        r@ == backup_dir(prefix@, kind),
{
    if prefix.is_empty() {
        kind.to_string().concat("/")
    } else {
        prefix.to_owned().concat("/").concat(kind.to_string().as_str()).concat("/")
    }
}

/// The path of a backup that was submitted at `timestamp`.
pub open spec fn backup_path(prefix: Seq<char>, kind: BackupKind, timestamp: Timestamp) -> Seq<
    char,
> {
    backup_dir(prefix, kind) + timestamp.text(PATH_TIMESTAMP_FORMAT@) + "/"@
}

/// The path of a new backup of the kind.
///
/// Two backups of a kind share a path only where they were submitted within the same millisecond,
/// and the last segment of the path holds no slash, so a listing of the directory shows it.
pub fn new_backup_path(prefix: &str, kind: BackupKind, timestamp: &Timestamp) -> (r: String)
    ensures
        r@ == backup_path(prefix@, kind, *timestamp),
        !timestamp.text(PATH_TIMESTAMP_FORMAT@).contains('/'),
        forall|other: Timestamp|
            other.valid() && r@ == #[trigger] backup_path(prefix@, kind, other)
                ==> timestamp.same_millisecond(other),
{
    proof {
        use_type_invariant(timestamp);
    }
    let ts = timestamp.format(PATH_TIMESTAMP_FORMAT);
    let ghost dir = backup_dir(prefix@, kind);
    let r = kind_prefix(prefix, kind).concat(ts.as_str()).concat("/");
    assert forall|other: Timestamp|
        other.valid() && r@ == #[trigger] backup_path(
            prefix@,
            kind,
            other,
        ) implies timestamp.same_millisecond(other) by {
        let theirs = other.text(PATH_TIMESTAMP_FORMAT@);
        assert(r@.len() == dir.len() + ts@.len() + "/"@.len());
        assert(backup_path(prefix@, kind, other).len() == dir.len() + theirs.len() + "/"@.len());
        assert(r@.subrange(dir.len() as int, (dir.len() + ts@.len()) as int) =~= ts@);
        assert(backup_path(prefix@, kind, other).subrange(
            dir.len() as int,
            (dir.len() + theirs.len()) as int,
        ) =~= theirs);
    }
    r
}

/// The path of a full backup that is submitted at `timestamp`.
pub fn full_backup_path(prefix: &str, timestamp: &Timestamp) -> (r: String)
    ensures
        r@ == backup_path(prefix@, BackupKind::Full, *timestamp),
        !timestamp.text(PATH_TIMESTAMP_FORMAT@).contains('/'),
        forall|other: Timestamp|
            other.valid() && r@ == #[trigger] backup_path(prefix@, BackupKind::Full, other)
                ==> timestamp.same_millisecond(other),
{
    new_backup_path(prefix, BackupKind::Full, timestamp)
}

/// The path of an incremental backup that is submitted at `timestamp`.
pub fn incremental_backup_path(prefix: &str, timestamp: &Timestamp) -> (r: String)
    ensures
        r@ == backup_path(prefix@, BackupKind::Incremental, *timestamp),
        !timestamp.text(PATH_TIMESTAMP_FORMAT@).contains('/'),
        forall|other: Timestamp|
            other.valid() && r@ == #[trigger] backup_path(prefix@, BackupKind::Incremental, other)
                ==> timestamp.same_millisecond(other),
{
    new_backup_path(prefix, BackupKind::Incremental, timestamp)
}

/// A full backup and an incremental backup never share a path.
pub proof fn law_kinds_stand_apart(prefix: Seq<char>, full: Timestamp, incremental: Timestamp)
    ensures
        backup_path(prefix, BackupKind::Full, full) != backup_path(
            prefix,
            BackupKind::Incremental,
            incremental,
        ),
{
    reveal_strlit("full");
    reveal_strlit("incremental");
    reveal_strlit("/");
    let a = backup_path(prefix, BackupKind::Full, full);
    let b = backup_path(prefix, BackupKind::Incremental, incremental);
    if prefix.len() == 0 {
        assert(a[0] == 'f');
        assert(b[0] == 'i');
    } else {
        assert(a[prefix.len() as int + 1] == 'f');
        assert(b[prefix.len() as int + 1] == 'i');
    }
}

/// How a character stands in a single-quoted ClickHouse string literal.
pub open spec fn escaped_char(c: char) -> Seq<char> {
    if c == '\\' || c == '\'' {
        seq!['\\', c]
    } else {
        seq![c]
    }
}

/// How a text stands in a single-quoted ClickHouse string literal.
pub open spec fn escaped(s: Seq<char>) -> Seq<char>
    decreases s.len(),
{
    if s.len() == 0 {
        Seq::empty()
    } else {
        escaped_char(s[0]) + escaped(s.skip(1))
    }
}

/// Escapes a value for inclusion in a single-quoted ClickHouse string literal.
pub fn escape_sql_str(s: &str) -> (r: String)
    ensures
        r@ == escaped(s@),
{
    let v = crate::text::chars(s);
    let mut r = String::new();
    let mut i: usize = 0;
    assert(v@.skip(0) =~= v@);
    assert(r@ + escaped(v@) =~= escaped(v@));
    while i < v.len()
        invariant
            i <= v@.len(),
            escaped(v@) == r@ + escaped(v@.skip(i as int)),
        decreases v@.len() - i,
    {
        let c = v[i];
        let ghost before = r@;
        if c == '\\' || c == '\'' {
            r.push('\\');
        }
        r.push(c);
        proof {
            assert(v@.skip(i as int).skip(1) =~= v@.skip(i + 1));
            assert(r@ =~= before + escaped_char(c));
            assert(before + (escaped_char(c) + escaped(v@.skip(i + 1))) =~= r@ + escaped(
                v@.skip(i + 1),
            ));
        }
        i = i + 1;
    }
    assert(r@ + escaped(v@.skip(i as int)) =~= r@);
    r
}

/// What is read from behind the opening quote of a string literal: the value up to the closing
/// quote, and what follows it. A backslash makes the next character stand for itself.
pub open spec fn read_literal(s: Seq<char>) -> Option<(Seq<char>, Seq<char>)>
    decreases s.len(),
{
    if s.len() == 0 {
        None
    } else if s[0] == '\'' {
        Some((Seq::empty(), s.skip(1)))
    } else if s[0] == '\\' {
        if s.len() < 2 {
            None
        } else {
            match read_literal(s.skip(2)) {
                Some((value, rest)) => Some((seq![s[1]] + value, rest)),
                None => None,
            }
        }
    } else {
        match read_literal(s.skip(1)) {
            Some((value, rest)) => Some((seq![s[0]] + value, rest)),
            None => None,
        }
    }
}

/// An escaped value is read back as it was, up to the quote that closes the literal: no character
/// of a value can end the literal early or reach beyond it.
pub proof fn law_escaped_values_are_read_back(value: Seq<char>, rest: Seq<char>)
    ensures
        read_literal(escaped(value) + seq!['\''] + rest) == Some((value, rest)),
    decreases value.len(),
{
    let s = escaped(value) + seq!['\''] + rest;
    if value.len() == 0 {
        assert(s.skip(1) =~= rest);
    } else {
        let tail = escaped(value.skip(1)) + seq!['\''] + rest;
        law_escaped_values_are_read_back(value.skip(1), rest);
        if value[0] == '\\' || value[0] == '\'' {
            assert(s.skip(2) =~= tail);
            assert(s[0] == '\\');
            assert(s[1] == value[0]);
        } else {
            assert(s.skip(1) =~= tail);
            assert(s[0] == value[0]);
        }
        assert(seq![value[0]] + value.skip(1) =~= value);
    }
}

/// The call that names a place in S3 within a statement, with the credentials for it.
pub open spec fn s3_call(url: Seq<char>, access_key: Seq<char>, secret_key: Seq<char>) -> Seq<
    char,
> {
    "S3('"@ + escaped(url) + "', '"@ + escaped(access_key) + "', '"@ + escaped(secret_key)
        + "')"@
}

/// The text of a setting; empty where it is not set.
pub open spec fn text_of(value: Option<String>) -> Seq<char> {
    match value {
        Some(text) => text@,
        None => Seq::empty(),
    }
}

/// The URL of a path, as ClickHouse reaches it.
pub open spec fn clickhouse_url(config: S3Config, path: Seq<char>) -> Seq<char> {
    config.endpoint_for_clickhouse() + "/"@ + config.bucket@ + "/"@ + path
}

/// The SQL fragment that names a path.
pub open spec fn fragment(config: S3Config, path: Seq<char>) -> Seq<char> {
    s3_call(clickhouse_url(config, path), text_of(config.access_key), text_of(config.secret_key))
}

fn text_or_empty(value: &Option<String>) -> (r: String)
    ensures
        r@ == text_of(*value),
{
    match value {
        Some(text) => text.clone(),
        None => String::new(),
    }
}

/// Builds the S3() SQL fragment for use in ClickHouse BACKUP/RESTORE commands:
/// `S3('https://endpoint/bucket/path', 'access_key', 'secret_key')`.
pub fn s3_sql_fragment(config: &S3Config, path: &str) -> (r: String)
    ensures
        r@ == fragment(*config, path@),
{
    let url = config.clickhouse_endpoint().to_owned().concat("/").concat(
        config.bucket.as_str(),
    ).concat("/").concat(path);
    let access_key = text_or_empty(&config.access_key);
    let secret_key = text_or_empty(&config.secret_key);
    "S3('".to_owned().concat(escape_sql_str(url.as_str()).as_str()).concat("', '").concat(
        escape_sql_str(access_key.as_str()).as_str(),
    ).concat("', '").concat(escape_sql_str(secret_key.as_str()).as_str()).concat("')")
}

/// What is read of a call that names a place in S3: the URL, the two keys, and what follows the
/// call.
pub open spec fn read_s3_call(s: Seq<char>) -> Option<
    (Seq<char>, Seq<char>, Seq<char>, Seq<char>),
> {
    if !has_prefix(s, "S3('"@) {
        None
    } else {
        match read_literal(s.skip(4)) {
            None => None,
            Some((url, a)) => if !has_prefix(a, ", '"@) {
                None
            } else {
                match read_literal(a.skip(3)) {
                    None => None,
                    Some((access_key, b)) => if !has_prefix(b, ", '"@) {
                        None
                    } else {
                        match read_literal(b.skip(3)) {
                            None => None,
                            Some((secret_key, c)) => if !has_prefix(c, ")"@) {
                                None
                            } else {
                                Some((url, access_key, secret_key, c.skip(1)))
                            },
                        }
                    },
                }
            },
        }
    }
}

/// A fragment within a statement is read back as the URL and the credentials that it was built
/// from, whatever characters these hold.
pub proof fn law_fragments_are_read_back(
    url: Seq<char>,
    access_key: Seq<char>,
    secret_key: Seq<char>,
    rest: Seq<char>,
)
    ensures
        read_s3_call(s3_call(url, access_key, secret_key) + rest) == Some(
            (url, access_key, secret_key, rest),
        ),
{
    reveal_strlit("S3('");
    reveal_strlit("', '");
    reveal_strlit(", '");
    reveal_strlit("')");
    reveal_strlit(")");
    let quote = seq!['\''];
    let s = s3_call(url, access_key, secret_key) + rest;
    let c = ")"@ + rest;
    let b = ", '"@ + escaped(secret_key) + quote + c;
    let a = ", '"@ + escaped(access_key) + quote + b;
    assert(s.take(4) =~= "S3('"@);
    assert(s.skip(4) =~= escaped(url) + quote + a);
    law_escaped_values_are_read_back(url, a);
    assert(a.take(3) =~= ", '"@);
    assert(a.skip(3) =~= escaped(access_key) + quote + b);
    law_escaped_values_are_read_back(access_key, b);
    assert(b.take(3) =~= ", '"@);
    assert(b.skip(3) =~= escaped(secret_key) + quote + c);
    law_escaped_values_are_read_back(secret_key, c);
    assert(c.take(1) =~= ")"@);
    assert(c.skip(1) =~= rest);
}

/// Where the metadata sidecar of a backup stands.
pub open spec fn sidecar_path(backup_path: Seq<char>) -> Seq<char> {
    backup_path + METADATA_FILENAME@
}

/// Where the metadata sidecar of a backup stands.
pub fn metadata_path(backup_path: &str) -> (r: String)
    ensures
        r@ == sidecar_path(backup_path@),
{
    backup_path.to_owned().concat(METADATA_FILENAME)
}

/// What follows when an S3 request was answered.
#[derive(Debug)]
pub enum RequestStep<T> {
    /// Wait this long, then send the request again.
    RetryAfter(Duration),
    /// The request came to its end.
    Done(T),
}

/// Whether the request whose attempt number `attempt` failed is sent again.
pub open spec fn is_sent_again(policy: RetryPolicy, attempt: nat, failure: S3Failure) -> bool {
    is_retried(policy, attempt, is_transient(failure))
}

/// An object to be written.
#[derive(Debug)]
pub struct PutObject {
    pub path: String,
    pub body: String,
}

/// What to write as the metadata sidecar of the backup at `backup_path`, given what came of
/// writing the metadata as JSON.
pub fn metadata_object(backup_path: &str, json: Result<String, String>) -> (r: Result<
    PutObject,
    ClickVaultError,
>)
    ensures
        match json {
            Ok(body) => r matches Ok(put) && put.path@ == sidecar_path(backup_path@) && put.body
                == body,
            Err(text) => r == Err::<PutObject, ClickVaultError>(ClickVaultError::Json(text)),
        },
{
    match json {
        Ok(body) => Ok(PutObject { path: metadata_path(backup_path), body }),
        Err(text) => Err(ClickVaultError::Json(text)),
    }
}

/// What follows when attempt number `attempt` (0-based) to write a metadata sidecar was answered.
pub fn write_metadata(policy: &RetryPolicy, attempt: u32, answer: Result<(), S3Failure>) -> (r:
    RequestStep<Result<(), ClickVaultError>>)
    requires
        answer matches Err(failure) && is_sent_again(*policy, attempt as nat, failure)
            ==> delay_is_defined(*policy, attempt as nat),
    ensures
        match answer {
            Ok(_) => r == RequestStep::Done(Ok::<(), ClickVaultError>(())),
            Err(failure) => match r {
                RequestStep::RetryAfter(delay) => is_sent_again(*policy, attempt as nat, failure)
                    && is_jitter(cap_nanos(*policy, attempt as nat), delay.nanos()),
                RequestStep::Done(result) => !is_sent_again(*policy, attempt as nat, failure)
                    && result == Err::<(), ClickVaultError>(ClickVaultError::S3(failure)),
            },
        },
{
    match answer {
        Ok(_) => RequestStep::Done(Ok(())),
        Err(failure) => match with_retry(policy, attempt, is_transient_s3(&failure)) {
            RetryStep::RetryAfter(delay) => RequestStep::RetryAfter(delay),
            RetryStep::GiveUp => RequestStep::Done(Err(ClickVaultError::S3(failure))),
        },
    }
}

/// What a failure to fetch a metadata sidecar means.
pub open spec fn read_error(failure: S3Failure) -> MetadataReadError {
    match failure {
        S3Failure::HttpFailWithBody(status, _) => if status == 404 {
            MetadataReadError::Missing
        } else {
            MetadataReadError::Unreadable(failure)
        },
        _ => MetadataReadError::Unreadable(failure),
    }
}

/// Classifies a failure to fetch a metadata sidecar: a 404 means the sidecar does not exist
/// (orphan), anything else is a possibly-transient read failure.
pub fn classify_read_error(e: S3Failure) -> (r: MetadataReadError)
    ensures
        r == read_error(e),
{
    match e {
        S3Failure::HttpFailWithBody(404, _) => MetadataReadError::Missing,
        other => MetadataReadError::Unreadable(other),
    }
}

/// What follows when attempt number `attempt` (0-based) to fetch a metadata sidecar was answered;
/// an answer that is no failure holds what came of parsing it.
///
/// Retrying is decided on the S3 failure itself, before it is classified: a 404 is a definitive
/// answer and is never retried.
pub fn read_metadata(
    policy: &RetryPolicy,
    attempt: u32,
    answer: Result<Result<BackupMetadata, String>, S3Failure>,
) -> (r: RequestStep<Result<BackupMetadata, MetadataReadError>>)
    requires
        answer matches Err(failure) && is_sent_again(*policy, attempt as nat, failure)
            ==> delay_is_defined(*policy, attempt as nat),
    ensures
        match answer {
            Ok(Ok(meta)) => r == RequestStep::Done(Ok::<BackupMetadata, MetadataReadError>(meta)),
            Ok(Err(text)) => r == RequestStep::Done(
                Err::<BackupMetadata, MetadataReadError>(MetadataReadError::Invalid(text)),
            ),
            Err(failure) => match r {
                RequestStep::RetryAfter(delay) => is_sent_again(*policy, attempt as nat, failure)
                    && is_jitter(cap_nanos(*policy, attempt as nat), delay.nanos()),
                RequestStep::Done(result) => !is_sent_again(*policy, attempt as nat, failure)
                    && result == Err::<BackupMetadata, MetadataReadError>(read_error(failure)),
            },
        },
{
    match answer {
        Ok(Ok(meta)) => RequestStep::Done(Ok(meta)),
        Ok(Err(text)) => RequestStep::Done(Err(MetadataReadError::Invalid(text))),
        Err(failure) => match with_retry(policy, attempt, is_transient_s3(&failure)) {
            RetryStep::RetryAfter(delay) => RequestStep::RetryAfter(delay),
            RetryStep::GiveUp => RequestStep::Done(Err(classify_read_error(failure))),
        },
    }
}

/// A sidecar that does not exist is reported as missing at once, whatever the policy.
pub proof fn law_missing_sidecars_are_not_retried(policy: RetryPolicy, attempt: nat, body: String)
    ensures
        !is_sent_again(policy, attempt, S3Failure::HttpFailWithBody(404, body)),
        read_error(S3Failure::HttpFailWithBody(404, body)) is Missing,
{
}

impl Ranked for String {
    /// Texts are put in order character by character.
    open spec fn ranks_before(self, other: Self) -> bool {
        text_le(self@, other@)
    }

    proof fn rank_is_total(a: Self, b: Self) {
        crate::text::lemma_text_le_total(a@, b@);
    }

    proof fn rank_is_transitive(a: Self, b: Self, c: Self) {
        crate::text::lemma_text_le_transitive(a@, b@, c@);
    }
}

impl Sortable for String {
    fn may_precede(&self, other: &Self) -> (r: bool) {
        text_at_most(self.as_str(), other.as_str())
    }
}

/// The entries of all pages of a listing, one page after the other.
pub open spec fn all_entries(pages: Seq<Vec<String>>) -> Seq<String>
    decreases pages.len(),
{
    if pages.len() == 0 {
        Seq::empty()
    } else {
        all_entries(pages.drop_last()) + pages.last()@
    }
}

/// The entries of all pages of a listing, one page after the other.
pub fn entries_of(pages: Vec<Vec<String>>) -> (r: Vec<String>)
    ensures
        r@ == all_entries(pages@),
{
    let ghost all = pages@;
    let mut r: Vec<String> = Vec::new();
    let mut i: usize = 0;
    assert(all.take(0) =~= Seq::<Vec<String>>::empty());
    while i < pages.len()
        invariant
            i <= pages@.len(),
            all == pages@,
            r@ == all_entries(all.take(i as int)),
        decreases pages@.len() - i,
    {
        let page = &pages[i];
        let ghost before = r@;
        let mut j: usize = 0;
        assert(before + page@.take(0) =~= before);
        while j < page.len()
            invariant
                j <= page@.len(),
                r@ == before + page@.take(j as int),
            decreases page@.len() - j,
        {
            r.push(page[j].clone());
            assert(page@.take(j + 1) =~= page@.take(j as int).push(page@[j as int]));
            assert(before + page@.take(j + 1) =~= (before + page@.take(j as int)).push(
                page@[j as int],
            ));
            j = j + 1;
        }
        proof {
            assert(page@.take(j as int) =~= page@);
            assert(all.take(i + 1).drop_last() =~= all.take(i as int));
        }
        i = i + 1;
    }
    assert(all.take(i as int) =~= all);
    r
}

/// What follows when attempt number `attempt` (0-based) to list the directories under a prefix
/// was answered: the directories on all pages, in the order of their names.
pub fn list_prefixes(
    policy: &RetryPolicy,
    attempt: u32,
    answer: Result<Vec<Vec<String>>, S3Failure>,
) -> (r: RequestStep<Result<Vec<String>, ClickVaultError>>)
    requires
        answer matches Err(failure) && is_sent_again(*policy, attempt as nat, failure)
            ==> delay_is_defined(*policy, attempt as nat),
    ensures
        match answer {
            Ok(pages) => r matches RequestStep::Done(Ok(dirs)) && dirs@ == sorted(
                all_entries(pages@),
            ),
            Err(failure) => match r {
                RequestStep::RetryAfter(delay) => is_sent_again(*policy, attempt as nat, failure)
                    && is_jitter(cap_nanos(*policy, attempt as nat), delay.nanos()),
                RequestStep::Done(result) => !is_sent_again(*policy, attempt as nat, failure)
                    && result == Err::<Vec<String>, ClickVaultError>(ClickVaultError::S3(failure)),
            },
        },
{
    match answer {
        Ok(pages) => RequestStep::Done(Ok(sort(entries_of(pages)))),
        Err(failure) => match with_retry(policy, attempt, is_transient_s3(&failure)) {
            RetryStep::RetryAfter(delay) => RequestStep::RetryAfter(delay),
            RetryStep::GiveUp => RequestStep::Done(Err(ClickVaultError::S3(failure))),
        },
    }
}

/// The URL that ClickHouse is given is that of the path in the bucket, for every configuration: it
/// starts with the endpoint, a slash, the bucket and a slash, and what follows is the path. No
/// other setting has a say in it.
pub proof fn law_urls_name_bucket_and_path(config: S3Config, other: S3Config, path: Seq<char>)
    ensures
        ({
            let endpoint = match config.clickhouse_endpoint {
                Some(override_url) => override_url@,
                None => config.endpoint@,
            };
            let start = endpoint.push('/') + config.bucket@.push('/');
            &&& has_prefix(clickhouse_url(config, path), start)
            &&& clickhouse_url(config, path).skip(start.len() as int) == path
        }),
        config.bucket == other.bucket && config.endpoint == other.endpoint
            && config.clickhouse_endpoint == other.clickhouse_endpoint ==> clickhouse_url(
            config,
            path,
        ) == clickhouse_url(other, path),
{
    reveal_strlit("/");
    let endpoint = match config.clickhouse_endpoint {
        Some(override_url) => override_url@,
        None => config.endpoint@,
    };
    let start = endpoint.push('/') + config.bucket@.push('/');
    let url = clickhouse_url(config, path);
    assert(url =~= start + path);
    assert(url.take(start.len() as int) =~= start);
    assert(url.skip(start.len() as int) =~= path);
}

/// A fragment carries the configured credentials, and empty ones where none are configured,
/// whatever the other settings are: it is read back as the URL and these.
pub proof fn law_fragments_carry_url_and_credentials(
    config: S3Config,
    path: Seq<char>,
    rest: Seq<char>,
)
    ensures
        read_s3_call(fragment(config, path) + rest) matches Some(read) && {
            &&& read.0 == clickhouse_url(config, path)
            &&& config.access_key matches Some(key) ==> read.1 == key@
            &&& config.access_key is None ==> read.1.len() == 0
            &&& config.secret_key matches Some(key) ==> read.2 == key@
            &&& config.secret_key is None ==> read.2.len() == 0
            &&& read.3 == rest
        },
{
    law_fragments_are_read_back(
        clickhouse_url(config, path),
        text_of(config.access_key),
        text_of(config.secret_key),
        rest,
    );
}

/// Escaping goes character by character: a quote and a backslash get a backslash in front of them,
/// and every other character stands for itself.
pub proof fn law_escaping_goes_by_character(a: Seq<char>, c: char, b: Seq<char>)
    ensures
        escaped(a + b) == escaped(a) + escaped(b),
        escaped(Seq::empty()) == Seq::<char>::empty(),
        c == '\'' ==> escaped(seq![c]) == seq!['\\', '\''],
        c == '\\' ==> escaped(seq![c]) == seq!['\\', '\\'],
        c != '\'' && c != '\\' ==> escaped(seq![c]) == seq![c],
    decreases a.len(),
{
    reveal_with_fuel(escaped, 2);
    assert(seq![c].skip(1) =~= Seq::<char>::empty());
    assert(escaped(seq![c]) =~= escaped_char(c));
    if a.len() == 0 {
        assert(a + b =~= b);
        assert(escaped(a) + escaped(b) =~= escaped(b));
    } else {
        law_escaping_goes_by_character(a.skip(1), c, b);
        assert((a + b).skip(1) =~= a.skip(1) + b);
        assert((a + b)[0] == a[0]);
        assert(escaped_char(a[0]) + (escaped(a.skip(1)) + escaped(b)) =~= escaped(a) + escaped(b));
    }
}

/// The call in a statement names the URL and the two keys in this order, each in single quotes.
#[verifier::rlimit(40)]
pub proof fn law_calls_name_url_and_keys(url: Seq<char>, access_key: Seq<char>, secret_key: Seq<char>)
    ensures
        ({
            let quote = seq!['\''];
            let sep = seq![',', ' '];
            s3_call(url, access_key, secret_key) == seq!['S', '3', '('] + quote + escaped(url)
                + quote + sep + quote + escaped(access_key) + quote + sep + quote + escaped(
                secret_key,
            ) + quote + seq![')']
        }),
{
    reveal_strlit("S3('");
    reveal_strlit("', '");
    reveal_strlit("')");
    let quote = seq!['\''];
    let sep = seq![',', ' '];
    assert(s3_call(url, access_key, secret_key) =~= seq!['S', '3', '('] + quote + escaped(url)
        + quote + sep + quote + escaped(access_key) + quote + sep + quote + escaped(secret_key)
        + quote + seq![')']);
}

/// Backups are written where they are listed: the path of a backup is the directory of its kind,
/// the time of its submission and a slash, and the directory is the kind's, under the prefix where
/// there is one.
pub proof fn law_backups_stand_under_the_directory_of_their_kind(
    prefix: Seq<char>,
    kind: BackupKind,
    timestamp: Timestamp,
)
    ensures
        ({
            let dir = backup_dir(prefix, kind);
            let path = backup_path(prefix, kind, timestamp);
            &&& has_prefix(path, dir)
            &&& path.skip(dir.len() as int) == timestamp_text(
                timestamp.secs(),
                timestamp.nanos(),
                PATH_TIMESTAMP_FORMAT@,
            ).push('/')
        }),
        kind is Full ==> backup_dir(Seq::empty(), kind) == "full"@.push('/'),
        kind is Incremental ==> backup_dir(Seq::empty(), kind) == "incremental"@.push('/'),
        prefix.len() > 0 ==> backup_dir(prefix, kind) == prefix.push('/') + backup_dir(
            Seq::empty(),
            kind,
        ),
{
    reveal_strlit("/");
    let dir = backup_dir(prefix, kind);
    let path = backup_path(prefix, kind, timestamp);
    let text = timestamp.text(PATH_TIMESTAMP_FORMAT@);
    assert(path =~= dir + text.push('/'));
    assert(path.take(dir.len() as int) =~= dir);
    assert(path.skip(dir.len() as int) =~= text.push('/'));
    assert(backup_dir(Seq::empty(), kind) =~= kind.text().push('/'));
    if prefix.len() > 0 {
        assert(dir =~= prefix.push('/') + backup_dir(Seq::empty(), kind));
    }
}

/// The sidecar of a backup stands directly under the backup's own path, under one name for all.
pub proof fn law_sidecars_stand_within_their_backups(path: Seq<char>, other: Seq<char>)
    ensures
        has_prefix(sidecar_path(path), path),
        sidecar_path(path).skip(path.len() as int) == sidecar_path(Seq::empty()),
        sidecar_path(path) == sidecar_path(other) ==> path == other,
{
    assert(sidecar_path(path).take(path.len() as int) =~= path);
    assert(sidecar_path(path).skip(path.len() as int) =~= METADATA_FILENAME@);
    assert(sidecar_path(Seq::empty()) =~= METADATA_FILENAME@);
    if sidecar_path(path) == sidecar_path(other) {
        assert(sidecar_path(other).take(other.len() as int) =~= other);
        assert(path.len() == other.len());
    }
}

/// A failure may go away where the request did not get through, or the server was busy or failed
/// itself; any other answer is definitive.
pub proof fn law_only_blips_are_transient(status: u16, text: String)
    ensures
        is_transient(S3Failure::Reqwest(text)),
        is_transient(S3Failure::Io(text)),
        !is_transient(S3Failure::Other(text)),
        status >= 500 && status < 600 ==> is_transient(S3Failure::HttpFailWithBody(status, text)),
        status == 408 || status == 429 ==> is_transient(S3Failure::HttpFailWithBody(status, text)),
        status < 500 && status != 408 && status != 429 ==> !is_transient(
            S3Failure::HttpFailWithBody(status, text),
        ),
        status >= 600 ==> !is_transient(S3Failure::HttpFailWithBody(status, text)),
{
}

/// A request is sent again exactly where its failure may go away and attempts are left.
pub proof fn law_transient_failures_are_sent_again(
    policy: RetryPolicy,
    made: nat,
    failure: S3Failure,
)
    requires
        made > 0,
    ensures
        is_sent_again(policy, (made - 1) as nat, failure) <==> is_transient(failure) && made
            < policy.attempts,
{
}

/// Only a 404 means that a sidecar does not exist; every other failure is handed on as it is.
pub proof fn law_only_absence_is_missing(failure: S3Failure)
    ensures
        read_error(failure) is Missing <==> (failure matches S3Failure::HttpFailWithBody(status, _)
            && status == 404),
        !(read_error(failure) is Missing) ==> read_error(failure) == MetadataReadError::Unreadable(
            failure,
        ),
{
}

/// A listing holds what stands on its pages: page after page, with nothing left out or added.
pub proof fn law_listings_hold_all_pages(pages: Seq<Vec<String>>, page: Vec<String>, entry: String)
    ensures
        all_entries(Seq::empty()) == Seq::<String>::empty(),
        all_entries(pages.push(page)) == all_entries(pages) + page@,
        all_entries(pages).contains(entry) <==> exists|i: int|
            0 <= i < pages.len() && (#[trigger] pages[i])@.contains(entry),
    decreases pages.len(),
{
    assert(pages.push(page).drop_last() =~= pages);
    if pages.len() > 0 {
        let first = pages.drop_last();
        let last = pages.last();
        law_listings_hold_all_pages(first, page, entry);
        if all_entries(pages).contains(entry) {
            let k = choose|k: int| 0 <= k < all_entries(pages).len() && all_entries(pages)[k] == entry;
            let n = all_entries(first).len();
            if k < n {
                assert(all_entries(first)[k] == entry);
                let i = choose|i: int| 0 <= i < first.len() && (#[trigger] first[i])@.contains(entry);
                assert(pages[i] == first[i]);
            } else {
                assert(last@[k - n] == entry);
                assert(pages[pages.len() - 1]@.contains(entry));
            }
        }
        if exists|i: int| 0 <= i < pages.len() && (#[trigger] pages[i])@.contains(entry) {
            let i = choose|i: int| 0 <= i < pages.len() && (#[trigger] pages[i])@.contains(entry);
            if i < first.len() {
                assert(first[i]@.contains(entry));
                let k = choose|k: int|
                    0 <= k < all_entries(first).len() && all_entries(first)[k] == entry;
                assert(all_entries(pages)[k] == entry);
            } else {
                let k = choose|k: int| 0 <= k < last@.len() && last@[k] == entry;
                assert(all_entries(pages)[all_entries(first).len() + k] == entry);
            }
        }
    }
}

/// Directories are handed on in the order of their names, each as often as it was listed.
pub proof fn law_directories_are_sorted_by_name(pages: Seq<Vec<String>>)
    ensures
        sorted(all_entries(pages)).to_multiset() == all_entries(pages).to_multiset(),
        forall|i: int, j: int|
            0 <= i < j < sorted(all_entries(pages)).len() ==> text_le(
                (#[trigger] sorted(all_entries(pages))[i])@,
                (#[trigger] sorted(all_entries(pages))[j])@,
            ),
{
    crate::order::lemma_sorted(all_entries(pages));
    let s = sorted(all_entries(pages));
    assert forall|i: int, j: int| 0 <= i < j < s.len() implies text_le(
        (#[trigger] s[i])@,
        (#[trigger] s[j])@,
    ) by {
        assert(s[i].ranks_before(s[j]));
    }
}

/// A sidecar is a hidden JSON file in the directory of its backup, and not in one below it.
pub proof fn law_sidecars_are_hidden_files(path: Seq<char>)
    ensures
        sidecar_path(path).len() > path.len(),
        sidecar_path(path)[path.len() as int] == '.',
        ".json"@.is_suffix_of(sidecar_path(path)),
        forall|i: int|
            path.len() <= i < sidecar_path(path).len() ==> #[trigger] sidecar_path(path)[i] != '/',
{
    reveal_strlit(".clickvault_meta.json");
    reveal_strlit(".json");
    let s = sidecar_path(path);
    let end = ".json"@;
    assert(s.subrange(s.len() - end.len(), s.len() as int) =~= end);
}

} // verus!
