//! Notifications via a generic HTTP webhook.
use vstd::prelude::*;

use reqwest::header::{HeaderMap, HeaderName, HeaderValue};

use crate::retry::RetryPolicy;

verus! {

/// A map from HTTP header names to values.
#[verifier::external_type_specification]
#[verifier::external_body]
#[verifier::reject_recursive_types(T)]
pub struct ExHeaderMap<T>(HeaderMap<T>);

/// The value of an HTTP header.
#[verifier::external_type_specification]
#[verifier::external_body]
pub struct ExHeaderValue(HeaderValue);

/// The headers in a map: what each name, in lower case, stands for.
pub uninterp spec fn header_entries(map: HeaderMap<HeaderValue>) -> Map<Seq<char>, Seq<char>>;

/// No headers.
pub open spec fn no_entries() -> Map<Seq<char>, Seq<char>> {
    Map::empty()
}

/// So many names can always be held: a map with fewer names never has to grow beyond its limit,
/// however they are spread over it.
pub const MAX_HEADERS: usize = 6554;

/// Whether a character may stand in a token, such as a method or a header name.
pub open spec fn is_token_char(c: char) -> bool {
    ||| '0' <= c <= '9'
    ||| 'a' <= c <= 'z'
    ||| 'A' <= c <= 'Z'
    ||| c == '!' || c == '#' || c == '$' || c == '%' || c == '&' || c == '\'' || c == '*'
    ||| c == '+' || c == '-' || c == '.' || c == '^' || c == '_' || c == '`' || c == '|'
    ||| c == '~'
}

/// Whether a text is a token.
pub open spec fn is_token(s: Seq<char>) -> bool {
    s.len() > 0 && forall|i: int| 0 <= i < s.len() ==> is_token_char(#[trigger] s[i])
}

/// A character in lower case, as far as letters from A to Z go.
pub open spec fn lower_char(c: char) -> char {
    if 'A' <= c <= 'Z' {
        (c as u32 + 32) as char
    } else {
        c
    }
}

/// A text in lower case, as far as letters from A to Z go.
pub open spec fn lower(s: Seq<char>) -> Seq<char> {
    s.map_values(|c: char| lower_char(c))
}

/// The longest name that a header can have.
pub const MAX_HEADER_NAME_LEN: usize = 65_535;

/// Whether a text can be the name of a header.
pub open spec fn is_header_name(s: Seq<char>) -> bool {
    is_token(s) && s.len() <= MAX_HEADER_NAME_LEN
}

/// Whether a text can be the value of a header: no control characters but tabs.
pub open spec fn is_header_value(s: Seq<char>) -> bool {
    forall|i: int|
        0 <= i < s.len() ==> (#[trigger] s[i]) == '\t' || (s[i] >= ' ' && s[i] != '\u{7f}')
}

/// This is the `FromStr` of reqwest's `Method`: every token is a method, kept as it is, and
/// nothing else is.
#[verifier::external_body]
fn parse_method(method: &str) -> (r: Option<String>)
    ensures
        r is Some <==> is_token(method@),
        r matches Some(kept) ==> kept@ == method@,
{
    let parsed: reqwest::Method = method.parse().ok()?;
    Some(parsed.as_str().to_string())
}

/// This is the `FromStr` of reqwest's `HeaderName`: every token that is not too long is a header
/// name, in lower case, and nothing else is.
#[verifier::external_body]
fn parse_header_name(name: &str) -> (r: Option<String>)
    ensures
        r is Some <==> is_header_name(name@),
        r matches Some(kept) ==> kept@ == lower(name@),
{
    let parsed: HeaderName = name.parse().ok()?;
    Some(parsed.as_str().to_string())
}

/// This is reqwest's `HeaderValue::from_str`, as far as it tells whether a text can be the value
/// of a header.
#[verifier::external_body]
fn accepts_header_value(value: &str) -> (r: bool)
    ensures
        r == is_header_value(value@),
{
    HeaderValue::from_str(value).is_ok()
}

/// This is reqwest's `HeaderMap::new`: a map without entries.
#[verifier::external_body]
fn no_headers() -> (r: HeaderMap<HeaderValue>)
    ensures
        header_entries(r) == no_entries(),
{
    HeaderMap::new()
}

/// This is reqwest's `HeaderMap::insert`: the name, taken in lower case, stands for the value from
/// now on, and other names for what they stood for.
#[verifier::external_body]
fn insert_header(map: &mut HeaderMap<HeaderValue>, name: &str, value: &str)
    requires
        is_header_name(name@),
        is_header_value(value@),
        header_entries(*old(map)).dom().finite(),
        header_entries(*old(map)).dom().len() < MAX_HEADERS,
    ensures
        header_entries(*final(map)) == header_entries(*old(map)).insert(lower(name@), value@),
{
    let name: HeaderName = name.parse().unwrap();
    map.insert(name, HeaderValue::from_str(value).unwrap());
}

/// This is reqwest's `HeaderMap::keys_len`: how many names the map holds.
#[verifier::external_body]
fn count_names(map: &HeaderMap<HeaderValue>) -> (r: usize)
    ensures
        r == header_entries(*map).dom().len(),
{
    map.keys_len()
}

/// A generic HTTP webhook.
#[derive(Debug)]
pub struct WebhookNotifier {
    pub url: String,
    pub method: String,
    pub headers: HeaderMap<HeaderValue>,
    pub retry: RetryPolicy,
}

/// The method that is used where the configuration asks for this one: the same, or POST where it
/// is no valid method.
pub open spec fn used_method(method: Seq<char>) -> Seq<char> {
    if is_token(method) {
        method
    } else {
        "POST"@
    }
}

/// Whether the name and the value of a header are valid.
pub open spec fn is_header(header: (String, String)) -> bool {
    is_header_name(header.0@) && is_header_value(header.1@)
}

/// The headers that are sent where the configuration lists these: all valid ones. Of two that
/// differ in the case of letters only, the later one counts.
pub open spec fn used_headers(headers: Seq<(String, String)>) -> Map<Seq<char>, Seq<char>>
    decreases headers.len(),
{
    if headers.len() == 0 {
        no_entries()
    } else {
        let before = used_headers(headers.drop_last());
        let (name, value) = headers.last();
        if is_header(headers.last()) {
            before.insert(lower(name@), value@)
        } else {
            before
        }
    }
}

/// Whether headers can be held: each valid one finds fewer names than always fit.
pub open spec fn headers_fit(headers: Seq<(String, String)>) -> bool
    decreases headers.len(),
{
    headers.len() > 0 ==> headers_fit(headers.drop_last()) && (is_header(headers.last())
        ==> used_headers(headers.drop_last()).dom().len() < MAX_HEADERS)
}

/// The first of several headers can be held where all can.
proof fn lemma_first_fit(headers: Seq<(String, String)>, n: int)
    requires
        0 <= n <= headers.len(),
        headers_fit(headers),
    ensures
        headers_fit(headers.take(n)),
    decreases headers.len(),
{
    if n == headers.len() {
        assert(headers.take(n) =~= headers);
    } else {
        lemma_first_fit(headers.drop_last(), n);
        assert(headers.drop_last().take(n) =~= headers.take(n));
    }
}

proof fn lemma_used_headers_count(headers: Seq<(String, String)>)
    ensures
        used_headers(headers).dom().finite(),
        used_headers(headers).dom().len() <= headers.len(),
        headers.len() > 0 ==> used_headers(headers.drop_last()).dom().len() <= used_headers(
            headers,
        ).dom().len(),
    decreases headers.len(),
{
    if headers.len() > 0 {
        lemma_used_headers_count(headers.drop_last());
    }
}

/// Headers can be held where they have few names; those that are invalid or that repeat a name do
/// not count. They can also be held where there are not more of them than names that always fit.
pub proof fn law_few_names_fit(headers: Seq<(String, String)>)
    requires
        used_headers(headers).dom().len() < MAX_HEADERS || headers.len() <= MAX_HEADERS,
    ensures
        headers_fit(headers),
    decreases headers.len(),
{
    if headers.len() > 0 {
        lemma_used_headers_count(headers);
        lemma_used_headers_count(headers.drop_last());
        law_few_names_fit(headers.drop_last());
    }
}

/// Whether headers can be held.
pub fn can_hold_headers(headers: &Vec<(String, String)>) -> (r: bool)
    ensures
        r == headers_fit(headers@),
{
    let mut map = no_headers();
    let mut i: usize = 0;
    assert(headers@.take(0) =~= Seq::<(String, String)>::empty());
    while i < headers.len()
        invariant
            i <= headers@.len(),
            header_entries(map) == used_headers(headers@.take(i as int)),
            header_entries(map).dom().finite(),
            headers_fit(headers@.take(i as int)),
        decreases headers@.len() - i,
    {
        let header = &headers[i];
        assert(headers@.take(i + 1).drop_last() =~= headers@.take(i as int));
        let valid: bool = parse_header_name(header.0.as_str()).is_some() && accepts_header_value(
            header.1.as_str(),
        );
        if valid {
            if count_names(&map) >= MAX_HEADERS {
                proof {
                    if headers_fit(headers@) {
                        lemma_first_fit(headers@, i + 1);
                    }
                }
                return false;
            }
            insert_header(&mut map, header.0.as_str(), header.1.as_str());
        }
        i = i + 1;
    }
    assert(headers@.take(i as int) =~= headers@);
    true
}

/// Whether a notifier is the one that the configuration describes.
pub open spec fn is_webhook(
    url: String,
    method: String,
    headers: Seq<(String, String)>,
    retry: RetryPolicy,
    webhook: WebhookNotifier,
) -> bool {
    &&& webhook.url == url
    &&& webhook.method@ == used_method(method@)
    &&& header_entries(webhook.headers) == used_headers(headers)
    &&& webhook.retry == retry
}

impl WebhookNotifier {
    /// A notifier that sends to the URL, with the method and headers as far as they are valid.
    pub fn new(
        url: String,
        method: String,
        headers: Vec<(String, String)>,
        retry: RetryPolicy,
    ) -> (r: WebhookNotifier)
        requires
            headers_fit(headers@),
        ensures
            is_webhook(url, method, headers@, retry, r),
    {
        let used: String = match parse_method(method.as_str()) {
            Some(kept) => kept,
            None => "POST".to_owned(),
        };
        let mut map = no_headers();
        let mut i: usize = 0;
        assert(headers@.take(0) =~= Seq::<(String, String)>::empty());
        while i < headers.len()
            invariant
                i <= headers@.len(),
                headers_fit(headers@),
                header_entries(map) == used_headers(headers@.take(i as int)),
                header_entries(map).dom().finite(),
            decreases headers@.len() - i,
        {
            let header = &headers[i];
            assert(headers@.take(i + 1).drop_last() =~= headers@.take(i as int));
            let valid: bool = parse_header_name(header.0.as_str()).is_some()
                && accepts_header_value(header.1.as_str());
            if valid {
                proof {
                    lemma_first_fit(headers@, i + 1);
                }
                insert_header(&mut map, header.0.as_str(), header.1.as_str());
            }
            i = i + 1;
        }
        assert(headers@.take(i as int) =~= headers@);
        WebhookNotifier { url, method: used, headers: map, retry }
    }
}

/// Invalid headers are dropped: every header that is sent is a valid one of the configuration,
/// with its name in lower case.
pub proof fn law_only_valid_headers_are_sent(headers: Seq<(String, String)>, name: Seq<char>)
    requires
        used_headers(headers).dom().contains(name),
    ensures
        exists|i: int|
            0 <= i < headers.len() && is_header_name((#[trigger] headers[i]).0@)
                && is_header_value(headers[i].1@) && lower(headers[i].0@) == name
                && used_headers(headers)[name] == headers[i].1@,
    decreases headers.len(),
{
    let n = headers.len() - 1;
    if headers.len() > 0 {
        let last = headers[n];
        if is_header_name(last.0@) && is_header_value(last.1@) && lower(last.0@) == name {
            assert(headers[n] == last);
        } else {
            law_only_valid_headers_are_sent(headers.drop_last(), name);
            let i = choose|i: int|
                0 <= i < headers.drop_last().len() && is_header_name(
                    (#[trigger] headers.drop_last()[i]).0@,
                ) && is_header_value(headers.drop_last()[i].1@) && lower(
                    headers.drop_last()[i].0@,
                ) == name && used_headers(headers.drop_last())[name] == headers.drop_last()[i].1@;
            assert(headers[i] == headers.drop_last()[i]);
        }
    }
}

/// A method that is a token is used as it is, in its own case; anything else is replaced by POST.
pub proof fn law_valid_methods_are_kept(method: Seq<char>)
    ensures
        (method.len() > 0 && forall|i: int|
            0 <= i < method.len() ==> 'A' <= #[trigger] method[i] <= 'Z' || 'a' <= method[i] <= 'z'
                || '0' <= method[i] <= '9' || method[i] == '-' || method[i] == '_')
            ==> used_method(method) == method,
        method.len() == 0 || method.contains(' ') || method.contains('/') || method.contains(':')
            || method.contains('\n') ==> used_method(method) == "POST"@,
        used_method(method) == method || used_method(method) == "POST"@,
{
}

/// A header value may hold all that can be printed, and tabs, but no other control character.
pub proof fn law_header_values_are_printable(value: Seq<char>)
    ensures
        (forall|i: int|
            0 <= i < value.len() ==> ' ' <= #[trigger] value[i] <= '~' || value[i] == '\t')
            ==> is_header_value(value),
        value.contains('\n') || value.contains('\r') || value.contains('\0') ==> !is_header_value(
            value,
        ),
{
}

/// A header name may be made of letters, digits, hyphens and underscores; it is not empty and has
/// no space, colon or line break in it.
pub proof fn law_header_names_are_tokens(name: Seq<char>)
    ensures
        (0 < name.len() <= 65_535 && forall|i: int|
            0 <= i < name.len() ==> 'A' <= #[trigger] name[i] <= 'Z' || 'a' <= name[i] <= 'z' || '0'
                <= name[i] <= '9' || name[i] == '-' || name[i] == '_') ==> is_header_name(name),
        name.len() == 0 || name.len() > 65_535 || name.contains(' ') || name.contains(':')
            || name.contains('\n') ==> !is_header_name(name),
{
}

/// Lower case changes the letters from A to Z and nothing else.
pub proof fn law_only_capital_letters_are_lowered(s: Seq<char>, i: int)
    requires
        0 <= i < s.len(),
    ensures
        lower(s).len() == s.len(),
        'A' <= s[i] <= 'Z' ==> lower(s)[i] as u32 == s[i] as u32 + ('a' as u32 - 'A' as u32),
        !('A' <= s[i] <= 'Z') ==> lower(s)[i] == s[i],
{
}

/// Every valid header is sent, under its name in lower case and with its value, unless a later
/// valid one has the same name in lower case.
pub proof fn law_every_valid_header_is_sent(headers: Seq<(String, String)>, k: int)
    requires
        0 <= k < headers.len(),
        is_header_name(headers[k].0@),
        is_header_value(headers[k].1@),
        forall|i: int|
            k < i < headers.len() ==> lower((#[trigger] headers[i]).0@) != lower(headers[k].0@)
                || !is_header_name(headers[i].0@) || !is_header_value(headers[i].1@),
    ensures
        used_headers(headers).dom().contains(lower(headers[k].0@)),
        used_headers(headers)[lower(headers[k].0@)] == headers[k].1@,
    decreases headers.len(),
{
    let first = headers.drop_last();
    if k < first.len() {
        assert(first[k] == headers[k]);
        assert forall|i: int| k < i < first.len() implies lower((#[trigger] first[i]).0@) != lower(
            first[k].0@,
        ) || !is_header_name(first[i].0@) || !is_header_value(first[i].1@) by {
            assert(first[i] == headers[i]);
        }
        law_every_valid_header_is_sent(first, k);
        assert(headers.last() == headers[headers.len() - 1]);
    }
}

} // verus!
