//! Character-level text operations shared by the other modules.
use vstd::prelude::*;
use vstd::string::*;

verus! {

/// `String::push` appends one character at the end of the string.
pub assume_specification[ String::push ](s: &mut String, c: char)
    ensures
        final(s)@ == old(s)@.push(c),
;

/// The characters of `s`, in order.
pub fn chars(s: &str) -> (v: Vec<char>)
    ensures
        v@ == s@,
{
    let mut v: Vec<char> = Vec::new();
    for c in it: s.chars()
        invariant
            it.seq() == s@,
            v@ == s@.take(it.index()),
    {
        v.push(c);
        assert(s@.take(it.index() + 1) =~= s@.take(it.index()).push(s@[it.index()]));
    }
    assert(s@.take(s@.len() as int) =~= s@);
    v
}

/// The string that consists of the characters `v[from..to]`.
pub fn slice(v: &Vec<char>, from: usize, to: usize) -> (s: String)
    requires
        from <= to <= v@.len(),
    ensures
        s@ == v@.subrange(from as int, to as int),
{
    let mut s = String::new();
    let mut i: usize = from;
    while i < to
        invariant
            from <= i <= to <= v@.len(),
            s@ == v@.subrange(from as int, i as int),
        decreases to - i,
    {
        s.push(v[i]);
        i = i + 1;
        assert(v@.subrange(from as int, i as int) =~= v@.subrange(from as int, i - 1).push(v@[i - 1]));
    }
    s
}

/// Whether `s` begins with `prefix`.
pub open spec fn has_prefix(s: Seq<char>, prefix: Seq<char>) -> bool {
    prefix.len() <= s.len() && s.take(prefix.len() as int) == prefix
}

/// Whether the characters of `pattern` stand in `v` from index `at` on.
fn matches_at(v: &Vec<char>, at: usize, pattern: &Vec<char>) -> (r: bool)
    requires
        at <= v@.len(),
    ensures
        r == has_prefix(v@.skip(at as int), pattern@),
{
    if pattern.len() > v.len() - at {
        return false;
    }
    let mut i: usize = 0;
    while i < pattern.len()
        invariant
            i <= pattern.len(),
            at + pattern.len() <= v.len(),
            forall|k: int| 0 <= k < i ==> v@[at + k] == #[trigger] pattern@[k],
        decreases pattern@.len() - i,
    {
        if v[at + i] != pattern[i] {
            proof {
                let s = v@.skip(at as int);
                assert(s.take(pattern@.len() as int)[i as int] == v@[at + i]);
            }
            return false;
        }
        i = i + 1;
    }
    assert(v@.skip(at as int).take(pattern@.len() as int) =~= pattern@);
    true
}

/// Whether `s` begins with `prefix`.
pub fn starts_with(s: &str, prefix: &str) -> (r: bool)
    ensures
        r == has_prefix(s@, prefix@),
{
    assert(s@.skip(0) =~= s@);
    matches_at(&chars(s), 0, &chars(prefix))
}

/// Whether `s` ends with the character `c`.
pub open spec fn has_suffix_char(s: Seq<char>, c: char) -> bool {
    s.len() > 0 && s.last() == c
}

/// Whether `s` ends with the character `c`.
pub fn ends_with_char(s: &str, c: char) -> (r: bool)
    ensures
        r == has_suffix_char(s@, c),
{
    let v = chars(s);
    v.len() > 0 && v[v.len() - 1] == c
}

/// Whether `s` begins with the character `c`.
pub open spec fn has_prefix_char(s: Seq<char>, c: char) -> bool {
    s.len() > 0 && s[0] == c
}

/// Whether `s` begins with the character `c`.
pub fn starts_with_char(s: &str, c: char) -> (r: bool)
    ensures
        r == has_prefix_char(s@, c),
{
    let v = chars(s);
    v.len() > 0 && v[0] == c
}

/// `s` without any `c` at its end.
pub open spec fn trimmed_end(s: Seq<char>, c: char) -> Seq<char>
    decreases s.len(),
{
    if s.len() > 0 && s.last() == c {
        trimmed_end(s.drop_last(), c)
    } else {
        s
    }
}

/// `s` without any `c` at its end.
pub fn trim_end_char(s: &str, c: char) -> (r: String)
    ensures
        r@ == trimmed_end(s@, c),
{
    let v = chars(s);
    let mut end: usize = v.len();
    assert(v@.take(end as int) =~= v@);
    while end > 0 && v[end - 1] == c
        invariant
            end <= v@.len(),
            trimmed_end(v@, c) == trimmed_end(v@.take(end as int), c),
        decreases end,
    {
        assert(v@.take(end as int).drop_last() =~= v@.take(end - 1));
        end = end - 1;
    }
    assert(v@.subrange(0, end as int) =~= v@.take(end as int));
    slice(&v, 0, end)
}

/// The decimal digit `d`.
pub open spec fn digit(d: nat) -> char
    recommends
        d < 10,
{
    (48 + d) as char
}

/// Whether `c` is an ASCII decimal digit.
pub open spec fn is_digit(c: char) -> bool {
    '0' <= c <= '9'
}

/// The decimal notation of `n`, without leading zeros.
pub open spec fn decimal_text(n: nat) -> Seq<char>
    decreases n,
{
    if n < 10 {
        seq![digit(n)]
    } else {
        decimal_text(n / 10).push(digit(n % 10))
    }
}

fn digit_char(d: u64) -> (c: char)
    requires
        d < 10,
    ensures
        c == digit(d as nat),
{
    match d {
        0 => '0',
        1 => '1',
        2 => '2',
        3 => '3',
        4 => '4',
        5 => '5',
        6 => '6',
        7 => '7',
        8 => '8',
        _ => '9',
    }
}

/// The decimal notation of `n`, without leading zeros.
pub fn decimal(n: u64) -> (s: String)
    ensures
        s@ == decimal_text(n as nat),
    decreases n,
{
    if n < 10 {
        let mut s = String::new();
        s.push(digit_char(n));
        assert(s@ =~= decimal_text(n as nat));
        s
    } else {
        let mut s = decimal(n / 10);
        s.push(digit_char(n % 10));
        s
    }
}

/// The number that a sequence of decimal digits denotes.
pub open spec fn digits_value(s: Seq<char>) -> nat
    decreases s.len(),
{
    if s.len() == 0 {
        0
    } else {
        digits_value(s.drop_last()) * 10 + (s.last() as nat - 48) as nat
    }
}

/// Whether every character of `s` is an ASCII decimal digit.
pub open spec fn all_digits(s: Seq<char>) -> bool {
    forall|i: int| 0 <= i < s.len() ==> is_digit(#[trigger] s[i])
}

/// An unsigned 64-bit number: an optional `+` followed by at least one decimal digit.
pub open spec fn parsed_u64(s: Seq<char>) -> Option<u64> {
    let body = if s.len() > 0 && s[0] == '+' {
        s.skip(1)
    } else {
        s
    };
    if body.len() > 0 && all_digits(body) && digits_value(body) <= u64::MAX {
        Some(digits_value(body) as u64)
    } else {
        None
    }
}

/// A longer run of digits denotes no smaller number.
proof fn lemma_digits_value_grows(s: Seq<char>, n: int)
    requires
        0 <= n <= s.len(),
    ensures
        digits_value(s.take(n)) <= digits_value(s),
    decreases s.len(),
{
    if n == s.len() {
        assert(s.take(n) =~= s);
    } else {
        lemma_digits_value_grows(s.drop_last(), n);
        assert(s.drop_last().take(n) =~= s.take(n));
    }
}

/// Reads an unsigned 64-bit number.
pub fn parse_u64(s: &str) -> (r: Option<u64>)
    ensures
        r == parsed_u64(s@),
{
    let v = chars(s);
    let start: usize = if v.len() > 0 && v[0] == '+' {
        1
    } else {
        0
    };
    let ghost body = v@.skip(start as int);
    proof {
        assert(v@.skip(0) =~= v@);
    }
    if v.len() == start {
        return None;
    }
    let mut value: u64 = 0;
    let mut i: usize = start;
    while i < v.len()
        invariant
            start <= i <= v@.len(),
            body == v@.skip(start as int),
            body.len() > 0,
            body == (if s@.len() > 0 && s@[0] == '+' {
                s@.skip(1)
            } else {
                s@
            }),
            all_digits(body.take(i - start)),
            value == digits_value(body.take(i - start)),
        decreases v@.len() - i,
    {
        let c = v[i];
        proof {
            assert(body[i - start] == c);
            assert(body.take(i + 1 - start).drop_last() =~= body.take(i - start));
            assert(body.take(i + 1 - start).last() == c);
            lemma_digits_value_grows(body, i + 1 - start);
        }
        if c < '0' || c > '9' {
            return None;
        }
        let d: u64 = (c as u32 - 48) as u64;
        match value.checked_mul(10) {
            None => {
                return None;
            },
            Some(tens) => match tens.checked_add(d) {
                None => {
                    return None;
                },
                Some(next) => {
                    value = next;
                },
            },
        }
        assert forall|k: int| 0 <= k < i + 1 - start implies is_digit(
            #[trigger] body.take(i + 1 - start)[k],
        ) by {
            if k < i - start {
                assert(body.take(i - start)[k] == body.take(i + 1 - start)[k]);
            }
        }
        i = i + 1;
    }
    assert(body.take(v@.len() - start) =~= body);
    Some(value)
}

/// Reading back the decimal notation of a number gives that number.
pub proof fn lemma_decimal_text_denotes(n: nat)
    ensures
        decimal_text(n).len() > 0,
        all_digits(decimal_text(n)),
        digits_value(decimal_text(n)) == n,
        n <= u64::MAX ==> parsed_u64(decimal_text(n)) == Some(n as u64),
    decreases n,
{
    reveal_with_fuel(digits_value, 2);
    if n < 10 {
        assert(decimal_text(n).drop_last() =~= Seq::<char>::empty());
    } else {
        lemma_decimal_text_denotes(n / 10);
        let t = decimal_text(n);
        assert(t.drop_last() =~= decimal_text(n / 10));
        assert(t.last() == digit(n % 10));
        assert forall|i: int| 0 <= i < t.len() implies is_digit(#[trigger] t[i]) by {
            if i < t.len() - 1 {
                assert(t[i] == decimal_text(n / 10)[i]);
            }
        }
    }
    assert(is_digit(decimal_text(n)[0]));
}

/// Whether `c` has the Unicode property White_Space.
pub open spec fn is_white_space(c: char) -> bool {
    let n = c as u32;
    ||| 0x9 <= n <= 0xd
    ||| n == 0x20
    ||| n == 0x85
    ||| n == 0xa0
    ||| n == 0x1680
    ||| 0x2000 <= n <= 0x200a
    ||| n == 0x2028
    ||| n == 0x2029
    ||| n == 0x202f
    ||| n == 0x205f
    ||| n == 0x3000
}

/// Whether `c` has the Unicode property White_Space.
pub fn white_space(c: char) -> (r: bool)
    ensures
        r == is_white_space(c),
{
    let n: u32 = c as u32;
    (0x9 <= n && n <= 0xd) || n == 0x20 || n == 0x85 || n == 0xa0 || n == 0x1680 || (0x2000 <= n
        && n <= 0x200a) || n == 0x2028 || n == 0x2029 || n == 0x202f || n == 0x205f || n == 0x3000
}

/// `s` without white space at its start.
pub open spec fn without_leading_space(s: Seq<char>) -> Seq<char>
    decreases s.len(),
{
    if s.len() > 0 && is_white_space(s[0]) {
        without_leading_space(s.skip(1))
    } else {
        s
    }
}

/// `s` without white space at its end.
pub open spec fn without_trailing_space(s: Seq<char>) -> Seq<char>
    decreases s.len(),
{
    if s.len() > 0 && is_white_space(s.last()) {
        without_trailing_space(s.drop_last())
    } else {
        s
    }
}

/// `s` without white space at either end.
pub open spec fn trimmed(s: Seq<char>) -> Seq<char> {
    without_trailing_space(without_leading_space(s))
}

/// `s` without white space at either end.
pub fn trim(s: &str) -> (r: String)
    ensures
        r@ == trimmed(s@),
{
    let v = chars(s);
    let mut start: usize = 0;
    assert(v@.skip(0) =~= v@);
    while start < v.len() && white_space(v[start])
        invariant
            start <= v@.len(),
            without_leading_space(v@) == without_leading_space(v@.skip(start as int)),
        decreases v@.len() - start,
    {
        assert(v@.skip(start as int).skip(1) =~= v@.skip(start + 1));
        start = start + 1;
    }
    let ghost rest = v@.skip(start as int);
    let mut end: usize = v.len();
    assert(v@.subrange(start as int, end as int) =~= rest);
    while end > start && white_space(v[end - 1])
        invariant
            start <= end <= v@.len(),
            without_trailing_space(rest) == without_trailing_space(
                v@.subrange(start as int, end as int),
            ),
        decreases end,
    {
        assert(v@.subrange(start as int, end as int).drop_last() =~= v@.subrange(
            start as int,
            end - 1,
        ));
        end = end - 1;
    }
    slice(&v, start, end)
}

/// Text that neither starts nor ends with white space is left as it is by trimming.
pub proof fn lemma_trimmed_is_unchanged(s: Seq<char>)
    requires
        s.len() > 0,
        !is_white_space(s[0]),
        !is_white_space(s.last()),
    ensures
        trimmed(s) == s,
{
}

/// `text` with every occurrence of `from` replaced by `to`, scanning from the left and going on
/// behind each replaced occurrence.
pub open spec fn replaced(text: Seq<char>, from: Seq<char>, to: Seq<char>) -> Seq<char>
    decreases text.len(),
{
    if text.len() == 0 || from.len() == 0 {
        text
    } else if has_prefix(text, from) {
        to + replaced(text.skip(from.len() as int), from, to)
    } else {
        seq![text[0]] + replaced(text.skip(1), from, to)
    }
}

/// `text` with every occurrence of the non-empty `from` replaced by `to`.
pub fn replace_all(text: &str, from: &str, to: &str) -> (r: String)
    requires
        from@.len() > 0,
    ensures
        r@ == replaced(text@, from@, to@),
{
    let v = chars(text);
    let pattern = chars(from);
    let mut out = String::new();
    let mut i: usize = 0;
    assert(v@.skip(0) =~= v@);
    assert(out@ + replaced(v@, from@, to@) =~= replaced(v@, from@, to@));
    while i < v.len()
        invariant
            i <= v.len(),
            pattern@ == from@,
            from@.len() > 0,
            replaced(v@, from@, to@) == out@ + replaced(v@.skip(i as int), from@, to@),
        decreases v@.len() - i,
    {
        let ghost rest = v@.skip(i as int);
        let ghost before = out@;
        if matches_at(&v, i, &pattern) {
            out.append(to);
            assert(rest.skip(from@.len() as int) =~= v@.skip(i + from@.len()));
            assert(before + (to@ + replaced(v@.skip(i + from@.len()), from@, to@)) =~= before + to@
                + replaced(v@.skip(i + from@.len()), from@, to@));
            i = i + pattern.len();
        } else {
            out.push(v[i]);
            assert(rest.skip(1) =~= v@.skip(i + 1));
            assert(before + (seq![rest[0]] + replaced(v@.skip(i + 1), from@, to@)) =~= before.push(
                rest[0],
            ) + replaced(v@.skip(i + 1), from@, to@));
            i = i + 1;
        }
    }
    assert(out@ + replaced(v@.skip(i as int), from@, to@) =~= out@);
    out
}

/// Whether `part` stands in `s` from index `at` on.
pub open spec fn occurs_at(s: Seq<char>, part: Seq<char>, at: int) -> bool {
    0 <= at <= s.len() && has_prefix(s.skip(at), part)
}

/// Whether `part` stands anywhere in `s`.
pub open spec fn occurs(s: Seq<char>, part: Seq<char>) -> bool {
    exists|at: int| #[trigger] occurs_at(s, part, at)
}

/// Whether no occurrence of `part` can overlap an occurrence of `whole` only in part, nor hold it:
/// `part` neither starts nor ends with a character of `whole`, and `whole` does not occur in it.
pub open spec fn stands_clear(part: Seq<char>, whole: Seq<char>) -> bool {
    &&& part.len() > 0
    &&& !whole.contains(part[0])
    &&& !whole.contains(part.last())
    &&& !occurs(part, whole)
}

/// A prefix of the replaced text that cannot end within a replacement is a prefix of the text
/// itself.
proof fn lemma_replaced_prefix(text: Seq<char>, from: Seq<char>, to: Seq<char>, part: Seq<char>)
    requires
        to.len() > 0,
        part.len() > 0 ==> !to.contains(part.last()),
        !occurs(part, to),
        has_prefix(replaced(text, from, to), part),
    ensures
        has_prefix(text, part),
    decreases text.len(),
{
    let r = replaced(text, from, to);
    if text.len() == 0 || from.len() == 0 {
    } else if part.len() == 0 {
        assert(text.take(0) =~= part);
    } else if has_prefix(text, from) {
        let n = part.len() as int;
        if n >= to.len() {
            assert(part.skip(0).take(to.len() as int) =~= to) by {
                assert forall|k: int| 0 <= k < to.len() implies part[k] == to[k] by {
                    assert(r.take(n)[k] == part[k]);
                }
            }
            assert(occurs_at(part, to, 0));
        } else {
            assert(r.take(n)[n - 1] == part[n - 1]);
            assert(to.contains(to[n - 1]));
        }
    } else {
        let tail = replaced(text.skip(1), from, to);
        assert(r.take(part.len() as int)[0] == part[0]);
        assert(tail.take(part.len() - 1) =~= part.skip(1)) by {
            assert forall|k: int| 0 <= k < part.len() - 1 implies tail[k] == part[k + 1] by {
                assert(r.take(part.len() as int)[k + 1] == part[k + 1]);
            }
        }
        if occurs(part.skip(1), to) {
            let p = choose|p: int| #[trigger] occurs_at(part.skip(1), to, p);
            assert(part.skip(1).skip(p) =~= part.skip(p + 1));
            assert(occurs_at(part, to, p + 1));
        }
        lemma_replaced_prefix(text.skip(1), from, to, part.skip(1));
        assert(text.take(part.len() as int) =~= part) by {
            assert forall|k: int| 0 <= k < part.len() implies text[k] == part[k] by {
                if k > 0 {
                    assert(text.skip(1).take(part.len() - 1)[k - 1] == part.skip(1)[k - 1]);
                }
            }
        }
    }
}

/// Replacing changes nothing where what is to be replaced does not occur.
pub proof fn lemma_replaced_is_unchanged(text: Seq<char>, from: Seq<char>, to: Seq<char>)
    requires
        !occurs(text, from),
    ensures
        replaced(text, from, to) == text,
    decreases text.len(),
{
    if text.len() > 0 && from.len() > 0 {
        if has_prefix(text, from) {
            assert(text.skip(0) =~= text);
            assert(occurs_at(text, from, 0));
        }
        if occurs(text.skip(1), from) {
            let p = choose|p: int| #[trigger] occurs_at(text.skip(1), from, p);
            assert(text.skip(1).skip(p) =~= text.skip(p + 1));
            assert(occurs_at(text, from, p + 1));
        }
        lemma_replaced_is_unchanged(text.skip(1), from, to);
        assert(seq![text[0]] + text.skip(1) =~= text);
    }
}

/// Replacing leaves no occurrence of what was replaced, and brings in no occurrence of any other
/// text, as long as that text stands clear of the replacement.
pub proof fn lemma_replaced_occurrence(
    text: Seq<char>,
    from: Seq<char>,
    to: Seq<char>,
    part: Seq<char>,
)
    requires
        from.len() > 0,
        to.len() > 0,
        stands_clear(part, to),
    ensures
        occurs(replaced(text, from, to), part) ==> occurs(text, part) && part != from,
    decreases text.len(),
{
    let r = replaced(text, from, to);
    if occurs(r, part) {
        let at = choose|at: int| #[trigger] occurs_at(r, part, at);
        if text.len() == 0 {
            assert(r.skip(at).len() == 0);
        } else if has_prefix(text, from) {
            let rest = text.skip(from.len() as int);
            if at < to.len() {
                assert(r.skip(at).take(part.len() as int)[0] == to[at]);
                assert(to.contains(to[at]));
            } else {
                assert(r.skip(at) =~= replaced(rest, from, to).skip(at - to.len()));
                assert(occurs_at(replaced(rest, from, to), part, at - to.len()));
                lemma_replaced_occurrence(rest, from, to, part);
                let p = choose|p: int| #[trigger] occurs_at(rest, part, p);
                assert(rest.skip(p) =~= text.skip(from.len() + p));
                assert(occurs_at(text, part, from.len() + p));
            }
        } else {
            let rest = text.skip(1);
            if at == 0 {
                assert(r.skip(0) =~= r);
                lemma_replaced_prefix(text, from, to, part);
                assert(text.skip(0) =~= text);
                assert(occurs_at(text, part, 0));
            } else {
                assert(r.skip(at) =~= replaced(rest, from, to).skip(at - 1));
                assert(occurs_at(replaced(rest, from, to), part, at - 1));
                lemma_replaced_occurrence(rest, from, to, part);
                let p = choose|p: int| #[trigger] occurs_at(rest, part, p);
                assert(rest.skip(p) =~= text.skip(1 + p));
                assert(occurs_at(text, part, 1 + p));
            }
        }
    }
}

/// Whether `a` comes no later than `b` in the order of their characters' code points.
pub open spec fn text_le(a: Seq<char>, b: Seq<char>) -> bool
    decreases a.len(),
{
    if a.len() == 0 {
        true
    } else if b.len() == 0 {
        false
    } else if a[0] != b[0] {
        a[0] < b[0]
    } else {
        text_le(a.skip(1), b.skip(1))
    }
}

/// Whether `a` comes no later than `b` in the order of their characters' code points.
pub fn text_at_most(a: &str, b: &str) -> (r: bool)
    ensures
        r == text_le(a@, b@),
{
    let v = chars(a);
    let w = chars(b);
    let mut i: usize = 0;
    assert(v@.skip(0) =~= v@);
    assert(w@.skip(0) =~= w@);
    loop
        invariant
            i <= v@.len(),
            i <= w@.len(),
            v@ == a@,
            w@ == b@,
            text_le(a@, b@) == text_le(v@.skip(i as int), w@.skip(i as int)),
        decreases v@.len() - i,
    {
        if i >= v.len() {
            return true;
        }
        if i >= w.len() {
            return false;
        }
        if v[i] != w[i] {
            return v[i] < w[i];
        }
        assert(v@.skip(i as int).skip(1) =~= v@.skip(i + 1));
        assert(w@.skip(i as int).skip(1) =~= w@.skip(i + 1));
        i = i + 1;
    }
}

/// Of two texts, one comes no later than the other.
pub proof fn lemma_text_le_total(a: Seq<char>, b: Seq<char>)
    ensures
        text_le(a, b) || text_le(b, a),
    decreases a.len(),
{
    if a.len() > 0 && b.len() > 0 {
        lemma_text_le_total(a.skip(1), b.skip(1));
    }
}

/// The order of texts is transitive.
pub proof fn lemma_text_le_transitive(a: Seq<char>, b: Seq<char>, c: Seq<char>)
    requires
        text_le(a, b),
        text_le(b, c),
    ensures
        text_le(a, c),
    decreases a.len(),
{
    if a.len() > 0 && b.len() > 0 && c.len() > 0 && a[0] == b[0] && b[0] == c[0] {
        lemma_text_le_transitive(a.skip(1), b.skip(1), c.skip(1));
    }
}

/// Trimming takes away trailing occurrences of a character and nothing else: what is left does not
/// end in it, and is what the text starts with, and the rest of the text is that character alone.
pub proof fn law_only_trailing_characters_are_trimmed(s: Seq<char>, c: char)
    ensures
        !has_suffix_char(trimmed_end(s, c), c),
        trimmed_end(s, c).len() <= s.len(),
        trimmed_end(s, c) == s.take(trimmed_end(s, c).len() as int),
        forall|i: int| trimmed_end(s, c).len() <= i < s.len() ==> #[trigger] s[i] == c,
    decreases s.len(),
{
    if s.len() > 0 && s.last() == c {
        law_only_trailing_characters_are_trimmed(s.drop_last(), c);
        let n = trimmed_end(s, c).len() as int;
        assert(s.drop_last().take(n) =~= s.take(n));
        assert forall|i: int| n <= i < s.len() implies #[trigger] s[i] == c by {
            if i < s.len() - 1 {
                assert(s[i] == s.drop_last()[i]);
            }
        }
    } else {
        assert(s.take(s.len() as int) =~= s);
    }
}

/// White space at either end of a text does not count, and nothing else is taken away from it.
pub proof fn law_only_space_around_is_trimmed(before: Seq<char>, s: Seq<char>, after: Seq<char>)
    requires
        forall|i: int| 0 <= i < before.len() ==> is_white_space(#[trigger] before[i]),
        forall|i: int| 0 <= i < after.len() ==> is_white_space(#[trigger] after[i]),
        s.len() > 0 ==> !is_white_space(s[0]) && !is_white_space(s.last()),
    ensures
        trimmed(before + s + after) == s,
{
    let rest = s + after;
    lemma_leading_space(before, rest);
    assert(before + s + after =~= before + rest);
    if s.len() > 0 {
        assert(rest[0] == s[0]);
        lemma_trailing_space(s, after);
    } else {
        assert(rest =~= after);
        assert(after + Seq::<char>::empty() =~= after);
        lemma_leading_space(after, Seq::empty());
    }
}

proof fn lemma_leading_space(before: Seq<char>, rest: Seq<char>)
    requires
        forall|i: int| 0 <= i < before.len() ==> is_white_space(#[trigger] before[i]),
    ensures
        without_leading_space(before + rest) == without_leading_space(rest),
    decreases before.len(),
{
    if before.len() == 0 {
        assert(before + rest =~= rest);
    } else {
        assert((before + rest)[0] == before[0]);
        assert((before + rest).skip(1) =~= before.skip(1) + rest);
        assert forall|i: int| 0 <= i < before.skip(1).len() implies is_white_space(
            #[trigger] before.skip(1)[i],
        ) by {
            assert(before.skip(1)[i] == before[i + 1]);
        }
        lemma_leading_space(before.skip(1), rest);
    }
}

proof fn lemma_trailing_space(s: Seq<char>, after: Seq<char>)
    requires
        forall|i: int| 0 <= i < after.len() ==> is_white_space(#[trigger] after[i]),
        s.len() > 0,
        !is_white_space(s.last()),
    ensures
        without_trailing_space(s + after) == s,
    decreases after.len(),
{
    if after.len() == 0 {
        assert(s + after =~= s);
    } else {
        assert((s + after).last() == after.last());
        assert(after.last() == after[after.len() - 1]);
        assert((s + after).drop_last() =~= s + after.drop_last());
        assert forall|i: int| 0 <= i < after.drop_last().len() implies is_white_space(
            #[trigger] after.drop_last()[i],
        ) by {
            assert(after.drop_last()[i] == after[i]);
        }
        lemma_trailing_space(s, after.drop_last());
    }
}

/// A number is written out in decimal digits that denote it, without leading zeros.
pub proof fn law_numbers_are_written_in_decimal(n: nat)
    ensures
        all_digits(decimal_text(n)),
        digits_value(decimal_text(n)) == n,
        n > 0 ==> decimal_text(n)[0] != '0',
        n == 0 ==> decimal_text(n) == seq!['0'],
    decreases n,
{
    lemma_decimal_text_denotes(n);
    if n >= 10 {
        law_numbers_are_written_in_decimal(n / 10);
        assert(decimal_text(n)[0] == decimal_text(n / 10)[0]);
    }
}

/// One digit more makes a number ten times as large, plus the digit.
pub proof fn law_digits_have_their_place_value(s: Seq<char>, d: char)
    ensures
        digits_value(Seq::empty()) == 0,
        d == '0' ==> digits_value(s.push(d)) == 10 * digits_value(s),
        d == '1' ==> digits_value(s.push(d)) == 10 * digits_value(s) + 1,
        '0' < d <= '9' ==> digits_value(s.push(d)) == digits_value(s.push(((d as u32 - 1) as char)))
            + 1,
{
    let e = (d as u32 - 1) as char;
    assert(s.push(d).drop_last() =~= s);
    assert(s.push(e).drop_last() =~= s);
    assert(digits_value(s.push(d)) == digits_value(s) * 10 + (d as nat - 48) as nat);
    assert(digits_value(s.push(e)) == digits_value(s) * 10 + (e as nat - 48) as nat);
}

/// An occurrence is replaced where it stands: what comes before the first one stays, and what
/// follows it is treated in the same way.
pub proof fn law_occurrences_are_replaced_in_place(
    before: Seq<char>,
    from: Seq<char>,
    after: Seq<char>,
    to: Seq<char>,
)
    requires
        from.len() > 0,
        forall|at: int| 0 <= at < before.len() ==> !#[trigger] occurs_at(
            before + from + after,
            from,
            at,
        ),
    ensures
        replaced(before + from + after, from, to) == before + to + replaced(after, from, to),
        !occurs(before, from) ==> replaced(before, from, to) == before,
    decreases before.len(),
{
    let text = before + from + after;
    if !occurs(before, from) {
        lemma_replaced_is_unchanged(before, from, to);
    }
    if before.len() == 0 {
        assert(text.take(from.len() as int) =~= from);
        assert(text.skip(from.len() as int) =~= after);
        assert(before + to + replaced(after, from, to) =~= to + replaced(after, from, to));
    } else {
        let rest = before.skip(1);
        assert(text.skip(1) =~= rest + from + after);
        assert(text.skip(0) =~= text);
        assert(!occurs_at(text, from, 0));
        assert forall|at: int| 0 <= at < rest.len() implies !#[trigger] occurs_at(
            rest + from + after,
            from,
            at,
        ) by {
            assert(text.skip(1).skip(at) =~= text.skip(at + 1));
            assert(!occurs_at(text, from, at + 1));
        }
        law_occurrences_are_replaced_in_place(rest, from, after, to);
        assert(text[0] == before[0]);
        assert(seq![before[0]] + (rest + to + replaced(after, from, to)) =~= before + to + replaced(
            after,
            from,
            to,
        ));
    }
}

/// Texts stand in the order of their first difference; a text that another one starts with comes
/// before it.
pub proof fn law_texts_are_ordered_by_their_first_difference(
    start: Seq<char>,
    a: Seq<char>,
    b: Seq<char>,
)
    requires
        a.len() > 0 && b.len() > 0 ==> a[0] != b[0],
    ensures
        text_le(start + a, start + b) <==> a.len() == 0 || (b.len() > 0 && a[0] < b[0]),
    decreases start.len(),
{
    if start.len() == 0 {
        assert(start + a =~= a);
        assert(start + b =~= b);
    } else {
        assert((start + a).skip(1) =~= start.skip(1) + a);
        assert((start + b).skip(1) =~= start.skip(1) + b);
        law_texts_are_ordered_by_their_first_difference(start.skip(1), a, b);
    }
}

/// A text begins with another exactly where it goes on from there, and holds another exactly where
/// something stands before and behind it.
pub proof fn law_parts_stand_within_the_whole(s: Seq<char>, part: Seq<char>, c: char)
    ensures
        has_prefix(s, part) <==> exists|rest: Seq<char>| s == #[trigger] (part + rest),
        occurs(s, part) <==> exists|before: Seq<char>, after: Seq<char>|
            s == #[trigger] (before + part + after),
        has_prefix_char(s.insert(0, c), c),
        has_suffix_char(s.push(c), c),
        has_prefix_char(s, c) ==> s.len() > 0 && s == s.skip(1).insert(0, c),
        has_suffix_char(s, c) ==> s.len() > 0 && s == s.drop_last().push(c),
{
    if has_prefix(s, part) {
        assert(s =~= part + s.skip(part.len() as int));
    }
    if exists|rest: Seq<char>| s == #[trigger] (part + rest) {
        let rest = choose|rest: Seq<char>| s == #[trigger] (part + rest);
        assert((part + rest).take(part.len() as int) =~= part);
    }
    if occurs(s, part) {
        let at = choose|at: int| #[trigger] occurs_at(s, part, at);
        assert(s.skip(at).take(part.len() as int) == part);
        assert(s =~= s.take(at) + part + s.skip(at + part.len()));
    }
    if exists|before: Seq<char>, after: Seq<char>| s == #[trigger] (before + part + after) {
        let (before, after) = choose|before: Seq<char>, after: Seq<char>|
            s == #[trigger] (before + part + after);
        let at = before.len() as int;
        assert(s.skip(at).take(part.len() as int) =~= part);
        assert(occurs_at(s, part, at));
    }
    if has_prefix_char(s, c) {
        assert(s =~= s.skip(1).insert(0, c));
    }
    if has_suffix_char(s, c) {
        assert(s =~= s.drop_last().push(c));
    }
}

/// Spaces, tabs and line breaks are white space; nothing else that ASCII can print is.
pub proof fn law_white_space_is_not_printed(c: char)
    ensures
        c == ' ' || c == '\t' || c == '\n' || c == '\r' ==> is_white_space(c),
        '!' <= c <= '~' ==> !is_white_space(c),
{
}

} // verus!
