//! Line, field and number handling for ASCII text.
//!
//! The bundled reference data is ASCII text. This module splits it into
//! lines, trims whitespace, splits comma-separated rows and reads unsigned
//! decimal counts, following the conventions of Rust's `str::lines`,
//! `str::trim`, `str::split` and `usize::from_str` on ASCII input.

use vstd::prelude::*;

verus! {

/// Line feed.
pub const LINE_FEED: u8 = 10;

/// Carriage return.
pub const CARRIAGE_RETURN: u8 = 13;

/// ASCII whitespace: space, tab, line feed, vertical tab, form feed and
/// carriage return.
pub open spec fn is_whitespace(b: u8) -> bool {
    b == 32 || (9 <= b && b <= 13)
}

/// Index of the first `b` in `t`, or `-1` when there is none.
pub open spec fn first_index_of(t: Seq<u8>, b: u8) -> int
    decreases t.len(),
{
    if t.len() == 0 {
        -1
    } else if t[0] == b {
        0
    } else {
        let rest = first_index_of(t.drop_first(), b);
        if rest < 0 {
            -1
        } else {
            rest + 1
        }
    }
}

/// `first_index_of` is `-1` or an index of the first occurrence.
pub proof fn lemma_first_index_of(t: Seq<u8>, b: u8)
    ensures
        -1 <= first_index_of(t, b) < t.len(),
        first_index_of(t, b) >= 0 ==> t[first_index_of(t, b)] == b,
        forall|k: int| 0 <= k < t.len() && (first_index_of(t, b) < 0 || k < first_index_of(t, b))
            ==> #[trigger] t[k] != b,
    decreases t.len(),
{
    if t.len() > 0 && t[0] != b {
        lemma_first_index_of(t.drop_first(), b);
        assert forall|k: int|
            0 <= k < t.len() && (first_index_of(t, b) < 0 || k < first_index_of(t, b))
            implies #[trigger] t[k] != b by {
            if k > 0 {
                assert(t[k] == t.drop_first()[k - 1]);
            }
        }
    }
}

/// The first occurrence of `b` is at `m` (or there is none when `m == t.len()`)
/// when no earlier byte is `b`.
pub proof fn lemma_first_index_at(t: Seq<u8>, b: u8, m: int)
    requires
        0 <= m <= t.len(),
        forall|k: int| 0 <= k < m ==> #[trigger] t[k] != b,
        m < t.len() ==> t[m] == b,
    ensures
        first_index_of(t, b) == (if m < t.len() { m } else { -1 }),
{
    lemma_first_index_of(t, b);
    let f = first_index_of(t, b);
    if f >= 0 && f < m {
        assert(t[f] != b);
    }
    if m < t.len() && (f < 0 || m < f) {
        assert(t[m] != b);
    }
}

/// Removes one trailing carriage return.
pub open spec fn strip_carriage_return(t: Seq<u8>) -> Seq<u8> {
    if t.len() > 0 && t.last() == CARRIAGE_RETURN {
        t.drop_last()
    } else {
        t
    }
}

/// The lines of `t`, as Rust's `str::lines` yields them: pieces between line
/// feeds, a carriage return before a line feed removed, and no empty piece
/// after a final line feed.
pub open spec fn lines(t: Seq<u8>) -> Seq<Seq<u8>>
    decreases t.len(),
{
    if t.len() == 0 {
        seq![]
    } else {
        let i = first_index_of(t, LINE_FEED);
        if i < 0 {
            seq![t]
        } else {
            proof {
                lemma_first_index_of(t, LINE_FEED);
            }
            seq![strip_carriage_return(t.subrange(0, i))] + lines(t.subrange(i + 1, t.len() as int))
        }
    }
}

/// The contents of a sequence of byte vectors.
pub open spec fn views(v: Seq<Vec<u8>>) -> Seq<Seq<u8>> {
    v.map_values(|l: Vec<u8>| l@)
}

/// Copies `t[start..end]`.
pub fn copy_range(t: &[u8], start: usize, end: usize) -> (out: Vec<u8>)
    requires
        start <= end <= t.len(),
    ensures
        out@ == t@.subrange(start as int, end as int),
{
    let mut out: Vec<u8> = Vec::new();
    let mut k = start;
    while k < end
        invariant
            start <= k <= end <= t.len(),
            out@ == t@.subrange(start as int, k as int),
        decreases end - k,
    {
        out.push(t[k]);
        k = k + 1;
    }
    out
}

/// Copies a byte string.
pub fn copy_all(t: &[u8]) -> (out: Vec<u8>)
    ensures
        out@ == t@,
{
    let out = copy_range(t, 0, t.len());
    proof {
        assert(t@.subrange(0, t@.len() as int) == t@);
    }
    out
}

/// Splits `t` into lines (see [`lines`]).
pub fn split_lines(t: &[u8]) -> (out: Vec<Vec<u8>>)
    ensures
        views(out@) == lines(t@),
{
    let n = t.len();
    let mut out: Vec<Vec<u8>> = Vec::new();
    let mut start: usize = 0;
    let mut i: usize = 0;
    proof {
        assert(views(out@) =~= seq![]);
        assert(t@.subrange(0, n as int) == t@);
    }
    while i < n
        invariant
            n == t.len(),
            start <= i <= n,
            forall|k: int| start <= k < i ==> #[trigger] t@[k] != LINE_FEED,
            lines(t@) == views(out@) + lines(t@.subrange(start as int, n as int)),
        decreases n - i,
    {
        if t[i] == LINE_FEED {
            let ghost rest = t@.subrange(start as int, n as int);
            proof {
                assert forall|k: int| 0 <= k < i - start implies #[trigger] rest[k] != LINE_FEED by {
                    assert(rest[k] == t@[start + k]);
                }
                lemma_first_index_at(rest, LINE_FEED, i - start);
                assert(rest.subrange(0, i - start) == t@.subrange(start as int, i as int));
                assert(rest.subrange(i - start + 1, rest.len() as int)
                    == t@.subrange(i + 1, n as int));
            }
            let end = if i > start && t[i - 1] == CARRIAGE_RETURN { i - 1 } else { i };
            let line = copy_range(t, start, end);
            proof {
                let piece = t@.subrange(start as int, i as int);
                if i > start && t@[i - 1] == CARRIAGE_RETURN {
                    assert(strip_carriage_return(piece) == piece.drop_last());
                    assert(piece.drop_last() == t@.subrange(start as int, i - 1));
                }
            }
            let ghost before = views(out@);
            out.push(line);
            proof {
                assert(views(out@) =~= before.push(line@));
                assert(lines(rest) == seq![line@] + lines(t@.subrange(i + 1, n as int)));
                assert(before + lines(rest) == views(out@) + lines(t@.subrange(i + 1, n as int)));
            }
            start = i + 1;
        }
        i = i + 1;
    }
    if start < n {
        let ghost rest = t@.subrange(start as int, n as int);
        proof {
            assert forall|k: int| 0 <= k < n - start implies #[trigger] rest[k] != LINE_FEED by {
                assert(rest[k] == t@[start + k]);
            }
            lemma_first_index_at(rest, LINE_FEED, n - start);
        }
        let line = copy_range(t, start, n);
        let ghost before = views(out@);
        out.push(line);
        proof {
            assert(views(out@) =~= before.push(line@));
            assert(lines(rest) == seq![line@]);
        }
    } else {
        proof {
            assert(t@.subrange(start as int, n as int).len() == 0);
            assert(views(out@) + seq![] == views(out@));
        }
    }
    out
}

/// The pieces of `t` between separators, as Rust's `str::split` yields them:
/// always at least one piece, empty pieces kept.
pub open spec fn split(t: Seq<u8>, sep: u8) -> Seq<Seq<u8>>
    decreases t.len(),
{
    let i = first_index_of(t, sep);
    if i < 0 {
        seq![t]
    } else {
        proof {
            lemma_first_index_of(t, sep);
        }
        seq![t.subrange(0, i)] + split(t.subrange(i + 1, t.len() as int), sep)
    }
}

/// [`split`] yields at least one piece.
pub proof fn lemma_split_nonempty(t: Seq<u8>, sep: u8)
    ensures
        split(t, sep).len() >= 1,
{
    lemma_first_index_of(t, sep);
}

/// Splits `t` at every `sep` (see [`split`]).
pub fn split_on(t: &[u8], sep: u8) -> (out: Vec<Vec<u8>>)
    ensures
        views(out@) == split(t@, sep),
{
    let n = t.len();
    let mut out: Vec<Vec<u8>> = Vec::new();
    let mut start: usize = 0;
    let mut i: usize = 0;
    proof {
        assert(views(out@) =~= seq![]);
        assert(t@.subrange(0, n as int) == t@);
    }
    while i < n
        invariant
            n == t.len(),
            start <= i <= n,
            forall|k: int| start <= k < i ==> #[trigger] t@[k] != sep,
            split(t@, sep) == views(out@) + split(t@.subrange(start as int, n as int), sep),
        decreases n - i,
    {
        if t[i] == sep {
            let ghost rest = t@.subrange(start as int, n as int);
            proof {
                assert forall|k: int| 0 <= k < i - start implies #[trigger] rest[k] != sep by {
                    assert(rest[k] == t@[start + k]);
                }
                lemma_first_index_at(rest, sep, i - start);
                assert(rest.subrange(0, i - start) == t@.subrange(start as int, i as int));
                assert(rest.subrange(i - start + 1, rest.len() as int)
                    == t@.subrange(i + 1, n as int));
            }
            let piece = copy_range(t, start, i);
            let ghost before = views(out@);
            out.push(piece);
            proof {
                assert(views(out@) =~= before.push(piece@));
                assert(split(rest, sep) == seq![piece@] + split(t@.subrange(i + 1, n as int), sep));
                assert(before + split(rest, sep)
                    == views(out@) + split(t@.subrange(i + 1, n as int), sep));
            }
            start = i + 1;
        }
        i = i + 1;
    }
    let ghost rest = t@.subrange(start as int, n as int);
    proof {
        assert forall|k: int| 0 <= k < n - start implies #[trigger] rest[k] != sep by {
            assert(rest[k] == t@[start + k]);
        }
        lemma_first_index_at(rest, sep, n - start);
    }
    let piece = copy_range(t, start, n);
    let ghost before = views(out@);
    out.push(piece);
    proof {
        assert(views(out@) =~= before.push(piece@));
        assert(split(rest, sep) == seq![piece@]);
    }
    out
}

/// `t` without its leading whitespace.
pub open spec fn trim_start(t: Seq<u8>) -> Seq<u8>
    decreases t.len(),
{
    if t.len() > 0 && is_whitespace(t[0]) {
        trim_start(t.drop_first())
    } else {
        t
    }
}

/// `t` without its trailing whitespace.
pub open spec fn trim_end(t: Seq<u8>) -> Seq<u8>
    decreases t.len(),
{
    if t.len() > 0 && is_whitespace(t.last()) {
        trim_end(t.drop_last())
    } else {
        t
    }
}

/// `t` without leading and trailing whitespace.
pub open spec fn trim(t: Seq<u8>) -> Seq<u8> {
    trim_end(trim_start(t))
}

/// Returns `t` without leading and trailing whitespace.
pub fn trimmed(t: &[u8]) -> (out: Vec<u8>)
    ensures
        out@ == trim(t@),
{
    let n = t.len();
    let a = skip_whitespace(t, 0, n);
    proof {
        assert(t@.subrange(0, n as int) == t@);
    }
    let mut b: usize = n;
    while b > a && (t[b - 1] == 32 || (9 <= t[b - 1] && t[b - 1] <= 13))
        invariant
            n == t.len(),
            a <= b <= n,
            trim(t@) == trim_end(t@.subrange(a as int, b as int)),
        decreases b - a,
    {
        proof {
            assert(t@.subrange(a as int, b as int).drop_last() == t@.subrange(a as int, b - 1));
        }
        b = b - 1;
    }
    copy_range(t, a, b)
}

/// The leading run of non-whitespace bytes of `t`.
pub open spec fn take_token(t: Seq<u8>) -> Seq<u8>
    decreases t.len(),
{
    if t.len() == 0 || is_whitespace(t[0]) {
        seq![]
    } else {
        seq![t[0]] + take_token(t.drop_first())
    }
}

/// The first whitespace-separated token of `t` (empty when there is none), as
/// the first item of Rust's `str::split_whitespace`.
pub open spec fn first_token(t: Seq<u8>) -> Seq<u8> {
    take_token(trim_start(t))
}

/// Returns the index of the first byte of `t[start..end]` that is not
/// whitespace, or `end` when there is none.
pub fn skip_whitespace(t: &[u8], start: usize, end: usize) -> (a: usize)
    requires
        start <= end <= t.len(),
    ensures
        start <= a <= end,
        trim_start(t@.subrange(start as int, end as int)) == t@.subrange(a as int, end as int),
{
    let mut a = start;
    while a < end && (t[a] == 32 || (9 <= t[a] && t[a] <= 13))
        invariant
            start <= a <= end <= t.len(),
            trim_start(t@.subrange(start as int, end as int))
                == trim_start(t@.subrange(a as int, end as int)),
        decreases end - a,
    {
        proof {
            assert(t@.subrange(a as int, end as int).drop_first() == t@.subrange(a + 1, end as int));
        }
        a = a + 1;
    }
    a
}

/// Returns the first whitespace-separated token of `t[start..end]`.
pub fn first_token_in(t: &[u8], start: usize, end: usize) -> (token: Vec<u8>)
    requires
        start <= end <= t.len(),
    ensures
        token@ == first_token(t@.subrange(start as int, end as int)),
{
    let a = skip_whitespace(t, start, end);
    let mut b = a;
    while b < end && !(t[b] == 32 || (9 <= t[b] && t[b] <= 13))
        invariant
            start <= a <= b <= end <= t.len(),
            forall|k: int| a <= k < b ==> !is_whitespace(#[trigger] t@[k]),
            take_token(t@.subrange(a as int, end as int))
                == t@.subrange(a as int, b as int) + take_token(t@.subrange(b as int, end as int)),
        decreases end - b,
    {
        proof {
            let rest = t@.subrange(b as int, end as int);
            assert(rest.drop_first() == t@.subrange(b + 1, end as int));
            assert(take_token(rest) == seq![t@[b as int]] + take_token(t@.subrange(b + 1, end as int)));
            assert(t@.subrange(a as int, b + 1) == t@.subrange(a as int, b as int) + seq![t@[b as int]]);
        }
        b = b + 1;
    }
    proof {
        assert(take_token(t@.subrange(b as int, end as int)) == Seq::<u8>::empty());
        assert(t@.subrange(a as int, b as int) + Seq::<u8>::empty() == t@.subrange(a as int, b as int));
    }
    copy_range(t, a, b)
}

/// Whether `b` is an ASCII decimal digit.
pub open spec fn is_digit(b: u8) -> bool {
    48 <= b <= 57
}

/// The value of a run of decimal digits (most significant first).
pub open spec fn digits_value(s: Seq<u8>) -> nat
    decreases s.len(),
{
    if s.len() == 0 {
        0
    } else {
        digits_value(s.drop_last()) * 10 + (s.last() - 48) as nat
    }
}

/// The digits of a count: `t` without a single leading `+`.
pub open spec fn unsigned_digits(t: Seq<u8>) -> Seq<u8> {
    if t.len() > 0 && t[0] == 43 {
        t.drop_first()
    } else {
        t
    }
}

/// The count that `t` spells, as Rust's `usize::from_str` reads it: an
/// optional `+` and at least one decimal digit, with a value that fits in
/// `usize`.
pub open spec fn decimal_count(t: Seq<u8>) -> Option<nat> {
    let d = unsigned_digits(t);
    if d.len() > 0 && (forall|k: int| 0 <= k < d.len() ==> is_digit(#[trigger] d[k]))
        && digits_value(d) <= usize::MAX {
        Some(digits_value(d))
    } else {
        None
    }
}

proof fn lemma_digits_value_grows(s: Seq<u8>, k: int)
    requires
        0 <= k <= s.len(),
        forall|j: int| 0 <= j < s.len() ==> is_digit(#[trigger] s[j]),
    ensures
        digits_value(s.subrange(0, k)) <= digits_value(s),
    decreases s.len() - k,
{
    if k < s.len() {
        lemma_digits_value_grows(s, k + 1);
        let p = s.subrange(0, k + 1);
        assert(p.drop_last() == s.subrange(0, k));
    } else {
        assert(s.subrange(0, k) == s);
    }
}

/// Reads a count written in decimal (see [`decimal_count`]).
pub fn parse_count(t: &[u8]) -> (count: Option<usize>)
    ensures
        count is Some <==> decimal_count(t@) is Some,
        count matches Some(n) ==> decimal_count(t@) == Some(n as nat),
{
    let n = t.len();
    let start: usize = if n > 0 && t[0] == 43 { 1 } else { 0 };
    let ghost d = unsigned_digits(t@);
    proof {
        assert(d == t@.subrange(start as int, n as int));
    }
    if start == n {
        return None;
    }
    let mut value: usize = 0;
    let mut i = start;
    proof {
        assert(t@.subrange(start as int, start as int).len() == 0);
    }
    while i < n
        invariant
            start <= i <= n == t.len(),
            d == t@.subrange(start as int, n as int),
            d == unsigned_digits(t@),
            forall|k: int| start <= k < i ==> is_digit(#[trigger] t@[k]),
            value as nat == digits_value(t@.subrange(start as int, i as int)),
        decreases n - i,
    {
        let b = t[i];
        if !(48 <= b && b <= 57) {
            proof {
                assert(!is_digit(d[i - start]));
                assert(!(forall|k: int| 0 <= k < d.len() ==> is_digit(#[trigger] d[k])));
                assert(decimal_count(t@) is None);
            }
            return None;
        }
        let ghost prefix = t@.subrange(start as int, i + 1);
        proof {
            assert(prefix.drop_last() == t@.subrange(start as int, i as int));
            assert(prefix.last() == b);
            assert(digits_value(prefix) == value * 10 + (b - 48) as nat);
        }
        match value.checked_mul(10) {
            None => {
                proof {
                    if forall|k: int| 0 <= k < d.len() ==> is_digit(#[trigger] d[k]) {
                        lemma_digits_value_grows(d, i + 1 - start);
                        assert(d.subrange(0, i + 1 - start) == prefix);
                        assert(digits_value(d) >= digits_value(prefix));
                        assert(value * 10 > usize::MAX);
                    }
                    assert(decimal_count(t@) is None);
                }
                return None;
            },
            Some(tens) => match tens.checked_add((b - 48) as usize) {
                None => {
                    proof {
                        if forall|k: int| 0 <= k < d.len() ==> is_digit(#[trigger] d[k]) {
                            lemma_digits_value_grows(d, i + 1 - start);
                            assert(d.subrange(0, i + 1 - start) == prefix);
                        }
                        assert(decimal_count(t@) is None);
                    }
                    return None;
                },
                Some(next) => {
                    value = next;
                },
            },
        }
        i = i + 1;
    }
    proof {
        assert(t@.subrange(start as int, n as int) == d);
        assert forall|k: int| 0 <= k < d.len() implies is_digit(#[trigger] d[k]) by {
            assert(d[k] == t@[start + k]);
        }
    }
    Some(value)
}

/// Colon.
pub const COLON: u8 = 58;

/// Index of the last `b` in `t`, or `-1` when there is none.
pub open spec fn last_index_of(t: Seq<u8>, b: u8) -> int
    decreases t.len(),
{
    if t.len() == 0 {
        -1
    } else if t.last() == b {
        t.len() - 1
    } else {
        last_index_of(t.drop_last(), b)
    }
}

/// `last_index_of` is `-1` or an index of the last occurrence.
pub proof fn lemma_last_index_of(t: Seq<u8>, b: u8)
    ensures
        -1 <= last_index_of(t, b) < t.len(),
        last_index_of(t, b) >= 0 ==> t[last_index_of(t, b)] == b,
        forall|k: int| 0 <= k < t.len() && last_index_of(t, b) < k ==> #[trigger] t[k] != b,
    decreases t.len(),
{
    if t.len() > 0 && t.last() != b {
        lemma_last_index_of(t.drop_last(), b);
        assert forall|k: int| 0 <= k < t.len() && last_index_of(t, b) < k implies #[trigger] t[k] != b by {
            if k < t.len() - 1 {
                assert(t[k] == t.drop_last()[k]);
            }
        }
    }
}

/// The value that a `key: value` line offers for `label`, as
/// `line.rsplit_once(':')` and `split_whitespace` read it: the line is split
/// at its last colon, the key (leading whitespace ignored) must start with
/// `label`, and the value is the first whitespace-separated token after the
/// colon, which must exist.
pub open spec fn line_field(line: Seq<u8>, label: Seq<u8>) -> Option<Seq<u8>> {
    let c = last_index_of(line, COLON);
    if c < 0 {
        None
    } else {
        let token = first_token(line.subrange(c + 1, line.len() as int));
        if label.is_prefix_of(trim_start(line.subrange(0, c))) && token.len() > 0 {
            Some(token)
        } else {
            None
        }
    }
}

/// The value of `label` in the first line that offers one (see [`line_field`]).
pub open spec fn find_field(ls: Seq<Seq<u8>>, label: Seq<u8>) -> Option<Seq<u8>>
    decreases ls.len(),
{
    if ls.len() == 0 {
        None
    } else if line_field(ls[0], label) is Some {
        line_field(ls[0], label)
    } else {
        find_field(ls.drop_first(), label)
    }
}

/// Returns whether `t[start..end]` starts with `prefix`.
pub fn starts_with(t: &[u8], start: usize, end: usize, prefix: &[u8]) -> (r: bool)
    requires
        start <= end <= t.len(),
    ensures
        r == prefix@.is_prefix_of(t@.subrange(start as int, end as int)),
{
    if prefix.len() > end - start {
        return false;
    }
    let mut k: usize = 0;
    while k < prefix.len()
        invariant
            k <= prefix.len() <= end - start,
            start <= end <= t.len(),
            forall|j: int| 0 <= j < k ==> prefix@[j] == #[trigger] t@[start + j],
        decreases prefix.len() - k,
    {
        if prefix[k] != t[start + k] {
            proof {
                assert(t@.subrange(start as int, end as int)[k as int] == t@[start + k]);
            }
            return false;
        }
        k = k + 1;
    }
    proof {
        let window = t@.subrange(start as int, end as int);
        assert forall|j: int| 0 <= j < prefix@.len() implies prefix@[j] == #[trigger] window.subrange(
            0,
            prefix@.len() as int,
        )[j] by {
            assert(prefix@[j] == t@[start + j]);
        }
        assert(prefix@ =~= window.subrange(0, prefix@.len() as int));
    }
    true
}

/// Returns the value that `line` offers for `label` (see [`line_field`]).
pub fn line_field_of(line: &[u8], label: &[u8]) -> (value: Option<Vec<u8>>)
    ensures
        value is Some <==> line_field(line@, label@) is Some,
        value matches Some(v) ==> line_field(line@, label@) == Some(v@),
{
    let n = line.len();
    let mut c: usize = n;
    while c > 0 && line[c - 1] != COLON
        invariant
            c <= n == line.len(),
            forall|k: int| c <= k < n ==> #[trigger] line@[k] != COLON,
        decreases c,
    {
        c = c - 1;
    }
    proof {
        lemma_last_index_of(line@, COLON);
        let l = last_index_of(line@, COLON);
        if c > 0 {
            if l >= c {
                assert(line@[l] == COLON);
            }
            assert(line@[c - 1] == COLON);
            assert(l == c - 1);
        } else {
            if l >= 0 {
                assert(line@[l] == COLON);
            }
            assert(l == -1);
        }
    }
    if c == 0 {
        return None;
    }
    let colon = c - 1;
    let key_start = skip_whitespace(line, 0, colon);
    proof {
        assert(line@.subrange(0, colon as int).len() == colon);
    }
    let token = first_token_in(line, c, n);
    let matches = starts_with(line, key_start, colon, label);
    if matches && token.len() > 0 {
        Some(token)
    } else {
        None
    }
}

/// Returns the value of `label` in the first line that offers one (see
/// [`find_field`]).
pub fn find_field_in(ls: &Vec<Vec<u8>>, label: &[u8]) -> (value: Option<Vec<u8>>)
    ensures
        value is Some <==> find_field(views(ls@), label@) is Some,
        value matches Some(v) ==> find_field(views(ls@), label@) == Some(v@),
{
    let mut k: usize = 0;
    proof {
        assert(views(ls@).subrange(0, views(ls@).len() as int) == views(ls@));
    }
    while k < ls.len()
        invariant
            k <= ls.len(),
            find_field(views(ls@), label@)
                == find_field(views(ls@).subrange(k as int, ls.len() as int), label@),
        decreases ls.len() - k,
    {
        let ghost rest = views(ls@).subrange(k as int, ls.len() as int);
        proof {
            assert(rest[0] == ls@[k as int]@);
            assert(rest.drop_first() == views(ls@).subrange(k + 1, ls.len() as int));
        }
        let found = line_field_of(ls[k].as_slice(), label);
        if found.is_some() {
            return found;
        }
        k = k + 1;
    }
    None
}

} // verus!
