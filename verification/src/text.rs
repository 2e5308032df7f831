//! Character-sequence helpers shared by the schema grammar: line splitting,
//! whitespace trimming, tokenizing and integer literals, each with its
//! mathematical definition.

use vstd::prelude::*;
use vstd::string::StrSliceExecFns;
use vstd::string::StringExecFns;

verus! {

/// Whitespace as this grammar understands it: space, tab, carriage return,
/// line feed, vertical tab and form feed.
pub open spec fn is_ws(c: char) -> bool {
    c == ' ' || c == '\t' || c == '\r' || c == '\n' || c as u32 == 11 || c as u32 == 12
}

/// Runtime counterpart of [`is_ws`].
pub fn is_ws_char(c: char) -> (r: bool)
    ensures
        r == is_ws(c),
{
    c == ' ' || c == '\t' || c == '\r' || c == '\n' || c as u32 == 11 || c as u32 == 12
}

/// A lowercase letter `a`..`z`.
pub open spec fn is_lower(c: char) -> bool {
    97 <= c as u32 && c as u32 <= 122
}

/// An uppercase letter `A`..`Z`.
pub open spec fn is_upper(c: char) -> bool {
    65 <= c as u32 && c as u32 <= 90
}

/// A decimal digit `0`..`9`.
pub open spec fn is_digit(c: char) -> bool {
    48 <= c as u32 && c as u32 <= 57
}

/// A letter, as identifiers understand it.
pub open spec fn is_letter(c: char) -> bool {
    is_lower(c) || is_upper(c)
}

/// A character allowed in an identifier after the first one.
pub open spec fn is_ident_char(c: char) -> bool {
    is_letter(c) || is_digit(c) || c == '_'
}

/// An identifier: a letter followed by letters, digits or underscores.
pub open spec fn is_identifier(s: Seq<char>) -> bool {
    s.len() > 0 && is_letter(s[0]) && forall|i: int| 0 <= i < s.len() ==> is_ident_char(
        #[trigger] s[i],
    )
}

/// Runtime check of [`is_identifier`].
pub fn is_identifier_str(s: &str) -> (r: bool)
    ensures
        r == is_identifier(s@),
{
    let n = s.unicode_len();
    if n == 0 {
        return false;
    }
    let c0 = s.get_char(0);
    if !(97 <= c0 as u32 && c0 as u32 <= 122 || 65 <= c0 as u32 && c0 as u32 <= 90) {
        return false;
    }
    let mut i: usize = 1;
    while i < n
        invariant
            1 <= i <= n,
            n == s@.len(),
            is_letter(s@[0]),
            forall|j: int| 0 <= j < i ==> is_ident_char(#[trigger] s@[j]),
        decreases n - i,
    {
        let c = s.get_char(i);
        let cu = c as u32;
        if !(97 <= cu && cu <= 122 || 65 <= cu && cu <= 90 || 48 <= cu && cu <= 57 || c == '_') {
            return false;
        }
        i = i + 1;
    }
    true
}

/// Index of the first occurrence of `c` in `s`, or `s.len()` if absent.
pub open spec fn find_char(s: Seq<char>, c: char) -> int
    decreases s.len(),
{
    if s.len() == 0 {
        0
    } else if s[0] == c {
        0
    } else {
        1 + find_char(s.drop_first(), c)
    }
}

pub proof fn lemma_find_char(s: Seq<char>, c: char)
    ensures
        0 <= find_char(s, c) <= s.len(),
        forall|j: int| 0 <= j < find_char(s, c) ==> s[j] != c,
        find_char(s, c) < s.len() ==> s[find_char(s, c)] == c,
    decreases s.len(),
{
    if s.len() > 0 && s[0] != c {
        let t = s.drop_first();
        lemma_find_char(t, c);
        assert forall|j: int| 0 <= j < find_char(s, c) implies s[j] != c by {
            if j > 0 {
                assert(s[j] == t[j - 1]);
            }
        }
    }
}

/// `find_char` is pinned down by its characterization: if nothing before `k`
/// is `c` and either `k` is the length or `s[k] == c`, then `find_char` is `k`.
pub proof fn lemma_find_char_is(s: Seq<char>, c: char, k: int)
    requires
        0 <= k <= s.len(),
        forall|j: int| 0 <= j < k ==> s[j] != c,
        k < s.len() ==> s[k] == c,
    ensures
        find_char(s, c) == k,
    decreases s.len(),
{
    if s.len() == 0 {
    } else if s[0] == c {
        assert(k == 0);
    } else {
        assert(k >= 1);
        let t = s.drop_first();
        assert(forall|j: int| 0 <= j < k - 1 ==> t[j] != c);
        lemma_find_char_is(t, c, k - 1);
    }
}

/// The sequence with leading whitespace removed.
pub open spec fn trim_front(s: Seq<char>) -> Seq<char>
    decreases s.len(),
{
    if s.len() > 0 && is_ws(s[0]) {
        trim_front(s.drop_first())
    } else {
        s
    }
}

/// The sequence with trailing whitespace removed.
pub open spec fn trim_back(s: Seq<char>) -> Seq<char>
    decreases s.len(),
{
    if s.len() > 0 && is_ws(s.last()) {
        trim_back(s.drop_last())
    } else {
        s
    }
}

/// The sequence with whitespace removed from both ends.
pub open spec fn trim_chars(s: Seq<char>) -> Seq<char> {
    trim_back(trim_front(s))
}

/// If everything before `k` is whitespace and `s[k]` is not (or `k` is the
/// length), trimming the front yields the tail from `k`.
pub proof fn lemma_trim_front_is(s: Seq<char>, k: int)
    requires
        0 <= k <= s.len(),
        forall|j: int| 0 <= j < k ==> is_ws(s[j]),
        k < s.len() ==> !is_ws(s[k]),
    ensures
        trim_front(s) == s.subrange(k, s.len() as int),
    decreases s.len(),
{
    if k == 0 {
        if s.len() == 0 || !is_ws(s[0]) {
            assert(s.subrange(0, s.len() as int) =~= s);
        }
    } else {
        let t = s.drop_first();
        assert(forall|j: int| 0 <= j < k - 1 ==> is_ws(t[j]));
        lemma_trim_front_is(t, k - 1);
        assert(t.subrange(k - 1, t.len() as int) =~= s.subrange(k, s.len() as int));
    }
}

/// If everything from `k` on is whitespace and `s[k-1]` is not (or `k` is 0),
/// trimming the back yields the prefix up to `k`.
pub proof fn lemma_trim_back_is(s: Seq<char>, k: int)
    requires
        0 <= k <= s.len(),
        forall|j: int| k <= j < s.len() ==> is_ws(s[j]),
        k > 0 ==> !is_ws(s[k - 1]),
    ensures
        trim_back(s) == s.subrange(0, k),
    decreases s.len(),
{
    if k == s.len() {
        if s.len() == 0 || !is_ws(s.last()) {
            assert(s.subrange(0, s.len() as int) =~= s);
        } else {
            assert(false);
        }
    } else {
        let t = s.drop_last();
        assert(forall|j: int| k <= j < t.len() ==> is_ws(t[j]));
        lemma_trim_back_is(t, k);
        assert(t.subrange(0, k) =~= s.subrange(0, k));
    }
}

/// Runtime trimming, equal to [`trim_chars`] of the view.
pub fn trim_str(s: &str) -> (r: String)
    ensures
        r@ == trim_chars(s@),
{
    let n = s.unicode_len();
    let mut start: usize = 0;
    while start < n && is_ws_char(s.get_char(start))
        invariant
            0 <= start <= n,
            n == s@.len(),
            forall|j: int| 0 <= j < start ==> is_ws(s@[j]),
        decreases n - start,
    {
        start = start + 1;
    }
    proof {
        lemma_trim_front_is(s@, start as int);
    }
    let mut end: usize = n;
    while end > start && is_ws_char(s.get_char(end - 1))
        invariant
            start <= end <= n,
            n == s@.len(),
            forall|j: int| end <= j < n ==> is_ws(s@[j]),
        decreases end,
    {
        end = end - 1;
    }
    proof {
        let f = trim_front(s@);
        assert(f == s@.subrange(start as int, n as int));
        assert(forall|j: int| end - start <= j < f.len() ==> is_ws(f[j]));
        lemma_trim_back_is(f, end - start);
        assert(f.subrange(0, end - start) =~= s@.subrange(start as int, end as int));
    }
    s.substring_char(start, end).to_owned()
}

/// The lines of `s`: the segments between `'\n'` characters. A text without
/// a newline is one line; every newline ends a line, so a trailing newline
/// yields a final empty line.
pub open spec fn split_lines_spec(s: Seq<char>) -> Seq<Seq<char>>
    decreases s.len(),
    via split_lines_spec_decreases
{
    let i = find_char(s, '\n');
    if i == s.len() {
        seq![s]
    } else {
        seq![s.take(i)] + split_lines_spec(s.skip(i + 1))
    }
}

#[via_fn]
proof fn split_lines_spec_decreases(s: Seq<char>) {
    lemma_find_char(s, '\n');
}

/// Runtime line splitting, equal to [`split_lines_spec`] of the view.
pub fn split_lines(s: &str) -> (r: Vec<String>)
    ensures
        r@.map_values(|x: String| x@) == split_lines_spec(s@),
{
    let n = s.unicode_len();
    let mut res: Vec<String> = Vec::new();
    let mut start: usize = 0;
    let mut i: usize = 0;
    proof {
        assert(s@.subrange(0, n as int) =~= s@);
        assert(res@.map_values(|x: String| x@) + split_lines_spec(s@) =~= split_lines_spec(s@));
    }
    while i < n
        invariant
            0 <= start <= i <= n,
            n == s@.len(),
            forall|j: int| start <= j < i ==> s@[j] != '\n',
            split_lines_spec(s@) == res@.map_values(|x: String| x@) + split_lines_spec(
                s@.subrange(start as int, n as int),
            ),
        decreases n - i,
    {
        if s.get_char(i) == '\n' {
            let line = s.substring_char(start, i).to_owned();
            proof {
                let rest = s@.subrange(start as int, n as int);
                assert(forall|j: int| 0 <= j < i - start ==> rest[j] != '\n');
                assert(rest[i - start] == '\n');
                lemma_find_char_is(rest, '\n', i - start);
                assert(rest.take(i - start) =~= s@.subrange(start as int, i as int));
                assert(rest.skip(i - start + 1) =~= s@.subrange(i + 1 as int, n as int));
                assert(res@.push(line).map_values(|x: String| x@) =~= res@.map_values(
                    |x: String| x@,
                ).push(line@));
                assert(res@.map_values(|x: String| x@) + split_lines_spec(rest) =~= res@.push(
                    line,
                ).map_values(|x: String| x@) + split_lines_spec(
                    s@.subrange(i + 1 as int, n as int),
                ));
            }
            res.push(line);
            start = i + 1;
        }
        i = i + 1;
    }
    let line = s.substring_char(start, n).to_owned();
    proof {
        let rest = s@.subrange(start as int, n as int);
        assert(forall|j: int| 0 <= j < rest.len() ==> rest[j] != '\n');
        lemma_find_char_is(rest, '\n', rest.len() as int);
        assert(res@.push(line).map_values(|x: String| x@) =~= res@.map_values(
            |x: String| x@,
        ).push(line@));
        assert(res@.map_values(|x: String| x@) + split_lines_spec(rest) =~= res@.push(
            line,
        ).map_values(|x: String| x@));
    }
    res.push(line);
    res
}

/// Index of the first whitespace character in `s`, or `s.len()` if absent.
pub open spec fn find_ws(s: Seq<char>) -> int
    decreases s.len(),
{
    if s.len() == 0 {
        0
    } else if is_ws(s[0]) {
        0
    } else {
        1 + find_ws(s.drop_first())
    }
}

pub proof fn lemma_find_ws(s: Seq<char>)
    ensures
        0 <= find_ws(s) <= s.len(),
        forall|j: int| 0 <= j < find_ws(s) ==> !is_ws(s[j]),
        find_ws(s) < s.len() ==> is_ws(s[find_ws(s)]),
    decreases s.len(),
{
    if s.len() > 0 && !is_ws(s[0]) {
        let t = s.drop_first();
        lemma_find_ws(t);
        assert forall|j: int| 0 <= j < find_ws(s) implies !is_ws(s[j]) by {
            if j > 0 {
                assert(s[j] == t[j - 1]);
            }
        }
    }
}

pub proof fn lemma_find_ws_is(s: Seq<char>, k: int)
    requires
        0 <= k <= s.len(),
        forall|j: int| 0 <= j < k ==> !is_ws(s[j]),
        k < s.len() ==> is_ws(s[k]),
    ensures
        find_ws(s) == k,
    decreases s.len(),
{
    if s.len() == 0 {
    } else if is_ws(s[0]) {
        assert(k == 0);
    } else {
        assert(k >= 1);
        let t = s.drop_first();
        assert(forall|j: int| 0 <= j < k - 1 ==> !is_ws(t[j]));
        lemma_find_ws_is(t, k - 1);
    }
}

/// The whitespace-separated tokens of `s`, in order.
pub open spec fn tokens_of(s: Seq<char>) -> Seq<Seq<char>>
    decreases s.len(),
    via tokens_of_decreases
{
    if s.len() == 0 {
        Seq::empty()
    } else if is_ws(s[0]) {
        tokens_of(s.drop_first())
    } else {
        seq![s.take(find_ws(s))] + tokens_of(s.skip(find_ws(s)))
    }
}

#[via_fn]
proof fn tokens_of_decreases(s: Seq<char>) {
    lemma_find_ws(s);
}

/// Runtime tokenizing, equal to [`tokens_of`] of the view.
pub fn tokenize(s: &str) -> (r: Vec<String>)
    ensures
        r@.map_values(|x: String| x@) == tokens_of(s@),
{
    let n = s.unicode_len();
    let mut res: Vec<String> = Vec::new();
    let mut pos: usize = 0;
    proof {
        assert(s@.subrange(0, n as int) =~= s@);
        assert(res@.map_values(|x: String| x@) + tokens_of(s@) =~= tokens_of(s@));
    }
    while pos < n
        invariant
            0 <= pos <= n,
            n == s@.len(),
            tokens_of(s@) == res@.map_values(|x: String| x@) + tokens_of(
                s@.subrange(pos as int, n as int),
            ),
        decreases n - pos,
    {
        if is_ws_char(s.get_char(pos)) {
            proof {
                let rest = s@.subrange(pos as int, n as int);
                assert(rest.drop_first() =~= s@.subrange(pos + 1 as int, n as int));
            }
            pos = pos + 1;
        } else {
            let mut e: usize = pos + 1;
            while e < n && !is_ws_char(s.get_char(e))
                invariant
                    pos < e <= n,
                    n == s@.len(),
                    forall|j: int| pos <= j < e ==> !is_ws(#[trigger] s@[j]),
                decreases n - e,
            {
                e = e + 1;
            }
            let tok = s.substring_char(pos, e).to_owned();
            proof {
                let rest = s@.subrange(pos as int, n as int);
                assert(forall|j: int| 0 <= j < e - pos ==> !is_ws(#[trigger] rest[j]));
                lemma_find_ws_is(rest, e - pos);
                assert(rest.take(e - pos) =~= s@.subrange(pos as int, e as int));
                assert(rest.skip(e - pos) =~= s@.subrange(e as int, n as int));
                assert(res@.push(tok).map_values(|x: String| x@) =~= res@.map_values(
                    |x: String| x@,
                ).push(tok@));
                assert(res@.map_values(|x: String| x@) + tokens_of(rest) =~= res@.push(
                    tok,
                ).map_values(|x: String| x@) + tokens_of(s@.subrange(e as int, n as int)));
            }
            res.push(tok);
            pos = e;
        }
    }
    proof {
        assert(res@.map_values(|x: String| x@) + tokens_of(s@.subrange(n as int, n as int)) =~= res@.map_values(
            |x: String| x@,
        ));
    }
    res
}

/// The digit character for a value below ten.
pub open spec fn digit_char(n: int) -> char {
    (48 + n) as char
}

/// The decimal rendering of `n`, most significant digit first, no sign and
/// no leading zero.
pub open spec fn dec_chars(n: int) -> Seq<char>
    decreases n,
{
    if n < 10 {
        seq![digit_char(n)]
    } else {
        dec_chars(n / 10) + seq![digit_char(n % 10)]
    }
}

/// One digit as a string.
fn digit_str(d: usize) -> (r: &'static str)
    requires
        d < 10,
    ensures
        r@ == seq![digit_char(d as int)],
{
    proof {
        reveal_strlit("0");
        reveal_strlit("1");
        reveal_strlit("2");
        reveal_strlit("3");
        reveal_strlit("4");
        reveal_strlit("5");
        reveal_strlit("6");
        reveal_strlit("7");
        reveal_strlit("8");
        reveal_strlit("9");
    }
    match d {
        0 => "0",
        1 => "1",
        2 => "2",
        3 => "3",
        4 => "4",
        5 => "5",
        6 => "6",
        7 => "7",
        8 => "8",
        _ => {
            proof {
                assert(seq![digit_char(d as int)] =~= "9"@);
            }
            "9"
        },
    }
}

/// Renders `n` in decimal.
pub fn usize_to_string(n: usize) -> (r: String)
    ensures
        r@ == dec_chars(n as int),
    decreases n,
{
    if n < 10 {
        digit_str(n).to_owned()
    } else {
        let mut high = usize_to_string(n / 10);
        high.append(digit_str(n % 10));
        high
    }
}

/// Character-wise string comparison.
pub fn str_eq(a: &str, b: &str) -> (r: bool)
    ensures
        r == (a@ == b@),
{
    let na = a.unicode_len();
    let nb = b.unicode_len();
    if na != nb {
        return false;
    }
    let mut i: usize = 0;
    while i < na
        invariant
            0 <= i <= na,
            na == a@.len(),
            na == b@.len(),
            forall|j: int| 0 <= j < i ==> a@[j] == b@[j],
        decreases na - i,
    {
        if a.get_char(i) != b.get_char(i) {
            return false;
        }
        i = i + 1;
    }
    proof {
        assert(a@ =~= b@);
    }
    true
}

/// Runtime search for a character, equal to [`find_char`] of the view.
pub fn find_char_str(s: &str, c: char) -> (r: usize)
    ensures
        r == find_char(s@, c),
{
    let n = s.unicode_len();
    let mut i: usize = 0;
    while i < n
        invariant
            0 <= i <= n,
            n == s@.len(),
            forall|j: int| 0 <= j < i ==> s@[j] != c,
        decreases n - i,
    {
        if s.get_char(i) == c {
            proof {
                lemma_find_char_is(s@, c, i as int);
            }
            return i;
        }
        i = i + 1;
    }
    proof {
        lemma_find_char_is(s@, c, n as int);
    }
    n
}

/// Numeric value of a digit character.
pub open spec fn digit_val(c: char) -> int {
    c as u32 - 48
}

/// Every character of `s` is a decimal digit.
pub open spec fn all_digits(s: Seq<char>) -> bool {
    forall|i: int| 0 <= i < s.len() ==> is_digit(#[trigger] s[i])
}

/// The number that the digit string `s` denotes in base ten.
pub open spec fn digits_value(s: Seq<char>) -> int
    decreases s.len(),
{
    if s.len() == 0 {
        0
    } else {
        10 * digits_value(s.drop_last()) + digit_val(s.last())
    }
}

pub proof fn lemma_digits_value_nonneg(s: Seq<char>)
    requires
        all_digits(s),
    ensures
        digits_value(s) >= 0,
    decreases s.len(),
{
    if s.len() > 0 {
        let t = s.drop_last();
        assert(forall|i: int| 0 <= i < t.len() ==> is_digit(#[trigger] t[i])) by {
            assert(forall|i: int| 0 <= i < t.len() ==> t[i] == s[i] && is_digit(#[trigger] s[i]));
        }
        lemma_digits_value_nonneg(t);
        assert(is_digit(s.last()));
    }
}

/// Extending an all-digit string can only grow its value.
pub proof fn lemma_digits_value_prefix_le(s: Seq<char>, k: int)
    requires
        all_digits(s),
        0 <= k <= s.len(),
    ensures
        digits_value(s.take(k)) <= digits_value(s),
    decreases s.len() - k,
{
    if k < s.len() {
        let p = s.take(k);
        let t = s.take(k + 1);
        assert(t.drop_last() =~= p);
        assert(forall|i: int| 0 <= i < p.len() ==> is_digit(#[trigger] p[i])) by {
            assert(forall|i: int| 0 <= i < p.len() ==> p[i] == s[i] && is_digit(#[trigger] s[i]));
        }
        lemma_digits_value_nonneg(p);
        assert(t.last() == s[k] && is_digit(s[k]));
        assert(digits_value(t) == 10 * digits_value(p) + digit_val(t.last()));
        assert(digits_value(p) <= digits_value(t));
        lemma_digits_value_prefix_le(s, k + 1);
    } else {
        assert(s.take(k) =~= s);
    }
}

/// The digit part of an unsigned literal: an optional leading `+` is dropped.
pub open spec fn unsigned_digits(s: Seq<char>) -> Seq<char> {
    if s.len() > 0 && s[0] == '+' {
        s.drop_first()
    } else {
        s
    }
}

/// What `u64` parsing accepts and yields: an optional `+`, one or more
/// digits, and a value that fits.
pub open spec fn spec_parse_u64(s: Seq<char>) -> Option<u64> {
    let d = unsigned_digits(s);
    if d.len() > 0 && all_digits(d) && digits_value(d) <= u64::MAX {
        Some(digits_value(d) as u64)
    } else {
        None
    }
}

/// Runtime `u64` literal parsing, equal to [`spec_parse_u64`] of the view.
pub fn parse_u64(s: &str) -> (r: Option<u64>)
    ensures
        r == spec_parse_u64(s@),
{
    let n = s.unicode_len();
    let mut i: usize = 0;
    if n > 0 && s.get_char(0) == '+' {
        i = 1;
    }
    let ghost d = unsigned_digits(s@);
    proof {
        assert(d =~= s@.subrange(i as int, n as int));
    }
    if i >= n {
        return None;
    }
    let mut acc: u64 = 0;
    let mut j: usize = i;
    while j < n
        invariant
            i <= j <= n,
            i < n,
            n == s@.len(),
            d == unsigned_digits(s@),
            d == s@.subrange(i as int, n as int),
            forall|k: int| 0 <= k < j - i ==> is_digit(#[trigger] d[k]),
            acc == digits_value(d.take(j - i)),
        decreases n - j,
    {
        let c = s.get_char(j);
        let cu = c as u32;
        if !(48 <= cu && cu <= 57) {
            assert(!is_digit(d[j - i]));
            return None;
        }
        let dv: u64 = (cu - 48) as u64;
        proof {
            let t = d.take(j - i + 1);
            assert(t.drop_last() =~= d.take(j - i));
            assert(t.last() == d[j - i] && d[j - i] == s@[j as int]);
            assert(dv as int == digit_val(d[j - i]));
            assert(digits_value(t) == 10 * (acc as int) + dv as int);
        }
        if acc > (u64::MAX - dv) / 10 {
            proof {
                assert(10 * (acc as int) + dv as int > u64::MAX) by {
                    assert(acc as int >= (u64::MAX - dv) as int / 10 + 1);
                }
                if all_digits(d) {
                    lemma_digits_value_prefix_le(d, j - i + 1);
                    assert(digits_value(d) >= digits_value(d.take(j - i + 1)));
                    assert(digits_value(d) > u64::MAX);
                }
            }
            return None;
        }
        acc = acc * 10 + dv;
        j = j + 1;
    }
    proof {
        assert(d.take(n - i) =~= d);
    }
    Some(acc)
}

/// The sign of a signed literal: `-1` for a leading `-`, else `1`.
pub open spec fn signed_sign(s: Seq<char>) -> int {
    if s.len() > 0 && s[0] == '-' {
        -1
    } else {
        1
    }
}

/// The digit part of a signed literal: an optional leading sign is dropped.
pub open spec fn signed_digits(s: Seq<char>) -> Seq<char> {
    if s.len() > 0 && (s[0] == '-' || s[0] == '+') {
        s.drop_first()
    } else {
        s
    }
}

/// What `i64` parsing accepts and yields: an optional sign, one or more
/// digits, and a value that fits.
pub open spec fn spec_parse_i64(s: Seq<char>) -> Option<i64> {
    let d = signed_digits(s);
    let v = signed_sign(s) * digits_value(d);
    if d.len() > 0 && all_digits(d) && i64::MIN <= v <= i64::MAX {
        Some(v as i64)
    } else {
        None
    }
}

/// Runtime `i64` literal parsing, equal to [`spec_parse_i64`] of the view.
pub fn parse_i64(s: &str) -> (r: Option<i64>)
    ensures
        r == spec_parse_i64(s@),
{
    let n = s.unicode_len();
    let mut i: usize = 0;
    let mut negative: bool = false;
    if n > 0 {
        let c0 = s.get_char(0);
        if c0 == '-' {
            negative = true;
            i = 1;
        } else if c0 == '+' {
            i = 1;
        }
    }
    let ghost d = signed_digits(s@);
    proof {
        assert(d =~= s@.subrange(i as int, n as int));
    }
    if i >= n {
        return None;
    }
    let mut acc: u64 = 0;
    let mut j: usize = i;
    while j < n
        invariant
            i <= j <= n,
            i < n,
            n == s@.len(),
            d == signed_digits(s@),
            d == s@.subrange(i as int, n as int),
            negative == (signed_sign(s@) == -1),
            forall|k: int| 0 <= k < j - i ==> is_digit(#[trigger] d[k]),
            acc == digits_value(d.take(j - i)),
        decreases n - j,
    {
        let c = s.get_char(j);
        let cu = c as u32;
        if !(48 <= cu && cu <= 57) {
            assert(!is_digit(d[j - i]));
            return None;
        }
        let dv: u64 = (cu - 48) as u64;
        proof {
            let t = d.take(j - i + 1);
            assert(t.drop_last() =~= d.take(j - i));
            assert(t.last() == d[j - i] && d[j - i] == s@[j as int]);
            assert(dv as int == digit_val(d[j - i]));
            assert(digits_value(t) == 10 * (acc as int) + dv as int);
        }
        if acc > (u64::MAX - dv) / 10 {
            proof {
                assert(10 * (acc as int) + dv as int > u64::MAX) by {
                    assert(acc as int >= (u64::MAX - dv) as int / 10 + 1);
                }
                if all_digits(d) {
                    lemma_digits_value_prefix_le(d, j - i + 1);
                    assert(digits_value(d) > u64::MAX);
                }
            }
            return None;
        }
        acc = acc * 10 + dv;
        j = j + 1;
    }
    proof {
        assert(d.take(n - i) =~= d);
    }
    if negative {
        if acc > 9223372036854775808u64 {
            return None;
        }
        if acc == 9223372036854775808u64 {
            return Some(i64::MIN);
        }
        Some(-(acc as i64))
    } else {
        if acc > i64::MAX as u64 {
            return None;
        }
        Some(acc as i64)
    }
}

} // verus!
