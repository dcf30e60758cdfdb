//! Strict parsers for the scalar cell values of the scraped tables: decimal
//! counts, fixed-point net values, and `yyyy-mm-dd` dates.
//!
//! Net values are held as fixed-point integers in units of 1/10000, so that
//! the arithmetic over them is exact; the table publishes values with four
//! decimal places.

use vstd::prelude::*;
use crate::errors::TypeMismatchError;
use crate::strutil::to_chars;

verus! {

/// How many fixed-point units make one whole net-value unit.
pub const VALUE_SCALE: i64 = 10000;

/// Seconds from a date's midnight to the market's historical close:
/// 15:00 at UTC+8, i.e. 07:00 UTC.
pub const MARKET_CLOSE_UTC_SECONDS: i64 = 25200;

pub open spec fn is_digit(c: char) -> bool {
    '0' <= c && c <= '9'
}

pub open spec fn digit_val(c: char) -> int {
    c as int - '0' as int
}

/// Every character is a decimal digit, and there is at least one.
pub open spec fn all_digits(s: Seq<char>) -> bool {
    s.len() > 0 && forall|i: int| 0 <= i < s.len() ==> is_digit(#[trigger] s[i])
}

/// The numeric value of a digit string.
pub open spec fn dec_val(s: Seq<char>) -> int
    decreases s.len(),
{
    if s.len() == 0 {
        0
    } else {
        dec_val(s.drop_last()) * 10 + digit_val(s.last())
    }
}

/// The digit string an unsigned decimal parse accepts: an optional leading
/// `+`, then digits only.
pub open spec fn unsigned_digits(s: Seq<char>) -> Option<Seq<char>> {
    if s.len() > 0 && s[0] == '+' {
        if all_digits(s.skip(1)) {
            Some(s.skip(1))
        } else {
            None
        }
    } else {
        if all_digits(s) {
            Some(s)
        } else {
            None
        }
    }
}

proof fn lemma_dec_val_nonneg(s: Seq<char>)
    requires
        forall|i: int| 0 <= i < s.len() ==> is_digit(#[trigger] s[i]),
    ensures
        dec_val(s) >= 0,
    decreases s.len(),
{
    if s.len() > 0 {
        lemma_dec_val_nonneg(s.drop_last());
    }
}

fn digit_of(c: char) -> (r: Option<u64>)
    ensures
        match r {
            Some(d) => is_digit(c) && d == digit_val(c) && d < 10,
            None => !is_digit(c),
        },
{
    if '0' <= c && c <= '9' {
        Some((c as u32 - '0' as u32) as u64)
    } else {
        None
    }
}

/// Parses the value of a range of digit cells, or reports that it exceeds
/// `limit`. `Ok` carries the value; `Err(())` means the value is over the
/// limit.
fn dec_val_limited(digits: &[char], start: usize, end: usize, limit: u64) -> (r: Result<u64, ()>)
    requires
        start <= end <= digits@.len(),
        limit >= 9,
        forall|i: int| start <= i < end ==> is_digit(#[trigger] digits@[i]),
    ensures
        match r {
            Ok(v) => v == dec_val(digits@.subrange(start as int, end as int)) && v <= limit,
            Err(()) => dec_val(digits@.subrange(start as int, end as int)) > limit,
        },
{
    let ghost whole = digits@.subrange(start as int, end as int);
    let mut acc: u64 = 0;
    let mut i: usize = start;
    while i < end
        invariant
            start <= i <= end <= digits@.len(),
            limit >= 9,
            forall|j: int| start <= j < end ==> is_digit(#[trigger] digits@[j]),
            whole == digits@.subrange(start as int, end as int),
            acc == dec_val(whole.take(i - start)),
            acc <= limit,
        decreases end - i,
    {
        let d = match digit_of(digits[i]) {
            Some(d) => d,
            None => {
                proof {
                    assert(is_digit(digits@[i as int]));
                }
                return Err(());
            },
        };
        proof {
            assert(whole.take(i + 1 - start).drop_last() =~= whole.take(i - start));
            assert(whole.take(i + 1 - start).last() == digits@[i as int]);
        }
        if acc > (limit - d) / 10 {
            proof {
                let t = whole.take(i + 1 - start);
                assert(dec_val(t) == acc * 10 + d);
                assert(acc * 10 + d > limit) by (nonlinear_arith)
                    requires
                        acc > (limit - d) / 10,
                        d < 10,
                        d <= limit,
                        limit <= u64::MAX,
                ;
                lemma_dec_val_grows(whole, i + 1 - start);
            }
            return Err(());
        }
        proof {
            assert(acc * 10 + d <= limit) by (nonlinear_arith)
                requires
                    acc <= (limit - d) / 10,
                    d < 10,
                    d <= limit,
            ;
        }
        acc = acc * 10 + d;
        i = i + 1;
    }
    proof {
        assert(whole.take(i - start) =~= whole);
    }
    Ok(acc)
}

/// A digit string's value is at least the value of any of its prefixes.
proof fn lemma_dec_val_grows(s: Seq<char>, k: int)
    requires
        0 <= k <= s.len(),
        forall|i: int| 0 <= i < s.len() ==> is_digit(#[trigger] s[i]),
    ensures
        dec_val(s) >= dec_val(s.take(k)),
    decreases s.len() - k,
{
    if k < s.len() {
        lemma_dec_val_grows(s, k + 1);
        let t = s.take(k + 1);
        assert(t.drop_last() =~= s.take(k));
        lemma_dec_val_nonneg(s.take(k));
        assert(dec_val(t) == dec_val(s.take(k)) * 10 + digit_val(t.last()));
        assert(dec_val(s.take(k)) * 10 >= dec_val(s.take(k))) by (nonlinear_arith)
            requires
                dec_val(s.take(k)) >= 0,
        ;
    } else {
        assert(s.take(k) =~= s);
    }
}

/// Parses an unsigned decimal count, as the page and record counters use.
///
/// Accepts an optional leading `+` followed by decimal digits whose value
/// fits in `usize`; anything else is a `TypeMismatchError` naming the input.
pub fn parse_usize_from_str(string: &str) -> (r: Result<usize, TypeMismatchError>)
    ensures
        match r {
            Ok(v) => {
                &&& unsigned_digits(string@) matches Some(digits)
                &&& dec_val(unsigned_digits(string@).unwrap()) == v
                &&& v <= usize::MAX
            },
            Err(e) => {
                &&& match unsigned_digits(string@) {
                    Some(digits) => dec_val(digits) > usize::MAX,
                    None => true,
                }
                &&& e.expected_type@ == "usize"@
                &&& e.got@ == string@
            },
        },
{
    let chars = to_chars(string);
    let start: usize = if chars.len() > 0 && chars[0] == '+' {
        1
    } else {
        0
    };
    let mut ok = chars.len() > start;
    let mut i: usize = start;
    while i < chars.len()
        invariant
            start <= i <= chars@.len(),
            ok ==> chars@.len() > start,
            ok ==> forall|j: int| start <= j < i ==> is_digit(#[trigger] chars@[j]),
            !ok ==> !all_digits(chars@.skip(start as int)),
        decreases chars@.len() - i,
    {
        if digit_of(chars[i]).is_none() {
            proof {
                assert(chars@.skip(start as int)[i - start] == chars@[i as int]);
            }
            ok = false;
        }
        i = i + 1;
    }
    if !ok {
        return Err(
            TypeMismatchError {
                expected_type: String::from_str("usize"),
                got: string.to_owned(),
            },
        );
    }
    proof {
        assert(forall|j: int|
            0 <= j < chars@.skip(start as int).len() ==> is_digit(
                #[trigger] chars@.skip(start as int)[j],
            ));
        assert(all_digits(chars@.skip(start as int)));
        if start == 1 {
            assert(unsigned_digits(string@) == Some(chars@.skip(1)));
        } else {
            assert(chars@.skip(0) =~= chars@);
            assert(unsigned_digits(string@) == Some(chars@));
        }
    }
    proof {
        assert(chars@.subrange(start as int, chars@.len() as int) =~= chars@.skip(start as int));
    }
    match dec_val_limited(chars.as_slice(), start, chars.len(), usize::MAX as u64) {
        Ok(v) => Ok(v as usize),
        Err(()) => Err(
            TypeMismatchError {
                expected_type: String::from_str("usize"),
                got: string.to_owned(),
            },
        ),
    }
}

/// The first position of `c` in `s`, if any.
pub open spec fn first_index_of(s: Seq<char>, c: char) -> Option<int>
    decreases s.len(),
{
    if s.len() == 0 {
        None
    } else if s[0] == c {
        Some(0)
    } else {
        match first_index_of(s.skip(1), c) {
            Some(i) => Some(i + 1),
            None => None,
        }
    }
}

pub proof fn lemma_first_index_of(s: Seq<char>, c: char)
    ensures
        match first_index_of(s, c) {
            Some(i) => 0 <= i < s.len() && s[i] == c && forall|j: int| 0 <= j < i ==> s[j] != c,
            None => forall|j: int| 0 <= j < s.len() ==> s[j] != c,
        },
    decreases s.len(),
{
    if s.len() > 0 && s[0] != c {
        lemma_first_index_of(s.skip(1), c);
        assert forall|j: int| 1 <= j < s.len() implies s[j] == s.skip(1)[j - 1] by {}
    }
}

pub open spec fn pow10(k: nat) -> int
    decreases k,
{
    if k == 0 {
        1
    } else {
        10 * pow10((k - 1) as nat)
    }
}

/// The exact value, in units of 1/10000, of an unsigned fixed-point literal:
/// integer digits, optionally followed by `.` and one to four fraction
/// digits.
pub open spec fn fixed4_unsigned(s: Seq<char>) -> Option<int> {
    match first_index_of(s, '.') {
        None => if all_digits(s) {
            Some(dec_val(s) * (VALUE_SCALE as int))
        } else {
            None
        },
        Some(i) => {
            let ip = s.take(i);
            let fp = s.skip(i + 1);
            if all_digits(ip) && all_digits(fp) && fp.len() <= 4 {
                Some(dec_val(ip) * (VALUE_SCALE as int) + dec_val(fp) * pow10((4 - fp.len()) as nat))
            } else {
                None
            }
        },
    }
}

/// The exact value of a fixed-point literal with an optional leading minus.
pub open spec fn fixed4_of(s: Seq<char>) -> Option<int> {
    if s.len() > 0 && s[0] == '-' {
        match fixed4_unsigned(s.skip(1)) {
            Some(v) => Some(-v),
            None => None,
        }
    } else {
        fixed4_unsigned(s)
    }
}

/// Checks that every cell of `digits` in `[start, end)` is a decimal digit
/// and the range is not empty.
fn check_all_digits(digits: &[char], start: usize, end: usize) -> (r: bool)
    requires
        start <= end <= digits@.len(),
    ensures
        r == all_digits(digits@.subrange(start as int, end as int)),
{
    let ghost sub = digits@.subrange(start as int, end as int);
    if start == end {
        return false;
    }
    let mut i: usize = start;
    while i < end
        invariant
            start <= i <= end <= digits@.len(),
            sub == digits@.subrange(start as int, end as int),
            forall|j: int| start <= j < i ==> is_digit(#[trigger] digits@[j]),
        decreases end - i,
    {
        if digit_of(digits[i]).is_none() {
            proof {
                assert(sub[i - start] == digits@[i as int]);
            }
            return false;
        }
        i = i + 1;
    }
    proof {
        assert(forall|j: int| 0 <= j < sub.len() ==> sub[j] == digits@[start + j]);
    }
    true
}

/// Parses a net-value cell into fixed-point units of 1/10000.
///
/// Accepts an optional leading `-`, then decimal digits, then optionally a
/// `.` and one to four fraction digits; the table publishes values with four
/// decimal places. Anything else, or a value whose magnitude exceeds
/// `i64::MAX` units, is a `TypeMismatchError` naming the input.
pub fn parse_f32_from_str(string: &str) -> (r: Result<i64, TypeMismatchError>)
    ensures
        match r {
            Ok(v) => fixed4_of(string@) == Some(v as int) && v >= -i64::MAX,
            Err(e) => {
                &&& match fixed4_of(string@) {
                    Some(v) => v > i64::MAX || v < -i64::MAX,
                    None => true,
                }
                &&& e.expected_type@ == "float32"@
                &&& e.got@ == string@
            },
        },
{
    let chars = to_chars(string);
    match parse_fixed4(chars.as_slice()) {
        Some(v) => Ok(v),
        None => Err(
            TypeMismatchError {
                expected_type: String::from_str("float32"),
                got: string.to_owned(),
            },
        ),
    }
}

fn parse_fixed4(chars: &[char]) -> (r: Option<i64>)
    ensures
        match r {
            Some(v) => fixed4_of(chars@) == Some(v as int) && v >= -i64::MAX,
            None => match fixed4_of(chars@) {
                Some(v) => v > i64::MAX || v < -i64::MAX,
                None => true,
            },
        },
{
    let n = chars.len();
    let neg = n > 0 && chars[0] == '-';
    let start: usize = if neg {
        1
    } else {
        0
    };
    proof {
        if !neg {
            assert(chars@.skip(0) =~= chars@);
        }
    }
    match parse_fixed4_unsigned(chars, start) {
        Some(v) => if neg {
            Some(-v)
        } else {
            Some(v)
        },
        None => None,
    }
}

/// Parses the unsigned body `chars[start..]` into nonnegative fixed-point
/// units; `None` covers both a shape mismatch and a value over `i64::MAX`.
fn parse_fixed4_unsigned(chars: &[char], start: usize) -> (r: Option<i64>)
    requires
        start <= chars@.len(),
    ensures
        match r {
            Some(v) => v >= 0 && fixed4_unsigned(chars@.skip(start as int)) == Some(v as int),
            None => match fixed4_unsigned(chars@.skip(start as int)) {
                Some(v) => v > i64::MAX,
                None => true,
            },
        },
{
    let ghost body = chars@.skip(start as int);
    let n = chars.len();
    // locate the first '.' in the body
    let mut dot: usize = n;
    let mut i: usize = start;
    while i < n
        invariant
            start <= i <= n,
            n == chars@.len(),
            dot == n || (start <= dot < i && chars@[dot as int] == '.'),
            forall|j: int| start <= j < i && j < dot ==> chars@[j] != '.',
            dot == n ==> i <= dot,
        decreases n - i,
    {
        if dot == n && chars[i] == '.' {
            dot = i;
        }
        i = i + 1;
    }
    proof {
        lemma_first_index_of(body, '.');
        let fi = first_index_of(body, '.');
        if dot < n {
            assert(body[dot - start] == chars@[dot as int]);
            assert(forall|j: int| 0 <= j < dot - start ==> body[j] == chars@[#[trigger] (j + start)]);
            if fi is None {
                assert(false);
            } else {
                let i0 = fi.unwrap();
                if i0 < dot - start {
                    assert(body[i0] == '.');
                    assert(false);
                }
                if i0 > dot - start {
                    assert(body[dot - start] != '.');
                    assert(false);
                }
            }
            assert(fi == Some(dot - start as int));
        } else {
            assert(forall|j: int| 0 <= j < body.len() ==> body[j] == chars@[#[trigger] (j + start)]);
            assert(fi is None);
        }
    }
    if dot == n {
        // digits only
        if !check_all_digits(chars, start, n) {
            proof {
                assert(chars@.subrange(start as int, n as int) =~= body);
            }
            return None;
        }
        proof {
            assert(chars@.subrange(start as int, n as int) =~= body);
            assert(all_digits(body));
            lemma_dec_val_nonneg(body);
            assert forall|j: int| start <= j < n implies is_digit(#[trigger] chars@[j]) by {
                assert(chars@[j] == body[j - start]);
            }
        }
        match dec_val_limited(chars, start, n, u64::MAX) {
            Ok(v) => {
                let total: u128 = (v as u128) * (VALUE_SCALE as u128);
                if total > i64::MAX as u128 {
                    proof {
                        assert(dec_val(body) * 10000 > i64::MAX);
                    }
                    None
                } else {
                    Some(total as i64)
                }
            },
            Err(()) => {
                proof {
                    assert(dec_val(body) * 10000 >= dec_val(body) * 1) by (nonlinear_arith)
                        requires
                            dec_val(body) >= 0,
                    ;
                }
                None
            },
        }
    } else {
        // integer part, '.', one to four fraction digits
        let ghost ip = body.take(dot - start as int);
        let ghost fp = body.skip(dot - start + 1 as int);
        proof {
            assert(chars@.subrange(start as int, dot as int) =~= ip);
            assert(chars@.subrange(dot + 1 as int, n as int) =~= fp);
        }
        if !check_all_digits(chars, start, dot) {
            return None;
        }
        if !check_all_digits(chars, dot + 1, n) {
            return None;
        }
        if n - (dot + 1) > 4 {
            return None;
        }
        let frac_digits = n - (dot + 1);
        let ghost pad = (4 - fp.len()) as nat;
        proof {
            assert(fp.len() == n - dot - 1);
            assert(all_digits(ip));
            assert(all_digits(fp));
            assert forall|j: int| start <= j < dot implies is_digit(#[trigger] chars@[j]) by {
                assert(chars@[j] == ip[j - start]);
            }
            assert forall|j: int| dot + 1 <= j < n implies is_digit(#[trigger] chars@[j]) by {
                assert(chars@[j] == fp[j - (dot + 1)]);
            }
            lemma_dec_val_nonneg(ip);
            lemma_dec_val_nonneg(fp);
            lemma_dec_val_small(fp);
        }
        let iv = match dec_val_limited(chars, start, dot, u64::MAX) {
            Ok(iv) => iv,
            Err(()) => {
                proof {
                    assert(dec_val(ip) * 10000 >= dec_val(ip) * 1) by (nonlinear_arith)
                        requires
                            dec_val(ip) >= 0,
                    ;
                    lemma_pow10_small(pad);
                    assert(dec_val(fp) * pow10(pad) >= 0) by (nonlinear_arith)
                        requires
                            dec_val(fp) >= 0,
                            pow10(pad) >= 0,
                    ;
                }
                return None;
            },
        };
        let fv = match dec_val_limited(chars, dot + 1, n, 9999) {
            Ok(fv) => fv,
            Err(()) => {
                // unreachable: at most four digits
                return None;
            },
        };
        let scale: u128 = match frac_digits {
            1 => 1000,
            2 => 100,
            3 => 10,
            _ => 1,
        };
        proof {
            reveal_with_fuel(pow10, 5);
            if frac_digits == 1 {
                assert(scale == pow10(pad));
            } else if frac_digits == 2 {
                assert(scale == pow10(pad));
            } else if frac_digits == 3 {
                assert(scale == pow10(pad));
            } else {
                assert(frac_digits == 4);
                assert(scale == pow10(pad));
            }
            assert((fv as int) * (scale as int) <= 9999 * 1000) by (nonlinear_arith)
                requires
                    0 <= fv <= 9999,
                    0 <= scale <= 1000,
            ;
        }
        let total: u128 = (iv as u128) * (VALUE_SCALE as u128) + (fv as u128) * scale;
        if total > i64::MAX as u128 {
            None
        } else {
            Some(total as i64)
        }
    }
}


pub open spec fn is_leap_year(y: int) -> bool {
    (y % 4 == 0 && y % 100 != 0) || y % 400 == 0
}

pub open spec fn days_in_month(y: int, m: int) -> int {
    if m == 2 {
        if is_leap_year(y) {
            29
        } else {
            28
        }
    } else if m == 4 || m == 6 || m == 9 || m == 11 {
        30
    } else {
        31
    }
}

/// Days from 1970-01-01 to the civil date `y-m-d`, by the standard
/// era-based formula; the year is shifted by 400 (one full leap cycle of
/// 146097 days) so that every intermediate quantity stays nonnegative.
pub open spec fn days_from_epoch(y: int, m: int, d: int) -> int {
    let ys = y + 400;
    let yp = if m <= 2 {
        ys - 1
    } else {
        ys
    };
    let era = yp / 400;
    let yoe = yp - era * 400;
    let mp = if m > 2 {
        m - 3
    } else {
        m + 9
    };
    let doy = (153 * mp + 2) / 5 + d - 1;
    let doe = yoe * 365 + yoe / 4 - yoe / 100 + doy;
    era * 146097 + doe - 719468 - 146097
}

/// The epoch timestamp, at midnight UTC, of a strict `yyyy-mm-dd` date:
/// exactly four, two and two digits, hyphen-separated, naming a valid
/// calendar date.
pub open spec fn date_string_val(s: Seq<char>) -> Option<int> {
    if s.len() == 10 && s[4] == '-' && s[7] == '-' && all_digits(s.subrange(0, 4)) && all_digits(
        s.subrange(5, 7),
    ) && all_digits(s.subrange(8, 10)) {
        let y = dec_val(s.subrange(0, 4));
        let m = dec_val(s.subrange(5, 7));
        let d = dec_val(s.subrange(8, 10));
        if 1 <= m <= 12 && 1 <= d <= days_in_month(y, m) {
            Some(days_from_epoch(y, m, d) * 86400)
        } else {
            None
        }
    } else {
        None
    }
}

fn days_in_month_exec(y: u64, m: u64) -> (r: u64)
    ensures
        r == days_in_month(y as int, m as int),
{
    if m == 2 {
        if (y % 4 == 0 && y % 100 != 0) || y % 400 == 0 {
            29
        } else {
            28
        }
    } else if m == 4 || m == 6 || m == 9 || m == 11 {
        30
    } else {
        31
    }
}

/// Parses a strict `yyyy-mm-dd` date into the epoch timestamp of its
/// midnight, UTC. Anything that is not exactly four, two and two decimal
/// digits separated by hyphens, or that names no valid calendar date, is a
/// `TypeMismatchError` naming the input.
pub fn parse_date_string(date_string: &str) -> (r: Result<i64, TypeMismatchError>)
    ensures
        match r {
            Ok(t) => date_string_val(date_string@) == Some(t as int) && -69120000000 <= t
                <= 345600000000,
            Err(e) => {
                &&& date_string_val(date_string@) is None
                &&& e.expected_type@ == "yyyy-mm-dd"@
                &&& e.got@ == date_string@
            },
        },
{
    let chars = to_chars(date_string);
    match parse_date_chars(chars.as_slice()) {
        Some(t) => Ok(t),
        None => Err(
            TypeMismatchError {
                expected_type: String::from_str("yyyy-mm-dd"),
                got: date_string.to_owned(),
            },
        ),
    }
}

#[verifier::rlimit(50)]
fn parse_date_chars(chars: &[char]) -> (r: Option<i64>)
    ensures
        match r {
            Some(t) => date_string_val(chars@) == Some(t as int) && -69120000000 <= t
                <= 345600000000,
            None => date_string_val(chars@) is None,
        },
{
    if chars.len() != 10 {
        return None;
    }
    if !(chars[4] == '-' && chars[7] == '-') {
        return None;
    }
    if !check_all_digits(chars, 0, 4) {
        return None;
    }
    if !check_all_digits(chars, 5, 7) {
        return None;
    }
    if !check_all_digits(chars, 8, 10) {
        return None;
    }
    proof {
        assert forall|j: int| 0 <= j < 4 implies is_digit(#[trigger] chars@[j]) by {
            assert(chars@[j] == chars@.subrange(0, 4)[j]);
        }
        assert forall|j: int| 5 <= j < 7 implies is_digit(#[trigger] chars@[j]) by {
            assert(chars@[j] == chars@.subrange(5, 7)[j - 5]);
        }
        assert forall|j: int| 8 <= j < 10 implies is_digit(#[trigger] chars@[j]) by {
            assert(chars@[j] == chars@.subrange(8, 10)[j - 8]);
        }
        lemma_dec_val_small(chars@.subrange(5, 7));
        lemma_dec_val_small(chars@.subrange(8, 10));
        lemma_dec_val_nonneg(chars@.subrange(0, 4));
        lemma_dec_val_nonneg(chars@.subrange(5, 7));
        lemma_dec_val_nonneg(chars@.subrange(8, 10));
        reveal_with_fuel(pow10, 5);
    }
    let y = match dec_val_limited(chars, 0, 4, 9999) {
        Ok(v) => v,
        Err(()) => {
            proof {
                lemma_dec_val_small_wide(chars@.subrange(0, 4));
            }
            return None;  // unreachable: four digits are below 10000
        },
    };
    let m = match dec_val_limited(chars, 5, 7, 99) {
        Ok(v) => v,
        Err(()) => {
            return None;  // unreachable: two digits are below 100
        },
    };
    let d = match dec_val_limited(chars, 8, 10, 99) {
        Ok(v) => v,
        Err(()) => {
            return None;  // unreachable
        },
    };
    if !(1 <= m && m <= 12) {
        return None;
    }
    if !(1 <= d && d <= days_in_month_exec(y, m)) {
        return None;
    }
    // the era-based civil-calendar conversion, over nonnegative quantities
    let ys: u64 = y + 400;
    let yp: u64 = if m <= 2 {
        ys - 1
    } else {
        ys
    };
    let era: u64 = yp / 400;
    let yoe: u64 = yp - era * 400;
    let mp: u64 = if m > 2 {
        m - 3
    } else {
        m + 9
    };
    let doy: u64 = (153 * mp + 2) / 5 + d - 1;
    let doe: u64 = yoe * 365 + yoe / 4 - yoe / 100 + doy;
    let days: i64 = (era * 146097 + doe) as i64 - 719468 - 146097;
    proof {
        let yi = y as int;
        let mi = m as int;
        let di = d as int;
        let ys_s = yi + 400;
        let yp_s: int = if mi <= 2 {
            ys_s - 1
        } else {
            ys_s
        };
        assert(yp as int == yp_s);
        let era_s = yp_s / 400;
        assert(era as int == era_s);
        let yoe_s = yp_s - era_s * 400;
        assert(yoe as int == yoe_s);
        let mp_s: int = if mi > 2 {
            mi - 3
        } else {
            mi + 9
        };
        assert(mp as int == mp_s);
        let doy_s = (153 * mp_s + 2) / 5 + di - 1;
        assert(doy as int == doy_s);
        let doe_s = yoe_s * 365 + yoe_s / 4 - yoe_s / 100 + doy_s;
        assert(doe as int == doe_s);
        assert(days == era_s * 146097 + doe_s - 719468 - 146097);
        assert(days == days_from_epoch(yi, mi, di));
        assert(-800000 <= days <= 4000000);
    }
    Some(days * 86400)
}

/// A digit string of at most four digits fits below 10000, stated with the
/// wider bound `dec_val(s) <= 9999` that the parsers test against.
proof fn lemma_dec_val_small_wide(s: Seq<char>)
    requires
        forall|i: int| 0 <= i < s.len() ==> is_digit(#[trigger] s[i]),
        s.len() <= 4,
    ensures
        dec_val(s) <= 9999,
{
    lemma_dec_val_small(s);
    lemma_pow10_small(s.len() as nat);
}

proof fn lemma_pow10_small(k: nat)
    requires
        k <= 4,
    ensures
        1 <= pow10(k) <= 10000,
{
    reveal_with_fuel(pow10, 5);
    if k == 0 {
        assert(pow10(k) == 1);
    } else if k == 1 {
        assert(pow10(k) == 10);
    } else if k == 2 {
        assert(pow10(k) == 100);
    } else if k == 3 {
        assert(pow10(k) == 1000);
    } else {
        assert(k == 4);
        assert(pow10(k) == 10000);
    }
}

/// A digit string of at most four digits is worth less than 10000.
proof fn lemma_dec_val_small(s: Seq<char>)
    requires
        forall|i: int| 0 <= i < s.len() ==> is_digit(#[trigger] s[i]),
        s.len() <= 4,
    ensures
        dec_val(s) < pow10(s.len() as nat),
        pow10(s.len() as nat) <= 10000,
    decreases s.len(),
{
    lemma_pow10_small(s.len() as nat);
    if s.len() > 0 {
        lemma_dec_val_small(s.drop_last());
        assert(pow10(s.len() as nat) == 10 * pow10((s.len() - 1) as nat));
        assert(dec_val(s) == dec_val(s.drop_last()) * 10 + digit_val(s.last()));
        assert(dec_val(s.drop_last()) * 10 <= (pow10((s.len() - 1) as nat) - 1) * 10)
            by (nonlinear_arith)
            requires
                dec_val(s.drop_last()) <= pow10((s.len() - 1) as nat) - 1,
        ;
    }
}

} // verus!
