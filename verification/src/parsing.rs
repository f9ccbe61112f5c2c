//! Human-readable sizes, durations, relative times and depth constraints.
use vstd::prelude::*;
use vstd::string::*;

use crate::error::{Result, SyncwebError};
use crate::text::{
    chars_eq, chars_of, concat_chars, count_char, count_char_in, is_alpha, lower, lower_chars,
    parse_u64, parse_u64_spec, parse_usize, parse_usize_spec, sat_add, sat_mul, sat_sub,
    slice_chars, split_once, split_once_chars, string_of, strip_suffix, strip_suffix_chars, trim,
    trim_chars,
};

verus! {

pub open spec fn pow10(n: nat) -> nat
    decreases n,
{
    if n == 0 {
        1
    } else {
        10 * pow10((n - 1) as nat)
    }
}

/// Split a lower-cased size string into its number and byte multiplier.
pub open spec fn split_size_suffix_spec(t: Seq<char>) -> (Seq<char>, u64) {
    if let Some(r) = strip_suffix(t, "pib"@) {
        (r, 1125899906842624)
    } else if let Some(r) = strip_suffix(t, "tib"@) {
        (r, 1099511627776)
    } else if let Some(r) = strip_suffix(t, "gib"@) {
        (r, 1073741824)
    } else if let Some(r) = strip_suffix(t, "mib"@) {
        (r, 1048576)
    } else if let Some(r) = strip_suffix(t, "kib"@) {
        (r, 1024)
    } else if let Some(r) = strip_suffix(t, "pb"@) {
        (r, 1000000000000000)
    } else if let Some(r) = strip_suffix(t, "tb"@) {
        (r, 1000000000000)
    } else if let Some(r) = strip_suffix(t, "gb"@) {
        (r, 1000000000)
    } else if let Some(r) = strip_suffix(t, "mb"@) {
        (r, 1000000)
    } else if let Some(r) = strip_suffix(t, "kb"@) {
        (r, 1000)
    } else if let Some(r) = strip_suffix(t, "b"@) {
        (r, 1)
    } else if let Some(r) = strip_suffix(t, "k"@) {
        (r, 1000)
    } else {
        (t, 1)
    }
}

/// `10^n` as `u64::pow` computes it for `n` fraction digits; a digit count
/// beyond `u32` is treated as zero digits.
pub open spec fn frac_divisor(n: nat) -> nat {
    if n < 0x1_0000_0000 {
        pow10(n)
    } else {
        1
    }
}

/// A number with an optional fraction (`12` or `1.5`) scaled by `mult`;
/// `None` when it does not parse.
pub open spec fn scaled_decimal(num: Seq<char>, mult: u64) -> Option<u64> {
    if count_char(num, '.') > 1 {
        None
    } else {
        match split_once(num, '.') {
            None => match parse_u64_spec(num) {
                Some(i) => Some(sat_mul(i, mult)),
                None => None,
            },
            Some((ip, fp)) => match (parse_u64_spec(ip), parse_u64_spec(fp)) {
                (Some(i), Some(f)) => Some(
                    sat_add(sat_mul(i, mult), ((sat_mul(mult, f) as nat) / frac_divisor(fp.len())) as u64),
                ),
                _ => None,
            },
        }
    }
}

/// Scaling a fraction needs `10^digits` in a `u64`; twenty or more fraction
/// digits (leading zeros) overflow that power.
pub open spec fn scaled_decimal_overflows(num: Seq<char>) -> bool {
    count_char(num, '.') <= 1 && match split_once(num, '.') {
        Some((ip, fp)) => parse_u64_spec(ip) is Some && parse_u64_spec(fp) is Some && 20
            <= fp.len() < 0x1_0000_0000,
        None => false,
    }
}

/// `parse_bytes`: the byte count a size string denotes.
pub open spec fn parse_bytes_spec(s: Seq<char>) -> Option<u64> {
    let (num, mult) = split_size_suffix_spec(lower(trim(s)));
    scaled_decimal(num, mult)
}

/// The base size of a percentage constraint: like `parse_bytes`, except
/// that a number with no unit counts in megabytes (`6%10` is 6 MB).
pub open spec fn percent_base_spec(s: Seq<char>) -> Option<u64> {
    let t = lower(trim(s));
    let (num, mult) = split_size_suffix_spec(t);
    if num.len() == t.len() {
        scaled_decimal(num, 1000000)
    } else {
        scaled_decimal(num, mult)
    }
}

pub open spec fn parse_bytes_overflows(s: Seq<char>) -> bool {
    let (num, mult) = split_size_suffix_spec(lower(trim(s)));
    scaled_decimal_overflows(num)
}

/// `(min, max)` bounds denoted by a size constraint.
pub open spec fn parse_size_constraint_spec(s: Seq<char>) -> Option<(Option<u64>, Option<u64>)> {
    let t = trim(s);
    if t.len() == 0 {
        Some((None, None))
    } else {
        match split_once(t, '%') {
            Some((sp, pp)) => match (percent_base_spec(sp), parse_u64_spec(pp)) {
                (Some(b), Some(p)) => Some(
                    (
                        Some(sat_mul(b, sat_sub(100, p)) / 100),
                        Some(sat_mul(b, sat_add(100, p)) / 100),
                    ),
                ),
                _ => None,
            },
            None => {
                let c = t[0];
                let rest = if c == '+' || c == '-' || c == '>' || c == '<' || c == '=' {
                    t.drop_first()
                } else {
                    t
                };
                match parse_bytes_spec(rest) {
                    Some(size) => if c == '+' || c == '>' {
                        Some((Some(sat_add(size, 1)), None))
                    } else if c == '-' || c == '<' {
                        Some((None, Some(sat_sub(size, 1))))
                    } else {
                        Some((Some(size), Some(size)))
                    },
                    None => None,
                }
            },
        }
    }
}

pub open spec fn parse_size_constraint_overflows(s: Seq<char>) -> bool {
    let t = trim(s);
    t.len() > 0 && match split_once(t, '%') {
        Some((sp, pp)) => parse_bytes_overflows(sp),
        None => {
            let c = t[0];
            let rest = if c == '+' || c == '-' || c == '>' || c == '<' || c == '=' {
                t.drop_first()
            } else {
                t
            };
            parse_bytes_overflows(rest)
        },
    }
}

/// Seconds per duration unit (`s`, `m`, `h`, `d`, `w`, `mo`, `y` and their
/// long forms); a trailing `s` has already been removed.
pub open spec fn duration_multiplier_spec(unit: Seq<char>) -> Option<u64> {
    if unit == "s"@ || unit == "sec"@ || unit == "second"@ {
        Some(1)
    } else if unit == "m"@ || unit == "min"@ || unit == "minute"@ {
        Some(60)
    } else if unit == "h"@ || unit == "hr"@ || unit == "hour"@ {
        Some(3600)
    } else if unit == "d"@ || unit == "day"@ {
        Some(86400)
    } else if unit == "w"@ || unit == "week"@ {
        Some(604800)
    } else if unit == "mo"@ || unit == "mon"@ || unit == "month"@ {
        Some(2592000)
    } else if unit == "y"@ || unit == "yr"@ || unit == "year"@ {
        Some(31536000)
    } else {
        None
    }
}

/// Index of the first ASCII letter, or the length when there is none.
pub open spec fn first_alpha(s: Seq<char>) -> nat
    decreases s.len(),
{
    if s.len() == 0 {
        0
    } else if is_alpha(s[0]) {
        0
    } else {
        1 + first_alpha(s.drop_first())
    }
}

/// The number and unit of a (lower-cased) duration string.
pub open spec fn split_duration_parts_spec(v: Seq<char>) -> (Seq<char>, Seq<char>) {
    let k = first_alpha(v) as int;
    let unit_str = v.subrange(k, v.len() as int);
    let unit = match strip_suffix(unit_str, "s"@) {
        Some(u) => u,
        None => unit_str,
    };
    (trim(v.subrange(0, k)), unit)
}

/// The number of seconds a duration string denotes.
pub open spec fn parse_duration_spec(s: Seq<char>) -> Option<u64> {
    let (num, unit) = split_duration_parts_spec(lower(trim(s)));
    match duration_multiplier_spec(unit) {
        Some(m) => scaled_decimal(num, m),
        None => None,
    }
}

proof fn lemma_digits_have_no_dot(d: Seq<char>)
    requires
        crate::text::all_digits(d),
    ensures
        count_char(d, '.') == 0,
        crate::text::find_char(d, '.') is None,
    decreases d.len(),
{
    crate::text::lemma_find_char_bound(d, '.');
    if d.len() > 0 {
        assert(crate::text::is_digit(d[d.len() - 1]));
        assert(crate::text::all_digits(d.drop_last())) by {
            assert forall|i: int| 0 <= i < d.drop_last().len() implies crate::text::is_digit(
                #[trigger] d.drop_last()[i],
            ) by {
                assert(d.drop_last()[i] == d[i]);
            }
        }
        lemma_digits_have_no_dot(d.drop_last());
        if let Some(i) = crate::text::find_char(d, '.') {
            assert(crate::text::is_digit(d[i]));
        }
    }
}

proof fn lemma_first_alpha_after_prefix(d: Seq<char>, w: Seq<char>)
    requires
        forall|i: int| 0 <= i < d.len() ==> !is_alpha(#[trigger] d[i]),
        w.len() > 0,
        is_alpha(w[0]),
    ensures
        first_alpha(d + w) == d.len(),
    decreases d.len(),
{
    if d.len() == 0 {
        assert(d + w =~= w);
    } else {
        assert(!is_alpha(d[0]));
        assert((d + w)[0] == d[0]);
        assert((d + w).drop_first() =~= d.drop_first() + w);
        assert forall|i: int| 0 <= i < d.drop_first().len() implies !is_alpha(#[trigger] d.drop_first()[i]) by {
            assert(d.drop_first()[i] == d[i + 1]);
        }
        lemma_first_alpha_after_prefix(d.drop_first(), w);
    }
}

proof fn lemma_trim_end_spaces(d: Seq<char>, gap: Seq<char>)
    requires
        d.len() > 0,
        !crate::text::is_ws(d[d.len() - 1]),
        forall|i: int| 0 <= i < gap.len() ==> #[trigger] gap[i] == ' ',
    ensures
        crate::text::trim_end(d + gap) == d,
    decreases gap.len(),
{
    if gap.len() == 0 {
        assert(d + gap =~= d);
    } else {
        assert((d + gap).last() == ' ');
        assert((d + gap).drop_last() =~= d + gap.drop_last());
        assert forall|i: int| 0 <= i < gap.drop_last().len() implies #[trigger] gap.drop_last()[i] == ' ' by {
            assert(gap.drop_last()[i] == gap[i]);
        }
        lemma_trim_end_spaces(d, gap.drop_last());
    }
}

/// A string that neither starts nor ends with whitespace is its own trim.
proof fn lemma_trim_unchanged(s: Seq<char>)
    requires
        s.len() > 0,
        !crate::text::is_ws(s[0]),
        !crate::text::is_ws(s[s.len() - 1]),
    ensures
        trim(s) == s,
{
    assert(crate::text::trim_start(s) == s);
    assert(crate::text::trim_end(s) == s);
}

/// A duration written as a whole number in digits, optional spaces and a
/// lower-case unit word is the number times the seconds of the unit (the
/// word without a trailing `s`), saturating.
proof fn lemma_number_then_unit(digits: Seq<char>, gap: Seq<char>, word: Seq<char>, n: u64, mult: u64)
    requires
        digits.len() > 0,
        crate::text::all_digits(digits),
        parse_u64_spec(digits) == Some(n),
        forall|i: int| 0 <= i < gap.len() ==> #[trigger] gap[i] == ' ',
        word.len() > 0,
        forall|i: int| 0 <= i < word.len() ==> crate::text::is_lower(#[trigger] word[i]),
        duration_multiplier_spec(
            match strip_suffix(word, "s"@) {
                Some(u) => u,
                None => word,
            },
        ) == Some(mult),
    ensures
        parse_duration_spec(digits + gap + word) == Some(sat_mul(n, mult)),
{
    let head = digits + gap;
    let v = head + word;
    assert(crate::text::is_digit(v[0]));
    assert(crate::text::is_lower(v[v.len() - 1]));
    lemma_trim_unchanged(v);
    assert(lower(v) =~= v) by {
        assert forall|i: int| 0 <= i < v.len() implies #[trigger] lower(v)[i] == v[i] by {
            if i < digits.len() {
                assert(crate::text::is_digit(digits[i]));
            } else if i < head.len() {
                assert(gap[i - digits.len()] == ' ');
            } else {
                assert(crate::text::is_lower(word[i - head.len()]));
            }
        }
    }
    assert(is_alpha(word[0]));
    assert forall|i: int| 0 <= i < head.len() implies !is_alpha(#[trigger] head[i]) by {
        if i < digits.len() {
            assert(crate::text::is_digit(digits[i]));
        } else {
            assert(gap[i - digits.len()] == ' ');
        }
    }
    lemma_first_alpha_after_prefix(head, word);
    assert(v.subrange(head.len() as int, v.len() as int) =~= word);
    assert(v.subrange(0, head.len() as int) =~= head);
    assert(crate::text::is_digit(digits[0]));
    assert(crate::text::is_digit(digits[digits.len() - 1]));
    assert(head[0] == digits[0]);
    assert(crate::text::trim_start(head) == head);
    lemma_trim_end_spaces(digits, gap);
    lemma_digits_have_no_dot(digits);
    assert(v == digits + gap + word);
}

/// A whole number of minutes is sixty seconds each: `n` in digits, any
/// spaces, then `m`, `min`, `mins`, `minute` or `minutes` is `n * 60`
/// seconds.
pub proof fn law_minutes_are_sixty_seconds(digits: Seq<char>, gap: Seq<char>, unit: Seq<char>, n: u64)
    requires
        digits.len() > 0,
        crate::text::all_digits(digits),
        parse_u64_spec(digits) == Some(n),
        n * 60 <= u64::MAX,
        forall|i: int| 0 <= i < gap.len() ==> #[trigger] gap[i] == ' ',
        unit == "m"@ || unit == "min"@ || unit == "mins"@ || unit == "minute"@ || unit == "minutes"@,
    ensures
        parse_duration_spec(digits + gap + unit) == Some((n * 60) as u64),
{
    reveal_strlit("m");
    reveal_strlit("min");
    reveal_strlit("mins");
    reveal_strlit("minute");
    reveal_strlit("minutes");
    reveal_strlit("s");
    reveal_strlit("sec");
    reveal_strlit("second");
    if unit == "mins"@ {
        assert(unit.subrange(0, 3) =~= "min"@);
        assert(unit.subrange(3, 4) =~= "s"@);
        assert(strip_suffix(unit, "s"@) == Some("min"@));
        assert("min"@[0] != "sec"@[0] && "min"@ != "s"@ && "min"@ != "second"@);
        assert(duration_multiplier_spec("min"@) == Some(60u64));
    } else if unit == "minutes"@ {
        assert(unit.subrange(0, 6) =~= "minute"@);
        assert(unit.subrange(6, 7) =~= "s"@);
        assert(strip_suffix(unit, "s"@) == Some("minute"@));
        assert("minute"@[0] != "second"@[0] && "minute"@ != "s"@ && "minute"@ != "sec"@);
        assert(duration_multiplier_spec("minute"@) == Some(60u64));
    } else {
        assert(!crate::text::has_suffix(unit, "s"@)) by {
            assert(unit[unit.len() - 1] != 's');
            if crate::text::has_suffix(unit, "s"@) {
                assert(unit.subrange(unit.len() - 1, unit.len() as int)[0] == unit[unit.len() - 1]);
            }
        }
        assert(strip_suffix(unit, "s"@) is None);
        assert(unit[0] == 'm' && "sec"@[0] == 's' && "second"@[0] == 's' && "s"@[0] == 's');
        assert(unit != "s"@ && unit != "sec"@ && unit != "second"@);
        assert(duration_multiplier_spec(unit) == Some(60u64));
    }
    lemma_number_then_unit(digits, gap, unit, n, 60);
}

/// Seconds, hours, days, weeks, months (of thirty days) and years (of 365
/// days): `n` in digits, any spaces, then one of these unit words is `n`
/// times the unit's seconds.
pub proof fn law_duration_units(digits: Seq<char>, gap: Seq<char>, unit: Seq<char>, n: u64, secs: u64)
    requires
        digits.len() > 0,
        crate::text::all_digits(digits),
        parse_u64_spec(digits) == Some(n),
        n * secs <= u64::MAX,
        forall|i: int| 0 <= i < gap.len() ==> #[trigger] gap[i] == ' ',
        ((unit == "sec"@ || unit == "second"@) && secs == 1) || ((unit == "h"@ || unit == "hr"@ || unit == "hour"@)
            && secs == 3600) || ((unit == "d"@ || unit == "day"@) && secs == 86400) || ((unit == "w"@ || unit
            == "week"@) && secs == 604800) || ((unit == "mo"@ || unit == "mon"@ || unit == "month"@) && secs
            == 2592000) || ((unit == "y"@ || unit == "yr"@ || unit == "year"@) && secs == 31536000),
    ensures
        parse_duration_spec(digits + gap + unit) == Some((n * secs) as u64),
{
    reveal_strlit("s");
    reveal_strlit("sec");
    reveal_strlit("second");
    reveal_strlit("m");
    reveal_strlit("min");
    reveal_strlit("minute");
    reveal_strlit("h");
    reveal_strlit("hr");
    reveal_strlit("hour");
    reveal_strlit("d");
    reveal_strlit("day");
    reveal_strlit("w");
    reveal_strlit("week");
    reveal_strlit("mo");
    reveal_strlit("mon");
    reveal_strlit("month");
    reveal_strlit("y");
    reveal_strlit("yr");
    reveal_strlit("year");
    assert(unit.len() > 0);
    assert(unit[unit.len() - 1] != 's');
    assert(!crate::text::has_suffix(unit, "s"@)) by {
        if crate::text::has_suffix(unit, "s"@) {
            assert(unit.subrange(unit.len() - 1, unit.len() as int)[0] == unit[unit.len() - 1]);
        }
    }
    assert(forall|i: int| 0 <= i < unit.len() ==> crate::text::is_lower(#[trigger] unit[i]));
    let c0 = unit[0];
    assert(c0 == 's' ==> unit != "m"@ && unit != "min"@ && unit != "minute"@);
    assert(c0 != 's' ==> unit != "s"@ && unit != "sec"@ && unit != "second"@);
    assert(c0 != 'm' ==> unit != "m"@ && unit != "min"@ && unit != "minute"@ && unit != "mo"@ && unit != "mon"@
        && unit != "month"@);
    assert(c0 != 'h' ==> unit != "h"@ && unit != "hr"@ && unit != "hour"@);
    assert(c0 != 'd' ==> unit != "d"@ && unit != "day"@);
    assert(c0 != 'w' ==> unit != "w"@ && unit != "week"@);
    if unit == "mo"@ || unit == "mon"@ || unit == "month"@ {
        assert(unit[1] == 'o' && "min"@[1] == 'i' && "minute"@[1] == 'i');
        assert(unit != "m"@ && unit != "min"@ && unit != "minute"@);
    }
    assert(duration_multiplier_spec(unit) == Some(secs));
    lemma_number_then_unit(digits, gap, unit, n, secs);
}

pub open spec fn parse_duration_overflows(s: Seq<char>) -> bool {
    let (num, unit) = split_duration_parts_spec(lower(trim(s)));
    duration_multiplier_spec(unit) is Some && scaled_decimal_overflows(num)
}

/// The time a relative time string denotes, seen from `now` (seconds since
/// the epoch); `None` when it does not parse or leaves the `i64` range.
pub open spec fn parse_relative_time_spec(s: Seq<char>, now: i64) -> Option<i64> {
    let t = trim(s);
    let negative = t.len() > 0 && t[0] == '-';
    let rest = if t.len() > 0 && (t[0] == '-' || t[0] == '+') {
        t.drop_first()
    } else {
        t
    };
    match parse_duration_spec(rest) {
        Some(d) => {
            let v = if negative {
                now - d
            } else {
                now + d
            };
            if i64::MIN <= v <= i64::MAX {
                Some(v as i64)
            } else {
                None
            }
        },
        None => None,
    }
}

pub open spec fn parse_relative_time_overflows(s: Seq<char>) -> bool {
    let t = trim(s);
    let rest = if t.len() > 0 && (t[0] == '-' || t[0] == '+') {
        t.drop_first()
    } else {
        t
    };
    parse_duration_overflows(rest)
}

/// One step of `parse_depth_constraints`.
pub open spec fn depth_step(acc: (usize, Option<usize>), s: Seq<char>) -> (usize, Option<usize>) {
    if s.len() > 0 && s[0] == '+' {
        match parse_usize_spec(s.drop_first()) {
            Some(v) => (if acc.0 >= v {
                acc.0
            } else {
                v
            }, acc.1),
            None => acc,
        }
    } else if s.len() > 0 && s[0] == '-' {
        match parse_usize_spec(s.drop_first()) {
            Some(v) => (acc.0, Some(
                match acc.1 {
                    Some(cur) => if cur <= v {
                        cur
                    } else {
                        v
                    },
                    None => v,
                },
            )),
            None => acc,
        }
    } else {
        match parse_usize_spec(s) {
            Some(v) => (v, Some(v)),
            None => acc,
        }
    }
}

/// `parse_depth_constraints` applied to the whole list.
pub open spec fn depth_fold(list: Seq<Seq<char>>, init: (usize, Option<usize>)) -> (
    usize,
    Option<usize>,
)
    decreases list.len(),
{
    if list.len() == 0 {
        init
    } else {
        depth_step(depth_fold(list.drop_last(), init), list.last())
    }
}

pub open spec fn invalid_config<T>(r: Result<T>) -> bool {
    r is Err && r->Err_0 is InvalidConfig
}

/// A configuration error whose message is `msg` followed by `subject`.
pub fn config_error(msg: &str, subject: &[char]) -> (e: SyncwebError)
    ensures
        e matches SyncwebError::InvalidConfig(m) && m@ == msg@ + subject@,
{
    let m = chars_of(msg);
    let q = concat_chars(&m, subject);
    SyncwebError::InvalidConfig(string_of(&q))
}

/// Split a size string into numeric part and byte multiplier.
pub fn split_size_suffix(value: &[char]) -> (r: (Vec<char>, u64))
    ensures
        (r.0@, r.1) == split_size_suffix_spec(value@),
{
    if let Some(r) = strip_suffix_chars(value, &chars_of("pib")) {
        return (r, 1125899906842624);
    }
    if let Some(r) = strip_suffix_chars(value, &chars_of("tib")) {
        return (r, 1099511627776);
    }
    if let Some(r) = strip_suffix_chars(value, &chars_of("gib")) {
        return (r, 1073741824);
    }
    if let Some(r) = strip_suffix_chars(value, &chars_of("mib")) {
        return (r, 1048576);
    }
    if let Some(r) = strip_suffix_chars(value, &chars_of("kib")) {
        return (r, 1024);
    }
    if let Some(r) = strip_suffix_chars(value, &chars_of("pb")) {
        return (r, 1000000000000000);
    }
    if let Some(r) = strip_suffix_chars(value, &chars_of("tb")) {
        return (r, 1000000000000);
    }
    if let Some(r) = strip_suffix_chars(value, &chars_of("gb")) {
        return (r, 1000000000);
    }
    if let Some(r) = strip_suffix_chars(value, &chars_of("mb")) {
        return (r, 1000000);
    }
    if let Some(r) = strip_suffix_chars(value, &chars_of("kb")) {
        return (r, 1000);
    }
    if let Some(r) = strip_suffix_chars(value, &chars_of("b")) {
        return (r, 1);
    }
    if let Some(r) = strip_suffix_chars(value, &chars_of("k")) {
        return (r, 1000);
    }
    (slice_chars(value, 0, value.len()), 1)
}

fn pow10_u64(n: usize) -> (r: u64)
    requires
        n < 20,
    ensures
        r == pow10(n as nat),
{
    let mut r: u64 = 1;
    let mut i: usize = 0;
    while i < n
        invariant
            i <= n < 20,
            r == pow10(i as nat),
            r <= 10_000_000_000_000_000_000u64,
        decreases n - i,
    {
        proof {
            lemma_pow10_bound(i as nat);
            lemma_pow10_bound((i + 1) as nat);
        }
        r = r * 10;
        i += 1;
    }
    r
}

proof fn lemma_pow10_bound(n: nat)
    ensures
        n < 20 ==> pow10(n) <= 10_000_000_000_000_000_000,
        n < 20 ==> 10 * pow10(n) == pow10(n + 1),
        pow10(n) >= 1,
    decreases n,
{
    if n > 0 {
        lemma_pow10_bound((n - 1) as nat);
    }
    if n < 20 {
        assert(pow10(n) <= 10_000_000_000_000_000_000) by {
            reveal_with_fuel(pow10, 21);
        }
    }
}

fn sat_mul_u64(a: u64, b: u64) -> (r: u64)
    ensures
        r == sat_mul(a, b),
{
    match a.checked_mul(b) {
        Some(x) => x,
        None => u64::MAX,
    }
}

fn sat_add_u64(a: u64, b: u64) -> (r: u64)
    ensures
        r == sat_add(a, b),
{
    match a.checked_add(b) {
        Some(x) => x,
        None => u64::MAX,
    }
}

fn sat_sub_u64(a: u64, b: u64) -> (r: u64)
    ensures
        r == sat_sub(a, b),
{
    if a < b {
        0
    } else {
        a - b
    }
}

/// A number with an optional fraction, scaled by `mult`.
fn scaled_decimal_exec(num: &[char], mult: u64) -> (r: Option<u64>)
    requires
        !scaled_decimal_overflows(num@),
    ensures
        r == scaled_decimal(num@, mult),
{
    if count_char_in(num, '.') > 1 {
        return None;
    }
    match split_once_chars(num, '.') {
        None => match parse_u64(num) {
            Some(i) => Some(sat_mul_u64(i, mult)),
            None => None,
        },
        Some((ip, fp)) => {
            let i = match parse_u64(&ip) {
                Some(i) => i,
                None => return None,
            };
            let f = match parse_u64(&fp) {
                Some(f) => f,
                None => return None,
            };
            let total = sat_mul_u64(i, mult);
            let divisor: u64 = if fp.len() < 20 {
                proof {
                    lemma_pow10_bound(fp@.len());
                }
                pow10_u64(fp.len())
            } else {
                1
            };
            assert(divisor as nat == frac_divisor(fp@.len()));
            let frac = sat_mul_u64(mult, f) / divisor;
            Some(sat_add_u64(total, frac))
        },
    }
}


/// Parse a byte size string (`5GB`, `10MiB`, `500K`, `1.5k`, `1024`) to
/// bytes.
///
/// Binary (`KiB`..`PiB`) and decimal (`KB`..`PB`, and `K` for kilobytes)
/// suffixes are accepted in any case; the value saturates at `u64::MAX`.
pub fn parse_bytes(s: &str) -> (r: Result<u64>)
    requires
        !parse_bytes_overflows(s@),
    ensures
        r is Ok <==> parse_bytes_spec(s@) is Some,
        r is Ok ==> r->Ok_0 == parse_bytes_spec(s@)->0,
        r is Err ==> invalid_config(r),
{
    let v = chars_of(s);
    parse_bytes_chars(&v)
}

fn parse_bytes_chars(v: &[char]) -> (r: Result<u64>)
    requires
        !parse_bytes_overflows(v@),
    ensures
        r is Ok <==> parse_bytes_spec(v@) is Some,
        r is Ok ==> r->Ok_0 == parse_bytes_spec(v@)->0,
        r is Err ==> invalid_config(r),
{
    let t = lower_chars(&trim_chars(v));
    let (num, mult) = split_size_suffix(&t);
    match scaled_decimal_exec(&num, mult) {
        Some(x) => Ok(x),
        None => Err(config_error("invalid size ", v)),
    }
}

fn percent_base_chars(v: &[char]) -> (r: Result<u64>)
    requires
        !parse_bytes_overflows(v@),
    ensures
        r is Ok <==> percent_base_spec(v@) is Some,
        r is Ok ==> r->Ok_0 == percent_base_spec(v@)->0,
        r is Err ==> invalid_config(r),
{
    let t = lower_chars(&trim_chars(v));
    let (num, mult) = split_size_suffix(&t);
    let m = if num.len() == t.len() {
        1000000
    } else {
        mult
    };
    match scaled_decimal_exec(&num, m) {
        Some(x) => Ok(x),
        None => Err(config_error("invalid size ", v)),
    }
}

/// Parse a size constraint: `5GB` (exact), `+5GB`/`>5GB` (larger than),
/// `-5GB`/`<5GB` (smaller than), `=5GB`, or `6%10` (within 10 percent of
/// 6 MB: a number with no unit counts in megabytes there).
/// Returns `(min_bytes, max_bytes)`; an empty string gives no bounds.
pub fn parse_size_constraint(s: &str) -> (r: Result<(Option<u64>, Option<u64>)>)
    requires
        !parse_size_constraint_overflows(s@),
    ensures
        r is Ok <==> parse_size_constraint_spec(s@) is Some,
        r is Ok ==> r->Ok_0 == parse_size_constraint_spec(s@)->0,
        r is Err ==> invalid_config(r),
{
    let v = chars_of(s);
    size_constraint_chars(&v)
}

fn size_constraint_chars(v: &[char]) -> (r: Result<(Option<u64>, Option<u64>)>)
    requires
        !parse_size_constraint_overflows(v@),
    ensures
        r is Ok <==> parse_size_constraint_spec(v@) is Some,
        r is Ok ==> r->Ok_0 == parse_size_constraint_spec(v@)->0,
        r is Err ==> invalid_config(r),
{
    let t = trim_chars(v);
    if t.len() == 0 {
        return Ok((None, None));
    }
    if let Some((size_part, percent_part)) = split_once_chars(&t, '%') {
        let base = percent_base_chars(&size_part)?;
        let percent = match parse_u64(&percent_part) {
            Some(p) => p,
            None => return Err(config_error("invalid percentage ", &percent_part)),
        };
        let lower_bound = sat_mul_u64(base, sat_sub_u64(100, percent)) / 100;
        let upper_bound = sat_mul_u64(base, sat_add_u64(100, percent)) / 100;
        return Ok((Some(lower_bound), Some(upper_bound)));
    }
    let c = t[0];
    let rest = if c == '+' || c == '-' || c == '>' || c == '<' || c == '=' {
        slice_chars(&t, 1, t.len())
    } else {
        slice_chars(&t, 0, t.len())
    };
    proof {
        assert(t@.drop_first() =~= t@.subrange(1, t@.len() as int));
        assert(t@ =~= t@.subrange(0, t@.len() as int));
    }
    let size = parse_bytes_chars(&rest)?;
    if c == '+' || c == '>' {
        Ok((Some(sat_add_u64(size, 1)), None))
    } else if c == '-' || c == '<' {
        Ok((None, Some(sat_sub_u64(size, 1))))
    } else {
        Ok((Some(size), Some(size)))
    }
}

/// Split a lower-cased duration string into its number and unit.
pub fn split_duration_parts(value: &[char]) -> (r: (Vec<char>, Vec<char>))
    ensures
        (r.0@, r.1@) == split_duration_parts_spec(value@),
{
    let mut k: usize = 0;
    proof {
        assert(value@.subrange(0, value@.len() as int) =~= value@);
    }
    while k < value.len() && !(('a' <= value[k] && value[k] <= 'z') || ('A' <= value[k] && value[k]
        <= 'Z'))
        invariant
            k <= value.len(),
            first_alpha(value@) == k + first_alpha(value@.subrange(k as int, value@.len() as int)),
        decreases value.len() - k,
    {
        proof {
            assert(value@.subrange(k as int, value@.len() as int).drop_first() =~= value@.subrange(
                k + 1,
                value@.len() as int,
            ));
        }
        k += 1;
    }
    proof {
        assert(value@.subrange(0, value@.len() as int) =~= value@);
    }
    let unit_str = slice_chars(value, k, value.len());
    let unit = match strip_suffix_chars(&unit_str, &chars_of("s")) {
        Some(u) => u,
        None => unit_str,
    };
    let number = trim_chars(&slice_chars(value, 0, k));
    (number, unit)
}

pub fn eq_lit(v: &[char], lit: &str) -> (b: bool)
    ensures
        b == (v@ == lit@),
{
    chars_eq(v, &chars_of(lit))
}

/// Seconds per duration unit.
pub fn duration_multiplier(unit: &[char]) -> (r: Result<u64>)
    ensures
        r is Ok <==> duration_multiplier_spec(unit@) is Some,
        r is Ok ==> r->Ok_0 == duration_multiplier_spec(unit@)->0,
        r is Err ==> invalid_config(r),
{
    if eq_lit(unit, "s") || eq_lit(unit, "sec") || eq_lit(unit, "second") {
        Ok(1)
    } else if eq_lit(unit, "m") || eq_lit(unit, "min") || eq_lit(unit, "minute") {
        Ok(60)
    } else if eq_lit(unit, "h") || eq_lit(unit, "hr") || eq_lit(unit, "hour") {
        Ok(3600)
    } else if eq_lit(unit, "d") || eq_lit(unit, "day") {
        Ok(86400)
    } else if eq_lit(unit, "w") || eq_lit(unit, "week") {
        Ok(604800)
    } else if eq_lit(unit, "mo") || eq_lit(unit, "mon") || eq_lit(unit, "month") {
        Ok(2592000)
    } else if eq_lit(unit, "y") || eq_lit(unit, "yr") || eq_lit(unit, "year") {
        Ok(31536000)
    } else {
        Err(config_error("unsupported duration unit ", unit))
    }
}

/// Parse a duration such as `3d`, `2 weeks` or `1.5 hours` to whole seconds.
pub fn parse_duration(s: &str) -> (r: Result<u64>)
    requires
        !parse_duration_overflows(s@),
    ensures
        r is Ok <==> parse_duration_spec(s@) is Some,
        r is Ok ==> r->Ok_0 == parse_duration_spec(s@)->0,
        r is Err ==> invalid_config(r),
{
    let v = chars_of(s);
    parse_duration_chars(&v)
}

fn parse_duration_chars(v: &[char]) -> (r: Result<u64>)
    requires
        !parse_duration_overflows(v@),
    ensures
        r is Ok <==> parse_duration_spec(v@) is Some,
        r is Ok ==> r->Ok_0 == parse_duration_spec(v@)->0,
        r is Err ==> invalid_config(r),
{
    let t = lower_chars(&trim_chars(v));
    let (num, unit) = split_duration_parts(&t);
    if count_char_in(&num, '.') > 1 {
        return Err(config_error("invalid duration ", v));
    }
    let multiplier = duration_multiplier(&unit)?;
    match scaled_decimal_exec(&num, multiplier) {
        Some(x) => Ok(x),
        None => Err(config_error("invalid duration ", v)),
    }
}

/// Parse a relative time such as `3 days` or `-3 days`, seen from `now`
/// (seconds since the Unix epoch).
pub fn parse_relative_time_at(s: &str, now: i64) -> (r: Result<i64>)
    requires
        !parse_relative_time_overflows(s@),
    ensures
        r is Ok <==> parse_relative_time_spec(s@, now) is Some,
        r is Ok ==> r->Ok_0 == parse_relative_time_spec(s@, now)->0,
        r is Err ==> invalid_config(r),
{
    let v = chars_of(s);
    relative_time_chars(&v, now)
}

pub fn relative_time_chars(v: &[char], now: i64) -> (r: Result<i64>)
    requires
        !parse_relative_time_overflows(v@),
    ensures
        r is Ok <==> parse_relative_time_spec(v@, now) is Some,
        r is Ok ==> r->Ok_0 == parse_relative_time_spec(v@, now)->0,
        r is Err ==> invalid_config(r),
{
    let t = trim_chars(v);
    let negative = t.len() > 0 && t[0] == '-';
    let rest = if t.len() > 0 && (t[0] == '-' || t[0] == '+') {
        slice_chars(&t, 1, t.len())
    } else {
        slice_chars(&t, 0, t.len())
    };
    proof {
        if t@.len() > 0 {
            assert(t@.drop_first() =~= t@.subrange(1, t@.len() as int));
        }
        assert(t@ =~= t@.subrange(0, t@.len() as int));
    }
    let d = parse_duration_chars(&rest)?;
    let value: i128 = if negative {
        (now as i128) - (d as i128)
    } else {
        (now as i128) + (d as i128)
    };
    if value < (i64::MIN as i128) || value > (i64::MAX as i128) {
        let msg = chars_of("overflow");
        return Err(config_error("time ", &msg));
    }
    Ok(value as i64)
}

/// A `modified` constraint seen from `now`: `+D` means older than `D`, so
/// it bounds from above at `now - D`; any other relative time bounds from
/// below when it lies in the past and from above otherwise. The flag is
/// true for a bound from above.
pub open spec fn modified_time_spec(s: Seq<char>, now: i64) -> Option<(bool, i64)> {
    let t = trim(s);
    if t.len() > 0 && t[0] == '+' {
        match parse_duration_spec(t.drop_first()) {
            Some(d) => if i64::MIN <= now - d {
                Some((true, (now - d) as i64))
            } else {
                None
            },
            None => None,
        }
    } else {
        match parse_relative_time_spec(s, now) {
            Some(x) => Some((x >= now, x)),
            None => None,
        }
    }
}

/// The bound a `modified` constraint sets, seen from `now`.
pub fn parse_modified_time_at(s: &str, now: i64) -> (r: Result<(bool, i64)>)
    requires
        !parse_relative_time_overflows(s@),
    ensures
        r is Ok <==> modified_time_spec(s@, now) is Some,
        r is Ok ==> r->Ok_0 == modified_time_spec(s@, now)->0,
        r is Err ==> invalid_config(r),
{
    let v = chars_of(s);
    let t = trim_chars(&v);
    if t.len() > 0 && t[0] == '+' {
        let rest = slice_chars(&t, 1, t.len());
        assert(t@.drop_first() =~= rest@);
        let d = parse_duration_chars(&rest)?;
        let value: i128 = (now as i128) - (d as i128);
        if value < (i64::MIN as i128) {
            let msg = chars_of("overflow");
            return Err(config_error("time ", &msg));
        }
        Ok((true, value as i64))
    } else {
        let x = relative_time_chars(&v, now)?;
        Ok((x >= now, x))
    }
}

/// Parse a relative time seen from the current clock.
pub fn parse_relative_time(s: &str) -> (r: Result<i64>)
    requires
        !parse_relative_time_overflows(s@),
    ensures
        r is Err ==> invalid_config(r),
        r is Ok ==> exists|now: i64| parse_relative_time_spec(s@, now) == Some(r->Ok_0),
{
    parse_relative_time_at(s, crate::clock::now_seconds())
}

/// Parse depth constraints (`+2` at least, `-3` at most, `1` exactly),
/// starting from the given bounds. Entries that do not parse are skipped.
pub fn parse_depth_constraints(depth_list: &[String], min_depth: usize, max_depth: Option<usize>) -> (r: (
    usize,
    Option<usize>,
))
    ensures
        r == depth_fold(depth_list@.map_values(|s: String| s@), (min_depth, max_depth)),
{
    let ghost list = depth_list@.map_values(|s: String| s@);
    let mut acc: (usize, Option<usize>) = (min_depth, max_depth);
    let mut i: usize = 0;
    while i < depth_list.len()
        invariant
            i <= depth_list.len(),
            list == depth_list@.map_values(|s: String| s@),
            acc == depth_fold(list.subrange(0, i as int), (min_depth, max_depth)),
        decreases depth_list.len() - i,
    {
        let s = chars_of(depth_list[i].as_str());
        proof {
            assert(list.subrange(0, i + 1).drop_last() =~= list.subrange(0, i as int));
            assert(list[i as int] == depth_list@[i as int]@);
        }
        if s.len() > 0 && s[0] == '+' {
            let rest = slice_chars(&s, 1, s.len());
            assert(rest@ =~= s@.drop_first());
            if let Some(val) = parse_usize(&rest) {
                if val > acc.0 {
                    acc.0 = val;
                }
            }
        } else if s.len() > 0 && s[0] == '-' {
            let rest = slice_chars(&s, 1, s.len());
            assert(rest@ =~= s@.drop_first());
            if let Some(val) = parse_usize(&rest) {
                acc.1 = Some(
                    match acc.1 {
                        Some(cur) => if cur <= val {
                            cur
                        } else {
                            val
                        },
                        None => val,
                    },
                );
            }
        } else {
            if let Some(val) = parse_usize(&s) {
                acc = (val, Some(val));
            }
        }
        i += 1;
    }
    assert(list.subrange(0, list.len() as int) =~= list);
    acc
}

} // verus!
