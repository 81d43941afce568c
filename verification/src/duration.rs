//! Durations in the restricted ISO-8601 form `PT[nH][nM][nS]`, held as
//! decimal numbers of seconds, and the number of segments that fill one.

use vstd::prelude::*;
use crate::text::{char_is_digit, chars_of, decimal_value, is_digit, slice_of};

verus! {

/// The largest number of fractional digits that a duration keeps.
pub const MAX_SCALE: u32 = 19;

/// A span of time: `ticks` units of `10^-scale` seconds.
#[derive(Clone, Copy, PartialEq, Eq, Debug)]
pub struct Duration {
    pub ticks: u64,
    pub scale: u32,
}

impl Duration {
    /// The scale is one that a duration can have.
    pub open spec fn wf(&self) -> bool {
        self.scale <= MAX_SCALE
    }
}

pub open spec fn pow10(n: nat) -> nat
    decreases n,
{
    if n == 0 {
        1
    } else {
        10 * pow10((n - 1) as nat)
    }
}

/// A decimal number: `mantissa / 10^scale`.
pub struct Decimal {
    pub mantissa: nat,
    pub scale: nat,
}

pub open spec fn is_number_char(c: char) -> bool {
    is_digit(c) || c == '.'
}

/// The length of the run of digits and dots at the start of `s`.
pub open spec fn number_len(s: Seq<char>) -> nat
    decreases s.len(),
{
    if s.len() > 0 && is_number_char(s[0]) {
        1 + number_len(s.skip(1))
    } else {
        0
    }
}

/// The number of digits in a number token.
pub open spec fn digits_in(token: Seq<char>) -> nat
    decreases token.len(),
{
    if token.len() == 0 {
        0
    } else if token.last() == '.' {
        digits_in(token.drop_last())
    } else {
        digits_in(token.drop_last()) + 1
    }
}

/// The number of dots in a number token.
pub open spec fn dots_in(token: Seq<char>) -> nat
    decreases token.len(),
{
    if token.len() == 0 {
        0
    } else if token.last() == '.' {
        dots_in(token.drop_last()) + 1
    } else {
        dots_in(token.drop_last())
    }
}

/// The number of digits after the last dot of a token, none where it has no
/// dot.
pub open spec fn fraction_len(token: Seq<char>) -> nat
    decreases token.len(),
{
    if token.len() == 0 || dots_in(token) == 0 || token.last() == '.' {
        0
    } else {
        fraction_len(token.drop_last()) + 1
    }
}

/// The digits of a number token that count: those before the dot, and the
/// first `MAX_SCALE` of those after it. Later digits are cut.
pub open spec fn kept_digits(token: Seq<char>) -> Seq<char>
    decreases token.len(),
{
    if token.len() == 0 {
        token
    } else if token.last() == '.' || (dots_in(token) > 0 && fraction_len(token.drop_last())
        >= MAX_SCALE) {
        kept_digits(token.drop_last())
    } else {
        kept_digits(token.drop_last()).push(token.last())
    }
}

pub open spec fn at_most(a: nat, b: nat) -> nat {
    if a <= b {
        a
    } else {
        b
    }
}

/// The number that a token of digits and dots writes: at least one digit,
/// with at most one dot anywhere among them; `None` for any other token.
/// Of the digits after the dot the first `MAX_SCALE` count.
pub open spec fn decimal_of(token: Seq<char>) -> Option<Decimal> {
    if dots_in(token) <= 1 && digits_in(token) > 0 {
        Some(
            Decimal {
                mantissa: decimal_value(kept_digits(token)),
                scale: at_most(fraction_len(token), MAX_SCALE as nat),
            },
        )
    } else {
        None
    }
}

/// The hours, minutes and seconds read so far.
pub struct Fields {
    pub hours: Decimal,
    pub minutes: Decimal,
    pub seconds: Decimal,
}

pub open spec fn no_fields() -> Fields {
    let zero = Decimal { mantissa: 0, scale: 0 };
    Fields { hours: zero, minutes: zero, seconds: zero }
}

/// Reads numbers with their unit letters from the start of `s` into
/// `fields`, a later number of one unit replacing an earlier one. Reading
/// ends at the end of `s`, and where a number runs to the end of `s`.
/// `None` where something other than a number stands, where a number is no
/// decimal number, and where its unit is none of `H`, `M`, `S`.
pub open spec fn read_fields(s: Seq<char>, fields: Fields) -> Option<Fields>
    decreases s.len(),
{
    let n = number_len(s);
    if n >= s.len() {
        Some(fields)
    } else if n == 0 {
        None
    } else {
        match decimal_of(s.take(n as int)) {
            None => None,
            Some(value) => {
                let rest = s.skip(n as int + 1);
                if s[n as int] == 'H' {
                    read_fields(rest, Fields { hours: value, ..fields })
                } else if s[n as int] == 'M' {
                    read_fields(rest, Fields { minutes: value, ..fields })
                } else if s[n as int] == 'S' {
                    read_fields(rest, Fields { seconds: value, ..fields })
                } else {
                    None
                }
            },
        }
    }
}

pub open spec fn larger(a: nat, b: nat) -> nat {
    if a >= b {
        a
    } else {
        b
    }
}

/// The scale at which all three fields can be written exactly.
pub open spec fn common_scale(f: Fields) -> nat {
    larger(f.hours.scale, larger(f.minutes.scale, f.seconds.scale))
}

/// `d` in units of `10^-scale`.
pub open spec fn at_scale(d: Decimal, scale: nat) -> nat {
    d.mantissa * pow10((scale - d.scale) as nat)
}

/// The whole of the fields in units of `10^-common_scale`.
pub open spec fn total_ticks(f: Fields) -> nat {
    let k = common_scale(f);
    at_scale(f.hours, k) * 3600 + at_scale(f.minutes, k) * 60 + at_scale(f.seconds, k)
}

/// The span of `n` units of `10^-scale` seconds as a duration: as it is
/// where `n` fits 64 bits, else with as many digits cut from the end of its
/// fraction as it takes to fit. `None` where its whole seconds exceed 64
/// bits.
pub open spec fn fitted(n: nat, scale: nat) -> Option<Duration>
    decreases scale,
{
    if n <= u64::MAX {
        Some(Duration { ticks: n as u64, scale: scale as u32 })
    } else if scale == 0 {
        None
    } else {
        fitted(n / 10, (scale - 1) as nat)
    }
}

/// The duration that `s` writes: the sum of its fields, fitted to 64 bits.
/// `None` where `s` does not start with `PT`, where its fields cannot be
/// read, and where the whole seconds of their sum exceed 64 bits.
pub open spec fn parse_duration(s: Seq<char>) -> Option<Duration> {
    if s.len() >= 2 && s[0] == 'P' && s[1] == 'T' {
        match read_fields(s.skip(2), no_fields()) {
            Some(f) => fitted(total_ticks(f), common_scale(f)),
            None => None,
        }
    } else {
        None
    }
}

proof fn lemma_number_len(s: Seq<char>, n: int)
    requires
        0 <= n <= s.len(),
        forall|j: int| 0 <= j < n ==> is_number_char(s[j]),
        n == s.len() || !is_number_char(s[n]),
    ensures
        number_len(s) == n,
    decreases n,
{
    if n > 0 {
        let t = s.skip(1);
        assert forall|j: int| 0 <= j < n - 1 implies is_number_char(t[j]) by {
            assert(t[j] == s[j + 1]);
        }
        lemma_number_len(t, n - 1);
    }
}

/// A number as it is read: `mantissa / 10^scale`, the mantissa missing
/// where it exceeds 128 bits.
#[derive(Clone, Copy)]
struct Number {
    mantissa: Option<u128>,
    scale: u32,
}

spec fn fits(value: int) -> Option<u128> {
    if 0 <= value <= u128::MAX {
        Some(value as u128)
    } else {
        None
    }
}

/// Whether `x` is the decimal number `d` as it is read.
spec fn reads(x: Number, d: Decimal) -> bool {
    &&& x.scale == d.scale
    &&& x.scale <= MAX_SCALE
    &&& x.mantissa == fits(d.mantissa as int)
}

/// `value` times `factor`, where that fits 128 bits.
fn checked_product(value: Option<u128>, factor: u128, Ghost(exact): Ghost<int>) -> (r: Option<u128>)
    requires
        value == fits(exact),
        0 <= exact,
        1 <= factor,
    ensures
        r == fits(exact * factor),
{
    assert(exact * factor >= exact) by (nonlinear_arith)
        requires
            0 <= exact,
            1 <= factor,
    ;
    match value {
        Some(v) => v.checked_mul(factor),
        None => None,
    }
}

/// The sum of `a` and `b`, where that fits 128 bits.
fn checked_sum(a: Option<u128>, b: Option<u128>, Ghost(x): Ghost<int>, Ghost(y): Ghost<int>) -> (r:
    Option<u128>)
    requires
        a == fits(x),
        b == fits(y),
        0 <= x,
        0 <= y,
    ensures
        r == fits(x + y),
{
    match (a, b) {
        (Some(v), Some(w)) => v.checked_add(w),
        _ => None,
    }
}

/// The decimal number that `token` writes.
fn read_number(token: &[char]) -> (r: Option<Number>)
    requires
        forall|j: int| 0 <= j < token.len() ==> is_number_char(token@[j]),
    ensures
        match r {
            Some(x) => decimal_of(token@) matches Some(d) && reads(x, d),
            None => decimal_of(token@).is_none(),
        },
{
    let mut mantissa: Option<u128> = Some(0);
    let mut dots: usize = 0;
    let mut digits: usize = 0;
    let mut fraction: usize = 0;
    let mut i: usize = 0;
    while i < token.len()
        invariant
            i <= token.len(),
            forall|j: int| 0 <= j < token.len() ==> is_number_char(token@[j]),
            mantissa == fits(decimal_value(kept_digits(token@.take(i as int))) as int),
            dots == dots_in(token@.take(i as int)),
            digits == digits_in(token@.take(i as int)),
            fraction == fraction_len(token@.take(i as int)),
            dots <= i,
            digits <= i,
            fraction <= i,
        decreases token.len() - i,
    {
        let c = token[i];
        let ghost upto = token@.take(i + 1);
        assert(upto.drop_last() == token@.take(i as int));
        assert(upto.last() == c);
        if c == '.' {
            dots += 1;
            fraction = 0;
        } else {
            assert(is_digit(c));
            if dots > 0 && fraction >= MAX_SCALE as usize {
                fraction += 1;
            } else {
                let ghost before = kept_digits(token@.take(i as int));
                assert(kept_digits(upto).drop_last() == before);
                let d: u128 = (c as u32 - '0' as u32) as u128;
                let ghost exact = decimal_value(before) as int;
                let shifted = checked_product(mantissa, 10, Ghost(exact));
                mantissa = checked_sum(shifted, Some(d), Ghost(exact * 10), Ghost(d as int));
                if dots > 0 {
                    fraction += 1;
                }
            }
            digits += 1;
        }
        i += 1;
    }
    assert(token@.take(token.len() as int) == token@);
    if dots > 1 || digits == 0 {
        return None;
    }
    let scale: u32 = if fraction > MAX_SCALE as usize {
        MAX_SCALE
    } else {
        fraction as u32
    };
    Some(Number { mantissa, scale })
}

/// `exact * 10^e`, where that fits 128 bits.
fn scale_up(value: Option<u128>, e: u32, Ghost(exact): Ghost<int>) -> (r: Option<u128>)
    requires
        value == fits(exact),
        0 <= exact,
    ensures
        r == fits(exact * pow10(e as nat)),
{
    let mut value = value;
    let mut i: u32 = 0;
    assert(exact * pow10(0) == exact) by (nonlinear_arith)
        requires
            pow10(0) == 1,
    ;
    while i < e
        invariant
            i <= e,
            0 <= exact,
            value == fits(exact * pow10(i as nat)),
        decreases e - i,
    {
        let ghost p = pow10(i as nat);
        assert(exact * pow10((i + 1) as nat) == (exact * p) * 10) by (nonlinear_arith)
            requires
                pow10((i + 1) as nat) == 10 * p,
        ;
        assert(0 <= exact * p) by (nonlinear_arith)
            requires
                0 <= exact,
                0 <= p,
        ;
        value = checked_product(value, 10, Ghost(exact * p));
        i += 1;
    }
    value
}

fn larger_of(a: u32, b: u32) -> (m: u32)
    ensures
        m == larger(a as nat, b as nat),
{
    if a >= b {
        a
    } else {
        b
    }
}

proof fn lemma_pow10_positive(n: nat)
    ensures
        pow10(n) >= 1,
    decreases n,
{
    if n > 0 {
        lemma_pow10_positive((n - 1) as nat);
    }
}

/// A span whose whole seconds exceed 64 bits fits at no scale.
proof fn lemma_too_long(n: nat, scale: nat)
    requires
        n >= 0x1_0000_0000_0000_0000 * pow10(scale),
    ensures
        fitted(n, scale).is_none(),
    decreases scale,
{
    lemma_pow10_positive(scale);
    assert(n >= 0x1_0000_0000_0000_0000) by (nonlinear_arith)
        requires
            n >= 0x1_0000_0000_0000_0000 * pow10(scale),
            pow10(scale) >= 1,
    ;
    if scale > 0 {
        let p = pow10((scale - 1) as nat);
        assert(n / 10 >= 0x1_0000_0000_0000_0000 * p) by (nonlinear_arith)
            requires
                n >= 0x1_0000_0000_0000_0000 * (10 * p),
        ;
        lemma_too_long(n / 10, (scale - 1) as nat);
    }
}

/// The sum of the fields, fitted to 64 bits.
fn total_of(hours: Number, minutes: Number, seconds: Number, Ghost(f): Ghost<Fields>) -> (r: Option<
    Duration,
>)
    requires
        reads(hours, f.hours),
        reads(minutes, f.minutes),
        reads(seconds, f.seconds),
    ensures
        r == fitted(total_ticks(f), common_scale(f)),
        r matches Some(d) ==> d.wf(),
{
    let k = larger_of(hours.scale, larger_of(minutes.scale, seconds.scale));
    let ghost hs = at_scale(f.hours, k as nat) as int;
    let ghost ms = at_scale(f.minutes, k as nat) as int;
    let ghost ss = at_scale(f.seconds, k as nat) as int;
    let h = scale_up(hours.mantissa, k - hours.scale, Ghost(f.hours.mantissa as int));
    let h = checked_product(h, 3600, Ghost(hs));
    let m = scale_up(minutes.mantissa, k - minutes.scale, Ghost(f.minutes.mantissa as int));
    let m = checked_product(m, 60, Ghost(ms));
    let s = scale_up(seconds.mantissa, k - seconds.scale, Ghost(f.seconds.mantissa as int));
    let sum = checked_sum(h, m, Ghost(hs * 3600), Ghost(ms * 60));
    let total = checked_sum(sum, s, Ghost(hs * 3600 + ms * 60), Ghost(ss));
    let ghost exact = total_ticks(f);
    assert(total == fits(exact as int));
    let mut n: u128 = match total {
        Some(n) => n,
        None => {
            proof {
                lemma_pow10_grows(k as nat, MAX_SCALE as nat);
                lemma_pow10_limit();
                assert(exact >= 0x1_0000_0000_0000_0000 * pow10(k as nat)) by (nonlinear_arith)
                    requires
                        exact > 0xffff_ffff_ffff_ffff_ffff_ffff_ffff_ffff,
                        pow10(k as nat) <= 10_000_000_000_000_000_000,
                ;
                lemma_too_long(exact, k as nat);
            }
            return None;
        },
    };
    let mut scale: u32 = k;
    while n > u64::MAX as u128 && scale > 0
        invariant
            scale <= k <= MAX_SCALE,
            fitted(exact, k as nat) == fitted(n as nat, scale as nat),
        decreases scale,
    {
        n = n / 10;
        scale -= 1;
    }
    if n > u64::MAX as u128 {
        None
    } else {
        Some(Duration { ticks: n as u64, scale })
    }
}

/// Parses a duration of the form `PT[nH][nM][nS]`, each `n` a decimal
/// number.
pub fn parse_iso8601_duration_seconds(s: &str) -> (r: Option<Duration>)
    ensures
        r == parse_duration(s@),
        r matches Some(d) ==> d.wf(),
{
    let v = chars_of(s);
    if !(v.len() >= 2 && v[0] == 'P' && v[1] == 'T') {
        return None;
    }
    let zero = Number { mantissa: Some(0), scale: 0 };
    let mut hours = zero;
    let mut minutes = zero;
    let mut seconds = zero;
    let ghost mut fields = no_fields();
    let mut pos: usize = 2;
    let ghost whole = v@.skip(2);
    loop
        invariant
            v@ == s@,
            v@[0] == 'P',
            v@[1] == 'T',
            2 <= pos <= v.len(),
            whole == v@.skip(2),
            reads(hours, fields.hours),
            reads(minutes, fields.minutes),
            reads(seconds, fields.seconds),
            read_fields(whole, no_fields()) == read_fields(v@.skip(pos as int), fields),
        ensures
            read_fields(whole, no_fields()) == Some(fields),
        decreases v.len() - pos,
    {
        let ghost rest = v@.skip(pos as int);
        let mut end: usize = pos;
        while end < v.len() && (char_is_digit(v[end]) || v[end] == '.')
            invariant
                pos <= end <= v.len(),
                forall|j: int| pos <= j < end ==> is_number_char(v@[j]),
            decreases v.len() - end,
        {
            end += 1;
        }
        proof {
            assert forall|j: int| 0 <= j < end - pos implies is_number_char(rest[j]) by {
                assert(rest[j] == v@[pos + j]);
            }
            lemma_number_len(rest, end - pos);
        }
        if end >= v.len() {
            break;
        }
        if end == pos {
            return None;
        }
        let token = slice_of(v.as_slice(), pos, end);
        assert(token@ == rest.take(end - pos));
        let value = match read_number(token.as_slice()) {
            Some(x) => x,
            None => {
                return None;
            },
        };
        let ghost d = decimal_of(token@).unwrap();
        let unit = v[end];
        assert(unit == rest[end - pos]);
        assert(rest.skip(end - pos + 1) == v@.skip(end + 1));
        if unit == 'H' {
            hours = value;
            proof {
                fields = Fields { hours: d, ..fields };
            }
        } else if unit == 'M' {
            minutes = value;
            proof {
                fields = Fields { minutes: d, ..fields };
            }
        } else if unit == 'S' {
            seconds = value;
            proof {
                fields = Fields { seconds: d, ..fields };
            }
        } else {
            return None;
        }
        pos = end + 1;
    }
    total_of(hours, minutes, seconds, Ghost(fields))
}

// ---------------------------------------------------------------------
// Counting segments
// ---------------------------------------------------------------------

proof fn lemma_pow10_grows(a: nat, b: nat)
    requires
        a <= b,
    ensures
        pow10(a) <= pow10(b),
        pow10(a) >= 1,
    decreases b,
{
    if a < b {
        lemma_pow10_grows(a, (b - 1) as nat);
    } else if a > 0 {
        lemma_pow10_grows((a - 1) as nat, (a - 1) as nat);
    }
}

proof fn lemma_pow10_limit()
    ensures
        pow10(MAX_SCALE as nat) == 10_000_000_000_000_000_000,
{
    reveal_with_fuel(pow10, 20);
}

fn power_of_ten(n: u32) -> (p: u64)
    requires
        n <= MAX_SCALE,
    ensures
        p == pow10(n as nat),
        p >= 1,
{
    let mut p: u64 = 1;
    let mut i: u32 = 0;
    while i < n
        invariant
            i <= n <= MAX_SCALE,
            p == pow10(i as nat),
            p >= 1,
        decreases n - i,
    {
        proof {
            lemma_pow10_grows((i + 1) as nat, MAX_SCALE as nat);
            lemma_pow10_limit();
        }
        p = p * 10;
        i += 1;
    }
    p
}

/// The number of segments of `units / timescale` seconds each that it
/// takes to fill `total`: the quotient of the two spans, rounded up.
pub open spec fn segment_count(total: Duration, units: u64, timescale: u64) -> int {
    let filled = total.ticks * timescale;
    let each = pow10(total.scale as nat) * units;
    filled / each + if filled % each > 0 {
        1int
    } else {
        0int
    }
}

/// Counts the segments of `units / timescale` seconds that fill `total`.
pub fn count_segments(total: Duration, units: u64, timescale: u64) -> (count: u128)
    requires
        total.wf(),
        units > 0,
    ensures
        count == segment_count(total, units, timescale),
{
    let p = power_of_ten(total.scale);
    assert(total.ticks * timescale <= 0xffff_ffff_ffff_ffff * 0xffff_ffff_ffff_ffff)
        by (nonlinear_arith)
        requires
            0 <= total.ticks <= 0xffff_ffff_ffff_ffff,
            0 <= timescale <= 0xffff_ffff_ffff_ffff,
    ;
    assert(1 <= p * units <= 0xffff_ffff_ffff_ffff * 0xffff_ffff_ffff_ffff) by (nonlinear_arith)
        requires
            1 <= p <= 0xffff_ffff_ffff_ffff,
            1 <= units <= 0xffff_ffff_ffff_ffff,
    ;
    let filled: u128 = (total.ticks as u128) * (timescale as u128);
    let each: u128 = (p as u128) * (units as u128);
    let whole = filled / each;
    assert(filled / each <= filled) by (nonlinear_arith)
        requires
            each >= 1,
            filled >= 0,
    ;
    if filled % each > 0 {
        whole + 1
    } else {
        whole
    }
}

} // verus!
