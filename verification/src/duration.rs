use vstd::prelude::*;
use vstd::string::*;
use crate::text::{int_decimal, i64_to_decimal, nat_decimal, digit_char};

verus! {

/// The largest number of whole seconds a duration may span either way
/// (`i64::MAX` milliseconds, as chrono bounds its `TimeDelta`).
pub const MAX_DURATION_SECONDS: i64 = 9_223_372_036_854_775;

/// A span of time in whole seconds, negative for spans into the past.
#[derive(Clone, Copy, Debug, PartialEq, Eq, Structural)]
pub struct Duration {
    pub seconds: i64,
}

/// Why a decimal number did not parse, as `u64::from_str` reports it.
#[derive(Clone, Copy, Debug, PartialEq, Eq, Structural)]
pub enum IntErrorKind {
    Empty,
    InvalidDigit,
    PosOverflow,
}

/// How `{:?}` prints the parse error of each kind.
pub open spec fn int_error_text(k: IntErrorKind) -> Seq<char> {
    match k {
        IntErrorKind::Empty => "ParseIntError { kind: Empty }"@,
        IntErrorKind::InvalidDigit => "ParseIntError { kind: InvalidDigit }"@,
        IntErrorKind::PosOverflow => "ParseIntError { kind: PosOverflow }"@,
    }
}

impl IntErrorKind {
    /// The debug text of the parse error of this kind.
    pub fn debug_text(&self) -> (r: String)
        ensures
            r@ == int_error_text(*self),
    {
        match self {
            IntErrorKind::Empty => String::from_str("ParseIntError { kind: Empty }"),
            IntErrorKind::InvalidDigit => String::from_str("ParseIntError { kind: InvalidDigit }"),
            IntErrorKind::PosOverflow => String::from_str("ParseIntError { kind: PosOverflow }"),
        }
    }
}

pub open spec fn is_digit(c: char) -> bool {
    '0' <= c <= '9'
}

pub open spec fn digit_value(c: char) -> int {
    (c as int) - 48
}

/// Reads decimal digits left to right onto `acc`: the first non-digit is
/// an invalid digit, and a value past `u64::MAX` is an overflow.
pub open spec fn scan_digits(ds: Seq<char>, acc: int) -> Result<int, IntErrorKind>
    decreases ds.len(),
{
    if ds.len() == 0 {
        Ok(acc)
    } else if !is_digit(ds[0]) {
        Err(IntErrorKind::InvalidDigit)
    } else if acc * 10 + digit_value(ds[0]) > u64::MAX {
        Err(IntErrorKind::PosOverflow)
    } else {
        scan_digits(ds.drop_first(), acc * 10 + digit_value(ds[0]))
    }
}

/// `u64::from_str`: an optional `+`, then at least one decimal digit.
pub open spec fn parse_u64_spec(s: Seq<char>) -> Result<int, IntErrorKind> {
    if s.len() == 0 {
        Err(IntErrorKind::Empty)
    } else if s.len() == 1 && (s[0] == '+' || s[0] == '-') {
        Err(IntErrorKind::InvalidDigit)
    } else if s[0] == '+' {
        scan_digits(s.drop_first(), 0)
    } else {
        scan_digits(s, 0)
    }
}

/// Parses `s` as a `u64` the way `str::parse::<u64>` does.
pub fn parse_u64(s: &str) -> (r: Result<u64, IntErrorKind>)
    ensures
        match r {
            Ok(v) => parse_u64_spec(s@) == Ok::<int, IntErrorKind>(v as int),
            Err(k) => parse_u64_spec(s@) == Err::<int, IntErrorKind>(k),
        },
{
    let n = s.unicode_len();
    if n == 0 {
        return Err(IntErrorKind::Empty);
    }
    let c0 = s.get_char(0);
    if n == 1 && (c0 == '+' || c0 == '-') {
        return Err(IntErrorKind::InvalidDigit);
    }
    let start: usize = if c0 == '+' { 1 } else { 0 };
    let ghost ds = s@.skip(start as int);
    assert(start == 1 ==> ds =~= s@.drop_first());
    assert(start == 0 ==> ds =~= s@);
    let mut acc: u64 = 0;
    let mut i: usize = start;
    while i < n
        invariant
            start <= i <= n,
            n == s@.len(),
            ds == s@.skip(start as int),
            parse_u64_spec(s@) == scan_digits(ds, 0),
            scan_digits(ds, 0) == scan_digits(s@.skip(i as int), acc as int),
        decreases n - i,
    {
        let c = s.get_char(i);
        assert(s@.skip(i as int)[0] == c);
        assert(s@.skip(i as int).drop_first() =~= s@.skip(i + 1));
        if !('0' <= c && c <= '9') {
            return Err(IntErrorKind::InvalidDigit);
        }
        let d: u64 = (c as u32 - 48) as u64;
        match acc.checked_mul(10) {
            None => {
                return Err(IntErrorKind::PosOverflow);
            },
            Some(m) => match m.checked_add(d) {
                None => {
                    return Err(IntErrorKind::PosOverflow);
                },
                Some(a) => {
                    acc = a;
                },
            },
        }
        i = i + 1;
    }
    assert(s@.skip(n as int).len() == 0);
    Ok(acc)
}

proof fn lemma_scan_append(a: Seq<char>, b: Seq<char>, acc: int)
    requires
        scan_digits(a, acc) is Ok,
    ensures
        scan_digits(a + b, acc) == scan_digits(b, scan_digits(a, acc)->Ok_0),
    decreases a.len(),
{
    if a.len() > 0 {
        assert((a + b).drop_first() =~= a.drop_first() + b);
        assert((a + b)[0] == a[0]);
        lemma_scan_append(a.drop_first(), b, acc * 10 + digit_value(a[0]));
    } else {
        assert(a + b =~= b);
    }
}

proof fn lemma_digit_char(d: int)
    requires
        0 <= d < 10,
    ensures
        is_digit(digit_char(d)),
        digit_value(digit_char(d)) == d,
{
    assert(((48 + d) as char) as int == 48 + d);
}

proof fn lemma_scan_decimal(v: nat)
    requires
        v <= u64::MAX,
    ensures
        scan_digits(nat_decimal(v), 0) == Ok::<int, IntErrorKind>(v as int),
        nat_decimal(v).len() > 0,
        is_digit(nat_decimal(v)[0]),
    decreases v,
{
    if v < 10 {
        lemma_digit_char(v as int);
        assert(nat_decimal(v) == seq![digit_char(v as int)]);
        assert(nat_decimal(v).drop_first() =~= Seq::<char>::empty());
        assert(scan_digits(Seq::<char>::empty(), v as int) == Ok::<int, IntErrorKind>(v as int));
    } else {
        lemma_scan_decimal(v / 10);
        lemma_digit_char((v % 10) as int);
        let d = seq![digit_char((v % 10) as int)];
        assert(nat_decimal(v) =~= nat_decimal(v / 10) + d);
        lemma_scan_append(nat_decimal(v / 10), d, 0);
        assert(d.drop_first() =~= Seq::<char>::empty());
        assert((v / 10) * 10 + (v % 10) == v);
        assert(scan_digits(Seq::<char>::empty(), v as int) == Ok::<int, IntErrorKind>(v as int));
        assert(scan_digits(d, (v / 10) as int) == scan_digits(d.drop_first(), v as int));
        assert(nat_decimal(v)[0] == nat_decimal(v / 10)[0]);
    }
}

/// Reading back a number in the decimal text the bot prints for it gives
/// the number again.
pub proof fn lemma_decimal_round_trip(v: u64)
    ensures
        parse_u64_spec(nat_decimal(v as nat)) == Ok::<int, IntErrorKind>(v as int),
{
    lemma_scan_decimal(v as nat);
}

/// Seconds in one of the units `w`, `d`, `h`, `m`; 0 for any other character.
pub open spec fn unit_seconds(u: char) -> int {
    if u == 'w' {
        604800
    } else if u == 'd' {
        86400
    } else if u == 'h' {
        3600
    } else if u == 'm' {
        60
    } else {
        0
    }
}

/// `v as i64`: values past `i64::MAX` wrap around to negatives.
pub open spec fn wrap_i64(v: int) -> int {
    if v <= i64::MAX { v } else { v - 18446744073709551616 }
}

/// `split_at(len - 1)` panics on an empty string and when the last
/// character takes more than one byte; a number of units out of the
/// duration's bounds panics too.
pub open spec fn parse_duration_panics(s: Seq<char>) -> bool {
    ||| s.len() == 0
    ||| (s.last() as int) >= 128
    ||| (parse_u64_spec(s.drop_last()) matches Ok(v) && unit_seconds(s.last()) > 0 && !(
        -MAX_DURATION_SECONDS <= wrap_i64(v) * unit_seconds(s.last()) <= MAX_DURATION_SECONDS))
}

/// A number followed by one unit letter: `w` weeks, `d` days, `h` hours,
/// `m` minutes. The number is read first, so a bad number is reported
/// before a bad unit. Gives the span in seconds, or the error text.
pub open spec fn parse_duration_spec(s: Seq<char>) -> Result<int, Seq<char>> {
    match parse_u64_spec(s.drop_last()) {
        Err(k) => Err(int_error_text(k)),
        Ok(v) => if unit_seconds(s.last()) > 0 {
            Ok(wrap_i64(v) * unit_seconds(s.last()))
        } else {
            Err("Unkown duration unit"@)
        },
    }
}

/// Tells whether `parse_duration` would panic on `s` (see
/// `parse_duration_panics`), so a caller can fail first.
pub fn parse_duration_would_panic(s: &str) -> (b: bool)
    ensures
        b == parse_duration_panics(s@),
{
    let n = s.unicode_len();
    if n == 0 {
        return true;
    }
    let last = s.get_char(n - 1);
    if last as u32 >= 128 {
        return true;
    }
    let unit: i64 = unit_of(last);
    let digits = s.substring_char(0, n - 1);
    assert(digits@ =~= s@.drop_last());
    match parse_u64(digits) {
        Err(_) => false,
        Ok(v) => {
            if unit == 0 {
                false
            } else {
                let t = v as i64;
                proof { lemma_wrap_i64(v); }
                let lim = MAX_DURATION_SECONDS / unit;
                proof { lemma_bound_by_division(t as int, unit as int); }
                !(-lim <= t && t <= lim)
            }
        },
    }
}

fn unit_of(c: char) -> (u: i64)
    ensures
        u == unit_seconds(c),
{
    if c == 'w' {
        604800
    } else if c == 'd' {
        86400
    } else if c == 'h' {
        3600
    } else if c == 'm' {
        60
    } else {
        0
    }
}

proof fn lemma_wrap_i64(v: u64)
    ensures
        (v as i64) as int == wrap_i64(v as int),
{
    assert((v as i64) as int == if v <= 0x7fff_ffff_ffff_ffffu64 { v as int } else { v as int - 0x1_0000_0000_0000_0000int }) by (bit_vector);
}

proof fn lemma_bound_by_division(t: int, u: int)
    requires
        u == 604800 || u == 86400 || u == 3600 || u == 60,
    ensures
        (-MAX_DURATION_SECONDS <= t * u <= MAX_DURATION_SECONDS) == (-((MAX_DURATION_SECONDS as int) / u) <= t <= (MAX_DURATION_SECONDS as int) / u),
{
}

/// Parses a span like `5d`: a decimal count, then a unit letter.
pub fn parse_duration(s: &str) -> (r: Result<Duration, String>)
    requires
        !parse_duration_panics(s@),
    ensures
        match r {
            Ok(d) => parse_duration_spec(s@) == Ok::<int, Seq<char>>(d.seconds as int),
            Err(e) => parse_duration_spec(s@) == Err::<int, Seq<char>>(e@),
        },
        r matches Ok(d) ==> -MAX_DURATION_SECONDS <= d.seconds <= MAX_DURATION_SECONDS,
{
    let n = s.unicode_len();
    let last = s.get_char(n - 1);
    let digits = s.substring_char(0, n - 1);
    assert(digits@ =~= s@.drop_last());
    let v = match parse_u64(digits) {
        Ok(v) => v,
        Err(k) => {
            return Err(k.debug_text());
        },
    };
    let unit: i64 = unit_of(last);
    if unit == 0 {
        return Err(String::from_str("Unkown duration unit"));
    }
    let t = v as i64;
    proof {
        lemma_wrap_i64(v);
        lemma_bound_by_division(t as int, unit as int);
    }
    Ok(Duration { seconds: t * unit })
}

// ---------------------------------------------------------------------------
// Human-readable breakdown

/// Division rounding toward zero, as Rust's integer `/` does.
pub open spec fn trunc_div(a: int, b: int) -> int {
    if a >= 0 { a / b } else { -((-a) / b) }
}

/// Whole weeks, days, hours, minutes and seconds of a span of `s` seconds,
/// each taken toward zero from what the larger units leave.
pub open spec fn duration_parts(s: int) -> (int, int, int, int, int) {
    let w = trunc_div(s, 604800);
    let r1 = s - w * 604800;
    let d = trunc_div(r1, 86400);
    let r2 = r1 - d * 86400;
    let h = trunc_div(r2, 3600);
    let r3 = r2 - h * 3600;
    let m = trunc_div(r3, 60);
    (w, d, h, m, r3 - m * 60)
}

/// `{w}w {d}d {h}h {m}m {s}s` for the parts of the span.
pub open spec fn duration_text(s: int) -> Seq<char> {
    let p = duration_parts(s);
    int_decimal(p.0) + "w "@ + int_decimal(p.1) + "d "@ + int_decimal(p.2) + "h "@ + int_decimal(p.3)
        + "m "@ + int_decimal(p.4) + "s"@
}

proof fn lemma_parts_of_magnitude(s: int, m: int)
    requires
        m == if s < 0 { -s } else { s },
    ensures
        duration_parts(s) == (if s < 0 {
            (-(m / 604800), -((m % 604800) / 86400), -((m % 86400) / 3600), -((m % 3600) / 60), -(m % 60))
        } else {
            (m / 604800, (m % 604800) / 86400, (m % 86400) / 3600, (m % 3600) / 60, m % 60)
        }),
{
    assert((m % 604800) % 86400 == m % 86400);
    assert((m % 86400) % 3600 == m % 3600);
    assert((m % 3600) % 60 == m % 60);
}

/// The parts that `duration_to_ascii` prints add back up to the span: each
/// part below weeks stays under the size of the next larger unit, and all
/// parts have the sign of the span.
pub proof fn lemma_duration_parts_recombine(s: int)
    ensures
        ({
            let p = duration_parts(s);
            &&& p.0 * 604800 + p.1 * 86400 + p.2 * 3600 + p.3 * 60 + p.4 == s
            &&& -7 < p.1 < 7 && -24 < p.2 < 24 && -60 < p.3 < 60 && -60 < p.4 < 60
            &&& s >= 0 ==> p.0 >= 0 && p.1 >= 0 && p.2 >= 0 && p.3 >= 0 && p.4 >= 0
            &&& s < 0 ==> p.0 <= 0 && p.1 <= 0 && p.2 <= 0 && p.3 <= 0 && p.4 <= 0
        }),
{
    let m = if s < 0 { -s } else { s };
    lemma_parts_of_magnitude(s, m);
    assert(m == (m / 604800) * 604800 + (m % 604800));
    assert(m % 604800 == ((m % 604800) / 86400) * 86400 + m % 86400);
    assert(m % 86400 == ((m % 86400) / 3600) * 3600 + m % 3600);
    assert(m % 3600 == ((m % 3600) / 60) * 60 + m % 60);
}

/// The span in seconds of `w` weeks, `d` days, `h` hours, `m` minutes and
/// `x` seconds.
pub open spec fn span_of(w: int, d: int, h: int, m: int, x: int) -> int {
    w * 604800 + d * 86400 + h * 3600 + m * 60 + x
}

/// The text of a span reads back to the span: it is five numbers, each
/// followed by its unit `w`, `d`, `h`, `m`, `s`, that add up to the span,
/// where days, hours, minutes and seconds each stay under the next larger
/// unit and all numbers have the sign of the span.
pub proof fn lemma_duration_text_reads_back(s: int)
    ensures
        exists|w: int, d: int, h: int, m: int, x: int|
            {
                &&& duration_text(s) == int_decimal(w) + "w "@ + int_decimal(d) + "d "@ + int_decimal(h) + "h "@
                    + int_decimal(m) + "m "@ + int_decimal(x) + "s"@
                &&& #[trigger] span_of(w, d, h, m, x) == s
                &&& -7 < d < 7 && -24 < h < 24 && -60 < m < 60 && -60 < x < 60
                &&& s >= 0 ==> w >= 0 && d >= 0 && h >= 0 && m >= 0 && x >= 0
                &&& s < 0 ==> w <= 0 && d <= 0 && h <= 0 && m <= 0 && x <= 0
            },
{
    lemma_duration_parts_recombine(s);
    let p = duration_parts(s);
    assert(span_of(p.0, p.1, p.2, p.3, p.4) == s);
}

/// Writes the span as `Xw Xd Xh Xm Xs`.
pub fn duration_to_ascii(d: Duration) -> (r: String)
    ensures
        r@ == duration_text(d.seconds as int),
{
    let s = d.seconds;
    let m: u64 = if s < 0 {
        if s == i64::MIN { 9223372036854775808u64 } else { (-s) as u64 }
    } else {
        s as u64
    };
    proof { lemma_parts_of_magnitude(s as int, m as int); }
    let w = (m / 604800) as i64;
    let dd = ((m % 604800) / 86400) as i64;
    let h = ((m % 86400) / 3600) as i64;
    let mi = ((m % 3600) / 60) as i64;
    let sec = (m % 60) as i64;
    let (w, dd, h, mi, sec) = if s < 0 { (-w, -dd, -h, -mi, -sec) } else { (w, dd, h, mi, sec) };
    let mut r = i64_to_decimal(w);
    r.append("w ");
    r.append(i64_to_decimal(dd).as_str());
    r.append("d ");
    r.append(i64_to_decimal(h).as_str());
    r.append("h ");
    r.append(i64_to_decimal(mi).as_str());
    r.append("m ");
    r.append(i64_to_decimal(sec).as_str());
    r.append("s");
    r
}

} // verus!
