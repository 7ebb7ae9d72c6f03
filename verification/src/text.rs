use vstd::prelude::*;
use vstd::string::*;

verus! {

/// `String::push`: appends `c` to the end of `s`.
#[verifier::external_body]
pub(crate) fn push_char(s: &mut String, c: char)
    ensures
        final(s)@ == old(s)@.push(c),
{
    s.push(c);
}

/// The decimal digit for `d < 10`.
pub open spec fn digit_char(d: int) -> char {
    (48 + d) as char
}

/// Decimal digits of a natural number, most significant first, no leading zeros.
pub open spec fn nat_decimal(n: nat) -> Seq<char>
    decreases n,
{
    if n < 10 {
        seq![digit_char(n as int)]
    } else {
        nat_decimal(n / 10).push(digit_char((n % 10) as int))
    }
}

/// How `{}` prints an integer: an optional `-`, then the decimal digits.
pub open spec fn int_decimal(n: int) -> Seq<char> {
    if n < 0 {
        seq!['-'] + nat_decimal((-n) as nat)
    } else {
        nat_decimal(n as nat)
    }
}

/// The decimal text of `n`.
pub fn u64_to_decimal(n: u64) -> (r: String)
    ensures
        r@ == nat_decimal(n as nat),
{
    let mut digits: Vec<char> = Vec::new();
    let mut m = n;
    while m >= 10
        invariant
            nat_decimal(n as nat) == nat_decimal(m as nat) + digits@.reverse(),
        decreases m,
    {
        let d = m % 10;
        proof {
            assert(nat_decimal(m as nat) == nat_decimal((m / 10) as nat).push(digit_char((m % 10) as int)));
            assert(digits@.push(digit_char(d as int)).reverse() =~= seq![digit_char(d as int)] + digits@.reverse());
            assert(nat_decimal((m / 10) as nat).push(digit_char((m % 10) as int)) =~= nat_decimal((m / 10) as nat) + seq![digit_char(d as int)]);
        }
        digits.push(char_of_digit(d));
        m = m / 10;
    }
    let mut r = String::new();
    push_char(&mut r, char_of_digit(m));
    assert(nat_decimal(m as nat) == seq![digit_char(m as int)]);
    let mut i = digits.len();
    while i > 0
        invariant
            i <= digits@.len(),
            r@ + digits@.subrange(0, i as int).reverse() == nat_decimal(n as nat),
        decreases i,
    {
        i = i - 1;
        let ghost before = r@;
        push_char(&mut r, digits[i]);
        assert(digits@.subrange(0, i + 1).reverse() =~= seq![digits@[i as int]] + digits@.subrange(0, i as int).reverse());
        assert(before + digits@.subrange(0, i + 1).reverse() =~= r@ + digits@.subrange(0, i as int).reverse());
    }
    assert(digits@.subrange(0, 0).reverse() =~= Seq::<char>::empty());
    assert(r@ + Seq::<char>::empty() =~= r@);
    assert(digits@.subrange(0, digits@.len() as int) =~= digits@);
    r
}

fn char_of_digit(d: u64) -> (c: char)
    requires
        d < 10,
    ensures
        c == digit_char(d as int),
{
    if d == 0 { '0' } else if d == 1 { '1' } else if d == 2 { '2' } else if d == 3 { '3' }
    else if d == 4 { '4' } else if d == 5 { '5' } else if d == 6 { '6' } else if d == 7 { '7' }
    else if d == 8 { '8' } else { '9' }
}

/// The decimal text of `n`, with a leading `-` when it is negative.
pub fn i64_to_decimal(n: i64) -> (r: String)
    ensures
        r@ == int_decimal(n as int),
{
    if n < 0 {
        let mag: u64 = if n == i64::MIN { 9223372036854775808u64 } else { (-n) as u64 };
        let digits = u64_to_decimal(mag);
        let mut r = String::new();
        push_char(&mut r, '-');
        let r = r.concat(digits.as_str());
        r
    } else {
        u64_to_decimal(n as u64)
    }
}

/// `n` spaces.
pub open spec fn spaces(n: int) -> Seq<char> {
    Seq::new(if n > 0 { n as nat } else { 0 }, |i: int| ' ')
}

/// `s` right-aligned in `width` characters, as `{:>width}` prints it.
pub open spec fn pad_left(s: Seq<char>, width: int) -> Seq<char> {
    spaces(width - s.len()) + s
}

/// `s` left-aligned in `width` characters, as `{:width}` prints a string.
pub open spec fn pad_right(s: Seq<char>, width: int) -> Seq<char> {
    s + spaces(width - s.len())
}

/// Appends `n` spaces to `s`.
pub fn push_spaces(s: &mut String, n: usize)
    ensures
        final(s)@ == old(s)@ + spaces(n as int),
{
    let mut i: usize = 0;
    while i < n
        invariant
            i <= n,
            s@ == old(s)@ + spaces(i as int),
        decreases n - i,
    {
        push_char(s, ' ');
        assert(spaces(i as int).push(' ') =~= spaces(i + 1));
        assert(old(s)@ + spaces(i + 1) =~= (old(s)@ + spaces(i as int)).push(' '));
        i = i + 1;
    }
}

/// Appends `t` right-aligned in `width` characters.
pub fn push_padded_left(s: &mut String, t: &str, width: usize)
    ensures
        final(s)@ == old(s)@ + pad_left(t@, width as int),
{
    let n = t.unicode_len();
    let fill = if n < width { width - n } else { 0 };
    push_spaces(s, fill);
    s.append(t);
    assert(spaces(fill as int) =~= spaces(width - t@.len()));
    assert(old(s)@ + spaces(fill as int) + t@ =~= old(s)@ + pad_left(t@, width as int));
}

/// Appends `t` left-aligned in `width` characters.
pub fn push_padded_right(s: &mut String, t: &str, width: usize)
    ensures
        final(s)@ == old(s)@ + pad_right(t@, width as int),
{
    let n = t.unicode_len();
    let fill = if n < width { width - n } else { 0 };
    s.append(t);
    push_spaces(s, fill);
    assert(spaces(fill as int) =~= spaces(width - t@.len()));
    assert(old(s)@ + t@ + spaces(fill as int) =~= old(s)@ + pad_right(t@, width as int));
}

} // verus!
