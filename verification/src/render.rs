//! Rendering byte counts for the report: a plain decimal for small values,
//! otherwise two decimal places against the binary units. Rounding is to the
//! nearest hundredth of the unit, ties to the even hundredth.

use vstd::prelude::*;

use crate::strings::push_char;
use vstd::string::*;

verus! {

/// The decimal digit character for `d`.
pub open spec fn dec_digit(d: int) -> char {
    if d == 0 {
        '0'
    } else if d == 1 {
        '1'
    } else if d == 2 {
        '2'
    } else if d == 3 {
        '3'
    } else if d == 4 {
        '4'
    } else if d == 5 {
        '5'
    } else if d == 6 {
        '6'
    } else if d == 7 {
        '7'
    } else if d == 8 {
        '8'
    } else {
        '9'
    }
}

/// The decimal spelling of a nonnegative number.
pub open spec fn dec_str(n: int) -> Seq<char>
    decreases n,
{
    if n < 10 {
        seq![dec_digit(n)]
    } else {
        dec_str(n / 10).push(dec_digit(n % 10))
    }
}

/// The digit character of `d`, which is below ten.
fn digit_char(d: u128) -> (r: char)
    requires
        d < 10,
    ensures
        r == dec_digit(d as int),
{
    if d == 0 {
        '0'
    } else if d == 1 {
        '1'
    } else if d == 2 {
        '2'
    } else if d == 3 {
        '3'
    } else if d == 4 {
        '4'
    } else if d == 5 {
        '5'
    } else if d == 6 {
        '6'
    } else if d == 7 {
        '7'
    } else if d == 8 {
        '8'
    } else {
        '9'
    }
}

/// The decimal spelling of `n`.
pub fn u128_to_string(n: u128) -> (r: String)
    ensures
        r@ == dec_str(n as int),
    decreases n,
{
    if n < 10 {
        let mut s = String::new();
        push_char(&mut s, digit_char(n));
        proof {
            assert(s@ =~= dec_str(n as int));
        }
        s
    } else {
        let mut s = u128_to_string(n / 10);
        push_char(&mut s, digit_char(n % 10));
        s
    }
}

/// The decimal spelling of `n`.
pub fn u64_to_string(n: u64) -> (r: String)
    ensures
        r@ == dec_str(n as int),
{
    u128_to_string(n as u128)
}

/// `n` in hundredths of `unit`, rounded to nearest, ties to even.
pub open spec fn hundredths_of(n: int, unit: int) -> int
    recommends
        unit > 0,
{
    let r = n * 100;
    let q = r / unit;
    let rem = r % unit;
    if 2 * rem > unit || (2 * rem == unit && q % 2 == 1) {
        q + 1
    } else {
        q
    }
}

/// A quantity of hundredths written with two decimal places.
pub open spec fn two_decimals(q: int) -> Seq<char> {
    dec_str(q / 100) + seq!['.', dec_digit((q / 10) % 10), dec_digit(q % 10)]
}

/// What `format_bytes` says: `GiB`, `MiB` and `KiB` with two decimals, plain
/// bytes below one `KiB`.
pub open spec fn format_bytes_spec(bytes: u64) -> Seq<char> {
    if bytes >= 0x40000000 {
        two_decimals(hundredths_of(bytes as int, 0x40000000)) + " GiB"@
    } else if bytes >= 0x100000 {
        two_decimals(hundredths_of(bytes as int, 0x100000)) + " MiB"@
    } else if bytes >= 0x400 {
        two_decimals(hundredths_of(bytes as int, 0x400)) + " KiB"@
    } else {
        dec_str(bytes as int) + " B"@
    }
}

/// Renders hundredths of a unit with two decimal places.
fn render_two_decimals(q: u128) -> (r: String)
    ensures
        r@ == two_decimals(q as int),
{
    let mut s = u128_to_string(q / 100);
    push_char(&mut s, '.');
    push_char(&mut s, digit_char((q / 10) % 10));
    push_char(&mut s, digit_char(q % 10));
    proof {
        assert(s@ =~= two_decimals(q as int));
    }
    s
}

/// `n` in hundredths of `unit`.
fn hundredths(n: u64, unit: u64) -> (r: u128)
    requires
        unit > 0,
    ensures
        r as int == hundredths_of(n as int, unit as int),
{
    let r: u128 = (n as u128) * 100;
    let u: u128 = unit as u128;
    let q = r / u;
    let rem = r % u;
    if 2 * rem > u || (2 * rem == u && q % 2 == 1) {
        q + 1
    } else {
        q
    }
}

/// Renders a byte count for the report: two decimals of the largest binary
/// unit it reaches, or the plain count below one `KiB`.
pub fn format_bytes(bytes: u64) -> (r: String)
    ensures
        r@ == format_bytes_spec(bytes),
{
    if bytes >= 0x40000000 {
        let mut s = render_two_decimals(hundredths(bytes, 0x40000000));
        s.append(" GiB");
        s
    } else if bytes >= 0x100000 {
        let mut s = render_two_decimals(hundredths(bytes, 0x100000));
        s.append(" MiB");
        s
    } else if bytes >= 0x400 {
        let mut s = render_two_decimals(hundredths(bytes, 0x400));
        s.append(" KiB");
        s
    } else {
        let mut s = u64_to_string(bytes);
        s.append(" B");
        s
    }
}

} // verus!
