//! Small verified string helpers: digits, decimal and hexadecimal
//! rendering, and character pushes, shared by the formatting modules.

use vstd::prelude::*;

verus! {

/// std's `String::push` appends one character.
pub assume_specification[ String::push ](s: &mut String, c: char)
    ensures
        final(s)@ == old(s)@.push(c),
;

/// Relies on std's string-slice equality: two `str`s compare equal exactly
/// when their character sequences do.
#[verifier::external_body]
pub fn str_eq(a: &str, b: &str) -> (r: bool)
    ensures
        r == (a@ == b@),
{
    a == b
}

/// A borrowed optional string, or the given default.
pub fn opt_or<'a>(o: &'a Option<String>, d: &'a str) -> (r: &'a str)
    ensures
        r@ == match o {
            Some(x) => x@,
            None => d@,
        },
{
    match o {
        Some(x) => x.as_str(),
        None => d,
    }
}

/// An owned copy of a string slice.
pub fn str_to_string(s: &str) -> (r: String)
    ensures
        r@ == s@,
{
    s.to_owned()
}

/// The decimal digit character for a value below ten.
pub open spec fn dec_digit(d: nat) -> char {
    if d == 0 {
        '0'
    } else if d == 1 {
        '1'
    } else if d == 2 {
        '2'
    } else if d == 3 {
        '3'
    } else if d == 4 {
        '4'
    } else if d == 5 {
        '5'
    } else if d == 6 {
        '6'
    } else if d == 7 {
        '7'
    } else if d == 8 {
        '8'
    } else {
        '9'
    }
}

/// The hexadecimal digit character (lowercase) for a value below sixteen.
pub open spec fn hex_digit(d: nat) -> char {
    if d < 10 {
        dec_digit(d)
    } else if d == 10 {
        'a'
    } else if d == 11 {
        'b'
    } else if d == 12 {
        'c'
    } else if d == 13 {
        'd'
    } else if d == 14 {
        'e'
    } else {
        'f'
    }
}

/// The usual decimal rendering of a natural number, no leading zeros.
pub open spec fn dec_str(n: nat) -> Seq<char>
    decreases n,
{
    if n < 10 {
        seq![dec_digit(n)]
    } else {
        dec_str(n / 10).push(dec_digit(n % 10))
    }
}

fn dec_digit_char(d: u64) -> (c: char)
    requires
        d < 10,
    ensures
        c == dec_digit(d as nat),
{
    if d == 0 {
        '0'
    } else if d == 1 {
        '1'
    } else if d == 2 {
        '2'
    } else if d == 3 {
        '3'
    } else if d == 4 {
        '4'
    } else if d == 5 {
        '5'
    } else if d == 6 {
        '6'
    } else if d == 7 {
        '7'
    } else if d == 8 {
        '8'
    } else {
        '9'
    }
}

/// The decimal digit character of `d`, which must be below ten.
pub fn dec_char(d: u64) -> (c: char)
    requires
        d < 10,
    ensures
        c == dec_digit(d as nat),
{
    dec_digit_char(d)
}

fn hex_digit_char(d: u64) -> (c: char)
    requires
        d < 16,
    ensures
        c == hex_digit(d as nat),
{
    if d < 10 {
        dec_digit_char(d)
    } else if d == 10 {
        'a'
    } else if d == 11 {
        'b'
    } else if d == 12 {
        'c'
    } else if d == 13 {
        'd'
    } else if d == 14 {
        'e'
    } else {
        'f'
    }
}

/// Append the decimal rendering of `n` to `out`.
pub fn push_dec_u64(out: &mut String, n: u64)
    ensures
        final(out)@ == old(out)@ + dec_str(n as nat),
    decreases n,
{
    if n < 10 {
        out.push(dec_digit_char(n));
    } else {
        push_dec_u64(out, n / 10);
        out.push(dec_digit_char(n % 10));
    }
}

/// Append the decimal rendering of `n` to `out`.
pub fn push_dec_u128(out: &mut String, n: u128)
    ensures
        final(out)@ == old(out)@ + dec_str(n as nat),
    decreases n,
{
    if n < 10 {
        out.push(dec_digit_char((n % 10) as u64));
    } else {
        push_dec_u128(out, n / 10);
        out.push(dec_digit_char((n % 10) as u64));
    }
}

/// The decimal rendering of `n` as a fresh string.
pub fn u64_to_dec(n: u64) -> (r: String)
    ensures
        r@ == dec_str(n as nat),
{
    let mut s = String::new();
    push_dec_u64(&mut s, n);
    s
}

/// Decimal rendering padded with a leading zero to two digits.
pub open spec fn dec2(n: nat) -> Seq<char> {
    if n < 10 {
        seq!['0', dec_digit(n)]
    } else {
        dec_str(n)
    }
}

/// Decimal rendering padded with leading zeros to at least four digits.
pub open spec fn dec4(n: nat) -> Seq<char> {
    if n < 10 {
        seq!['0', '0', '0', dec_digit(n)]
    } else if n < 100 {
        seq!['0', '0'] + dec_str(n)
    } else if n < 1000 {
        seq!['0'] + dec_str(n)
    } else {
        dec_str(n)
    }
}

/// Append `n` zero-padded to two digits.
pub fn push_dec2(out: &mut String, n: u64)
    ensures
        final(out)@ == old(out)@ + dec2(n as nat),
{
    if n < 10 {
        out.push('0');
    }
    push_dec_u64(out, n);
    proof {
        if n < 10 {
            assert(old(out)@ + dec2(n as nat) =~= (old(out)@.push('0')) + dec_str(n as nat));
        }
    }
}

/// Append `n` zero-padded to four digits.
pub fn push_dec4(out: &mut String, n: u64)
    ensures
        final(out)@ == old(out)@ + dec4(n as nat),
{
    if n < 10 {
        out.push('0');
        out.push('0');
        out.push('0');
    } else if n < 100 {
        out.push('0');
        out.push('0');
    } else if n < 1000 {
        out.push('0');
    }
    push_dec_u64(out, n);
    proof {
        if n < 10 {
            assert(old(out)@ + dec4(n as nat) =~= old(out)@.push('0').push('0').push('0') + dec_str(
                n as nat,
            ));
        } else if n < 100 {
            assert(old(out)@ + dec4(n as nat) =~= old(out)@.push('0').push('0') + dec_str(n as nat));
        } else if n < 1000 {
            assert(old(out)@ + dec4(n as nat) =~= old(out)@.push('0') + dec_str(n as nat));
        }
    }
}

/// The decimal rendering of an integer, `-` before the digits when negative.
pub open spec fn int_str(i: int) -> Seq<char> {
    if i < 0 {
        seq!['-'] + dec_str((-i) as nat)
    } else {
        dec_str(i as nat)
    }
}

/// The decimal rendering of `n` (possibly negative) as a fresh string.
pub fn i64_to_dec(n: i64) -> (r: String)
    ensures
        r@ == int_str(n as int),
{
    let mut s = String::new();
    if n < 0 {
        s.push('-');
        let wide: i128 = n as i128;
        let mag: u64 = (-wide) as u64;
        push_dec_u64(&mut s, mag);
        proof {
            assert(s@ =~= int_str(n as int));
        }
    } else {
        push_dec_u64(&mut s, n as u64);
    }
    s
}

/// The parts joined with `sep` between consecutive parts.
pub open spec fn join_sep(parts: Seq<Seq<char>>, sep: Seq<char>) -> Seq<char>
    decreases parts.len(),
{
    if parts.len() == 0 {
        Seq::empty()
    } else if parts.len() == 1 {
        parts[0]
    } else {
        join_sep(parts.drop_last(), sep) + sep + parts.last()
    }
}

/// Append the parts of `v`, separated by `sep`.
pub fn push_joined(out: &mut String, v: &Vec<String>, sep: &str)
    ensures
        final(out)@ == old(out)@ + join_sep(v@.map_values(|s: String| s@), sep@),
{
    let n = v.len();
    let mut i: usize = 0;
    while i < n
        invariant
            n == v.len(),
            i <= n,
            out@ == old(out)@ + join_sep(v@.take(i as int).map_values(|s: String| s@), sep@),
        decreases n - i,
    {
        if i > 0 {
            out.append(sep);
        }
        out.append(v[i].as_str());
        proof {
            let all = v@.map_values(|s: String| s@);
            assert(v@.take(i + 1).map_values(|s: String| s@) =~= all.take(i + 1));
            assert(v@.take(i as int).map_values(|s: String| s@) =~= all.take(i as int));
            assert(all.take(i + 1).drop_last() =~= all.take(i as int));
            assert(all.take(i + 1).last() == all[i as int]);
            if i == 0 {
                assert(out@ =~= old(out)@ + join_sep(all.take(1), sep@));
            } else {
                assert(out@ =~= old(out)@ + join_sep(all.take(i + 1), sep@));
            }
        }
        i += 1;
    }
    proof {
        assert(v@.take(n as int) =~= v@);
    }
}

/// The fixed-width lowercase hexadecimal rendering of `n`, `width` digits,
/// most significant first (`n` must fit).
pub open spec fn hex_str_fixed(n: nat, width: nat) -> Seq<char>
    decreases width,
{
    if width == 0 {
        Seq::empty()
    } else {
        hex_str_fixed(n / 16, (width - 1) as nat).push(hex_digit(n % 16))
    }
}

/// Append exactly `width` lowercase hex digits of `n` (most significant first).
pub fn push_hex_fixed(out: &mut String, n: u64, width: u64)
    ensures
        final(out)@ == old(out)@ + hex_str_fixed(n as nat, width as nat),
    decreases width,
{
    if width == 0 {
        proof {
            assert(old(out)@ + hex_str_fixed(n as nat, 0) =~= old(out)@);
        }
    } else {
        push_hex_fixed(out, n / 16, width - 1);
        out.push(hex_digit_char(n % 16));
    }
}

} // verus!
