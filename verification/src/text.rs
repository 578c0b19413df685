use vstd::prelude::*;
use vstd::string::*;

verus! {

/// The character that writes digit `d` (`0 <= d < 16`) in lower-case hexadecimal
/// or decimal notation.
pub open spec fn digit_char(d: int) -> char {
    if d < 10 {
        ((d + 48) as u8) as char
    } else {
        ((d + 87) as u8) as char
    }
}

/// The digits of `n` in the given base, most significant first, without
/// leading zeros (empty for zero).
pub open spec fn digits(n: nat, base: nat) -> Seq<char>
    decreases n,
{
    if n == 0 || base < 2 {
        Seq::empty()
    } else {
        proof {
            vstd::arithmetic::div_mod::lemma_div_decreases(n as int, base as int);
        }
        digits(n / base, base).push(digit_char((n % base) as int))
    }
}

/// `n` written in decimal, as `format!("{}", n)` writes an unsigned integer.
pub open spec fn decimal(n: nat) -> Seq<char> {
    if n == 0 {
        seq!['0']
    } else {
        digits(n, 10)
    }
}

/// `n` written in decimal with a leading `-` when negative, as `format!("{}", n)`
/// writes a signed integer.
pub open spec fn signed_decimal(n: int) -> Seq<char> {
    if n < 0 {
        seq!['-'] + decimal((-n) as nat)
    } else {
        decimal(n as nat)
    }
}

/// `n` in the alternate lower-case hexadecimal form, as `format!("{:#x}", n)`
/// writes it: `0x` and the digits without leading zeros.
pub open spec fn hex_alternate(n: nat) -> Seq<char> {
    seq!['0', 'x'] + if n == 0 {
        seq!['0']
    } else {
        digits(n, 16)
    }
}

fn digit_str(d: u64) -> (r: &'static str)
    requires
        d < 16,
    ensures
        r@ == seq![digit_char(d as int)],
{
    if d < 8 {
        if d < 4 {
            if d == 0 {
                proof { reveal_strlit("0"); }
                "0"
            } else if d == 1 {
                proof { reveal_strlit("1"); }
                "1"
            } else if d == 2 {
                proof { reveal_strlit("2"); }
                "2"
            } else {
                proof { reveal_strlit("3"); }
                "3"
            }
        } else {
            if d == 4 {
                proof { reveal_strlit("4"); }
                "4"
            } else if d == 5 {
                proof { reveal_strlit("5"); }
                "5"
            } else if d == 6 {
                proof { reveal_strlit("6"); }
                "6"
            } else {
                proof { reveal_strlit("7"); }
                "7"
            }
        }
    } else {
        if d < 12 {
            if d == 8 {
                proof { reveal_strlit("8"); }
                "8"
            } else if d == 9 {
                proof { reveal_strlit("9"); }
                "9"
            } else if d == 10 {
                proof { reveal_strlit("a"); }
                "a"
            } else {
                proof { reveal_strlit("b"); }
                "b"
            }
        } else {
            if d == 12 {
                proof { reveal_strlit("c"); }
                "c"
            } else if d == 13 {
                proof { reveal_strlit("d"); }
                "d"
            } else if d == 14 {
                proof { reveal_strlit("e"); }
                "e"
            } else {
                proof { reveal_strlit("f"); }
                "f"
            }
        }
    }
}

fn append_digits(s: &mut String, n: u64, base: u64)
    requires
        base == 10 || base == 16,
    ensures
        final(s)@ == old(s)@ + digits(n as nat, base as nat),
    decreases n,
{
    if n == 0 {
        assert(old(s)@ + digits(0, base as nat) =~= old(s)@);
        return;
    }
    append_digits(s, n / base, base);
    let d = digit_str(n % base);
    s.append(d);
    assert(digits(n as nat, base as nat) =~= digits((n / base) as nat, base as nat).push(
        digit_char((n % base) as int),
    ));
}

/// Appends `n` in decimal to `s`.
pub fn append_decimal(s: &mut String, n: u64)
    ensures
        final(s)@ == old(s)@ + decimal(n as nat),
{
    if n == 0 {
        let z = digit_str(0);
        s.append(z);
    } else {
        append_digits(s, n, 10);
    }
}

/// Appends `n` in decimal to `s`, with a leading `-` when it is negative.
pub fn append_signed_decimal(s: &mut String, n: i64)
    ensures
        final(s)@ == old(s)@ + signed_decimal(n as int),
{
    if n < 0 {
        proof { reveal_strlit("-"); }
        s.append("-");
        let magnitude = (0i128 - n as i128) as u64;
        append_decimal(s, magnitude);
        assert(final(s)@ =~= old(s)@ + signed_decimal(n as int));
    } else {
        append_decimal(s, n as u64);
    }
}

/// Appends `n` in the form `0x…` with lower-case hexadecimal digits.
pub fn append_hex_alternate(s: &mut String, n: u64)
    ensures
        final(s)@ == old(s)@ + hex_alternate(n as nat),
{
    proof { reveal_strlit("0x"); }
    s.append("0x");
    if n == 0 {
        let z = digit_str(0);
        s.append(z);
    } else {
        append_digits(s, n, 16);
    }
    assert(final(s)@ =~= old(s)@ + hex_alternate(n as nat));
}

} // verus!
