//! Decimal text of numbers.

use vstd::prelude::*;
use vstd::string::StringExecFns;
use crate::number::{lemma_pow10_monotone, lemma_pow10_positive, pow10, pow10_u64, Number};

verus! {

/// The decimal digit character for `d < 10`.
pub open spec fn digit_char(d: nat) -> char {
    if d == 0 {
        '0'
    } else if d == 1 {
        '1'
    } else if d == 2 {
        '2'
    } else if d == 3 {
        '3'
    } else if d == 4 {
        '4'
    } else if d == 5 {
        '5'
    } else if d == 6 {
        '6'
    } else if d == 7 {
        '7'
    } else if d == 8 {
        '8'
    } else {
        '9'
    }
}

/// The decimal digits of `u`, most significant first, without leading zeros.
pub open spec fn digits_text(u: nat) -> Seq<char>
    decreases u,
{
    if u < 10 {
        seq![digit_char(u)]
    } else {
        digits_text(u / 10).push(digit_char(u % 10))
    }
}

/// `n` zero characters.
pub open spec fn zeros(n: int) -> Seq<char> {
    Seq::new(if n > 0 { n as nat } else { 0 }, |i: int| '0')
}

/// The decimal text of a number: a minus sign for a nonzero negative value;
/// then, for a non-negative exponent, the digits followed by `exponent`
/// zeros (a zero value is just `0`); for a negative exponent, the integer
/// part, a point and exactly `-exponent` fractional digits.
pub open spec fn number_text(n: Number) -> Seq<char> {
    let ip = n.digits as nat / n.denom();
    let fp = n.digits as nat % n.denom();
    let sign = if n.negative && n.digits != 0 {
        seq!['-']
    } else {
        Seq::empty()
    };
    if n.exponent >= 0 {
        sign + digits_text(n.digits as nat) + zeros(
            if n.digits == 0 {
                0
            } else {
                n.exponent as int
            },
        )
    } else {
        sign + digits_text(ip) + seq!['.'] + zeros(n.down() - digits_text(fp).len()) + digits_text(
            fp,
        )
    }
}

/// Appends `count` zeros.
fn push_zeros(s: &mut String, count: u32)
    ensures
        final(s)@ == old(s)@ + zeros(count as int),
{
    let mut k: u32 = 0;
    let ghost before = s@;
    assert(s@ =~= before + zeros(0));
    while k < count
        invariant
            k <= count,
            s@ == before + zeros(k as int),
        decreases count - k,
    {
        proof {
            reveal_strlit("0");
        }
        s.append("0");
        k = k + 1;
        assert(s@ =~= before + zeros(k as int));
    }
}

fn digit_str(d: u64) -> (r: &'static str)
    requires
        d < 10,
    ensures
        r@ == seq![digit_char(d as nat)],
{
    proof {
        reveal_strlit("0");
        reveal_strlit("1");
        reveal_strlit("2");
        reveal_strlit("3");
        reveal_strlit("4");
        reveal_strlit("5");
        reveal_strlit("6");
        reveal_strlit("7");
        reveal_strlit("8");
        reveal_strlit("9");
    }
    if d == 0 {
        "0"
    } else if d == 1 {
        "1"
    } else if d == 2 {
        "2"
    } else if d == 3 {
        "3"
    } else if d == 4 {
        "4"
    } else if d == 5 {
        "5"
    } else if d == 6 {
        "6"
    } else if d == 7 {
        "7"
    } else if d == 8 {
        "8"
    } else {
        "9"
    }
}

/// Appends the decimal digits of `u`.
pub fn push_digits(s: &mut String, u: u64)
    ensures
        final(s)@ == old(s)@ + digits_text(u as nat),
    decreases u,
{
    if u >= 10 {
        push_digits(s, u / 10);
    }
    s.append(digit_str(u % 10));
    proof {
        assert(final(s)@ =~= old(s)@ + digits_text(u as nat));
    }
}

/// Appends the decimal text of `n`.
pub fn push_number(s: &mut String, n: &Number)
    ensures
        final(s)@ == old(s)@ + number_text(*n),
{
    let ghost start = s@;
    if n.negative && n.digits != 0 {
        proof {
            reveal_strlit("-");
        }
        s.append("-");
    }
    if n.exponent >= 0 {
        push_digits(s, n.digits);
        if n.digits != 0 {
            push_zeros(s, n.up_exponent());
        } else {
            assert(zeros(0) =~= Seq::<char>::empty());
        }
    } else {
        proof {
            lemma_pow10_positive(n.down());
        }
        let d = n.down_exponent();
        let (ip, fp): (u64, u64) = if d >= 20 {
            proof {
                lemma_pow10_monotone(20, n.down());
                reveal_with_fuel(pow10, 21);
                assert(pow10(20) == 100000000000000000000nat);
                vstd::arithmetic::div_mod::lemma_small_mod(n.digits as nat, n.denom());
                vstd::arithmetic::div_mod::lemma_basic_div(n.digits as int, n.denom() as int);
            }
            (0, n.digits)
        } else {
            let p = pow10_u64(d as u8);
            (n.digits / p, n.digits % p)
        };
        push_digits(s, ip);
        proof {
            reveal_strlit(".");
        }
        s.append(".");
        let mut f = String::new();
        push_digits(&mut f, fp);
        let len = f.as_str().unicode_len();
        let pad: u32 = if (len as u64) < (d as u64) {
            d - len as u32
        } else {
            0
        };
        assert(zeros(pad as int) =~= zeros(n.down() - len));
        push_zeros(s, pad);
        s.append(f.as_str());
    }
    proof {
        assert(s@ =~= start + number_text(*n));
    }
}

/// The decimal text of `n`.
pub fn number_to_text(n: &Number) -> (r: String)
    ensures
        r@ == number_text(*n),
{
    let mut s = String::new();
    push_number(&mut s, n);
    assert(s@ =~= number_text(*n));
    s
}

} // verus!
