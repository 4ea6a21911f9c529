//! Exact decimal numbers.

use vstd::prelude::*;
use vstd::arithmetic::div_mod::lemma_truncate_middle;

verus! {

/// Ten to the power `n`.
pub open spec fn pow10(n: nat) -> nat
    decreases n,
{
    if n == 0 {
        1
    } else {
        10 * pow10((n - 1) as nat)
    }
}

/// A JSON number as an exact decimal: `(-1)^negative * digits * 10^exponent`.
///
/// An integer such as `12` is `digits == 12, exponent == 0`; `0.25` is
/// `digits == 25, exponent == -2`; `1e300` is `digits == 1, exponent == 300`.
/// Every finite double, written with its shortest round-trip digits, fits.
#[derive(Clone, Copy, Debug, PartialEq, Eq, Structural)]
pub struct Number {
    pub negative: bool,
    pub digits: u64,
    pub exponent: i16,
}

impl Number {
    /// The exponent when it is non-negative, else zero.
    pub open spec fn up(self) -> nat {
        if self.exponent >= 0 {
            self.exponent as nat
        } else {
            0
        }
    }

    /// The number of decimal places: minus the exponent when it is negative,
    /// else zero.
    pub open spec fn down(self) -> nat {
        if self.exponent < 0 {
            (-self.exponent) as nat
        } else {
            0
        }
    }

    /// The magnitude of the numerator: `digits * 10^up`.
    pub open spec fn magnitude(self) -> nat {
        self.digits as nat * pow10(self.up())
    }

    /// The numerator of the value, with its sign.
    pub open spec fn numer(self) -> int {
        if self.negative {
            -(self.magnitude() as int)
        } else {
            self.magnitude() as int
        }
    }

    /// The (not necessarily reduced) positive denominator of the value:
    /// `10^down`.
    pub open spec fn denom(self) -> nat {
        pow10(self.down())
    }

    /// The value has no fractional part.
    pub open spec fn is_integral(self) -> bool {
        self.magnitude() % self.denom() == 0
    }

    /// The magnitude of an integral value.
    pub open spec fn integer_magnitude(self) -> nat {
        self.magnitude() / self.denom()
    }

    /// The non-negative integer `n`.
    pub fn from_u64(n: u64) -> (r: Number)
        ensures
            r == (Number { negative: false, digits: n, exponent: 0 }),
            r.numer() == n as int,
            r.denom() == 1,
    {
        let r = Number { negative: false, digits: n, exponent: 0 };
        proof {
            assert(r.up() == 0 && r.down() == 0 && pow10(0) == 1);
        }
        r
    }

    /// The integer `n`, negative or not.
    pub fn from_i64(n: i64) -> (r: Number)
        ensures
            r.negative == (n < 0),
            r.exponent == 0,
            r.numer() == n as int,
            r.denom() == 1,
    {
        if n < 0 {
            let m: u64 = if n == i64::MIN {
                9223372036854775808u64
            } else {
                (-n) as u64
            };
            let r = Number { negative: true, digits: m, exponent: 0 };
            proof {
                assert(r.up() == 0 && r.down() == 0 && pow10(0) == 1);
            }
            r
        } else {
            let r = Number { negative: false, digits: n as u64, exponent: 0 };
            proof {
                assert(r.up() == 0 && r.down() == 0 && pow10(0) == 1);
            }
            r
        }
    }

    /// The decimal `(-1)^negative * digits * 10^exponent`.
    pub fn new(negative: bool, digits: u64, exponent: i16) -> (r: Number)
        ensures
            r == (Number { negative, digits, exponent }),
    {
        Number { negative, digits, exponent }
    }

    /// The exponent when it is non-negative, else zero.
    pub fn up_exponent(&self) -> (r: u32)
        ensures
            r as nat == self.up(),
    {
        if self.exponent >= 0 {
            self.exponent as u32
        } else {
            0
        }
    }

    /// The number of decimal places.
    pub fn down_exponent(&self) -> (r: u32)
        ensures
            r as nat == self.down(),
    {
        if self.exponent < 0 {
            (-(self.exponent as i32)) as u32
        } else {
            0
        }
    }

    /// Whether the value has no fractional part.
    pub fn has_no_fraction(&self) -> (r: bool)
        ensures
            r == self.is_integral(),
    {
        proof {
            lemma_pow10_positive(self.up());
            lemma_pow10_positive(self.down());
        }
        if self.exponent >= 0 {
            proof {
                assert(self.denom() == 1);
                vstd::arithmetic::div_mod::lemma_div_basics(self.magnitude() as int);
                vstd::arithmetic::div_mod::lemma_fundamental_div_mod(self.magnitude() as int, 1);
            }
            true
        } else {
            proof {
                assert(pow10(0) == 1);
                assert(self.magnitude() == self.digits as nat);
            }
            let s = self.down_exponent();
            if s >= 20 {
                proof {
                    lemma_pow10_monotone(20, s as nat);
                    reveal_with_fuel(pow10, 21);
                    assert(pow10(20) == 100000000000000000000nat);
                    vstd::arithmetic::div_mod::lemma_small_mod(self.digits as nat, self.denom());
                }
                self.digits == 0
            } else {
                let p = pow10_u64(s as u8);
                self.digits % p == 0
            }
        }
    }

    /// The magnitude of the value when it has no fractional part and fits in
    /// 64 bits, else `None`.
    pub fn integral_magnitude(&self) -> (r: Option<u64>)
        ensures
            r is Some <==> self.is_integral() && self.integer_magnitude() <= u64::MAX,
            r matches Some(k) ==> k as nat == self.integer_magnitude(),
    {
        proof {
            lemma_pow10_positive(self.up());
            lemma_pow10_positive(self.down());
        }
        if self.exponent >= 0 {
            proof {
                assert(self.denom() == 1);
                vstd::arithmetic::div_mod::lemma_small_mod(0, 1);
                vstd::arithmetic::div_mod::lemma_div_basics(self.magnitude() as int);
                vstd::arithmetic::div_mod::lemma_fundamental_div_mod(self.magnitude() as int, 1);
            }
            let e = self.up_exponent();
            let mut m: u64 = self.digits;
            let mut i: u32 = 0;
            assert(pow10(i as nat) == 1);
            assert(self.digits as nat * pow10(i as nat) == self.digits as nat);
            while i < e
                invariant
                    0 <= i <= e,
                    e as nat == self.up(),
                    self.is_integral(),
                    self.integer_magnitude() == self.magnitude(),
                    m as nat == self.digits as nat * pow10(i as nat),
                decreases e - i,
            {
                proof {
                    assert(self.digits as nat * pow10((i + 1) as nat) == (self.digits as nat
                        * pow10(i as nat)) * 10) by (nonlinear_arith)
                        requires
                            pow10((i + 1) as nat) == 10 * pow10(i as nat),
                    ;
                }
                match m.checked_mul(10) {
                    Some(next) => {
                        m = next;
                    },
                    None => {
                        proof {
                            lemma_pow10_monotone((i + 1) as nat, e as nat);
                            assert(self.digits as nat * pow10((i + 1) as nat) <= self.digits as nat
                                * pow10(e as nat)) by (nonlinear_arith)
                                requires
                                    pow10((i + 1) as nat) <= pow10(e as nat),
                            ;
                        }
                        return None;
                    },
                }
                i = i + 1;
            }
            Some(m)
        } else {
            proof {
                assert(pow10(0) == 1);
                assert(self.magnitude() == self.digits as nat);
                vstd::arithmetic::div_mod::lemma_div_is_ordered_by_denominator(
                    self.digits as int,
                    1,
                    self.denom() as int,
                );
                vstd::arithmetic::div_mod::lemma_div_basics(self.digits as int);
            }
            let s = self.down_exponent();
            if s >= 20 {
                proof {
                    lemma_pow10_monotone(20, s as nat);
                    reveal_with_fuel(pow10, 21);
                    assert(pow10(20) == 100000000000000000000nat);
                    vstd::arithmetic::div_mod::lemma_small_mod(self.digits as nat, self.denom());
                    vstd::arithmetic::div_mod::lemma_basic_div(
                        self.digits as int,
                        self.denom() as int,
                    );
                }
                if self.digits == 0 {
                    Some(0)
                } else {
                    None
                }
            } else {
                let p = pow10_u64(s as u8);
                if self.digits % p == 0 {
                    Some(self.digits / p)
                } else {
                    None
                }
            }
        }
    }
}

/// A number's numerator magnitude is zero exactly when its digits are.
pub proof fn lemma_magnitude_zero(n: Number)
    ensures
        (n.magnitude() == 0) == (n.digits == 0),
{
    lemma_pow10_positive(n.up());
    assert((n.digits as nat * pow10(n.up()) == 0) == (n.digits == 0)) by (nonlinear_arith)
        requires
            pow10(n.up()) > 0,
    ;
}

/// `10^n` for an `n` whose power fits in 64 bits.
pub fn pow10_u64(n: u8) -> (r: u64)
    requires
        n <= 19,
    ensures
        r as nat == pow10(n as nat),
{
    let mut r: u64 = 1;
    let mut i: u8 = 0;
    while i < n
        invariant
            i <= n <= 19,
            r as nat == pow10(i as nat),
        decreases n - i,
    {
        proof {
            lemma_pow10_monotone((i + 1) as nat, 19);
            reveal_with_fuel(pow10, 20);
            assert(pow10(19) == 10000000000000000000nat);
        }
        r = r * 10;
        i = i + 1;
    }
    r
}

/// Every power of ten is positive.
pub proof fn lemma_pow10_positive(n: nat)
    ensures
        pow10(n) > 0,
    decreases n,
{
    if n > 0 {
        lemma_pow10_positive((n - 1) as nat);
    }
}

/// Powers of ten grow with the exponent.
pub proof fn lemma_pow10_monotone(m: nat, n: nat)
    requires
        m <= n,
    ensures
        pow10(m) <= pow10(n),
    decreases n - m,
{
    if m < n {
        lemma_pow10_monotone(m, (n - 1) as nat);
        lemma_pow10_positive((n - 1) as nat);
    }
}

/// Scaling a dividend and a divisor by one positive factor keeps divisibility.
pub proof fn lemma_divides_scaled(a: nat, b: nat, m: nat)
    requires
        b > 0,
        m > 0,
    ensures
        ((m * a) % (m * b) == 0) <==> (a % b == 0),
{
    lemma_truncate_middle(a as int, m as int, b as int);
    vstd::arithmetic::mul::lemma_mul_nonzero(m as int, (a % b) as int);
}

} // verus!
