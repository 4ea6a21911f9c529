//! The multiple-of keyword: exact divisibility of decimal numbers.

use vstd::prelude::*;
use fraction::{BigFraction, BigUint, Zero};
use crate::error::{records, CompilationError, ErrorKind, ErrorRecord, ValidationError};
use crate::number::{
    lemma_divides_scaled, lemma_magnitude_zero, lemma_pow10_positive, pow10, pow10_u64, Number,
};
use crate::text::{number_text, push_number};
use crate::value::{JsonValue, PathSegment};
use vstd::string::StringExecFns;

verus! {

/// `x` is a multiple of `d`: the divisor is nonzero and the exact quotient
/// `x / d = (x.magnitude() * d.denom()) / (x.denom() * d.magnitude())` (up to
/// sign) is an integer.
pub open spec fn is_multiple(x: Number, d: Number) -> bool {
    d.digits != 0 && (x.magnitude() * d.denom()) % (x.denom() * d.magnitude()) == 0
}

/// An instance satisfies the keyword with divisor `d`: it is not a number, or
/// it is a number that is a multiple of `d`.
pub open spec fn satisfies_multiple_of(instance: JsonValue, d: Number) -> bool {
    match instance {
        JsonValue::Number(x) => is_multiple(x, d),
        _ => true,
    }
}

/// The errors that the keyword with divisor `d` reports for `instance` at `path`.
pub open spec fn multiple_of_errors(instance: JsonValue, d: Number, path: Seq<PathSegment>) -> Seq<
    ErrorRecord,
> {
    match instance {
        JsonValue::Number(x) => if is_multiple(x, d) {
            Seq::empty()
        } else {
            seq![ErrorRecord { path, kind: ErrorKind::MultipleOf { value: x, multiple_of: d } }]
        },
        _ => Seq::empty(),
    }
}

/// Relies on fraction's `BigFraction` (with `BigUint` from num-bigint, which
/// fraction re-exports): `BigUint::from` and `BigUint::pow` give the digits
/// and powers of ten exactly, and `*` multiplies them; `BigFraction::new`
/// builds the reduced fraction of a numerator and a nonzero denominator, `/`
/// divides two nonzero fractions exactly, and `fract` of the quotient
/// `is_zero` exactly when the quotient is an integer. Here the instance is
/// `x_digits * 10^x_up / 10^x_down` and the divisor
/// `d_digits * 10^d_up / 10^d_down`.
#[verifier::external_body]
fn exact_quotient_is_integer(
    x_digits: u64,
    x_up: u32,
    x_down: u32,
    d_digits: u64,
    d_up: u32,
    d_down: u32,
) -> (r: bool)
    requires
        d_digits != 0,
    ensures
        r == ((x_digits as nat * pow10(x_up as nat) * pow10(d_down as nat)) % (pow10(
            x_down as nat,
        ) * (d_digits as nat * pow10(d_up as nat))) == 0),
{
    let ten = BigUint::from(10u8);
    let xf = BigFraction::new(BigUint::from(x_digits) * ten.pow(x_up), ten.pow(x_down));
    let df = BigFraction::new(BigUint::from(d_digits) * ten.pow(d_up), ten.pow(d_down));
    (xf / df).fract().is_zero()
}

/// Divisibility is exact rational divisibility: `x` is a multiple of a
/// nonzero `d` exactly when `x = k * d` for some integer `k`, written over
/// numerators and denominators.
pub proof fn lemma_multiple_iff_integer_quotient(x: Number, d: Number)
    requires
        d.digits != 0,
    ensures
        is_multiple(x, d) <==> exists|k: int|
            #[trigger] (k * (d.numer() * x.denom())) == x.numer() * d.denom(),
{
    let a: int = x.magnitude() as int * d.denom() as int;
    let b: int = x.denom() as int * d.magnitude() as int;
    lemma_pow10_positive(x.down());
    lemma_pow10_positive(d.down());
    lemma_magnitude_zero(d);
    assert(b > 0) by (nonlinear_arith)
        requires
            b == x.denom() as int * d.magnitude() as int,
            x.denom() > 0,
            d.magnitude() > 0,
    ;
    let sx: int = if x.negative { -1 } else { 1 };
    let sd: int = if d.negative { -1 } else { 1 };
    if x.negative {
        assert(sx * x.magnitude() == -(x.magnitude() as int)) by (nonlinear_arith)
            requires
                sx == -1,
        ;
    }
    if d.negative {
        assert(sd * d.magnitude() == -(d.magnitude() as int)) by (nonlinear_arith)
            requires
                sd == -1,
        ;
    }
    assert(x.numer() == sx * x.magnitude());
    assert(d.numer() == sd * d.magnitude());
    assert(x.numer() * d.denom() == sx * a) by (nonlinear_arith)
        requires
            x.numer() == sx * x.magnitude(),
            a == x.magnitude() as int * d.denom() as int,
    ;
    assert(d.numer() * x.denom() == sd * b) by (nonlinear_arith)
        requires
            d.numer() == sd * d.magnitude(),
            b == x.denom() as int * d.magnitude() as int,
    ;
    assert(sx * sx == 1 && sd * sd == 1);
    if a % b == 0 {
        vstd::arithmetic::div_mod::lemma_fundamental_div_mod(a, b);
        let k = sx * sd * (a / b);
        assert(k * (sd * b) == sx * a) by (nonlinear_arith)
            requires
                a == b * (a / b),
                sd * sd == 1,
                k == sx * sd * (a / b),
        ;
        assert(k * (d.numer() * x.denom()) == x.numer() * d.denom());
    }
    if exists|k: int| #[trigger] (k * (d.numer() * x.denom())) == x.numer() * d.denom() {
        let k = choose|k: int| #[trigger] (k * (d.numer() * x.denom())) == x.numer() * d.denom();
        assert(a == (sx * sd * k) * b) by (nonlinear_arith)
            requires
                k * (sd * b) == sx * a,
                sx * sx == 1,
                sd * sd == 1,
        ;
        vstd::arithmetic::div_mod::lemma_mod_multiples_basic(sx * sd * k, b);
    }
}

/// For integers (no decimal places), a nonzero divisor `d` divides `x`
/// exactly when `x = k * d` for some integer `k`.
pub proof fn lemma_integer_multiple(x: Number, d: Number)
    requires
        x.exponent >= 0,
        d.exponent >= 0,
        d.digits != 0,
    ensures
        is_multiple(x, d) <==> exists|k: int| #[trigger] (k * d.numer()) == x.numer(),
{
    lemma_multiple_iff_integer_quotient(x, d);
    assert(x.denom() == 1 && d.denom() == 1);
    if is_multiple(x, d) {
        let k = choose|k: int| #[trigger] (k * (d.numer() * x.denom())) == x.numer() * d.denom();
        assert(k * d.numer() == x.numer());
    }
    if exists|k: int| #[trigger] (k * d.numer()) == x.numer() {
        let k = choose|k: int| #[trigger] (k * d.numer()) == x.numer();
        assert(k * (d.numer() * x.denom()) == x.numer() * d.denom());
    }
}

/// For one keyword, fast and diagnostic mode agree: an instance satisfies it
/// exactly when it draws no error.
pub proof fn lemma_keyword_accepts_iff_no_errors(
    instance: JsonValue,
    d: Number,
    path: Seq<PathSegment>,
)
    ensures
        satisfies_multiple_of(instance, d) <==> multiple_of_errors(instance, d, path).len() == 0,
{
}

/// The keyword constrains numbers only: every other instance satisfies it
/// and draws no error, whatever the divisor.
pub proof fn lemma_non_numbers_satisfy(instance: JsonValue, d: Number, path: Seq<PathSegment>)
    requires
        !(instance is Number),
    ensures
        satisfies_multiple_of(instance, d),
        multiple_of_errors(instance, d, path).len() == 0,
{
}

/// The description of the keyword with divisor `d`.
pub open spec fn describe_text(d: Number) -> Seq<char> {
    "multipleOf: "@ + number_text(d)
}

fn describe(d: &Number) -> (r: String)
    ensures
        r@ == describe_text(*d),
{
    let mut s = String::from_str("multipleOf: ");
    push_number(&mut s, d);
    s
}

/// The keyword validator for an integral divisor.
pub struct MultipleOfIntegerValidator {
    pub multiple_of: Number,
}

impl MultipleOfIntegerValidator {
    /// The description `multipleOf: <divisor>`.
    pub fn to_string(&self) -> (r: String)
        ensures
            r@ == describe_text(self.multiple_of),
    {
        describe(&self.multiple_of)
    }

    pub open spec fn wf(&self) -> bool {
        self.multiple_of.is_integral()
    }

    /// The validator for the divisor `multiple_of`, stored as given; it is
    /// well formed exactly when the divisor is integral.
    pub fn compile(multiple_of: Number) -> (r: MultipleOfIntegerValidator)
        ensures
            r.multiple_of == multiple_of,
            r.wf() == multiple_of.is_integral(),
    {
        MultipleOfIntegerValidator { multiple_of }
    }

    /// Whether `instance` satisfies the keyword. One with a fractional part is
    /// never a multiple of an integer; an integral one is checked by a 64-bit
    /// remainder when both magnitudes fit, else by arbitrary-precision
    /// fractions.
    pub fn is_valid(&self, instance: &JsonValue) -> (r: bool)
        requires
            self.wf(),
        ensures
            r == satisfies_multiple_of(*instance, self.multiple_of),
    {
        match instance {
            JsonValue::Number(x) => {
                let d = self.multiple_of;
                proof {
                    lemma_magnitude_zero(d);
                    lemma_pow10_positive(d.down());
                }
                if !x.has_no_fraction() {
                    proof {
                        lemma_fraction_not_multiple_of_integer(*x, d);
                    }
                    false
                } else if d.digits == 0 {
                    false
                } else {
                    match (x.integral_magnitude(), d.integral_magnitude()) {
                        (Some(xi), Some(di)) => {
                            proof {
                                vstd::arithmetic::div_mod::lemma_fundamental_div_mod(
                                    d.magnitude() as int,
                                    d.denom() as int,
                                );
                                assert(di > 0) by (nonlinear_arith)
                                    requires
                                        d.magnitude() == d.denom() * di,
                                        d.magnitude() != 0,
                                ;
                                lemma_integral_multiple(*x, d, xi as nat, di as nat);
                            }
                            xi % di == 0
                        },
                        _ => exact_quotient_is_integer(
                            x.digits,
                            x.up_exponent(),
                            x.down_exponent(),
                            d.digits,
                            d.up_exponent(),
                            d.down_exponent(),
                        ),
                    }
                }
            },
            _ => true,
        }
    }

    /// The errors for `instance` at `path`: none when it satisfies the
    /// keyword, else one.
    pub fn validate(&self, instance: &JsonValue, path: &Vec<PathSegment>) -> (r: Vec<
        ValidationError,
    >)
        requires
            self.wf(),
        ensures
            records(r@) == multiple_of_errors(*instance, self.multiple_of, path@),
    {
        let valid = self.is_valid(instance);
        let mut r: Vec<ValidationError> = Vec::new();
        if !valid {
            if let JsonValue::Number(x) = instance {
                r.push(ValidationError::multiple_of(path, *x, self.multiple_of));
            }
        }
        assert(records(r@) =~= multiple_of_errors(*instance, self.multiple_of, path@));
        r
    }
}

/// The keyword validator for a divisor with a fractional part.
pub struct MultipleOfFloatValidator {
    pub multiple_of: Number,
}

impl MultipleOfFloatValidator {
    /// The description `multipleOf: <divisor>`.
    pub fn to_string(&self) -> (r: String)
        ensures
            r@ == describe_text(self.multiple_of),
    {
        describe(&self.multiple_of)
    }

    pub open spec fn wf(&self) -> bool {
        !self.multiple_of.is_integral()
    }

    /// The validator for the divisor `multiple_of`, stored as given; it is
    /// well formed exactly when the divisor has a fractional part.
    pub fn compile(multiple_of: Number) -> (r: MultipleOfFloatValidator)
        ensures
            r.multiple_of == multiple_of,
            r.wf() == !multiple_of.is_integral(),
    {
        MultipleOfFloatValidator { multiple_of }
    }

    /// Whether `instance` satisfies the keyword, decided exactly: by a 128-bit
    /// remainder when both numbers have at most 19 decimal places and no
    /// positive exponent, else by arbitrary-precision fractions.
    pub fn is_valid(&self, instance: &JsonValue) -> (r: bool)
        requires
            self.wf(),
        ensures
            r == satisfies_multiple_of(*instance, self.multiple_of),
    {
        match instance {
            JsonValue::Number(x) => {
                let d = self.multiple_of;
                proof {
                    lemma_pow10_positive(d.down());
                    lemma_pow10_positive(x.down());
                    lemma_magnitude_zero(d);
                    vstd::arithmetic::div_mod::lemma_small_mod(0, d.denom());
                    assert(pow10(0) == 1);
                }
                if -19 <= x.exponent && x.exponent <= 0 && -19 <= d.exponent && d.exponent <= 0 {
                    let pd = pow10_u64(d.down_exponent() as u8);
                    let px = pow10_u64(x.down_exponent() as u8);
                    proof {
                        assert(x.up() == 0 && d.up() == 0);
                        assert(x.magnitude() == x.digits as nat);
                        assert(pow10(d.up()) == 1);
                        assert(d.magnitude() == d.digits as nat * 1);
                        assert(d.magnitude() == d.digits as nat);
                        assert(x.digits as nat * pd as nat <= u64::MAX as nat * u64::MAX as nat)
                            by (nonlinear_arith)
                            requires
                                x.digits <= u64::MAX,
                                pd <= u64::MAX,
                        ;
                        assert(px as nat * d.digits as nat <= u64::MAX as nat * u64::MAX as nat)
                            by (nonlinear_arith)
                            requires
                                px <= u64::MAX,
                                d.digits <= u64::MAX,
                        ;
                        assert(px as nat * d.digits as nat > 0) by (nonlinear_arith)
                            requires
                                px > 0,
                                d.digits > 0,
                        ;
                    }
                    let a: u128 = x.digits as u128 * pd as u128;
                    let b: u128 = px as u128 * d.digits as u128;
                    a % b == 0
                } else {
                    exact_quotient_is_integer(
                        x.digits,
                        x.up_exponent(),
                        x.down_exponent(),
                        d.digits,
                        d.up_exponent(),
                        d.down_exponent(),
                    )
                }
            },
            _ => true,
        }
    }

    /// The errors for `instance` at `path`: none when it satisfies the
    /// keyword, else one.
    pub fn validate(&self, instance: &JsonValue, path: &Vec<PathSegment>) -> (r: Vec<
        ValidationError,
    >)
        requires
            self.wf(),
        ensures
            records(r@) == multiple_of_errors(*instance, self.multiple_of, path@),
    {
        let valid = self.is_valid(instance);
        let mut r: Vec<ValidationError> = Vec::new();
        if !valid {
            if let JsonValue::Number(x) = instance {
                r.push(ValidationError::multiple_of(path, *x, self.multiple_of));
            }
        }
        assert(records(r@) =~= multiple_of_errors(*instance, self.multiple_of, path@));
        r
    }
}

/// A number with a fractional part is never a multiple of an integer.
proof fn lemma_fraction_not_multiple_of_integer(x: Number, d: Number)
    requires
        !x.is_integral(),
        d.is_integral(),
    ensures
        !is_multiple(x, d),
{
    if is_multiple(x, d) {
        let px = x.denom() as int;
        let pd = d.denom() as int;
        let di = d.integer_magnitude() as int;
        lemma_pow10_positive(x.down());
        lemma_pow10_positive(d.down());
        vstd::arithmetic::div_mod::lemma_fundamental_div_mod(d.magnitude() as int, pd);
        assert(d.magnitude() as int == pd * di);
        let a = x.magnitude() as int * pd;
        let b = px * d.magnitude() as int;
        lemma_magnitude_zero(d);
        assert(b > 0) by (nonlinear_arith)
            requires
                b == px * d.magnitude() as int,
                px > 0,
                d.magnitude() != 0,
        ;
        vstd::arithmetic::div_mod::lemma_fundamental_div_mod(a, b);
        let q = a / b;
        assert(a == b * q);
        assert(x.magnitude() as int == px * (di * q)) by (nonlinear_arith)
            requires
                a == b * q,
                a == x.magnitude() as int * pd,
                b == px * d.magnitude() as int,
                d.magnitude() as int == pd * di,
                pd > 0,
        ;
        vstd::arithmetic::div_mod::lemma_mod_multiples_basic(di * q, px);
        assert((di * q) * px == px * (di * q)) by (nonlinear_arith);
    }
}

/// For integral `x` and `d`, divisibility of the decimals is divisibility of
/// their integer magnitudes.
proof fn lemma_integral_multiple(x: Number, d: Number, xi: nat, di: nat)
    requires
        x.is_integral(),
        d.is_integral(),
        xi == x.integer_magnitude(),
        di == d.integer_magnitude(),
        di > 0,
    ensures
        is_multiple(x, d) == (xi % di == 0),
{
    let px = x.denom();
    let pd = d.denom();
    lemma_pow10_positive(x.down());
    lemma_pow10_positive(d.down());
    vstd::arithmetic::div_mod::lemma_fundamental_div_mod(x.magnitude() as int, px as int);
    vstd::arithmetic::div_mod::lemma_fundamental_div_mod(d.magnitude() as int, pd as int);
    assert(x.magnitude() == px * xi);
    assert(d.magnitude() == pd * di);
    let m = px * pd;
    assert(m > 0) by (nonlinear_arith)
        requires
            m == px * pd,
            px > 0,
            pd > 0,
    ;
    assert(x.magnitude() * pd == m * xi) by (nonlinear_arith)
        requires
            x.magnitude() == px * xi,
            m == px * pd,
    ;
    assert(px * d.magnitude() == m * di) by (nonlinear_arith)
        requires
            d.magnitude() == pd * di,
            m == px * pd,
    ;
    assert(d.digits != 0) by (nonlinear_arith)
        requires
            d.magnitude() == pd * di,
            pd > 0,
            di > 0,
    ;
    lemma_divides_scaled(xi, di, m);
}

/// The multiple-of keyword compiled for its divisor: the integral or the
/// fractional variant.
pub enum MultipleOfValidator {
    Integer(MultipleOfIntegerValidator),
    Float(MultipleOfFloatValidator),
}

impl MultipleOfValidator {
    /// The divisor this validator checks against.
    pub open spec fn divisor(&self) -> Number {
        match self {
            MultipleOfValidator::Integer(v) => v.multiple_of,
            MultipleOfValidator::Float(v) => v.multiple_of,
        }
    }

    pub open spec fn wf(&self) -> bool {
        match self {
            MultipleOfValidator::Integer(v) => v.wf(),
            MultipleOfValidator::Float(v) => v.wf(),
        }
    }

    /// The description `multipleOf: <divisor>`.
    pub fn to_string(&self) -> (r: String)
        ensures
            r@ == describe_text(self.divisor()),
    {
        match self {
            MultipleOfValidator::Integer(v) => v.to_string(),
            MultipleOfValidator::Float(v) => v.to_string(),
        }
    }

    /// Whether `instance` satisfies the keyword.
    pub fn is_valid(&self, instance: &JsonValue) -> (r: bool)
        requires
            self.wf(),
        ensures
            r == satisfies_multiple_of(*instance, self.divisor()),
    {
        match self {
            MultipleOfValidator::Integer(v) => v.is_valid(instance),
            MultipleOfValidator::Float(v) => v.is_valid(instance),
        }
    }

    /// The errors for `instance` at `path`: none when it satisfies the
    /// keyword, else one.
    pub fn validate(&self, instance: &JsonValue, path: &Vec<PathSegment>) -> (r: Vec<
        ValidationError,
    >)
        requires
            self.wf(),
        ensures
            records(r@) == multiple_of_errors(*instance, self.divisor(), path@),
    {
        match self {
            MultipleOfValidator::Integer(v) => v.validate(instance, path),
            MultipleOfValidator::Float(v) => v.validate(instance, path),
        }
    }
}

/// Compiles the value of a multiple-of keyword: a number gives the validator
/// for that divisor, the integral variant exactly when the number has no
/// fractional part; any other value is a schema error.
pub fn compile(schema: &JsonValue) -> (r: Result<MultipleOfValidator, CompilationError>)
    ensures
        match *schema {
            JsonValue::Number(d) => r matches Ok(v) && v.wf() && v.divisor() == d && (
            v is Integer <==> d.is_integral()),
            _ => r == Err::<MultipleOfValidator, CompilationError>(CompilationError::SchemaError),
        },
{
    match schema {
        JsonValue::Number(d) => {
            if d.has_no_fraction() {
                Ok(MultipleOfValidator::Integer(MultipleOfIntegerValidator::compile(*d)))
            } else {
                Ok(MultipleOfValidator::Float(MultipleOfFloatValidator::compile(*d)))
            }
        },
        _ => Err(CompilationError::SchemaError),
    }
}

} // verus!
