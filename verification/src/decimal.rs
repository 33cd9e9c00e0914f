//! Fixed-precision decimal numbers, computed by the `rust_decimal` crate.
//!
//! A [`Dec`] holds a decimal number as two plain integers. The arithmetic is
//! not done here: each operation hands the two integers of each operand to
//! `rust_decimal` and takes the two integers of the result back. What that
//! crate computes is given a name; the order of two numbers is stated in full.

use rust_decimal::Decimal;
use rust_decimal::MathematicalOps;
use std::str::FromStr;
use vstd::prelude::*;

verus! {

/// The largest number of decimal places that a number can carry.
pub const MAX_SCALE: u32 = 28;

/// The mantissa of every number lies strictly between this bound and its
/// negation: 2 to the power of 96.
pub const MANTISSA_BOUND: i128 = 79228162514264337593543950336;

/// The sum that `rust_decimal` computes for two numbers, each given by its
/// mantissa and its scale; `None` where the sum overflows.
pub uninterp spec fn decimal_sum(m1: i128, s1: u32, m2: i128, s2: u32) -> Option<(i128, u32)>;

/// The difference that `rust_decimal` computes for two numbers; `None` where
/// it overflows.
pub uninterp spec fn decimal_difference(m1: i128, s1: u32, m2: i128, s2: u32) -> Option<(i128, u32)>;

/// The quotient that `rust_decimal` computes for two numbers; `None` where it
/// overflows or the divisor is zero.
pub uninterp spec fn decimal_quotient(m1: i128, s1: u32, m2: i128, s2: u32) -> Option<(i128, u32)>;

/// The integer power that `rust_decimal` computes for a number; `None` where it
/// overflows.
pub uninterp spec fn decimal_power(m: i128, s: u32, exp: i64) -> Option<(i128, u32)>;

/// The number that `rust_decimal` reads from a text; `None` where it reads
/// none.
pub uninterp spec fn decimal_parse(text: Seq<char>) -> Option<(i128, u32)>;

/// Ten to the power of `n`.
pub open spec fn pow10(n: nat) -> int
    decreases n,
{
    if n == 0 {
        1
    } else {
        10 * pow10((n - 1) as nat)
    }
}

/// The decimal number `mantissa / 10^scale`.
#[derive(Clone, Copy, Debug)]
pub struct Dec {
    mantissa: i128,
    scale: u32,
}

impl Dec {
    /// The integer whose digits are the number's digits.
    pub closed spec fn spec_mantissa(&self) -> i128 {
        self.mantissa
    }

    /// The number of digits behind the decimal point.
    pub closed spec fn spec_scale(&self) -> u32 {
        self.scale
    }

    /// Whether a mantissa and a scale are those of a number.
    pub open spec fn representable(mantissa: int, scale: int) -> bool {
        &&& 0 <= scale <= MAX_SCALE
        &&& -MANTISSA_BOUND < mantissa < MANTISSA_BOUND
    }

    #[verifier::type_invariant]
    closed spec fn well_formed(self) -> bool {
        Self::representable(self.mantissa as int, self.scale as int)
    }

    /// The number with the given mantissa and scale, whether or not such a
    /// number can be held.
    pub closed spec fn of(mantissa: i128, scale: u32) -> Dec {
        Dec { mantissa, scale }
    }

    /// The number that a pair of mantissa and scale stands for.
    pub open spec fn lift(parts: Option<(i128, u32)>) -> Option<Dec> {
        match parts {
            Some((mantissa, scale)) => Some(Dec::of(mantissa, scale)),
            None => None,
        }
    }

    /// The number's value in units of `10^-28`, by which numbers are ordered.
    pub open spec fn key(self) -> int {
        self.mantissa() * pow10((MAX_SCALE - self.scale()) as nat)
    }

    /// The number of opposite sign, with the same scale.
    pub open spec fn opposite(self) -> Dec {
        Dec::of((-self.mantissa()) as i128, self.scale())
    }

    /// What [`checked_add`] returns.
    pub open spec fn sum(self, other: Dec) -> Option<Dec> {
        Dec::lift(decimal_sum(self.mantissa(), self.scale(), other.mantissa(), other.scale()))
    }

    /// What [`checked_sub`] returns.
    pub open spec fn difference(self, other: Dec) -> Option<Dec> {
        Dec::lift(
            decimal_difference(self.mantissa(), self.scale(), other.mantissa(), other.scale()),
        )
    }

    /// What [`checked_div`] returns.
    pub open spec fn quotient(self, other: Dec) -> Option<Dec> {
        Dec::lift(decimal_quotient(self.mantissa(), self.scale(), other.mantissa(), other.scale()))
    }

    /// What [`checked_powi`] returns.
    pub open spec fn power(self, exp: i64) -> Option<Dec> {
        Dec::lift(decimal_power(self.mantissa(), self.scale(), exp))
    }

    /// What [`parse`] returns.
    pub open spec fn spelled_by(text: Seq<char>) -> Option<Dec> {
        Dec::lift(decimal_parse(text))
    }

    /// Two numbers with the same mantissa and scale are the same number.
    pub proof fn lemma_parts_decide(a: Dec, b: Dec)
        requires
            a.mantissa() == b.mantissa(),
            a.scale() == b.scale(),
        ensures
            a == b,
    {
    }

    /// The parts of a number made from parts.
    pub proof fn lemma_of_parts(mantissa: i128, scale: u32)
        ensures
            Dec::of(mantissa, scale).mantissa() == mantissa,
            Dec::of(mantissa, scale).scale() == scale,
    {
    }

    /// The number with the given mantissa and scale, if there is one.
    pub fn new(mantissa: i128, scale: u32) -> (made: Option<Dec>)
        ensures
            made is Some <==> Dec::representable(mantissa as int, scale as int),
            made is Some ==> made == Some(Dec::of(mantissa, scale)),
    {
        if scale <= MAX_SCALE && -MANTISSA_BOUND < mantissa && mantissa < MANTISSA_BOUND {
            Some(Dec { mantissa, scale })
        } else {
            None
        }
    }

    /// The integer whose digits are the number's digits.
    #[verifier::when_used_as_spec(spec_mantissa)]
    pub fn mantissa(&self) -> (mantissa: i128)
        ensures
            mantissa == self.spec_mantissa(),
            -MANTISSA_BOUND < mantissa < MANTISSA_BOUND,
    {
        proof {
            use_type_invariant(self);
        }
        self.mantissa
    }

    /// The number of digits behind the decimal point.
    #[verifier::when_used_as_spec(spec_scale)]
    pub fn scale(&self) -> (scale: u32)
        ensures
            scale == self.spec_scale(),
            scale <= MAX_SCALE,
    {
        proof {
            use_type_invariant(self);
        }
        self.scale
    }

    /// Zero, written without decimal places.
    pub fn zero() -> (zero: Dec)
        ensures
            zero == Dec::of(0, 0),
    {
        Dec { mantissa: 0, scale: 0 }
    }

    /// Zero, written with one decimal place.
    pub fn zero_tenths() -> (zero: Dec)
        ensures
            zero == Dec::of(0, 1),
    {
        Dec { mantissa: 0, scale: 1 }
    }

    /// The number of opposite sign.
    pub fn negated(&self) -> (opposite: Dec)
        ensures
            opposite == self.opposite(),
            opposite.key() == -self.key(),
    {
        proof {
            use_type_invariant(self);
            assert((-self.mantissa) * pow10((MAX_SCALE - self.scale) as nat) == -(self.mantissa
                * pow10((MAX_SCALE - self.scale) as nat))) by (nonlinear_arith);
        }
        Dec { mantissa: -self.mantissa, scale: self.scale }
    }
}

/// The most rounds of averaging that a square root may take.
pub const ROOT_ROUNDS: u32 = 999;

/// Whether two numbers have the same value, whatever their scales.
pub open spec fn same_value(a: Dec, b: Dec) -> bool {
    a.key() == b.key()
}

/// One round of the Babylonian method for the square root of `x`: the mean of
/// the estimate and of `x` divided by the estimate.
pub open spec fn root_step(x: Dec, estimate: Dec) -> Option<Dec> {
    match x.quotient(estimate) {
        Some(share) => match estimate.sum(share) {
            Some(both) => both.quotient(Dec::of(2, 0)),
            None => None,
        },
        None => None,
    }
}

/// The estimate at which the Babylonian method settles when it goes on from
/// `estimate`, which followed `last`, for at most `rounds` more rounds: the
/// first estimate that has the value of the one before it. `None` where the
/// arithmetic overflows or no estimate settles in that many rounds.
pub open spec fn root_from(x: Dec, last: Dec, estimate: Dec, rounds: nat) -> Option<Dec>
    decreases rounds,
{
    if same_value(last, estimate) {
        Some(estimate)
    } else if rounds == 0 {
        None
    } else {
        match root_step(x, estimate) {
            Some(next) => root_from(x, estimate, next, (rounds - 1) as nat),
            None => None,
        }
    }
}

/// The first estimate of the square root of `x`: half of `x`, or `x` itself
/// where the half is too small to be held.
pub open spec fn root_start(x: Dec) -> Option<Dec> {
    match x.quotient(Dec::of(2, 0)) {
        Some(half) => if half.mantissa() == 0 {
            Some(x)
        } else {
            Some(half)
        },
        None => None,
    }
}

/// The square root of `x` by the Babylonian method: none for a negative
/// number, zero for zero, and else the estimate at which the method settles
/// within [`ROOT_ROUNDS`] rounds.
pub open spec fn root(x: Dec) -> Option<Dec> {
    if x.mantissa() < 0 {
        None
    } else if x.mantissa() == 0 {
        Some(Dec::of(0, 0))
    } else {
        match root_start(x) {
            Some(start) => match start.sum(Dec::of(1, 0)) {
                Some(last) => root_from(x, last, start, ROOT_ROUNDS as nat),
                None => None,
            },
            None => None,
        }
    }
}

impl Dec {
    /// Whether the two numbers have the same value, whatever their scales.
    pub fn has_value_of(&self, other: &Dec) -> (same: bool)
        ensures
            same == same_value(*self, *other),
    {
        !less_than(*self, *other) && !less_than(*other, *self)
    }

    /// Whether this number is less than the other.
    pub fn is_less_than(&self, other: &Dec) -> (less: bool)
        ensures
            less == (self.key() < other.key()),
    {
        less_than(*self, *other)
    }

    /// The square root, by the Babylonian method. There is none for a negative
    /// number, and none is returned where the arithmetic overflows or the
    /// estimates have not settled after [`ROOT_ROUNDS`] rounds.
    ///
    /// `rust_decimal` has a square root of its own, which aborts the program
    /// where its rounds do not settle. This one goes through the same rounds
    /// with the crate's arithmetic, and returns `None` there.
    pub fn sqrt(&self) -> (found: Option<Dec>)
        ensures
            found == root(*self),
    {
        if self.mantissa() < 0 {
            return None;
        }
        if self.mantissa() == 0 {
            return Some(Dec::zero());
        }
        let two = Dec { mantissa: 2, scale: 0 };
        let one = Dec { mantissa: 1, scale: 0 };
        let half = match checked_div(*self, two) {
            Some(half) => half,
            None => { return None; },
        };
        let mut estimate: Dec = if half.mantissa() == 0 {
            *self
        } else {
            half
        };
        let mut last: Dec = match checked_add(estimate, one) {
            Some(last) => last,
            None => { return None; },
        };
        let mut rounds: u32 = ROOT_ROUNDS;
        while !last.has_value_of(&estimate)
            invariant
                two == Dec::of(2, 0),
                root(*self) == root_from(*self, last, estimate, rounds as nat),
            decreases rounds,
        {
            if rounds == 0 {
                return None;
            }
            let share = match checked_div(*self, estimate) {
                Some(share) => share,
                None => { return None; },
            };
            let both = match checked_add(estimate, share) {
                Some(both) => both,
                None => { return None; },
            };
            let next = match checked_div(both, two) {
                Some(next) => next,
                None => { return None; },
            };
            last = estimate;
            estimate = next;
            rounds = rounds - 1;
        }
        Some(estimate)
    }
}

/// `Decimal::checked_add` of `rust_decimal`: the sum of two numbers, `None` on
/// overflow. Nothing is claimed of the sum but that the same operands always
/// give the same one.
#[verifier::external_body]
pub(crate) fn checked_add(a: Dec, b: Dec) -> (sum: Option<Dec>)
    ensures
        sum == Dec::lift(decimal_sum(a.mantissa(), a.scale(), b.mantissa(), b.scale())),
{
    let x = Decimal::from_i128_with_scale(a.mantissa, a.scale);
    let y = Decimal::from_i128_with_scale(b.mantissa, b.scale);
    match x.checked_add(y) {
        Some(d) => Some(Dec { mantissa: d.mantissa(), scale: d.scale() }),
        None => None,
    }
}

/// `Decimal::checked_sub` of `rust_decimal`: the difference of two numbers,
/// `None` on overflow. Nothing is claimed of the difference but that the same
/// operands always give the same one.
#[verifier::external_body]
pub(crate) fn checked_sub(a: Dec, b: Dec) -> (difference: Option<Dec>)
    ensures
        difference == Dec::lift(
            decimal_difference(a.mantissa(), a.scale(), b.mantissa(), b.scale()),
        ),
{
    let x = Decimal::from_i128_with_scale(a.mantissa, a.scale);
    let y = Decimal::from_i128_with_scale(b.mantissa, b.scale);
    match x.checked_sub(y) {
        Some(d) => Some(Dec { mantissa: d.mantissa(), scale: d.scale() }),
        None => None,
    }
}

/// `Decimal::checked_div` of `rust_decimal`: the quotient of two numbers,
/// `None` on overflow and for a divisor that is zero. Nothing is claimed of the
/// quotient but that the same operands always give the same one.
#[verifier::external_body]
pub(crate) fn checked_div(a: Dec, b: Dec) -> (quotient: Option<Dec>)
    ensures
        quotient == Dec::lift(decimal_quotient(a.mantissa(), a.scale(), b.mantissa(), b.scale())),
{
    let x = Decimal::from_i128_with_scale(a.mantissa, a.scale);
    let y = Decimal::from_i128_with_scale(b.mantissa, b.scale);
    match x.checked_div(y) {
        Some(d) => Some(Dec { mantissa: d.mantissa(), scale: d.scale() }),
        None => None,
    }
}

/// `MathematicalOps::checked_powi` of `rust_decimal`: a number raised to an
/// integer power, `None` on overflow. Nothing is claimed of the power but that
/// the same operands always give the same one.
#[verifier::external_body]
pub(crate) fn checked_powi(a: Dec, exp: i64) -> (power: Option<Dec>)
    ensures
        power == Dec::lift(decimal_power(a.mantissa(), a.scale(), exp)),
{
    let x = Decimal::from_i128_with_scale(a.mantissa, a.scale);
    match x.checked_powi(exp) {
        Some(d) => Some(Dec { mantissa: d.mantissa(), scale: d.scale() }),
        None => None,
    }
}

/// `<` on `Decimal`, which compares two numbers by their value, whatever their
/// scales: `a` is less than `b` exactly when it is so in units of `10^-28`.
#[verifier::external_body]
pub(crate) fn less_than(a: Dec, b: Dec) -> (less: bool)
    ensures
        less == (a.key() < b.key()),
{
    let x = Decimal::from_i128_with_scale(a.mantissa, a.scale);
    let y = Decimal::from_i128_with_scale(b.mantissa, b.scale);
    x < y
}

/// `Decimal::from_str` of `rust_decimal`: the number that a text spells,
/// `None` where the crate reports an error. Nothing is claimed of the number
/// but that the same text always gives the same one.
#[verifier::external_body]
pub(crate) fn parse(text: &[char]) -> (number: Option<Dec>)
    ensures
        number == Dec::lift(decimal_parse(text@)),
{
    let spelled: String = text.iter().collect();
    match Decimal::from_str(&spelled) {
        Ok(d) => Some(Dec { mantissa: d.mantissa(), scale: d.scale() }),
        Err(_) => None,
    }
}

} // verus!
