use vstd::prelude::*;
use vstd::std_specs::iter::IteratorSpec;

use crate::entities::expression::{expression_yields, Expression};
use crate::entities::expression::facts::{is_determined, lemma_evaluation_determined};
use crate::entities::literal::{parse_is_determined, Literal};
use crate::entities::operation::binary_operation::BinaryOperation;
use crate::entities::operation::unary_operation::UnaryOperation;
use crate::{AngleRepresentation, CalculationError};

verus! {

/// A decimal number `mantissa / 10^scale` with a mantissa of at most 96 bits
/// and a scale of at most 28: the values that `rust_decimal::Decimal` holds,
/// but for the sign of a zero, which is not kept.
///
/// Arithmetic on these values is done by `rust_decimal`; this type carries
/// the two integers between the calls.  Two values are equal where both
/// integers are: `1.0` and `1.00` are the same number and different values.
#[derive(Debug, Clone, Copy, PartialEq, Eq)]
pub struct Decimal {
    mantissa: i128,
    scale: u32,
}

/// The largest scale of a [`Decimal`].
pub const MAX_SCALE: u32 = 28;

/// The bound that the magnitude of a mantissa stays below: two to the power 96.
pub open spec fn mantissa_bound() -> int {
    0x1_0000_0000_0000_0000_0000_0000
}

/// Whether `mantissa / 10^scale` is a value that a [`Decimal`] can hold.
pub open spec fn representable(mantissa: int, scale: int) -> bool {
    &&& -mantissa_bound() < mantissa < mantissa_bound()
    &&& 0 <= scale <= MAX_SCALE
}

impl Decimal {
    /// Whether the parts are those of a value that a [`Decimal`] can hold.
    /// Every value of the type is of this kind.
    #[verifier::type_invariant]
    pub closed spec fn well_formed(self) -> bool {
        representable(self.mantissa as int, self.scale as int)
    }

    /// The integer that is divided by a power of ten.
    pub closed spec fn mantissa_spec(&self) -> i128 {
        self.mantissa
    }

    /// The power of ten that the mantissa is divided by.
    pub closed spec fn scale_spec(&self) -> u32 {
        self.scale
    }

    /// The value with the given mantissa and scale.
    pub closed spec fn spec_from_parts(mantissa: i128, scale: u32) -> Decimal {
        Decimal { mantissa, scale }
    }

    /// A value has the parts it was made of.
    pub broadcast proof fn lemma_parts(mantissa: i128, scale: u32)
        ensures
            (#[trigger] Decimal::spec_from_parts(mantissa, scale)).mantissa() == mantissa,
            Decimal::spec_from_parts(mantissa, scale).scale() == scale,
    {
    }

    /// Two values with the same parts are the same value.
    pub proof fn lemma_equal_by_parts(self, other: Decimal)
        requires
            self.mantissa() == other.mantissa(),
            self.scale() == other.scale(),
        ensures
            self == other,
    {
    }

    /// The value `mantissa / 10^scale`, or `None` where a [`Decimal`] cannot hold it.
    pub fn from_parts(mantissa: i128, scale: u32) -> (value: Option<Decimal>)
        ensures
            value is Some <==> representable(mantissa as int, scale as int),
            value matches Some(d) ==> d == Decimal::spec_from_parts(mantissa, scale),
    {
        if scale <= MAX_SCALE && -0x1_0000_0000_0000_0000_0000_0000 < mantissa && mantissa
            < 0x1_0000_0000_0000_0000_0000_0000 {
            Some(Decimal { mantissa, scale })
        } else {
            None
        }
    }

    /// The integer that is divided by a power of ten.
    #[verifier::when_used_as_spec(mantissa_spec)]
    pub fn mantissa(&self) -> (m: i128)
        ensures
            m == self.mantissa_spec(),
    {
        self.mantissa
    }

    /// The power of ten that the mantissa is divided by.
    #[verifier::when_used_as_spec(scale_spec)]
    pub fn scale(&self) -> (s: u32)
        ensures
            s == self.scale_spec(),
            s <= MAX_SCALE,
    {
        proof {
            use_type_invariant(self);
        }
        self.scale
    }
}

/// The value that `parse` gives for a numeral: a text that holds the letter
/// of an exponent, `e` or `E`, is read as scientific notation, any other as
/// a plain decimal number.
pub open spec fn decimal_parse(repr: Seq<char>) -> Option<Decimal> {
    if repr.contains('e') || repr.contains('E') {
        decimal_from_scientific(repr)
    } else {
        decimal_from_str(repr)
    }
}

/// The natural logarithm of a value: none for a value that is not
/// positive, and else what `rust_decimal` computes.
pub open spec fn decimal_logarithm(x: Decimal) -> Option<Decimal> {
    if x.mantissa() <= 0 {
        None
    } else {
        decimal_ln(x)
    }
}

/// The power `base ^ exponent` as `exp(exponent * ln(base))`.  A negative
/// base has no power, and neither has a base or an exponent for which one of
/// the three steps has no result; a base of zero is among them.
pub open spec fn decimal_power(base: Decimal, exponent: Decimal) -> Option<Decimal> {
    if base.mantissa() < 0 {
        None
    } else {
        match decimal_logarithm(base) {
            None => None,
            Some(logarithm) => match decimal_product(exponent, logarithm) {
                None => None,
                Some(scaled) => decimal_exp(scaled),
            },
        }
    }
}

/// The absolute value: the same scale, and the mantissa without its sign.
pub open spec fn decimal_abs(x: Decimal) -> Decimal {
    Decimal::spec_from_parts(
        if x.mantissa() < 0 {
            (-x.mantissa()) as i128
        } else {
            x.mantissa()
        },
        x.scale(),
    )
}

/// The quotient of two values: none for a divisor that is zero, and else
/// what `rust_decimal` computes.
pub open spec fn decimal_division(a: Decimal, b: Decimal) -> Option<Decimal> {
    if b.mantissa() == 0 {
        None
    } else {
        decimal_quotient(a, b)
    }
}

/// The number two, by which the square root halves.
pub open spec fn decimal_two() -> Decimal {
    Decimal::spec_from_parts(2, 0)
}

/// The number zero at scale zero.
pub open spec fn decimal_zero() -> Decimal {
    Decimal::spec_from_parts(0, 0)
}

/// The greatest number of rounds that the square root is given to settle.
pub const ROOT_ROUNDS: u32 = 999;

/// The estimate that the square root starts from: half of the value, or the
/// value itself where its half is zero.
pub open spec fn root_start(x: Decimal) -> Option<Decimal> {
    match decimal_division(x, decimal_two()) {
        None => None,
        Some(half) => Some(
            if half.mantissa() == 0 {
                x
            } else {
                half
            },
        ),
    }
}

/// The estimate that follows `estimate` in the Babylonian method: the mean
/// of the estimate and of the value divided by it.
pub open spec fn root_step(x: Decimal, estimate: Decimal) -> Option<Decimal> {
    match decimal_division(x, estimate) {
        None => None,
        Some(quotient) => match decimal_sum(estimate, quotient) {
            None => None,
            Some(sum) => decimal_division(sum, decimal_two()),
        },
    }
}

/// What the Babylonian method settles on from `estimate` within `rounds`
/// rounds: the first estimate that is the same number as the one before it,
/// which is to say that their difference is zero.  None where a step has no
/// result or the rounds run out.
pub open spec fn root_rounds(x: Decimal, estimate: Decimal, rounds: nat) -> Option<Decimal>
    decreases rounds,
{
    if rounds == 0 {
        None
    } else {
        match root_step(x, estimate) {
            None => None,
            Some(next) => match decimal_difference(estimate, next) {
                None => None,
                Some(change) => if change.mantissa() == 0 {
                    Some(next)
                } else {
                    root_rounds(x, next, (rounds - 1) as nat)
                },
            },
        }
    }
}

/// The square root of a value: none for a negative value, zero for zero,
/// and else what the Babylonian method settles on within [`ROOT_ROUNDS`]
/// rounds, in the arithmetic of `rust_decimal`.  There are values on which
/// the estimates go back and forth between two neighbours for ever, such as
/// 4.0000000000000000000000000003: these have no square root here.
pub open spec fn decimal_root(x: Decimal) -> Option<Decimal> {
    if x.mantissa() < 0 {
        None
    } else if x.mantissa() == 0 {
        Some(decimal_zero())
    } else {
        match root_start(x) {
            None => None,
            Some(start) => root_rounds(x, start, ROOT_ROUNDS as nat),
        }
    }
}

/// The number of degrees in half a turn.
pub open spec fn half_turn() -> Decimal {
    Decimal::spec_from_parts(180, 0)
}

/// The constant pi to 28 places, 3.1415926535897932384626433833: the value
/// of `rust_decimal`'s `Decimal::PI`.
pub open spec fn decimal_pi() -> Decimal {
    Decimal::spec_from_parts(31415926535897932384626433833, 28)
}

/// An angle in degrees as radians: `(degrees / 180) * pi`, computed in this
/// order so that the intermediate value is no larger than the angle.
pub open spec fn decimal_radians(degrees: Decimal) -> Option<Decimal> {
    match decimal_division(degrees, half_turn()) {
        None => None,
        Some(turns) => decimal_product(turns, decimal_pi()),
    }
}

/// Whether the text holds the letter of an exponent, `e` or `E`.
fn has_exponent_mark(repr: &str) -> (found: bool)
    ensures
        found == (repr@.contains('e') || repr@.contains('E')),
{
    broadcast use vstd::string::axiom_spec_iter, vstd::string::next_postcondition;

    let mut it = repr.chars();
    let ghost mut seen: Seq<char> = Seq::empty();
    loop
        invariant
            seen + it.remaining() == repr@,
            !seen.contains('e'),
            !seen.contains('E'),
        decreases repr@.len() - seen.len(),
    {
        let ghost before = it.remaining();
        match it.next() {
            Some(c) => {
                proof {
                    assert(before == seq![c] + it.remaining());
                    assert(seen.push(c) + it.remaining() == repr@);
                }
                if c == 'e' || c == 'E' {
                    proof {
                        assert(repr@[seen.len() as int] == c);
                    }
                    return true;
                }
                proof {
                    seen = seen.push(c);
                }
            },
            None => {
                proof {
                    assert(seen + Seq::<char>::empty() == seen);
                }
                return false;
            },
        }
    }
}

/// What `rust_decimal`'s `Decimal::from_str` makes of a text.
pub uninterp spec fn decimal_from_str(text: Seq<char>) -> Option<Decimal>;

/// What `rust_decimal`'s `Decimal::from_scientific` makes of a text.
pub uninterp spec fn decimal_from_scientific(text: Seq<char>) -> Option<Decimal>;

/// The sum that `rust_decimal`'s `Decimal::checked_add` returns.
pub uninterp spec fn decimal_sum(a: Decimal, b: Decimal) -> Option<Decimal>;

/// The difference that `rust_decimal`'s `Decimal::checked_sub` returns.
pub uninterp spec fn decimal_difference(a: Decimal, b: Decimal) -> Option<Decimal>;

/// The product that `rust_decimal`'s `Decimal::checked_mul` returns.
pub uninterp spec fn decimal_product(a: Decimal, b: Decimal) -> Option<Decimal>;

/// The quotient that `rust_decimal`'s `Decimal::checked_div` returns.
pub uninterp spec fn decimal_quotient(a: Decimal, b: Decimal) -> Option<Decimal>;

/// The natural logarithm that `rust_decimal`'s `MathematicalOps::checked_ln` returns.
pub uninterp spec fn decimal_ln(x: Decimal) -> Option<Decimal>;

/// The exponential that `rust_decimal`'s `MathematicalOps::checked_exp` returns.
pub uninterp spec fn decimal_exp(x: Decimal) -> Option<Decimal>;

/// The text that `rust_decimal` writes for a value through `Display`.
pub uninterp spec fn decimal_text(x: Decimal) -> Seq<char>;

/// Calls `Decimal::from_str` of `rust_decimal`.  Its result is a function of
/// the text alone and goes by the name [`decimal_from_str`]; a text that it
/// rejects gives `None`.
#[verifier::external_body]
fn from_str(text: &str) -> (value: Option<Decimal>)
    ensures
        value == decimal_from_str(text@),
{
    match <rust_decimal::Decimal as std::str::FromStr>::from_str(text) {
        Ok(d) => Some(Decimal { mantissa: d.mantissa(), scale: d.scale() }),
        Err(_) => None,
    }
}

/// Calls `Decimal::from_scientific` of `rust_decimal`.  Its result is a
/// function of the text alone and goes by the name
/// [`decimal_from_scientific`]; a text that it rejects gives `None`.
#[verifier::external_body]
fn from_scientific(text: &str) -> (value: Option<Decimal>)
    ensures
        value == decimal_from_scientific(text@),
{
    match rust_decimal::Decimal::from_scientific(text) {
        Ok(d) => Some(Decimal { mantissa: d.mantissa(), scale: d.scale() }),
        Err(_) => None,
    }
}

/// Calls `Decimal::checked_add` of `rust_decimal`, which returns `None` on
/// overflow.  The sum goes by the name [`decimal_sum`].
#[verifier::external_body]
fn checked_add(a: &Decimal, b: &Decimal) -> (value: Option<Decimal>)
    requires
        a.well_formed(),
        b.well_formed(),
    ensures
        value == decimal_sum(*a, *b),
{
    let x = rust_decimal::Decimal::from_i128_with_scale(a.mantissa, a.scale);
    let y = rust_decimal::Decimal::from_i128_with_scale(b.mantissa, b.scale);
    match x.checked_add(y) {
        Some(d) => Some(Decimal { mantissa: d.mantissa(), scale: d.scale() }),
        None => None,
    }
}

/// Calls `Decimal::checked_sub` of `rust_decimal`, which returns `None` on
/// overflow.  The difference goes by the name [`decimal_difference`].
#[verifier::external_body]
fn checked_sub(a: &Decimal, b: &Decimal) -> (value: Option<Decimal>)
    requires
        a.well_formed(),
        b.well_formed(),
    ensures
        value == decimal_difference(*a, *b),
{
    let x = rust_decimal::Decimal::from_i128_with_scale(a.mantissa, a.scale);
    let y = rust_decimal::Decimal::from_i128_with_scale(b.mantissa, b.scale);
    match x.checked_sub(y) {
        Some(d) => Some(Decimal { mantissa: d.mantissa(), scale: d.scale() }),
        None => None,
    }
}

/// Calls `Decimal::checked_mul` of `rust_decimal`, which returns `None` on
/// overflow.  The product goes by the name [`decimal_product`].
#[verifier::external_body]
fn checked_mul(a: &Decimal, b: &Decimal) -> (value: Option<Decimal>)
    requires
        a.well_formed(),
        b.well_formed(),
    ensures
        value == decimal_product(*a, *b),
{
    let x = rust_decimal::Decimal::from_i128_with_scale(a.mantissa, a.scale);
    let y = rust_decimal::Decimal::from_i128_with_scale(b.mantissa, b.scale);
    match x.checked_mul(y) {
        Some(d) => Some(Decimal { mantissa: d.mantissa(), scale: d.scale() }),
        None => None,
    }
}

/// Calls `Decimal::checked_div` of `rust_decimal`, which returns `None` on
/// overflow and for a divisor that is zero.  The quotient goes by the name
/// [`decimal_quotient`].
#[verifier::external_body]
fn checked_div(a: &Decimal, b: &Decimal) -> (value: Option<Decimal>)
    requires
        a.well_formed(),
        b.well_formed(),
    ensures
        value == decimal_quotient(*a, *b),
        b.mantissa() == 0 ==> value is None,
{
    let x = rust_decimal::Decimal::from_i128_with_scale(a.mantissa, a.scale);
    let y = rust_decimal::Decimal::from_i128_with_scale(b.mantissa, b.scale);
    match x.checked_div(y) {
        Some(d) => Some(Decimal { mantissa: d.mantissa(), scale: d.scale() }),
        None => None,
    }
}

/// Calls `MathematicalOps::checked_ln` of `rust_decimal`, which returns
/// `None` for negative numbers and for zero.  The logarithm goes by the name
/// [`decimal_ln`].
#[verifier::external_body]
fn checked_ln(x: &Decimal) -> (value: Option<Decimal>)
    requires
        x.well_formed(),
    ensures
        value == decimal_ln(*x),
        x.mantissa() <= 0 ==> value is None,
{
    let d = rust_decimal::Decimal::from_i128_with_scale(x.mantissa, x.scale);
    match rust_decimal::MathematicalOps::checked_ln(&d) {
        Some(r) => Some(Decimal { mantissa: r.mantissa(), scale: r.scale() }),
        None => None,
    }
}

/// Calls `MathematicalOps::checked_exp` of `rust_decimal`, which returns
/// `None` on overflow.  The exponential goes by the name [`decimal_exp`].
#[verifier::external_body]
fn checked_exp(x: &Decimal) -> (value: Option<Decimal>)
    requires
        x.well_formed(),
    ensures
        value == decimal_exp(*x),
{
    let d = rust_decimal::Decimal::from_i128_with_scale(x.mantissa, x.scale);
    match rust_decimal::MathematicalOps::checked_exp(&d) {
        Some(r) => Some(Decimal { mantissa: r.mantissa(), scale: r.scale() }),
        None => None,
    }
}

/// Writes the value as `rust_decimal` does through `Display`.  The text goes
/// by the name [`decimal_text`].
#[verifier::external_body]
fn display(x: &Decimal) -> (text: String)
    requires
        x.well_formed(),
    ensures
        text@ == decimal_text(*x),
{
    rust_decimal::Decimal::from_i128_with_scale(x.mantissa, x.scale).to_string()
}

/// Takes the sine of the value through machine floating point: the value is
/// converted with `ToPrimitive::to_f64` of `rust_decimal`, the sine is taken
/// by std, and the result is converted back with `rust_decimal`'s `TryFrom`,
/// which fails on what is not a finite number in range.  std leaves the
/// precision of the sine open, so nothing is stated of the result.
#[verifier::external_body]
fn sine_through_float(x: &Decimal) -> (value: Option<Decimal>)
    requires
        x.well_formed(),
{
    let d = rust_decimal::Decimal::from_i128_with_scale(x.mantissa, x.scale);
    let angle = rust_decimal::prelude::ToPrimitive::to_f64(&d)?;
    let r = rust_decimal::Decimal::try_from(angle.sin()).ok()?;
    Some(Decimal { mantissa: r.mantissa(), scale: r.scale() })
}

/// Takes the cosine of the value through machine floating point, as
/// [`sine_through_float`] does the sine.  Nothing is stated of the result.
#[verifier::external_body]
fn cosine_through_float(x: &Decimal) -> (value: Option<Decimal>)
    requires
        x.well_formed(),
{
    let d = rust_decimal::Decimal::from_i128_with_scale(x.mantissa, x.scale);
    let angle = rust_decimal::prelude::ToPrimitive::to_f64(&d)?;
    let r = rust_decimal::Decimal::try_from(angle.cos()).ok()?;
    Some(Decimal { mantissa: r.mantissa(), scale: r.scale() })
}

/// Takes the tangent of the value through machine floating point, as
/// [`sine_through_float`] does the sine.  Nothing is stated of the result.
#[verifier::external_body]
fn tangent_through_float(x: &Decimal) -> (value: Option<Decimal>)
    requires
        x.well_formed(),
{
    let d = rust_decimal::Decimal::from_i128_with_scale(x.mantissa, x.scale);
    let angle = rust_decimal::prelude::ToPrimitive::to_f64(&d)?;
    let r = rust_decimal::Decimal::try_from(angle.tan()).ok()?;
    Some(Decimal { mantissa: r.mantissa(), scale: r.scale() })
}

/// Takes the cotangent of the value through machine floating point: the
/// reciprocal of the tangent, both computed by std on the value converted as
/// in [`sine_through_float`].  Where the tangent is zero the reciprocal is
/// infinite and the conversion back fails.  Nothing is stated of the result.
#[verifier::external_body]
fn cotangent_through_float(x: &Decimal) -> (value: Option<Decimal>)
    requires
        x.well_formed(),
{
    let d = rust_decimal::Decimal::from_i128_with_scale(x.mantissa, x.scale);
    let angle = rust_decimal::prelude::ToPrimitive::to_f64(&d)?;
    let r = rust_decimal::Decimal::try_from(angle.tan().powi(-1)).ok()?;
    Some(Decimal { mantissa: r.mantissa(), scale: r.scale() })
}

impl Decimal {
    /// The value as `rust_decimal` writes it.
    pub fn to_text(&self) -> (text: String)
        ensures
            text@ == decimal_text(*self),
    {
        proof {
            use_type_invariant(self);
        }
        display(self)
    }
}

/// Decimal arithmetic, exact for decimal numerals.
///
/// An operation whose result a [`Decimal`] cannot hold has no result, and
/// neither has a division by zero, the square root of a negative number or
/// the power of a base that is not positive.  The square root is computed
/// by the Babylonian method in at most [`ROOT_ROUNDS`] rounds, and a value on
/// which the method does not settle has no square root.  The power is
/// computed as `exp(exponent * ln(base))`.  The trigonometric functions are computed in
/// double-precision floating point and converted back, with the loss of
/// precision that this brings; where the result is no finite number, as for
/// the cotangent of zero, they have no result.
impl Literal for Decimal {
    open spec fn parse_outcome(repr: Seq<char>, value: Option<Self>) -> bool {
        value == decimal_parse(repr)
    }

    fn parse(repr: &str) -> (value: Option<Self>) {
        if has_exponent_mark(repr) {
            from_scientific(repr)
        } else {
            from_str(repr)
        }
    }

    open spec fn abs_outcome(self, value: Option<Self>) -> bool {
        value == Some(decimal_abs(self))
    }

    fn abs(&self) -> (value: Option<Self>) {
        proof {
            use_type_invariant(self);
        }
        let mantissa: i128 = if self.mantissa < 0 {
            -self.mantissa
        } else {
            self.mantissa
        };
        Some(Decimal { mantissa, scale: self.scale })
    }

    open spec fn sqrt_outcome(self, value: Option<Self>) -> bool {
        value == decimal_root(self)
    }

    fn sqrt(&self) -> (value: Option<Self>) {
        proof {
            use_type_invariant(self);
        }
        if self.mantissa < 0 {
            return None;
        }
        if self.mantissa == 0 {
            return Some(Decimal { mantissa: 0, scale: 0 });
        }
        let two = Decimal { mantissa: 2, scale: 0 };
        let half = match checked_div(self, &two) {
            None => {
                return None;
            },
            Some(half) => half,
        };
        let mut estimate = if half.mantissa == 0 {
            *self
        } else {
            half
        };
        let mut rounds: u32 = ROOT_ROUNDS;
        while rounds > 0
            invariant
                self.well_formed(),
                two == decimal_two(),
                root_rounds(*self, estimate, rounds as nat) == decimal_root(*self),
            decreases rounds,
        {
            proof {
                use_type_invariant(&estimate);
            }
            let quotient = match checked_div(self, &estimate) {
                None => {
                    return None;
                },
                Some(quotient) => quotient,
            };
            proof {
                use_type_invariant(&quotient);
            }
            let sum = match checked_add(&estimate, &quotient) {
                None => {
                    return None;
                },
                Some(sum) => sum,
            };
            proof {
                use_type_invariant(&sum);
            }
            let next = match checked_div(&sum, &two) {
                None => {
                    return None;
                },
                Some(next) => next,
            };
            proof {
                use_type_invariant(&next);
            }
            let change = match checked_sub(&estimate, &next) {
                None => {
                    return None;
                },
                Some(change) => change,
            };
            if change.mantissa == 0 {
                return Some(next);
            }
            estimate = next;
            rounds -= 1;
        }
        None
    }

    open spec fn sin_outcome(self, value: Option<Self>) -> bool {
        true
    }

    fn sin(&self) -> (value: Option<Self>) {
        proof {
            use_type_invariant(self);
        }
        sine_through_float(self)
    }

    open spec fn cos_outcome(self, value: Option<Self>) -> bool {
        true
    }

    fn cos(&self) -> (value: Option<Self>) {
        proof {
            use_type_invariant(self);
        }
        cosine_through_float(self)
    }

    open spec fn tg_outcome(self, value: Option<Self>) -> bool {
        true
    }

    fn tg(&self) -> (value: Option<Self>) {
        proof {
            use_type_invariant(self);
        }
        tangent_through_float(self)
    }

    open spec fn ctg_outcome(self, value: Option<Self>) -> bool {
        true
    }

    fn ctg(&self) -> (value: Option<Self>) {
        proof {
            use_type_invariant(self);
        }
        cotangent_through_float(self)
    }

    open spec fn add_outcome(self, rhs: Self, value: Option<Self>) -> bool {
        value == decimal_sum(self, rhs)
    }

    fn add(&self, rhs: &Self) -> (value: Option<Self>) {
        proof {
            use_type_invariant(self);
            use_type_invariant(rhs);
        }
        checked_add(self, rhs)
    }

    open spec fn sub_outcome(self, rhs: Self, value: Option<Self>) -> bool {
        value == decimal_difference(self, rhs)
    }

    fn sub(&self, rhs: &Self) -> (value: Option<Self>) {
        proof {
            use_type_invariant(self);
            use_type_invariant(rhs);
        }
        checked_sub(self, rhs)
    }

    open spec fn mul_outcome(self, rhs: Self, value: Option<Self>) -> bool {
        value == decimal_product(self, rhs)
    }

    fn mul(&self, rhs: &Self) -> (value: Option<Self>) {
        proof {
            use_type_invariant(self);
            use_type_invariant(rhs);
        }
        checked_mul(self, rhs)
    }

    open spec fn div_outcome(self, rhs: Self, value: Option<Self>) -> bool {
        value == decimal_division(self, rhs)
    }

    fn div(&self, rhs: &Self) -> (value: Option<Self>) {
        proof {
            use_type_invariant(self);
            use_type_invariant(rhs);
        }
        checked_div(self, rhs)
    }

    open spec fn pow_outcome(self, rhs: Self, value: Option<Self>) -> bool {
        value == decimal_power(self, rhs)
    }

    fn pow(&self, rhs: &Self) -> (value: Option<Self>) {
        proof {
            use_type_invariant(self);
            use_type_invariant(rhs);
        }
        if self.mantissa() < 0 {
            return None;
        }
        match checked_ln(self) {
            None => None,
            Some(logarithm) => {
                proof {
                    use_type_invariant(&logarithm);
                }
                match checked_mul(rhs, &logarithm) {
                    None => None,
                    Some(scaled) => {
                        proof {
                            use_type_invariant(&scaled);
                        }
                        checked_exp(&scaled)
                    },
                }
            },
        }
    }

    open spec fn to_radians_outcome(self, value: Option<Self>) -> bool {
        value == decimal_radians(self)
    }

    fn to_radians(&self) -> (value: Option<Self>) {
        proof {
            use_type_invariant(self);
        }
        let half_turn = Decimal { mantissa: 180, scale: 0 };
        proof {
            broadcast use Decimal::lemma_parts;

        }
        match checked_div(self, &half_turn) {
            None => None,
            Some(turns) => {
                proof {
                    use_type_invariant(&turns);
                }
                let pi = Decimal { mantissa: 31415926535897932384626433833, scale: 28 };
                checked_mul(&turns, &pi)
            },
        }
    }
}

/// Division by zero has no result in decimal arithmetic: it is a
/// [`CalculationError::Domain`] error, whatever the dividend.
pub proof fn lemma_division_by_zero(
    dividend: Decimal,
    divisor: Decimal,
    result: Result<Decimal, CalculationError>,
)
    requires
        divisor.mantissa() == 0,
    ensures
        BinaryOperation::Div.outcome(dividend, divisor, result) <==> result == Err::<
            Decimal,
            CalculationError,
        >(CalculationError::Domain),
{
}

/// A base that is not positive has no power in decimal arithmetic: it is a
/// [`CalculationError::Domain`] error, whatever the exponent.
pub proof fn lemma_power_of_nonpositive(
    base: Decimal,
    exponent: Decimal,
    result: Result<Decimal, CalculationError>,
)
    requires
        base.mantissa() <= 0,
    ensures
        BinaryOperation::Pow.outcome(base, exponent, result) <==> result == Err::<
            Decimal,
            CalculationError,
        >(CalculationError::Domain),
{
}

/// A negative number has no square root in decimal arithmetic: it is a
/// [`CalculationError::Domain`] error under either unit of angles.
pub proof fn lemma_root_of_negative(
    operand: Decimal,
    angle: AngleRepresentation,
    result: Result<Decimal, CalculationError>,
)
    requires
        operand.mantissa() < 0,
    ensures
        UnaryOperation::Sqrt.outcome(angle, operand, result) <==> result == Err::<
            Decimal,
            CalculationError,
        >(CalculationError::Domain),
{
}

/// Whether the Babylonian method has settled on `root` for the value: the
/// step from some estimate gives `root`, and the two are the same number.
pub open spec fn is_settled_root(x: Decimal, root: Decimal) -> bool {
    exists|estimate: Decimal|
        (#[trigger] root_step(x, estimate)) == Some(root) && is_no_change(
            decimal_difference(estimate, root),
        )
}

/// Whether the difference of two estimates says that they are the same
/// number: it is zero.
pub open spec fn is_no_change(difference: Option<Decimal>) -> bool {
    match difference {
        Some(change) => change.mantissa() == 0,
        None => false,
    }
}

/// What the rounds of the Babylonian method return is an estimate that the
/// method has settled on.
pub proof fn lemma_rounds_settle(x: Decimal, estimate: Decimal, rounds: nat)
    ensures
        root_rounds(x, estimate, rounds) matches Some(root) ==> is_settled_root(x, root),
    decreases rounds,
{
    if rounds > 0 {
        if let Some(next) = root_step(x, estimate) {
            if let Some(change) = decimal_difference(estimate, next) {
                if change.mantissa() != 0 {
                    lemma_rounds_settle(x, next, (rounds - 1) as nat);
                }
            }
        }
    }
}

/// The square root of a positive decimal number, where it has one, is an
/// estimate that the Babylonian method has settled on; that of zero is zero.
pub proof fn lemma_root_settled(x: Decimal)
    ensures
        decimal_root(x) matches Some(root) ==> if x.mantissa() == 0 {
            root == decimal_zero()
        } else {
            x.mantissa() > 0 && is_settled_root(x, root)
        },
{
    if x.mantissa() > 0 {
        if let Some(start) = root_start(x) {
            lemma_rounds_settle(x, start, ROOT_ROUNDS as nat);
        }
    }
}

/// The absolute value of a decimal number is the number without its sign,
/// under either unit of angles.
pub proof fn lemma_absolute_value(
    operand: Decimal,
    angle: AngleRepresentation,
    result: Result<Decimal, CalculationError>,
)
    ensures
        UnaryOperation::Abs.outcome(angle, operand, result) <==> result == Ok::<
            Decimal,
            CalculationError,
        >(decimal_abs(operand)),
        decimal_abs(operand).mantissa() == if operand.mantissa() < 0 {
            (-operand.mantissa()) as i128
        } else {
            operand.mantissa()
        },
        decimal_abs(operand).scale() == operand.scale(),
{
    broadcast use Decimal::lemma_parts;

}

/// In decimal arithmetic every operation of two operands is a function, and
/// so is every operation of one operand that is not trigonometric.
pub proof fn lemma_arithmetic_determined(angle: AngleRepresentation)
    ensures
        BinaryOperation::Add.is_determined::<Decimal>(),
        BinaryOperation::Sub.is_determined::<Decimal>(),
        BinaryOperation::Mul.is_determined::<Decimal>(),
        BinaryOperation::Div.is_determined::<Decimal>(),
        BinaryOperation::Pow.is_determined::<Decimal>(),
        UnaryOperation::Abs.is_determined::<Decimal>(angle),
        UnaryOperation::Sqrt.is_determined::<Decimal>(angle),
{
}

/// In decimal arithmetic reading a numeral is a function.
pub proof fn lemma_parse_determined()
    ensures
        parse_is_determined::<Decimal>(),
{
}

/// Whether the expression holds no trigonometric operation.
pub open spec fn is_free_of_trigonometry(expression: Expression<Decimal>) -> bool
    decreases expression,
{
    match expression {
        Expression::Literal(_) => true,
        Expression::Unary(unary) => !unary.operation.is_trigonometric()
            && is_free_of_trigonometry(*unary.lhs),
        Expression::Binary(binary) => is_free_of_trigonometry(*binary.lhs)
            && is_free_of_trigonometry(*binary.rhs),
    }
}

/// In decimal arithmetic every operation of an expression without
/// trigonometric operations is a function, so evaluating such an expression
/// twice gives the same result.  The trigonometric functions are computed in
/// machine floating point, of which nothing is stated: `sin(1)` is an
/// expression that this does not speak of.
pub proof fn lemma_decimal_evaluation_determined(
    expression: Expression<Decimal>,
    angle: AngleRepresentation,
    first: Result<Decimal, CalculationError>,
    second: Result<Decimal, CalculationError>,
)
    requires
        is_free_of_trigonometry(expression),
        expression_yields(expression, angle, first),
        expression_yields(expression, angle, second),
    ensures
        first == second,
{
    lemma_trigonometry_free_determined(expression, angle);
    lemma_evaluation_determined(expression, angle, first, second);
}

/// In decimal arithmetic every operation of an expression without
/// trigonometric operations is a function.
pub proof fn lemma_trigonometry_free_determined(
    expression: Expression<Decimal>,
    angle: AngleRepresentation,
)
    requires
        is_free_of_trigonometry(expression),
    ensures
        is_determined(expression, angle),
    decreases expression,
{
    lemma_arithmetic_determined(angle);
    match expression {
        Expression::Literal(_) => {},
        Expression::Unary(unary) => {
            lemma_trigonometry_free_determined(*unary.lhs, angle);
        },
        Expression::Binary(binary) => {
            lemma_trigonometry_free_determined(*binary.lhs, angle);
            lemma_trigonometry_free_determined(*binary.rhs, angle);
        },
    }
}

} // verus!
