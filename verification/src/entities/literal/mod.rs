use vstd::prelude::*;

pub mod decimal;

verus! {

/// A numeric representation that can back an expression tree.
///
/// Every operation returns `None` where the representation has no result
/// (a division by zero or an overflow in a representation without
/// infinities, a root of a negative number).
///
/// Each operation comes with a relation between its operands and what it
/// may return.  A representation states in it what it knows of the
/// operation: one whose result is a function of the operands gives that
/// function, one that computes through machine floating point, whose
/// results may differ between platforms, leaves the relation wide.  A
/// representation that states nothing leaves every relation at `true`.
pub trait Literal: Copy + Sized {
    /// Whether `parse` may return `value` for a numeral.
    open spec fn parse_outcome(repr: Seq<char>, value: Option<Self>) -> bool {
        true
    }

    /// Reads a numeral, already isolated by the grammar.
    fn parse(repr: &str) -> (value: Option<Self>)
        ensures
            Self::parse_outcome(repr@, value),
    ;

    /// Whether `abs` may return `value` for `self`.
    open spec fn abs_outcome(self, value: Option<Self>) -> bool {
        true
    }

    fn abs(&self) -> (value: Option<Self>)
        ensures
            self.abs_outcome(value),
    ;

    /// Whether `sqrt` may return `value` for `self`.
    open spec fn sqrt_outcome(self, value: Option<Self>) -> bool {
        true
    }

    fn sqrt(&self) -> (value: Option<Self>)
        ensures
            self.sqrt_outcome(value),
    ;

    /// Whether `sin` may return `value` for `self`, an angle in radians.
    open spec fn sin_outcome(self, value: Option<Self>) -> bool {
        true
    }

    fn sin(&self) -> (value: Option<Self>)
        ensures
            self.sin_outcome(value),
    ;

    /// Whether `cos` may return `value` for `self`, an angle in radians.
    open spec fn cos_outcome(self, value: Option<Self>) -> bool {
        true
    }

    fn cos(&self) -> (value: Option<Self>)
        ensures
            self.cos_outcome(value),
    ;

    /// Whether `tg` may return `value` for `self`, an angle in radians.
    open spec fn tg_outcome(self, value: Option<Self>) -> bool {
        true
    }

    /// The tangent.
    fn tg(&self) -> (value: Option<Self>)
        ensures
            self.tg_outcome(value),
    ;

    /// Whether `ctg` may return `value` for `self`, an angle in radians.
    open spec fn ctg_outcome(self, value: Option<Self>) -> bool {
        true
    }

    /// The cotangent.
    fn ctg(&self) -> (value: Option<Self>)
        ensures
            self.ctg_outcome(value),
    ;

    /// Whether `add` may return `value` for `self` and `rhs`.
    open spec fn add_outcome(self, rhs: Self, value: Option<Self>) -> bool {
        true
    }

    fn add(&self, rhs: &Self) -> (value: Option<Self>)
        ensures
            self.add_outcome(*rhs, value),
    ;

    /// Whether `sub` may return `value` for `self` and `rhs`.
    open spec fn sub_outcome(self, rhs: Self, value: Option<Self>) -> bool {
        true
    }

    fn sub(&self, rhs: &Self) -> (value: Option<Self>)
        ensures
            self.sub_outcome(*rhs, value),
    ;

    /// Whether `mul` may return `value` for `self` and `rhs`.
    open spec fn mul_outcome(self, rhs: Self, value: Option<Self>) -> bool {
        true
    }

    fn mul(&self, rhs: &Self) -> (value: Option<Self>)
        ensures
            self.mul_outcome(*rhs, value),
    ;

    /// Whether `div` may return `value` for `self` and `rhs`.
    open spec fn div_outcome(self, rhs: Self, value: Option<Self>) -> bool {
        true
    }

    fn div(&self, rhs: &Self) -> (value: Option<Self>)
        ensures
            self.div_outcome(*rhs, value),
    ;

    /// Whether `pow` may return `value` for the base `self` and the exponent `rhs`.
    open spec fn pow_outcome(self, rhs: Self, value: Option<Self>) -> bool {
        true
    }

    fn pow(&self, rhs: &Self) -> (value: Option<Self>)
        ensures
            self.pow_outcome(*rhs, value),
    ;

    /// Whether `to_radians` may return `value` for `self`, an angle in degrees.
    open spec fn to_radians_outcome(self, value: Option<Self>) -> bool {
        true
    }

    /// Converts an angle in degrees to radians.
    fn to_radians(&self) -> (value: Option<Self>)
        ensures
            self.to_radians_outcome(value),
    ;
}

/// Whether reading a numeral is a function in the representation `T`: it
/// returns one thing only for each numeral.
pub open spec fn parse_is_determined<T: Literal>() -> bool {
    forall|repr: Seq<char>, first: Option<T>, second: Option<T>|
        #![trigger T::parse_outcome(repr, first), T::parse_outcome(repr, second)]
        T::parse_outcome(repr, first) && T::parse_outcome(repr, second) ==> first == second
}

} // verus!
