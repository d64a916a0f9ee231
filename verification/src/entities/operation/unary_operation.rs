use vstd::prelude::*;

use crate::entities::literal::Literal;
use crate::parser::{Parse, ParseNode, ParseTree, Rule, lemma_view_children};
use crate::{settle, AngleRepresentation, CalculationError, CalculatorState};

verus! {

/// The functions of one operand.
#[derive(Clone, Copy, Debug)]
pub enum UnaryOperation {
    Abs,
    Sqrt,
    Sin,
    Cos,
    Tg,
    Ctg,
}

impl UnaryOperation {
    /// Whether the operation reads its operand as an angle.
    pub open spec fn is_trigonometric(self) -> bool {
        match self {
            UnaryOperation::Sin | UnaryOperation::Cos | UnaryOperation::Tg | UnaryOperation::Ctg => true,
            UnaryOperation::Abs | UnaryOperation::Sqrt => false,
        }
    }

    /// Whether the function itself may return `value` for `argument`.
    pub open spec fn function_outcome<T: Literal>(self, argument: T, value: Option<T>) -> bool {
        match self {
            UnaryOperation::Abs => argument.abs_outcome(value),
            UnaryOperation::Sqrt => argument.sqrt_outcome(value),
            UnaryOperation::Sin => argument.sin_outcome(value),
            UnaryOperation::Cos => argument.cos_outcome(value),
            UnaryOperation::Tg => argument.tg_outcome(value),
            UnaryOperation::Ctg => argument.ctg_outcome(value),
        }
    }

    /// Whether taking the function of `argument` may give `result`: a value
    /// that the function may return, or [`CalculationError::Domain`] where
    /// it may return none.
    pub open spec fn function_result<T: Literal>(
        self,
        argument: T,
        result: Result<T, CalculationError>,
    ) -> bool {
        match result {
            Ok(value) => self.function_outcome(argument, Some(value)),
            Err(error) => error == CalculationError::Domain && self.function_outcome(
                argument,
                None,
            ),
        }
    }

    /// Whether applying the operation to `operand` may give `result`.
    ///
    /// Where angles are given in degrees, a trigonometric operation converts
    /// its operand to radians and takes the function of what the conversion
    /// returned; a conversion without a result gives
    /// [`CalculationError::Domain`].  In every other case the function is
    /// taken of the operand as it is.
    pub open spec fn outcome<T: Literal>(
        self,
        angle: AngleRepresentation,
        operand: T,
        result: Result<T, CalculationError>,
    ) -> bool {
        if self.is_trigonometric() && angle == AngleRepresentation::Degree {
            exists|radians: Option<T>| #[trigger]
                operand.to_radians_outcome(radians) && match radians {
                    None => result == Err::<T, CalculationError>(CalculationError::Domain),
                    Some(argument) => self.function_result(argument, result),
                }
        } else {
            self.function_result(operand, result)
        }
    }

    /// Applies the operation to an operand that has been evaluated.
    ///
    /// Where angles are given in degrees, the operand of a trigonometric
    /// operation is converted to radians, once, before the function is taken.
    /// `Abs` and `Sqrt` take the operand as it is under either unit.
    pub fn apply<T: Literal, S>(&self, operand: &T, state: &CalculatorState<S>) -> (result: Result<
        T,
        CalculationError,
    >)
        ensures
            self.outcome(state.angle(), *operand, result),
    {
        let ghost given = *operand;
        let mut operand = *operand;

        if let AngleRepresentation::Degree = state.angle_representation() {
            match self {
                UnaryOperation::Sin
                | UnaryOperation::Cos
                | UnaryOperation::Tg
                | UnaryOperation::Ctg => {
                    let radians = operand.to_radians();
                    proof {
                        assert(given.to_radians_outcome(radians));
                    }
                    match radians {
                        Some(radians) => {
                            operand = radians;
                        },
                        None => {
                            return Err(CalculationError::Domain);
                        },
                    }
                },
                _ => {},
            }
        }
        let value = match self {
            UnaryOperation::Abs => operand.abs(),
            UnaryOperation::Sqrt => operand.sqrt(),
            UnaryOperation::Sin => operand.sin(),
            UnaryOperation::Cos => operand.cos(),
            UnaryOperation::Tg => operand.tg(),
            UnaryOperation::Ctg => operand.ctg(),
        };
        settle(value)
    }

    /// The operation that a rule names, if it names one.
    pub open spec fn of_rule(rule: Rule) -> Option<UnaryOperation> {
        match rule {
            Rule::abs => Some(UnaryOperation::Abs),
            Rule::sqrt => Some(UnaryOperation::Sqrt),
            Rule::sin => Some(UnaryOperation::Sin),
            Rule::cos => Some(UnaryOperation::Cos),
            Rule::tg => Some(UnaryOperation::Tg),
            Rule::ctg => Some(UnaryOperation::Ctg),
            _ => None,
        }
    }
}

impl UnaryOperation {
    /// The operation that a tree stands for: a `unary_op` node whose first
    /// child names an operation gives that operation; every other tree is
    /// refused.
    pub open spec fn of_tree(tree: ParseTree) -> Result<UnaryOperation, CalculationError> {
        if tree.rule == Rule::unary_op && tree.children.len() > 0 {
            match UnaryOperation::of_rule(tree.children[0].rule) {
                Some(operation) => Ok(operation),
                None => Err(CalculationError::InternalInvariant),
            }
        } else {
            Err(CalculationError::InternalInvariant)
        }
    }
}

impl UnaryOperation {
    /// Whether the operation is a function in the representation `T` under
    /// the given unit of angles: the function itself returns one thing only
    /// for each argument, and so does the conversion to radians where the
    /// operation makes use of it.
    pub open spec fn is_determined<T: Literal>(self, angle: AngleRepresentation) -> bool {
        &&& forall|argument: T, first: Option<T>, second: Option<T>|
            #![trigger self.function_outcome(argument, first), self.function_outcome(argument, second)]
            self.function_outcome(argument, first) && self.function_outcome(argument, second)
                ==> first == second
        &&& self.is_trigonometric() && angle == AngleRepresentation::Degree ==> forall|
            operand: T,
            first: Option<T>,
            second: Option<T>,
        |
            #![trigger operand.to_radians_outcome(first), operand.to_radians_outcome(second)]
            operand.to_radians_outcome(first) && operand.to_radians_outcome(second) ==> first
                == second
    }

    /// The unit of angles makes no difference to an operation that is not
    /// trigonometric: `Abs` and `Sqrt` give under one unit what they give
    /// under the other.
    pub proof fn lemma_angle_irrelevant<T: Literal>(
        self,
        one: AngleRepresentation,
        other: AngleRepresentation,
        operand: T,
        result: Result<T, CalculationError>,
    )
        requires
            !self.is_trigonometric(),
        ensures
            self.outcome(one, operand, result) == self.outcome(other, operand, result),
            self.outcome(one, operand, result) == self.function_result(operand, result),
    {
    }

    /// With angles in radians, every operation takes the function of the
    /// operand as it is: nothing is converted.
    pub proof fn lemma_radians_unconverted<T: Literal>(
        self,
        operand: T,
        result: Result<T, CalculationError>,
    )
        ensures
            self.outcome(AngleRepresentation::Radian, operand, result) == self.function_result(
                operand,
                result,
            ),
    {
    }

    /// With angles in degrees, a trigonometric operation takes the function
    /// of what the conversion to radians returned for the operand.
    pub proof fn lemma_degrees_converted<T: Literal>(
        self,
        operand: T,
        radians: T,
        result: Result<T, CalculationError>,
    )
        requires
            self.is_trigonometric(),
            operand.to_radians_outcome(Some(radians)),
            self.function_result(radians, result),
        ensures
            self.outcome(AngleRepresentation::Degree, operand, result),
    {
    }

    /// An operation that is a function in the representation has one result
    /// only for each operand.
    pub proof fn lemma_determined<T: Literal>(
        self,
        angle: AngleRepresentation,
        operand: T,
        first: Result<T, CalculationError>,
        second: Result<T, CalculationError>,
    )
        requires
            self.is_determined::<T>(angle),
            self.outcome(angle, operand, first),
            self.outcome(angle, operand, second),
        ensures
            first == second,
    {
        if self.is_trigonometric() && angle == AngleRepresentation::Degree {
            let one = choose|radians: Option<T>| #[trigger]
                operand.to_radians_outcome(radians) && match radians {
                    None => first == Err::<T, CalculationError>(CalculationError::Domain),
                    Some(argument) => self.function_result(argument, first),
                };
            let other = choose|radians: Option<T>| #[trigger]
                operand.to_radians_outcome(radians) && match radians {
                    None => second == Err::<T, CalculationError>(CalculationError::Domain),
                    Some(argument) => self.function_result(argument, second),
                };
            assert(one == other);
            match one {
                None => {},
                Some(argument) => {
                    self.lemma_function_determined(angle, argument, first, second);
                },
            }
        } else {
            self.lemma_function_determined(angle, operand, first, second);
        }
    }

    /// The function of an operation that is a function in the representation
    /// has one result only for each argument.
    pub proof fn lemma_function_determined<T: Literal>(
        self,
        angle: AngleRepresentation,
        argument: T,
        first: Result<T, CalculationError>,
        second: Result<T, CalculationError>,
    )
        requires
            self.is_determined::<T>(angle),
            self.function_result(argument, first),
            self.function_result(argument, second),
        ensures
            first == second,
    {
        let one: Option<T> = match first {
            Ok(value) => Some(value),
            Err(_) => None,
        };
        let other: Option<T> = match second {
            Ok(value) => Some(value),
            Err(_) => None,
        };
        assert(self.function_outcome(argument, one));
        assert(self.function_outcome(argument, other));
    }
}

impl Parse for UnaryOperation {
    open spec fn parses(tree: ParseTree, built: Result<Self, CalculationError>) -> bool {
        built == UnaryOperation::of_tree(tree)
    }

    fn parse(node: &ParseNode) -> (built: Result<Self, CalculationError>) {
        proof {
            lemma_view_children(*node);
        }
        match node.rule {
            Rule::unary_op => {
                if node.children.len() == 0 {
                    return Err(CalculationError::InternalInvariant);
                }
                let inner = &node.children[0];
                proof {
                    lemma_view_children(*inner);
                }
                match inner.rule {
                    Rule::abs => Ok(Self::Abs),
                    Rule::sqrt => Ok(Self::Sqrt),
                    Rule::sin => Ok(Self::Sin),
                    Rule::cos => Ok(Self::Cos),
                    Rule::tg => Ok(Self::Tg),
                    Rule::ctg => Ok(Self::Ctg),
                    _ => Err(CalculationError::InternalInvariant),
                }
            },
            _ => Err(CalculationError::InternalInvariant),
        }
    }
}

} // verus!
