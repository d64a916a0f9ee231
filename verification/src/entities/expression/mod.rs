use vstd::prelude::*;

use crate::entities::literal::Literal;
use crate::entities::operation::binary_operation::BinaryOperation;
use crate::entities::operation::unary_operation::UnaryOperation;
use crate::parser::{Parse, ParseNode, ParseTree, Rule, lemma_view_children};
use crate::{AngleRepresentation, CalculationError, CalculatorState};

pub mod facts;

verus! {

/// A value that can be evaluated over the numeric representation `T`.
pub trait Evaluate<T: Literal> {
    /// Whether an evaluation under the given unit of angles may give `result`.
    spec fn yields(&self, angle: AngleRepresentation, result: Result<T, CalculationError>) -> bool;

    /// Evaluates against a state, which is read and not changed.
    fn evaluate<S>(&self, state: &CalculatorState<S>) -> (result: Result<T, CalculationError>)
        ensures
            self.yields(state.angle(), result),
    ;
}

/// The application of a function of one operand.
#[derive(Debug)]
pub struct UnaryExpression<T: Literal> {
    pub lhs: Box<Expression<T>>,
    pub operation: UnaryOperation,
}

/// The application of a function of two operands.
#[derive(Debug)]
pub struct BinaryExpression<T: Literal> {
    pub lhs: Box<Expression<T>>,
    pub rhs: Box<Expression<T>>,
    pub operation: BinaryOperation,
}

/// A number.
#[derive(Clone, Debug)]
pub struct LiteralExpression<T: Literal> {
    pub value: T,
}

/// An expression: a tree whose leaves are numbers and whose inner nodes
/// apply a function to the values of their children.
///
/// Each node owns its children, and a tree is not changed once it is built:
/// it may be evaluated any number of times.  Building and evaluating call
/// themselves as deep as the expression nests, so the depth of nesting that
/// can be handled is bounded by the stack.
#[derive(Debug)]
pub enum Expression<T: Literal> {
    Literal(LiteralExpression<T>),
    Unary(UnaryExpression<T>),
    Binary(BinaryExpression<T>),
}

impl<T: Literal> Clone for Expression<T> {
    /// The same expression, in nodes of its own.
    fn clone(&self) -> (copy: Self)
        ensures
            copy == *self,
        decreases self,
    {
        match self {
            Expression::Literal(literal) => Expression::Literal(
                LiteralExpression { value: literal.value },
            ),
            Expression::Unary(unary) => Expression::Unary(
                UnaryExpression {
                    lhs: Box::new((*unary.lhs).clone()),
                    operation: unary.operation,
                },
            ),
            Expression::Binary(binary) => Expression::Binary(
                BinaryExpression {
                    lhs: Box::new((*binary.lhs).clone()),
                    rhs: Box::new((*binary.rhs).clone()),
                    operation: binary.operation,
                },
            ),
        }
    }
}

impl<T: Literal> Clone for UnaryExpression<T> {
    /// The same application, in nodes of its own.
    fn clone(&self) -> (copy: Self)
        ensures
            copy == *self,
    {
        UnaryExpression { lhs: Box::new((*self.lhs).clone()), operation: self.operation }
    }
}

impl<T: Literal> Clone for BinaryExpression<T> {
    /// The same application, in nodes of its own.
    fn clone(&self) -> (copy: Self)
        ensures
            copy == *self,
    {
        BinaryExpression {
            lhs: Box::new((*self.lhs).clone()),
            rhs: Box::new((*self.rhs).clone()),
            operation: self.operation,
        }
    }
}

/// Holds of every value.  It marks the result of a sub-expression where one
/// is said to exist, so that a proof can name the result it has in hand.
pub open spec fn intermediate<T: Literal>(result: Result<T, CalculationError>) -> bool {
    true
}

/// Whether the application may give `result`: the operand is evaluated, its
/// error is the application's error, and its value goes to the operation.
pub open spec fn unary_yields<T: Literal>(
    expression: UnaryExpression<T>,
    angle: AngleRepresentation,
    result: Result<T, CalculationError>,
) -> bool
    decreases expression,
{
    exists|operand: Result<T, CalculationError>|
        #![trigger intermediate(operand)]
        intermediate(operand) && expression_yields(*expression.lhs, angle, operand) && match operand {
            Err(error) => result == Err::<T, CalculationError>(error),
            Ok(value) => expression.operation.outcome(angle, value, result),
        }
}

/// Whether the application may give `result`: the left operand is evaluated
/// first and its error is the application's error; then the right operand,
/// likewise; then the two values go to the operation.
pub open spec fn binary_yields<T: Literal>(
    expression: BinaryExpression<T>,
    angle: AngleRepresentation,
    result: Result<T, CalculationError>,
) -> bool
    decreases expression,
{
    exists|lhs: Result<T, CalculationError>|
        #![trigger intermediate(lhs)]
        intermediate(lhs) && expression_yields(*expression.lhs, angle, lhs) && match lhs {
            Err(error) => result == Err::<T, CalculationError>(error),
            Ok(left) => exists|rhs: Result<T, CalculationError>|
                #![trigger intermediate(rhs)]
                intermediate(rhs) && expression_yields(*expression.rhs, angle, rhs) && match rhs {
                    Err(error) => result == Err::<T, CalculationError>(error),
                    Ok(right) => expression.operation.outcome(left, right, result),
                },
        }
}

/// Whether the expression may give `result`.  A number gives itself.
pub open spec fn expression_yields<T: Literal>(
    expression: Expression<T>,
    angle: AngleRepresentation,
    result: Result<T, CalculationError>,
) -> bool
    decreases expression,
{
    match expression {
        Expression::Literal(literal) => result == Ok::<T, CalculationError>(literal.value),
        Expression::Unary(unary) => unary_yields(unary, angle, result),
        Expression::Binary(binary) => binary_yields(binary, angle, result),
    }
}

impl<T: Literal> Evaluate<T> for UnaryExpression<T> {
    open spec fn yields(&self, angle: AngleRepresentation, result: Result<T, CalculationError>) -> bool {
        unary_yields(*self, angle, result)
    }

    fn evaluate<S>(&self, state: &CalculatorState<S>) -> (result: Result<T, CalculationError>)
        decreases self, 0int,
    {
        let operand = self.lhs.evaluate(state);
        let result = match operand {
            Err(error) => Err(error),
            Ok(value) => self.operation.apply(&value, state),
        };
        proof {
            assert(intermediate(operand));
        }
        result
    }
}

impl<T: Literal> Evaluate<T> for BinaryExpression<T> {
    open spec fn yields(&self, angle: AngleRepresentation, result: Result<T, CalculationError>) -> bool {
        binary_yields(*self, angle, result)
    }

    fn evaluate<S>(&self, state: &CalculatorState<S>) -> (result: Result<T, CalculationError>)
        decreases self, 0int,
    {
        let lhs = self.lhs.evaluate(state);
        proof {
            assert(intermediate(lhs));
        }
        match lhs {
            Err(error) => Err(error),
            Ok(left) => {
                let rhs = self.rhs.evaluate(state);
                proof {
                    assert(intermediate(rhs));
                }
                match rhs {
                    Err(error) => Err(error),
                    Ok(right) => self.operation.apply(&left, &right, state),
                }
            },
        }
    }
}

impl<T: Literal> Evaluate<T> for LiteralExpression<T> {
    open spec fn yields(&self, angle: AngleRepresentation, result: Result<T, CalculationError>) -> bool {
        result == Ok::<T, CalculationError>(self.value)
    }

    fn evaluate<S>(&self, _state: &CalculatorState<S>) -> (result: Result<T, CalculationError>) {
        Ok(self.value)
    }
}

impl<T: Literal> Evaluate<T> for Expression<T> {
    open spec fn yields(&self, angle: AngleRepresentation, result: Result<T, CalculationError>) -> bool {
        expression_yields(*self, angle, result)
    }

    fn evaluate<S>(&self, state: &CalculatorState<S>) -> (result: Result<T, CalculationError>)
        decreases self, 1int,
    {
        match self {
            Expression::Literal(expr) => expr.evaluate(state),
            Expression::Unary(expr) => expr.evaluate(state),
            Expression::Binary(expr) => expr.evaluate(state),
        }
    }
}

/// Whether `built` may be built from a `literal_expr` tree: its first child
/// holds the numeral, which the representation reads.  A numeral that it
/// does not read gives [`CalculationError::NumericParse`].
pub open spec fn builds_literal<T: Literal>(
    tree: ParseTree,
    built: Result<LiteralExpression<T>, CalculationError>,
) -> bool {
    if tree.children.len() > 0 {
        match built {
            Ok(literal) => T::parse_outcome(tree.children[0].text, Some(literal.value)),
            Err(error) => error == CalculationError::NumericParse && T::parse_outcome(
                tree.children[0].text,
                None,
            ),
        }
    } else {
        built == Err::<LiteralExpression<T>, CalculationError>(CalculationError::InternalInvariant)
    }
}

/// Whether `built` may be built from a `unary_expr` tree: its first child
/// holds the operation, its second the operand.  The operation is built
/// first, and the first error met is the result.
pub open spec fn builds_unary<T: Literal>(
    tree: ParseTree,
    built: Result<UnaryExpression<T>, CalculationError>,
) -> bool
    decreases tree, 0int,
{
    if tree.children.len() > 1 {
        match UnaryOperation::of_tree(tree.children[0]) {
            Err(error) => built == Err::<UnaryExpression<T>, CalculationError>(error),
            Ok(operation) => match built {
                Ok(unary) => unary.operation == operation && builds_expression(
                    tree.children[1],
                    Ok(*unary.lhs),
                ),
                Err(error) => builds_expression::<T>(tree.children[1], Err(error)),
            },
        }
    } else {
        built == Err::<UnaryExpression<T>, CalculationError>(CalculationError::InternalInvariant)
    }
}

/// Whether `built` may be built from a `binary_expr` tree: its first child
/// holds the operation, the next two the operands.  The operation is built
/// first, then the left operand, then the right one, and the first error met
/// is the result.
pub open spec fn builds_binary<T: Literal>(
    tree: ParseTree,
    built: Result<BinaryExpression<T>, CalculationError>,
) -> bool
    decreases tree, 0int,
{
    if tree.children.len() > 2 {
        match BinaryOperation::of_tree(tree.children[0]) {
            Err(error) => built == Err::<BinaryExpression<T>, CalculationError>(error),
            Ok(operation) => match built {
                Ok(binary) => binary.operation == operation && builds_expression(
                    tree.children[1],
                    Ok(*binary.lhs),
                ) && builds_expression(tree.children[2], Ok(*binary.rhs)),
                Err(error) => builds_expression::<T>(tree.children[1], Err(error)) || {
                    &&& exists|lhs: Expression<T>|
                        #![trigger built_before(lhs)]
                        built_before(lhs) && builds_expression(tree.children[1], Ok(lhs))
                    &&& builds_expression::<T>(tree.children[2], Err(error))
                },
            },
        }
    } else {
        built == Err::<BinaryExpression<T>, CalculationError>(CalculationError::InternalInvariant)
    }
}

/// Holds of every expression.  It marks the left operand where one is said
/// to have been built before the right one failed, so that a proof can name
/// the operand it has in hand.
pub open spec fn built_before<T: Literal>(expression: Expression<T>) -> bool {
    true
}

/// Whether `built` may be built from a parse tree.  The tree of a number, of
/// an application of one operand or of an application of two operands gives
/// the node of that kind; a tree of any other rule is refused with
/// [`CalculationError::InternalInvariant`].
pub open spec fn builds_expression<T: Literal>(
    tree: ParseTree,
    built: Result<Expression<T>, CalculationError>,
) -> bool
    decreases tree, 1int,
{
    match tree.rule {
        Rule::literal_expr => match built {
            Ok(Expression::Literal(literal)) => builds_literal(tree, Ok(literal)),
            Ok(_) => false,
            Err(error) => builds_literal::<T>(tree, Err(error)),
        },
        Rule::unary_expr => match built {
            Ok(Expression::Unary(unary)) => builds_unary(tree, Ok(unary)),
            Ok(_) => false,
            Err(error) => builds_unary::<T>(tree, Err(error)),
        },
        Rule::binary_expr => match built {
            Ok(Expression::Binary(binary)) => builds_binary(tree, Ok(binary)),
            Ok(_) => false,
            Err(error) => builds_binary::<T>(tree, Err(error)),
        },
        _ => built == Err::<Expression<T>, CalculationError>(CalculationError::InternalInvariant),
    }
}

impl<T: Literal> Parse for UnaryExpression<T> {
    open spec fn parses(tree: ParseTree, built: Result<Self, CalculationError>) -> bool {
        builds_unary(tree, built)
    }

    fn parse(node: &ParseNode) -> (built: Result<Self, CalculationError>)
        decreases node, 0int,
    {
        proof {
            lemma_view_children(*node);
        }
        if node.children.len() < 2 {
            return Err(CalculationError::InternalInvariant);
        }
        let operation = match UnaryOperation::parse(&node.children[0]) {
            Err(error) => {
                return Err(error);
            },
            Ok(operation) => operation,
        };
        let lhs = match Expression::parse(&node.children[1]) {
            Err(error) => {
                return Err(error);
            },
            Ok(lhs) => lhs,
        };

        Ok(Self { lhs: Box::new(lhs), operation })
    }
}

impl<T: Literal> Parse for BinaryExpression<T> {
    open spec fn parses(tree: ParseTree, built: Result<Self, CalculationError>) -> bool {
        builds_binary(tree, built)
    }

    fn parse(node: &ParseNode) -> (built: Result<Self, CalculationError>)
        decreases node, 0int,
    {
        proof {
            lemma_view_children(*node);
        }
        if node.children.len() < 3 {
            return Err(CalculationError::InternalInvariant);
        }
        let operation = match BinaryOperation::parse(&node.children[0]) {
            Err(error) => {
                return Err(error);
            },
            Ok(operation) => operation,
        };
        let lhs = match Expression::parse(&node.children[1]) {
            Err(error) => {
                return Err(error);
            },
            Ok(lhs) => lhs,
        };
        proof {
            assert(built_before(lhs));
        }
        let rhs = match Expression::parse(&node.children[2]) {
            Err(error) => {
                return Err(error);
            },
            Ok(rhs) => rhs,
        };

        Ok(Self { operation, lhs: Box::new(lhs), rhs: Box::new(rhs) })
    }
}

impl<T: Literal> Parse for LiteralExpression<T> {
    open spec fn parses(tree: ParseTree, built: Result<Self, CalculationError>) -> bool {
        builds_literal(tree, built)
    }

    fn parse(node: &ParseNode) -> (built: Result<Self, CalculationError>) {
        proof {
            lemma_view_children(*node);
        }
        if node.children.len() == 0 {
            return Err(CalculationError::InternalInvariant);
        }
        proof {
            lemma_view_children(node.children@[0]);
        }
        match T::parse(node.children[0].text.as_str()) {
            Some(value) => Ok(Self { value }),
            None => Err(CalculationError::NumericParse),
        }
    }
}

impl<T: Literal> Parse for Expression<T> {
    open spec fn parses(tree: ParseTree, built: Result<Self, CalculationError>) -> bool {
        builds_expression(tree, built)
    }

    fn parse(node: &ParseNode) -> (built: Result<Self, CalculationError>)
        decreases node, 1int,
    {
        proof {
            lemma_view_children(*node);
        }
        match node.rule {
            Rule::literal_expr => match LiteralExpression::parse(node) {
                Err(error) => Err(error),
                Ok(literal) => Ok(Self::Literal(literal)),
            },
            Rule::unary_expr => match UnaryExpression::parse(node) {
                Err(error) => Err(error),
                Ok(unary) => Ok(Self::Unary(unary)),
            },
            Rule::binary_expr => match BinaryExpression::parse(node) {
                Err(error) => Err(error),
                Ok(binary) => Ok(Self::Binary(binary)),
            },
            _ => Err(CalculationError::InternalInvariant),
        }
    }
}

} // verus!
