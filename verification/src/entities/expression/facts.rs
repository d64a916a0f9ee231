//! What holds of building and evaluating expressions.
use vstd::prelude::*;

use crate::entities::expression::{
    binary_yields, builds_binary, builds_expression, builds_unary, built_before,
    expression_yields, intermediate, unary_yields, BinaryExpression, Expression,
    LiteralExpression, UnaryExpression,
};
use crate::entities::literal::{parse_is_determined, Literal};
use crate::entities::operation::binary_operation::BinaryOperation;
use crate::entities::operation::unary_operation::UnaryOperation;
use crate::parser::context::{numeral_tree, operator_tree};
use crate::parser::grammar::is_expression_tree;
use crate::parser::{ParseTree, Rule};
use crate::{AngleRepresentation, CalculationError};

verus! {

/// The application of an operation to one expression.
pub open spec fn function_of<T: Literal>(operation: UnaryOperation, operand: Expression<T>) -> Expression<
    T,
> {
    Expression::Unary(UnaryExpression { lhs: Box::new(operand), operation })
}

/// The application of an operation to two expressions.
pub open spec fn application_of<T: Literal>(
    operation: BinaryOperation,
    lhs: Expression<T>,
    rhs: Expression<T>,
) -> Expression<T> {
    Expression::Binary(BinaryExpression { lhs: Box::new(lhs), rhs: Box::new(rhs), operation })
}

/// From a tree that holds an operation of one operand and the tree of an
/// operand, the application of the operation is built to what is built from
/// the operand's tree.
pub proof fn lemma_builds_function<T: Literal>(
    tree: ParseTree,
    name: Rule,
    operation: UnaryOperation,
    operand: ParseTree,
    built: Expression<T>,
)
    requires
        UnaryOperation::of_rule(name) == Some(operation),
        tree.rule == Rule::unary_expr,
        tree.children == seq![operator_tree(Rule::unary_op, name), operand],
        builds_expression(operand, Ok(built)),
    ensures
        builds_expression(tree, Ok(function_of(operation, built))),
{
    assert(tree.children.len() == 2);
    assert(tree.children[0] == operator_tree(Rule::unary_op, name));
    assert(tree.children[1] == operand);
    assert(operator_tree(Rule::unary_op, name).children[0].rule == name);
    assert(UnaryOperation::of_tree(tree.children[0]) == Ok::<UnaryOperation, CalculationError>(
        operation,
    ));
    let unary = UnaryExpression { lhs: Box::new(built), operation };
    assert(builds_unary(tree, Ok(unary)));
}

/// From a tree that holds an operation of two operands and the trees of two
/// operands, the application of the operation is built to what is built
/// from the operands' trees.
pub proof fn lemma_builds_application<T: Literal>(
    tree: ParseTree,
    name: Rule,
    operation: BinaryOperation,
    left: ParseTree,
    right: ParseTree,
    built_left: Expression<T>,
    built_right: Expression<T>,
)
    requires
        BinaryOperation::of_rule(name) == Some(operation),
        tree.rule == Rule::binary_expr,
        tree.children == seq![operator_tree(Rule::binary_op, name), left, right],
        builds_expression(left, Ok(built_left)),
        builds_expression(right, Ok(built_right)),
    ensures
        builds_expression(tree, Ok(application_of(operation, built_left, built_right))),
{
    assert(tree.children.len() == 3);
    assert(tree.children[0] == operator_tree(Rule::binary_op, name));
    assert(tree.children[1] == left);
    assert(tree.children[2] == right);
    assert(operator_tree(Rule::binary_op, name).children[0].rule == name);
    assert(BinaryOperation::of_tree(tree.children[0]) == Ok::<BinaryOperation, CalculationError>(
        operation,
    ));
    let binary = BinaryExpression {
        lhs: Box::new(built_left),
        rhs: Box::new(built_right),
        operation,
    };
    assert(builds_binary(tree, Ok(binary)));
}

/// The application of an operation to two numbers.
pub open spec fn application_of_numbers<T: Literal>(
    operation: BinaryOperation,
    lhs: T,
    rhs: T,
) -> Expression<T> {
    Expression::Binary(
        BinaryExpression {
            lhs: Box::new(Expression::Literal(LiteralExpression { value: lhs })),
            rhs: Box::new(Expression::Literal(LiteralExpression { value: rhs })),
            operation,
        },
    )
}

/// What is built from the tree of a numeral: the number that the
/// representation reads, or [`CalculationError::NumericParse`] where it
/// reads none.
pub proof fn lemma_builds_number<T: Literal>(
    text: Seq<char>,
    built: Result<Expression<T>, CalculationError>,
)
    ensures
        builds_expression(numeral_tree(text), built) == match built {
            Ok(Expression::Literal(literal)) => T::parse_outcome(text, Some(literal.value)),
            Ok(_) => false,
            Err(error) => error == CalculationError::NumericParse && T::parse_outcome(text, None),
        },
{
    let tree = numeral_tree(text);
    assert(tree.children.len() == 1);
    assert(tree.children[0].text == text);
}

/// What is built from the tree of an operation applied to two numerals:
/// the application of the operation to the numbers read, or
/// [`CalculationError::NumericParse`] where the left numeral is not read, or
/// the left one is and the right one is not.
pub proof fn lemma_builds_application_of_numerals<T: Literal>(
    tree: ParseTree,
    name: Rule,
    operation: BinaryOperation,
    left: Seq<char>,
    right: Seq<char>,
    built: Result<Expression<T>, CalculationError>,
)
    requires
        BinaryOperation::of_rule(name) == Some(operation),
        tree.rule == Rule::binary_expr,
        tree.children == seq![
            operator_tree(Rule::binary_op, name),
            numeral_tree(left),
            numeral_tree(right),
        ],
    ensures
        builds_expression(tree, built) == match built {
            Ok(expression) => exists|a: T, b: T|
                #![trigger application_of_numbers(operation, a, b)]
                expression == application_of_numbers(operation, a, b) && T::parse_outcome(
                    left,
                    Some(a),
                ) && T::parse_outcome(right, Some(b)),
            Err(error) => error == CalculationError::NumericParse && (T::parse_outcome(left, None)
                || (exists|a: T| #[trigger] T::parse_outcome(left, Some(a))) && T::parse_outcome(
                right,
                None,
            )),
        },
{
    assert(tree.children.len() == 3);
    assert(tree.children[0] == operator_tree(Rule::binary_op, name));
    assert(tree.children[1] == numeral_tree(left));
    assert(tree.children[2] == numeral_tree(right));
    assert(operator_tree(Rule::binary_op, name).children[0].rule == name);
    assert(BinaryOperation::of_tree(tree.children[0]) == Ok::<BinaryOperation, CalculationError>(
        operation,
    ));
    match built {
        Ok(Expression::Binary(binary)) => {
            lemma_builds_number::<T>(left, Ok(*binary.lhs));
            lemma_builds_number::<T>(right, Ok(*binary.rhs));
            if builds_expression(tree, built) {
                assert(builds_binary(tree, Ok(binary)));
                let a = binary.lhs->Literal_0.value;
                let b = binary.rhs->Literal_0.value;
                assert(*binary.lhs == Expression::Literal(LiteralExpression { value: a }));
                assert(*binary.rhs == Expression::Literal(LiteralExpression { value: b }));
                assert(Expression::Binary(binary) == application_of_numbers(operation, a, b));
            }
            if exists|a: T, b: T|
                #![trigger application_of_numbers(operation, a, b)]
                Expression::Binary(binary) == application_of_numbers(operation, a, b)
                    && T::parse_outcome(left, Some(a)) && T::parse_outcome(right, Some(b)) {
                assert(builds_binary(tree, Ok(binary)));
            }
        },
        Ok(_) => {},
        Err(error) => {
            lemma_builds_number::<T>(left, Err(error));
            lemma_builds_number::<T>(right, Err(error));
            if builds_expression(tree, built) {
                assert(builds_binary::<T>(tree, Err(error)));
                if !builds_expression::<T>(numeral_tree(left), Err(error)) {
                    let lhs = choose|lhs: Expression<T>|
                        #![trigger built_before(lhs)]
                        built_before(lhs) && builds_expression(numeral_tree(left), Ok(lhs));
                    lemma_builds_number::<T>(left, Ok(lhs));
                    assert(T::parse_outcome(left, Some(lhs->Literal_0.value)));
                }
            }
            if error == CalculationError::NumericParse && (T::parse_outcome(left, None) || (exists|
                a: T,
            | #[trigger] T::parse_outcome(left, Some(a))) && T::parse_outcome(right, None)) {
                if !T::parse_outcome(left, None) {
                    let a = choose|a: T| #[trigger] T::parse_outcome(left, Some(a));
                    let lhs = Expression::Literal(LiteralExpression { value: a });
                    lemma_builds_number::<T>(left, Ok(lhs));
                    assert(built_before(lhs));
                }
                assert(builds_binary::<T>(tree, Err(error)));
            }
        },
    }
}

/// From a tree that has the shape of an expression, an expression is built
/// unless the representation does not read one of the numerals: the tree is
/// never refused for its shape.
pub proof fn lemma_expression_tree_builds<T: Literal>(
    tree: ParseTree,
    built: Result<Expression<T>, CalculationError>,
)
    requires
        is_expression_tree(tree),
        builds_expression(tree, built),
    ensures
        built matches Err(error) ==> error == CalculationError::NumericParse,
    decreases tree,
{
    if let Err(error) = built {
        match tree.rule {
            Rule::literal_expr => {},
            Rule::unary_expr => {
                let name = tree.children[0].children[0].rule;
                assert(UnaryOperation::of_rule(name) is Some);
                lemma_expression_tree_builds::<T>(tree.children[1], Err(error));
            },
            Rule::binary_expr => {
                let name = tree.children[0].children[0].rule;
                assert(BinaryOperation::of_rule(name) is Some);
                assert(builds_binary::<T>(tree, Err(error)));
                if builds_expression::<T>(tree.children[1], Err(error)) {
                    lemma_expression_tree_builds::<T>(tree.children[1], Err(error));
                } else {
                    lemma_expression_tree_builds::<T>(tree.children[2], Err(error));
                }
            },
            _ => {},
        }
    }
}

/// From one tree one thing only is built, where reading a numeral is a
/// function in the representation.
pub proof fn lemma_building_determined<T: Literal>(
    tree: ParseTree,
    first: Result<Expression<T>, CalculationError>,
    second: Result<Expression<T>, CalculationError>,
)
    requires
        parse_is_determined::<T>(),
        builds_expression(tree, first),
        builds_expression(tree, second),
    ensures
        first == second,
    decreases tree,
{
    match tree.rule {
        Rule::literal_expr => {
            if tree.children.len() > 0 {
                let text = tree.children[0].text;
                let one: Option<T> = match first {
                    Ok(expression) => Some(expression->Literal_0.value),
                    Err(_) => None,
                };
                let other: Option<T> = match second {
                    Ok(expression) => Some(expression->Literal_0.value),
                    Err(_) => None,
                };
                assert(T::parse_outcome(text, one));
                assert(T::parse_outcome(text, other));
            }
        },
        Rule::unary_expr => {
            if tree.children.len() > 1 {
                if let Ok(operation) = UnaryOperation::of_tree(tree.children[0]) {
                    let one: Result<Expression<T>, CalculationError> = match first {
                        Ok(expression) => Ok(*expression->Unary_0.lhs),
                        Err(error) => Err(error),
                    };
                    let other: Result<Expression<T>, CalculationError> = match second {
                        Ok(expression) => Ok(*expression->Unary_0.lhs),
                        Err(error) => Err(error),
                    };
                    lemma_building_determined(tree.children[1], one, other);
                }
            }
        },
        Rule::binary_expr => {
            if tree.children.len() > 2 {
                if let Ok(operation) = BinaryOperation::of_tree(tree.children[0]) {
                    let left_of_first = lemma_left_operand(tree, first);
                    let left_of_second = lemma_left_operand(tree, second);
                    lemma_building_determined(tree.children[1], left_of_first, left_of_second);
                    if left_of_first is Ok {
                        let one: Result<Expression<T>, CalculationError> = match first {
                            Ok(expression) => Ok(*expression->Binary_0.rhs),
                            Err(error) => Err(error),
                        };
                        let other: Result<Expression<T>, CalculationError> = match second {
                            Ok(expression) => Ok(*expression->Binary_0.rhs),
                            Err(error) => Err(error),
                        };
                        lemma_building_determined(tree.children[2], one, other);
                    }
                }
            }
        },
        _ => {},
    }
}

/// What was built from the left operand of a `binary_expr` tree on the way
/// to `built`: the left operand of the application built, or the error met
/// there, or an operand behind which the right one failed.
proof fn lemma_left_operand<T: Literal>(
    tree: ParseTree,
    built: Result<Expression<T>, CalculationError>,
) -> (left: Result<Expression<T>, CalculationError>)
    requires
        tree.rule == Rule::binary_expr,
        tree.children.len() > 2,
        BinaryOperation::of_tree(tree.children[0]) is Ok,
        builds_expression(tree, built),
    ensures
        builds_expression(tree.children[1], left),
        match built {
            Ok(expression) => expression is Binary && left == Ok::<
                Expression<T>,
                CalculationError,
            >(*expression->Binary_0.lhs) && builds_expression(
                tree.children[2],
                Ok(*expression->Binary_0.rhs),
            ) && expression->Binary_0.operation == BinaryOperation::of_tree(
                tree.children[0],
            )->Ok_0,
            Err(error) => left == Err::<Expression<T>, CalculationError>(error) || (left is Ok
                && builds_expression::<T>(tree.children[2], Err(error))),
        },
{
    match built {
        Ok(expression) => Ok(*expression->Binary_0.lhs),
        Err(error) => {
            assert(builds_binary::<T>(tree, Err(error)));
            if builds_expression::<T>(tree.children[1], Err(error)) {
                Err(error)
            } else {
                let lhs = choose|lhs: Expression<T>|
                    #![trigger built_before(lhs)]
                    built_before(lhs) && builds_expression(tree.children[1], Ok(lhs));
                Ok(lhs)
            }
        },
    }
}

/// The application of an operation to one number.
pub open spec fn function_of_number<T: Literal>(operation: UnaryOperation, operand: T) -> Expression<
    T,
> {
    Expression::Unary(
        UnaryExpression {
            lhs: Box::new(Expression::Literal(LiteralExpression { value: operand })),
            operation,
        },
    )
}

/// What is built from the tree of an operation applied to one numeral: the
/// application of the operation to the number read, or
/// [`CalculationError::NumericParse`] where the numeral is not read.
pub proof fn lemma_builds_function_of_numeral<T: Literal>(
    tree: ParseTree,
    name: Rule,
    operation: UnaryOperation,
    operand: Seq<char>,
    built: Result<Expression<T>, CalculationError>,
)
    requires
        UnaryOperation::of_rule(name) == Some(operation),
        tree.rule == Rule::unary_expr,
        tree.children == seq![operator_tree(Rule::unary_op, name), numeral_tree(operand)],
    ensures
        builds_expression(tree, built) == match built {
            Ok(expression) => exists|value: T|
                #![trigger function_of_number(operation, value)]
                expression == function_of_number(operation, value) && T::parse_outcome(
                    operand,
                    Some(value),
                ),
            Err(error) => error == CalculationError::NumericParse && T::parse_outcome(
                operand,
                None,
            ),
        },
{
    assert(tree.children.len() == 2);
    assert(tree.children[0] == operator_tree(Rule::unary_op, name));
    assert(tree.children[1] == numeral_tree(operand));
    assert(operator_tree(Rule::unary_op, name).children[0].rule == name);
    assert(UnaryOperation::of_tree(tree.children[0]) == Ok::<UnaryOperation, CalculationError>(
        operation,
    ));
    match built {
        Ok(Expression::Unary(unary)) => {
            lemma_builds_number::<T>(operand, Ok(*unary.lhs));
            if builds_expression(tree, built) {
                assert(builds_unary(tree, Ok(unary)));
                let value = unary.lhs->Literal_0.value;
                assert(*unary.lhs == Expression::Literal(LiteralExpression { value }));
                assert(Expression::Unary(unary) == function_of_number(operation, value));
            }
            if exists|value: T|
                #![trigger function_of_number(operation, value)]
                Expression::Unary(unary) == function_of_number(operation, value)
                    && T::parse_outcome(operand, Some(value)) {
                assert(builds_unary(tree, Ok(unary)));
            }
        },
        Ok(_) => {},
        Err(error) => {
            lemma_builds_number::<T>(operand, Err(error));
            assert(builds_expression(tree, built) == builds_unary::<T>(tree, Err(error)));
        },
    }
}

/// The application of an operation to two numbers gives what the operation
/// gives for them: `add(a, b)` is the sum of `a` and `b` in the
/// representation, and so for every other operation of two operands.
pub proof fn lemma_binary_of_numbers<T: Literal>(
    operation: BinaryOperation,
    lhs: T,
    rhs: T,
    angle: AngleRepresentation,
    result: Result<T, CalculationError>,
)
    ensures
        expression_yields(application_of_numbers(operation, lhs, rhs), angle, result)
            == operation.outcome(lhs, rhs, result),
{
    let left = Expression::Literal(LiteralExpression { value: lhs });
    let right = Expression::Literal(LiteralExpression { value: rhs });
    let binary = BinaryExpression { lhs: Box::new(left), rhs: Box::new(right), operation };
    if operation.outcome(lhs, rhs, result) {
        assert(intermediate(Ok::<T, CalculationError>(lhs)));
        assert(intermediate(Ok::<T, CalculationError>(rhs)));
        assert(expression_yields(left, angle, Ok(lhs)));
        assert(expression_yields(right, angle, Ok(rhs)));
        assert(binary_yields(binary, angle, result));
    }
    if binary_yields(binary, angle, result) {
        assert(operation.outcome(lhs, rhs, result));
    }
}

/// The application of an operation to a number gives what the operation
/// gives for it under the unit of angles.
pub proof fn lemma_unary_of_number<T: Literal>(
    operation: UnaryOperation,
    operand: T,
    angle: AngleRepresentation,
    result: Result<T, CalculationError>,
)
    ensures
        expression_yields(function_of_number(operation, operand), angle, result)
            == operation.outcome(angle, operand, result),
{
    let number = Expression::Literal(LiteralExpression { value: operand });
    let unary = UnaryExpression { lhs: Box::new(number), operation };
    if operation.outcome(angle, operand, result) {
        assert(intermediate(Ok::<T, CalculationError>(operand)));
        assert(expression_yields(number, angle, Ok(operand)));
        assert(unary_yields(unary, angle, result));
    }
    if unary_yields(unary, angle, result) {
        assert(operation.outcome(angle, operand, result));
    }
}

/// The only error of an evaluation is [`CalculationError::Domain`].
pub proof fn lemma_evaluation_error<T: Literal>(
    expression: Expression<T>,
    angle: AngleRepresentation,
    error: CalculationError,
)
    requires
        expression_yields(expression, angle, Err::<T, CalculationError>(error)),
    ensures
        error == CalculationError::Domain,
    decreases expression,
{
    let result = Err::<T, CalculationError>(error);
    match expression {
        Expression::Literal(_) => {},
        Expression::Unary(unary) => {
            let operand = choose|operand: Result<T, CalculationError>|
                #![trigger intermediate(operand)]
                intermediate(operand) && expression_yields(*unary.lhs, angle, operand)
                    && match operand {
                    Err(error) => result == Err::<T, CalculationError>(error),
                    Ok(value) => unary.operation.outcome(angle, value, result),
                };
            if let Err(inner) = operand {
                lemma_evaluation_error(*unary.lhs, angle, inner);
            }
        },
        Expression::Binary(binary) => {
            let lhs = choose|lhs: Result<T, CalculationError>|
                #![trigger intermediate(lhs)]
                intermediate(lhs) && expression_yields(*binary.lhs, angle, lhs) && match lhs {
                    Err(error) => result == Err::<T, CalculationError>(error),
                    Ok(left) => exists|rhs: Result<T, CalculationError>|
                        #![trigger intermediate(rhs)]
                        intermediate(rhs) && expression_yields(*binary.rhs, angle, rhs)
                            && match rhs {
                            Err(error) => result == Err::<T, CalculationError>(error),
                            Ok(right) => binary.operation.outcome(left, right, result),
                        },
                };
            match lhs {
                Err(inner) => {
                    lemma_evaluation_error(*binary.lhs, angle, inner);
                },
                Ok(left) => {
                    let rhs = choose|rhs: Result<T, CalculationError>|
                        #![trigger intermediate(rhs)]
                        intermediate(rhs) && expression_yields(*binary.rhs, angle, rhs)
                            && match rhs {
                            Err(error) => result == Err::<T, CalculationError>(error),
                            Ok(right) => binary.operation.outcome(left, right, result),
                        };
                    if let Err(inner) = rhs {
                        lemma_evaluation_error(*binary.rhs, angle, inner);
                    }
                },
            }
        },
    }
}

/// Whether every operation in the expression is a function in the
/// representation under the given unit of angles.
pub open spec fn is_determined<T: Literal>(
    expression: Expression<T>,
    angle: AngleRepresentation,
) -> bool
    decreases expression,
{
    match expression {
        Expression::Literal(_) => true,
        Expression::Unary(unary) => unary.operation.is_determined::<T>(angle) && is_determined(
            *unary.lhs,
            angle,
        ),
        Expression::Binary(binary) => binary.operation.is_determined::<T>() && is_determined(
            *binary.lhs,
            angle,
        ) && is_determined(*binary.rhs, angle),
    }
}

/// Evaluating an expression twice under the same unit of angles gives the
/// same result, where every operation in it is a function in the
/// representation.
pub proof fn lemma_evaluation_determined<T: Literal>(
    expression: Expression<T>,
    angle: AngleRepresentation,
    first: Result<T, CalculationError>,
    second: Result<T, CalculationError>,
)
    requires
        is_determined(expression, angle),
        expression_yields(expression, angle, first),
        expression_yields(expression, angle, second),
    ensures
        first == second,
    decreases expression,
{
    match expression {
        Expression::Literal(_) => {},
        Expression::Unary(unary) => {
            let one = choose|operand: Result<T, CalculationError>|
                #![trigger intermediate(operand)]
                intermediate(operand) && expression_yields(*unary.lhs, angle, operand)
                    && match operand {
                    Err(error) => first == Err::<T, CalculationError>(error),
                    Ok(value) => unary.operation.outcome(angle, value, first),
                };
            let other = choose|operand: Result<T, CalculationError>|
                #![trigger intermediate(operand)]
                intermediate(operand) && expression_yields(*unary.lhs, angle, operand)
                    && match operand {
                    Err(error) => second == Err::<T, CalculationError>(error),
                    Ok(value) => unary.operation.outcome(angle, value, second),
                };
            lemma_evaluation_determined(*unary.lhs, angle, one, other);
            if let Ok(value) = one {
                unary.operation.lemma_determined(angle, value, first, second);
            }
        },
        Expression::Binary(binary) => {
            let one = choose|lhs: Result<T, CalculationError>|
                #![trigger intermediate(lhs)]
                intermediate(lhs) && expression_yields(*binary.lhs, angle, lhs) && match lhs {
                    Err(error) => first == Err::<T, CalculationError>(error),
                    Ok(left) => exists|rhs: Result<T, CalculationError>|
                        #![trigger intermediate(rhs)]
                        intermediate(rhs) && expression_yields(*binary.rhs, angle, rhs)
                            && match rhs {
                            Err(error) => first == Err::<T, CalculationError>(error),
                            Ok(right) => binary.operation.outcome(left, right, first),
                        },
                };
            let other = choose|lhs: Result<T, CalculationError>|
                #![trigger intermediate(lhs)]
                intermediate(lhs) && expression_yields(*binary.lhs, angle, lhs) && match lhs {
                    Err(error) => second == Err::<T, CalculationError>(error),
                    Ok(left) => exists|rhs: Result<T, CalculationError>|
                        #![trigger intermediate(rhs)]
                        intermediate(rhs) && expression_yields(*binary.rhs, angle, rhs)
                            && match rhs {
                            Err(error) => second == Err::<T, CalculationError>(error),
                            Ok(right) => binary.operation.outcome(left, right, second),
                        },
                };
            lemma_evaluation_determined(*binary.lhs, angle, one, other);
            if let Ok(left) = one {
                let one_right = choose|rhs: Result<T, CalculationError>|
                    #![trigger intermediate(rhs)]
                    intermediate(rhs) && expression_yields(*binary.rhs, angle, rhs) && match rhs {
                        Err(error) => first == Err::<T, CalculationError>(error),
                        Ok(right) => binary.operation.outcome(left, right, first),
                    };
                let other_right = choose|rhs: Result<T, CalculationError>|
                    #![trigger intermediate(rhs)]
                    intermediate(rhs) && expression_yields(*binary.rhs, angle, rhs) && match rhs {
                        Err(error) => second == Err::<T, CalculationError>(error),
                        Ok(right) => binary.operation.outcome(left, right, second),
                    };
                lemma_evaluation_determined(*binary.rhs, angle, one_right, other_right);
                if let Ok(right) = one_right {
                    binary.operation.lemma_determined(left, right, first, second);
                }
            }
        },
    }
}

} // verus!
