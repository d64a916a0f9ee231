//! What evaluating a source text gives, for texts of a known form.
use vstd::prelude::*;

use crate::entities::expression::{builds_expression, expression_yields, Expression};
use crate::entities::expression::facts::{
    application_of, application_of_numbers, function_of, function_of_number, is_determined,
    lemma_binary_of_numbers, lemma_building_determined, lemma_builds_application,
    lemma_builds_application_of_numerals, lemma_builds_function,
    lemma_builds_function_of_numeral, lemma_builds_number, lemma_evaluation_determined,
    lemma_evaluation_error, lemma_expression_tree_builds, lemma_unary_of_number,
};
use crate::entities::literal::decimal::{
    decimal_abs, decimal_difference, decimal_division, decimal_parse, decimal_power,
    decimal_product, decimal_sum, is_free_of_trigonometry, lemma_absolute_value,
    lemma_parse_determined, lemma_trigonometry_free_determined, Decimal,
};
use crate::entities::literal::{parse_is_determined, Literal};
use crate::entities::operation::binary_operation::BinaryOperation;
use crate::entities::operation::unary_operation::UnaryOperation;
use crate::parser::context::{
    is_numeral, lemma_numeral_is_term, lemma_rest_ignored, lemma_spaced_binary_application,
    lemma_spaced_unary_application, numeral_stops, numeral_tree, operator_tree,
    spaced_binary_application, spaced_unary_application, whole_term, Spacing,
};
use crate::parser::grammar::{
    is_binary_name, is_unary_name, lemma_parse_shape, match_expr, parse_text,
};
use crate::parser::{ParseTree, Rule};
use crate::{settled, text_builds, text_yields, AngleRepresentation, CalculationError};

verus! {

/// The error of evaluating a source text tells what went wrong:
/// [`CalculationError::Syntax`] if and only if the text does not match the
/// grammar, and else [`CalculationError::NumericParse`] for a numeral that
/// was not read or [`CalculationError::Domain`] for an operation without a
/// result.  No text is refused for the shape of its parse tree.
pub proof fn lemma_text_error<T: Literal>(
    text: Seq<char>,
    angle: AngleRepresentation,
    error: CalculationError,
)
    requires
        text_yields::<T>(text, angle, Err(error)),
    ensures
        error == CalculationError::Syntax <==> parse_text(Rule::expr, text) is Err,
        error != CalculationError::InternalInvariant,
{
    let result = Err::<T, CalculationError>(error);
    let built = choose|built: Result<Expression<T>, CalculationError>| #[trigger]
        text_builds(text, built) && match built {
            Err(error) => result == Err::<T, CalculationError>(error),
            Ok(expression) => expression_yields(expression, angle, result),
        };
    lemma_parse_shape(Rule::expr, text);
    match parse_text(Rule::expr, text) {
        Err(_) => {},
        Ok(tree) => {
            lemma_expression_tree_builds(tree, built);
            if let Ok(expression) = built {
                lemma_evaluation_error(expression, angle, error);
            }
        },
    }
}

/// Evaluating a source text twice under the same unit of angles gives the
/// same result, where reading a numeral is a function in the representation
/// and so is every operation of what is built from the text.
pub proof fn lemma_text_determined<T: Literal>(
    text: Seq<char>,
    angle: AngleRepresentation,
    first: Result<T, CalculationError>,
    second: Result<T, CalculationError>,
)
    requires
        parse_is_determined::<T>(),
        forall|expression: Expression<T>| #[trigger]
            text_builds(text, Ok(expression)) ==> is_determined(expression, angle),
        text_yields(text, angle, first),
        text_yields(text, angle, second),
    ensures
        first == second,
{
    let one = choose|built: Result<Expression<T>, CalculationError>| #[trigger]
        text_builds(text, built) && match built {
            Err(error) => first == Err::<T, CalculationError>(error),
            Ok(expression) => expression_yields(expression, angle, first),
        };
    let other = choose|built: Result<Expression<T>, CalculationError>| #[trigger]
        text_builds(text, built) && match built {
            Err(error) => second == Err::<T, CalculationError>(error),
            Ok(expression) => expression_yields(expression, angle, second),
        };
    if let Ok(tree) = parse_text(Rule::expr, text) {
        lemma_building_determined(tree, one, other);
        if let Ok(expression) = one {
            lemma_evaluation_determined(expression, angle, first, second);
        }
    }
}

/// In decimal arithmetic, evaluating a source text twice under the same
/// unit of angles gives the same result, where what is built from the text
/// holds no trigonometric operation.  Of a text such as `sin(1)` this says
/// nothing: the sine is computed in machine floating point.
pub proof fn lemma_decimal_text_determined(
    text: Seq<char>,
    angle: AngleRepresentation,
    first: Result<Decimal, CalculationError>,
    second: Result<Decimal, CalculationError>,
)
    requires
        forall|expression: Expression<Decimal>| #[trigger]
            text_builds(text, Ok(expression)) ==> is_free_of_trigonometry(expression),
        text_yields(text, angle, first),
        text_yields(text, angle, second),
    ensures
        first == second,
{
    lemma_parse_determined();
    assert forall|expression: Expression<Decimal>| #[trigger]
        text_builds(text, Ok(expression)) implies is_determined(expression, angle) by {
        lemma_trigonometry_free_determined(expression, angle);
    }
    lemma_text_determined(text, angle, first, second);
}

/// Whether `built` may be built from a text that is read as a term: a text
/// that `term` matches as a whole, parentheses around it included.
pub open spec fn term_builds<T: Literal>(
    text: Seq<char>,
    built: Result<Expression<T>, CalculationError>,
) -> bool {
    match whole_term(text) {
        Some(tree) => builds_expression(tree, built),
        None => built == Err::<Expression<T>, CalculationError>(CalculationError::Syntax),
    }
}

/// From a numeral, read as a term, the number is built that the
/// representation reads, or [`CalculationError::NumericParse`] where it
/// reads none.
pub proof fn lemma_numeral_builds<T: Literal>(
    text: Seq<char>,
    built: Result<Expression<T>, CalculationError>,
)
    requires
        is_numeral(text),
    ensures
        term_builds(text, built) == match built {
            Ok(Expression::Literal(literal)) => T::parse_outcome(text, Some(literal.value)),
            Ok(_) => false,
            Err(error) => error == CalculationError::NumericParse && T::parse_outcome(text, None),
        },
{
    lemma_numeral_is_term(text);
    lemma_builds_number(text, built);
}

/// Texts nest as expressions do.  From the text of an operation of one
/// operand applied to a term, with whitespace between the parts or none,
/// the application of the operation is built to what is built from the
/// term; and the text is a term in its turn.
pub proof fn lemma_unary_nesting<T: Literal>(
    name: Rule,
    operation: UnaryOperation,
    spacing: Spacing,
    operand: Seq<char>,
    built: Expression<T>,
)
    requires
        spacing.is_blank(),
        UnaryOperation::of_rule(name) == Some(operation),
        whole_term(operand) is Some,
        term_builds(operand, Ok(built)),
    ensures
        text_builds(spaced_unary_application(name, spacing, operand), Ok(function_of(operation, built))),
        term_builds(spaced_unary_application(name, spacing, operand), Ok(function_of(operation, built))),
        whole_term(spaced_unary_application(name, spacing, operand)) is Some,
{
    assert(is_unary_name(name));
    lemma_spaced_unary_application(name, spacing, operand);
    let operand_tree = whole_term(operand).unwrap();
    let tree = parse_text(Rule::expr, spaced_unary_application(name, spacing, operand)).unwrap();
    lemma_builds_function(tree, name, operation, operand_tree, built);
}

/// Texts nest as expressions do.  From the text of an operation of two
/// operands applied to two terms, with whitespace between the parts or
/// none, the application of the operation is built to what is built from
/// the two terms; and the text is a term in its turn.  So the text
/// `pow(5, pow(8, 3))` stands for five to the power of eight to the power
/// of three.
pub proof fn lemma_binary_nesting<T: Literal>(
    name: Rule,
    operation: BinaryOperation,
    spacing: Spacing,
    left: Seq<char>,
    right: Seq<char>,
    built_left: Expression<T>,
    built_right: Expression<T>,
)
    requires
        spacing.is_blank(),
        BinaryOperation::of_rule(name) == Some(operation),
        whole_term(left) is Some,
        whole_term(right) is Some,
        term_builds(left, Ok(built_left)),
        term_builds(right, Ok(built_right)),
    ensures
        text_builds(
            spaced_binary_application(name, spacing, left, right),
            Ok(application_of(operation, built_left, built_right)),
        ),
        term_builds(
            spaced_binary_application(name, spacing, left, right),
            Ok(application_of(operation, built_left, built_right)),
        ),
        whole_term(spaced_binary_application(name, spacing, left, right)) is Some,
{
    assert(is_binary_name(name));
    lemma_spaced_binary_application(name, spacing, left, right);
    let left_tree = whole_term(left).unwrap();
    let right_tree = whole_term(right).unwrap();
    let tree = parse_text(
        Rule::expr,
        spaced_binary_application(name, spacing, left, right),
    ).unwrap();
    lemma_builds_application(
        tree,
        name,
        operation,
        left_tree,
        right_tree,
        built_left,
        built_right,
    );
}

/// What stands behind an expression in a text plays no part: a text that
/// begins with a text that `expr` matches as a whole, and goes on with what
/// cannot lengthen a numeral, builds what that text builds and evaluates to
/// what it evaluates to.  A closing parenthesis too many is of this kind.
pub proof fn lemma_rest_plays_no_part<T: Literal>(
    text: Seq<char>,
    rest: Seq<char>,
    angle: AngleRepresentation,
    built: Result<Expression<T>, CalculationError>,
    result: Result<T, CalculationError>,
)
    requires
        match_expr(text, 0) matches Some((_, end)) && end == text.len(),
        numeral_stops(rest, 0),
    ensures
        text_builds(text + rest, built) == text_builds(text, built),
        text_yields(text + rest, angle, result) == text_yields(text, angle, result),
{
    lemma_rest_ignored(Rule::expr, text, rest);
    assert forall|built: Result<Expression<T>, CalculationError>|
        text_builds(text + rest, built) == text_builds(text, built) by {}
    if text_yields(text, angle, result) {
        let built = choose|built: Result<Expression<T>, CalculationError>| #[trigger]
            text_builds(text, built) && match built {
                Err(error) => result == Err::<T, CalculationError>(error),
                Ok(expression) => expression_yields(expression, angle, result),
            };
        assert(text_builds(text + rest, built));
    }
    if text_yields(text + rest, angle, result) {
        let built = choose|built: Result<Expression<T>, CalculationError>| #[trigger]
            text_builds(text + rest, built) && match built {
                Err(error) => result == Err::<T, CalculationError>(error),
                Ok(expression) => expression_yields(expression, angle, result),
            };
        assert(text_builds(text, built));
    }
}

/// Whether applying an operation to the values of two numerals may give
/// `result`: the left numeral is read first, then the right one; a numeral
/// that the representation does not read gives
/// [`CalculationError::NumericParse`]; the values read go to the operation.
pub open spec fn numerals_yield<T: Literal>(
    operation: BinaryOperation,
    left: Seq<char>,
    right: Seq<char>,
    result: Result<T, CalculationError>,
) -> bool {
    exists|a: Option<T>| #[trigger]
        T::parse_outcome(left, a) && match a {
            None => result == Err::<T, CalculationError>(CalculationError::NumericParse),
            Some(a) => exists|b: Option<T>| #[trigger]
                T::parse_outcome(right, b) && match b {
                    None => result == Err::<T, CalculationError>(CalculationError::NumericParse),
                    Some(b) => operation.outcome(a, b, result),
                },
        }
}

/// Evaluating the text of an operation applied to two numerals, such as
/// `add(1.5,2)` or `add( 1.5, 2 )`, gives what the operation gives for the
/// values of the two numerals: their sum for `add`, their difference for
/// `sub`, their product for `mul`, and so on, in the representation and
/// under either unit of angles.
pub proof fn lemma_binary_text<T: Literal>(
    name: Rule,
    operation: BinaryOperation,
    spacing: Spacing,
    left: Seq<char>,
    right: Seq<char>,
    angle: AngleRepresentation,
    result: Result<T, CalculationError>,
)
    requires
        spacing.is_blank(),
        BinaryOperation::of_rule(name) == Some(operation),
        is_numeral(left),
        is_numeral(right),
    ensures
        text_yields::<T>(spaced_binary_application(name, spacing, left, right), angle, result) == numerals_yield::<
            T,
        >(operation, left, right, result),
{
    let text = spaced_binary_application(name, spacing, left, right);
    lemma_numeral_is_term(left);
    lemma_numeral_is_term(right);
    assert(is_binary_name(name));
    lemma_spaced_binary_application(name, spacing, left, right);
    let tree = parse_text(Rule::expr, text).unwrap();
    lemma_application_yields(text, tree, name, operation, left, right, angle, result);
}

/// Whether applying an operation to the value of a numeral may give
/// `result`: a numeral that the representation does not read gives
/// [`CalculationError::NumericParse`]; the value read goes to the operation.
pub open spec fn numeral_yields<T: Literal>(
    operation: UnaryOperation,
    operand: Seq<char>,
    angle: AngleRepresentation,
    result: Result<T, CalculationError>,
) -> bool {
    exists|value: Option<T>| #[trigger]
        T::parse_outcome(operand, value) && match value {
            None => result == Err::<T, CalculationError>(CalculationError::NumericParse),
            Some(value) => operation.outcome(angle, value, result),
        }
}

/// Evaluating the text of an operation applied to one numeral, such as
/// `abs(-5)` or `abs ( -5 )`, gives what the operation gives for the value
/// of the numeral under the unit of angles.
pub proof fn lemma_unary_text<T: Literal>(
    name: Rule,
    operation: UnaryOperation,
    spacing: Spacing,
    operand: Seq<char>,
    angle: AngleRepresentation,
    result: Result<T, CalculationError>,
)
    requires
        spacing.is_blank(),
        UnaryOperation::of_rule(name) == Some(operation),
        is_numeral(operand),
    ensures
        text_yields::<T>(spaced_unary_application(name, spacing, operand), angle, result) == numeral_yields::<T>(
            operation,
            operand,
            angle,
            result,
        ),
{
    let text = spaced_unary_application(name, spacing, operand);
    lemma_numeral_is_term(operand);
    assert(is_unary_name(name));
    lemma_spaced_unary_application(name, spacing, operand);
    let tree = parse_text(Rule::expr, text).unwrap();
    lemma_function_yields(text, tree, name, operation, operand, angle, result);
}

/// What evaluating a text gives whose tree is that of an operation applied
/// to one numeral.
proof fn lemma_function_yields<T: Literal>(
    text: Seq<char>,
    tree: ParseTree,
    name: Rule,
    operation: UnaryOperation,
    operand: Seq<char>,
    angle: AngleRepresentation,
    result: Result<T, CalculationError>,
)
    requires
        UnaryOperation::of_rule(name) == Some(operation),
        parse_text(Rule::expr, text) == Ok::<ParseTree, CalculationError>(tree),
        tree.rule == Rule::unary_expr,
        tree.children == seq![operator_tree(Rule::unary_op, name), numeral_tree(operand)],
    ensures
        text_yields::<T>(text, angle, result) == numeral_yields::<T>(
            operation,
            operand,
            angle,
            result,
        ),
{
    assert forall|built: Result<Expression<T>, CalculationError>|
        text_builds(text, built) == builds_expression(tree, built) by {}
    if text_yields::<T>(text, angle, result) {
        let built = choose|built: Result<Expression<T>, CalculationError>| #[trigger]
            text_builds(text, built) && match built {
                Err(error) => result == Err::<T, CalculationError>(error),
                Ok(expression) => expression_yields(expression, angle, result),
            };
        lemma_builds_function_of_numeral(tree, name, operation, operand, built);
        match built {
            Ok(expression) => {
                let value = choose|value: T|
                    #![trigger function_of_number(operation, value)]
                    expression == function_of_number(operation, value) && T::parse_outcome(
                        operand,
                        Some(value),
                    );
                lemma_unary_of_number(operation, value, angle, result);
                assert(T::parse_outcome(operand, Some(value)));
            },
            Err(error) => {
                assert(T::parse_outcome(operand, None));
            },
        }
    }
    if numeral_yields::<T>(operation, operand, angle, result) {
        let value = choose|value: Option<T>| #[trigger]
            T::parse_outcome(operand, value) && match value {
                None => result == Err::<T, CalculationError>(CalculationError::NumericParse),
                Some(value) => operation.outcome(angle, value, result),
            };
        match value {
            None => {
                let built = Err::<Expression<T>, CalculationError>(
                    CalculationError::NumericParse,
                );
                lemma_builds_function_of_numeral(tree, name, operation, operand, built);
                assert(text_builds(text, built));
            },
            Some(value) => {
                let built = Ok::<Expression<T>, CalculationError>(
                    function_of_number(operation, value),
                );
                lemma_builds_function_of_numeral(tree, name, operation, operand, built);
                assert(text_builds(text, built));
                lemma_unary_of_number(operation, value, angle, result);
            },
        }
    }
}

/// In decimal arithmetic, evaluating the text of `abs` applied to a numeral
/// gives one result under either unit of angles: the number read without
/// its sign, or [`CalculationError::NumericParse`] where the numeral is not
/// read.
pub proof fn lemma_decimal_abs_text(
    spacing: Spacing,
    operand: Seq<char>,
    angle: AngleRepresentation,
    result: Result<Decimal, CalculationError>,
)
    requires
        spacing.is_blank(),
        is_numeral(operand),
    ensures
        text_yields::<Decimal>(spaced_unary_application(Rule::abs, spacing, operand), angle, result) <==> result
            == match decimal_parse(operand) {
            Some(value) => Ok(decimal_abs(value)),
            None => Err(CalculationError::NumericParse),
        },
{
    lemma_unary_text::<Decimal>(
        Rule::abs,
        UnaryOperation::Abs,
        spacing,
        operand,
        angle,
        result,
    );
    let value = decimal_parse(operand);
    assert(Decimal::parse_outcome(operand, value));
    if let Some(value) = value {
        lemma_absolute_value(value, angle, result);
    }
}

/// What an operation of two operands returns in decimal arithmetic.
pub open spec fn decimal_operation(operation: BinaryOperation, lhs: Decimal, rhs: Decimal) -> Option<
    Decimal,
> {
    match operation {
        BinaryOperation::Add => decimal_sum(lhs, rhs),
        BinaryOperation::Sub => decimal_difference(lhs, rhs),
        BinaryOperation::Mul => decimal_product(lhs, rhs),
        BinaryOperation::Div => decimal_division(lhs, rhs),
        BinaryOperation::Pow => decimal_power(lhs, rhs),
    }
}

/// In decimal arithmetic, evaluating the text of an operation applied to
/// two numerals gives one result: the sum of the two numbers read for `add`,
/// their difference for `sub`, their product for `mul`, and so on; or
/// [`CalculationError::NumericParse`] where one of the numerals is not read,
/// or [`CalculationError::Domain`] where the operation has no result.
pub proof fn lemma_decimal_binary_text(
    name: Rule,
    operation: BinaryOperation,
    spacing: Spacing,
    left: Seq<char>,
    right: Seq<char>,
    angle: AngleRepresentation,
    result: Result<Decimal, CalculationError>,
)
    requires
        spacing.is_blank(),
        BinaryOperation::of_rule(name) == Some(operation),
        is_numeral(left),
        is_numeral(right),
    ensures
        text_yields::<Decimal>(spaced_binary_application(name, spacing, left, right), angle, result) <==> result
            == match (decimal_parse(left), decimal_parse(right)) {
            (Some(lhs), Some(rhs)) => settled(decimal_operation(operation, lhs, rhs)),
            _ => Err(CalculationError::NumericParse),
        },
{
    lemma_binary_text::<Decimal>(name, operation, spacing, left, right, angle, result);
    let a = decimal_parse(left);
    let b = decimal_parse(right);
    assert(Decimal::parse_outcome(left, a));
    assert(Decimal::parse_outcome(right, b));
}

/// What evaluating a text gives whose tree is that of an operation applied
/// to two numerals.
proof fn lemma_application_yields<T: Literal>(
    text: Seq<char>,
    tree: ParseTree,
    name: Rule,
    operation: BinaryOperation,
    left: Seq<char>,
    right: Seq<char>,
    angle: AngleRepresentation,
    result: Result<T, CalculationError>,
)
    requires
        BinaryOperation::of_rule(name) == Some(operation),
        parse_text(Rule::expr, text) == Ok::<ParseTree, CalculationError>(tree),
        tree.rule == Rule::binary_expr,
        tree.children == seq![
            operator_tree(Rule::binary_op, name),
            numeral_tree(left),
            numeral_tree(right),
        ],
    ensures
        text_yields::<T>(text, angle, result) == numerals_yield::<T>(
            operation,
            left,
            right,
            result,
        ),
{
    assert forall|built: Result<Expression<T>, CalculationError>|
        text_builds(text, built) == builds_expression(tree, built) by {}
    if text_yields::<T>(text, angle, result) {
        let built = choose|built: Result<Expression<T>, CalculationError>| #[trigger]
            text_builds(text, built) && match built {
                Err(error) => result == Err::<T, CalculationError>(error),
                Ok(expression) => expression_yields(expression, angle, result),
            };
        lemma_builds_application_of_numerals(tree, name, operation, left, right, built);
        match built {
            Ok(expression) => {
                let (a, b) = choose|a: T, b: T|
                    #![trigger application_of_numbers(operation, a, b)]
                    expression == application_of_numbers(operation, a, b) && T::parse_outcome(
                        left,
                        Some(a),
                    ) && T::parse_outcome(right, Some(b));
                lemma_binary_of_numbers(operation, a, b, angle, result);
                assert(T::parse_outcome(left, Some(a)));
                assert(T::parse_outcome(right, Some(b)));
            },
            Err(error) => {
                if !T::parse_outcome(left, None) {
                    let a = choose|a: T| #[trigger] T::parse_outcome(left, Some(a));
                    assert(T::parse_outcome(left, Some(a)));
                    assert(T::parse_outcome(right, None));
                }
            },
        }
    }
    if numerals_yield::<T>(operation, left, right, result) {
        let a = choose|a: Option<T>| #[trigger]
            T::parse_outcome(left, a) && match a {
                None => result == Err::<T, CalculationError>(CalculationError::NumericParse),
                Some(a) => exists|b: Option<T>| #[trigger]
                    T::parse_outcome(right, b) && match b {
                        None => result == Err::<T, CalculationError>(
                            CalculationError::NumericParse,
                        ),
                        Some(b) => operation.outcome(a, b, result),
                    },
            };
        match a {
            None => {
                let built = Err::<Expression<T>, CalculationError>(
                    CalculationError::NumericParse,
                );
                lemma_builds_application_of_numerals(tree, name, operation, left, right, built);
                assert(text_builds(text, built));
            },
            Some(a) => {
                let b = choose|b: Option<T>| #[trigger]
                    T::parse_outcome(right, b) && match b {
                        None => result == Err::<T, CalculationError>(
                            CalculationError::NumericParse,
                        ),
                        Some(b) => operation.outcome(a, b, result),
                    };
                match b {
                    None => {
                        let built = Err::<Expression<T>, CalculationError>(
                            CalculationError::NumericParse,
                        );
                        lemma_builds_application_of_numerals(
                            tree,
                            name,
                            operation,
                            left,
                            right,
                            built,
                        );
                        assert(text_builds(text, built));
                    },
                    Some(b) => {
                        let built = Ok::<Expression<T>, CalculationError>(
                            application_of_numbers(operation, a, b),
                        );
                        lemma_builds_application_of_numerals(
                            tree,
                            name,
                            operation,
                            left,
                            right,
                            built,
                        );
                        assert(text_builds(text, built));
                        lemma_binary_of_numbers(operation, a, b, angle, result);
                    },
                }
            },
        }
    }
}

} // verus!
