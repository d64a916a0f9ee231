use std::str::FromStr;

use calculator::entities::expression::{
    BinaryExpression, Evaluate, Expression, LiteralExpression, UnaryExpression,
};
use calculator::entities::literal::decimal::Decimal;
use calculator::entities::literal::Literal;
use calculator::entities::operation::binary_operation::BinaryOperation;
use calculator::entities::operation::unary_operation::UnaryOperation;
use calculator::parser::{GrammarParser, Parse, ParseNode, Rule};
use calculator::{
    AngleRepresentation, CalculationError, CalculationMode, CalculationResult, Calculator,
    CalculatorState,
};

type State = CalculatorState<Decimal>;

fn decimal(mantissa: i128, scale: u32) -> Decimal {
    Decimal::from_parts(mantissa, scale).unwrap()
}

fn outside(value: Decimal) -> rust_decimal::Decimal {
    rust_decimal::Decimal::from_i128_with_scale(value.mantissa(), value.scale())
}

fn read(text: &str) -> rust_decimal::Decimal {
    rust_decimal::Decimal::from_str(text).unwrap()
}

fn number(mantissa: i128) -> Expression<Decimal> {
    Expression::Literal(LiteralExpression { value: decimal(mantissa, 0) })
}

fn unary(operation: UnaryOperation, lhs: Expression<Decimal>) -> Expression<Decimal> {
    Expression::Unary(UnaryExpression { lhs: Box::new(lhs), operation })
}

fn binary(
    operation: BinaryOperation,
    lhs: Expression<Decimal>,
    rhs: Expression<Decimal>,
) -> Expression<Decimal> {
    Expression::Binary(BinaryExpression { lhs: Box::new(lhs), rhs: Box::new(rhs), operation })
}

fn radians() -> Calculator<Decimal> {
    Calculator::default()
}

fn degrees() -> Calculator<Decimal> {
    Calculator::new(CalculatorState::new(AngleRepresentation::Degree))
}

fn high(calculator: &Calculator<Decimal>, text: &str) -> rust_decimal::Decimal {
    outside(calculator.evaluate_high(text).unwrap())
}

#[test]
fn unary_operations_on_values() {
    let state = State::default();
    let four = decimal(4, 0);
    assert_eq!(UnaryOperation::Abs.apply(&decimal(-4, 0), &state), Ok(four));
    assert_eq!(
        UnaryOperation::Sqrt.apply(&four, &state).map(outside),
        Ok(read("2"))
    );
    assert_eq!(
        UnaryOperation::Sqrt.apply(&decimal(-4, 0), &state),
        Err(CalculationError::Domain)
    );
    assert_eq!(
        UnaryOperation::Sin.apply(&decimal(0, 0), &state).map(outside),
        Ok(read("0"))
    );
    assert_eq!(
        UnaryOperation::Cos.apply(&decimal(0, 0), &state).map(outside),
        Ok(read("1"))
    );
    assert_eq!(
        UnaryOperation::Tg.apply(&decimal(0, 0), &state).map(outside),
        Ok(read("0"))
    );
    assert_eq!(
        UnaryOperation::Ctg.apply(&decimal(0, 0), &state),
        Err(CalculationError::Domain)
    );
}

#[test]
fn binary_operations_on_values() {
    let state = State::default();
    let six = decimal(6, 0);
    let three = decimal(3, 0);
    assert_eq!(BinaryOperation::Add.apply(&six, &three, &state), Ok(decimal(9, 0)));
    assert_eq!(BinaryOperation::Sub.apply(&six, &three, &state), Ok(decimal(3, 0)));
    assert_eq!(BinaryOperation::Mul.apply(&six, &three, &state), Ok(decimal(18, 0)));
    assert_eq!(
        BinaryOperation::Div.apply(&six, &three, &state).map(outside),
        Ok(read("2"))
    );
    assert_eq!(
        BinaryOperation::Pow.apply(&six, &three, &state).map(|v| outside(v).round_dp(6)),
        Ok(read("216"))
    );
    assert_eq!(
        BinaryOperation::Div.apply(&six, &decimal(0, 0), &state),
        Err(CalculationError::Domain)
    );
    assert_eq!(
        BinaryOperation::Pow.apply(&decimal(-6, 0), &three, &state),
        Err(CalculationError::Domain)
    );
}

#[test]
fn degrees_are_converted_for_trigonometric_operations_only() {
    let in_degrees = State::new(AngleRepresentation::Degree);
    let in_radians = State::new(AngleRepresentation::Radian);
    let half_turn = decimal(180, 0);

    let sine = UnaryOperation::Sin.apply(&half_turn, &in_degrees).unwrap();
    assert_eq!(outside(sine).round(), read("0"));
    assert_eq!(
        Some(outside(sine)),
        rust_decimal::Decimal::try_from(std::f64::consts::PI.sin()).ok()
    );
    let unconverted = UnaryOperation::Sin.apply(&half_turn, &in_radians).unwrap();
    assert_eq!(
        Some(outside(unconverted)),
        rust_decimal::Decimal::try_from(180_f64.sin()).ok()
    );

    for operation in [UnaryOperation::Abs, UnaryOperation::Sqrt] {
        assert_eq!(
            operation.apply(&half_turn, &in_degrees),
            operation.apply(&half_turn, &in_radians)
        );
    }
    assert_eq!(UnaryOperation::Abs.apply(&decimal(-180, 0), &in_degrees), Ok(half_turn));
}

#[test]
fn a_number_evaluates_to_itself() {
    let state = State::default();
    assert_eq!(number(7).evaluate(&state), Ok(decimal(7, 0)));
    assert_eq!(LiteralExpression { value: decimal(-7, 3) }.evaluate(&state), Ok(decimal(-7, 3)));
}

#[test]
fn expressions_built_by_hand() {
    let state = State::default();
    let sum = binary(BinaryOperation::Add, number(1), number(2));
    assert_eq!(sum.evaluate(&state), Ok(decimal(3, 0)));

    let nested = binary(
        BinaryOperation::Mul,
        binary(BinaryOperation::Sub, number(10), number(4)),
        unary(UnaryOperation::Abs, number(-7)),
    );
    assert_eq!(nested.evaluate(&state), Ok(decimal(42, 0)));
    // The same tree may be evaluated again, with the same result.
    assert_eq!(nested.evaluate(&state), Ok(decimal(42, 0)));
    assert_eq!(
        nested.evaluate(&State::new(AngleRepresentation::Degree)),
        Ok(decimal(42, 0))
    );
}

#[test]
fn the_first_error_is_the_result() {
    let state = State::default();
    let failing_left = binary(
        BinaryOperation::Add,
        binary(BinaryOperation::Div, number(1), number(0)),
        number(2),
    );
    assert_eq!(failing_left.evaluate(&state), Err(CalculationError::Domain));
    let failing_right = binary(
        BinaryOperation::Add,
        number(2),
        unary(UnaryOperation::Sqrt, number(-1)),
    );
    assert_eq!(failing_right.evaluate(&state), Err(CalculationError::Domain));
    let failing_operand = unary(
        UnaryOperation::Abs,
        binary(BinaryOperation::Pow, number(-1), number(2)),
    );
    assert_eq!(failing_operand.evaluate(&state), Err(CalculationError::Domain));
}

#[test]
fn evaluate_simple_binary_in_high_precision() {
    let calculator = radians();
    assert_eq!(high(&calculator, "add(2, 2)"), read("4"));
    assert_eq!(high(&calculator, "sub(4.5, 2)"), read("2.5"));
    assert_eq!(high(&calculator, "mul(100, 12)"), read("1200"));
    assert_eq!(high(&calculator, "div(1, 8)"), read("0.125"));
    assert_eq!(high(&calculator, "add(-1.5e2, 0.5)"), read("-149.5"));
}

#[test]
fn evaluate_simple_unary_in_high_precision() {
    let calculator = radians();
    assert_eq!(high(&calculator, "abs(-5)"), read("5"));
    assert_eq!(high(&calculator, "sqrt(16)"), read("4"));
    assert_eq!(
        Some(high(&calculator, "sin(3.14)")),
        rust_decimal::Decimal::try_from(3.14_f64.sin()).ok()
    );
    assert_eq!(high(&calculator, "sin(0)"), read("0"));
}

#[test]
fn angle_transform_in_high_precision() {
    let calculator = degrees();
    assert_eq!(high(&calculator, "sin(180)").round(), read("0"));
    assert_eq!(high(&calculator, "cos(180)").round(), read("-1"));
    assert_eq!(high(&calculator, "tg(45)").round(), read("1"));

    let calculator = radians();
    assert_eq!(
        Some(high(&calculator, "cos(180)")),
        rust_decimal::Decimal::try_from(180_f64.cos()).ok()
    );
}

#[test]
fn abs_and_sqrt_do_not_depend_on_the_angle_unit() {
    for calculator in [radians(), degrees()] {
        assert_eq!(high(&calculator, "abs(-5)"), read("5"));
        assert_eq!(high(&calculator, "sqrt(9)"), read("3"));
    }
}

#[test]
fn nested_expressions() {
    let calculator = radians();
    assert_eq!(high(&calculator, "add(mul(2, 3), sub(10, abs(-4)))"), read("12"));
    assert_eq!(high(&calculator, "sub((5), (mul(2, 2)))"), read("1"));
    assert_eq!(high(&calculator, "abs((((add(1,-2)))))"), read("1"));
    assert_eq!(high(&calculator, "pow(2, pow(2, 2))").round_dp(6), read("16"));
    // Five to the power of 512 is beyond what a decimal number holds.
    assert_eq!(
        calculator.evaluate_high("pow(5, pow(8, 3)))"),
        Err(CalculationError::Domain)
    );
}

#[test]
fn a_square_root_that_does_not_settle_is_a_domain_error() {
    for calculator in [radians(), degrees()] {
        assert_eq!(
            calculator.evaluate_high("sqrt(4.0000000000000000000000000003)"),
            Err(CalculationError::Domain)
        );
        assert_eq!(
            calculator.evaluate_high("add(1, sqrt(4.0000000000000000000000000003))"),
            Err(CalculationError::Domain)
        );
        assert_eq!(high(&calculator, "sqrt(4.0000000000000000000000000000)"), read("2"));
    }
}

#[test]
fn division_by_zero_in_high_precision_is_a_domain_error() {
    let calculator = radians();
    for text in ["div(1, 0)", "div(-1, 0)", "div(0, 0)", "div(1, 0.000)", "div(5, sub(2, 2))"] {
        assert_eq!(calculator.evaluate_high(text), Err(CalculationError::Domain));
    }
}

#[test]
fn each_error_has_its_input() {
    let calculator = radians();
    assert_eq!(calculator.evaluate_high("add(1"), Err(CalculationError::Syntax));
    assert_eq!(calculator.evaluate_high(""), Err(CalculationError::Syntax));
    assert_eq!(calculator.evaluate_high("mod(1, 2)"), Err(CalculationError::Syntax));
    assert_eq!(calculator.evaluate_high("add(1, 1e100)"), Err(CalculationError::NumericParse));
    assert_eq!(
        calculator.evaluate_high("99999999999999999999999999999999999999999"),
        Err(CalculationError::NumericParse)
    );
    assert_eq!(calculator.evaluate_high("sqrt(-1)"), Err(CalculationError::Domain));
    assert_eq!(calculator.evaluate_high("pow(-2, 2)"), Err(CalculationError::Domain));
    assert_eq!(
        calculator.evaluate_high("mul(79228162514264337593543950335, 2)"),
        Err(CalculationError::Domain)
    );

    let no_expression = ParseNode { rule: Rule::num, text: String::from("1"), children: vec![] };
    assert_eq!(
        Expression::<Decimal>::parse(&no_expression).err(),
        Some(CalculationError::InternalInvariant)
    );
}

#[test]
fn a_numeral_is_read_before_an_operation_fails() {
    let calculator = radians();
    // The numeral on the right is not read: nothing is evaluated.
    assert_eq!(
        calculator.evaluate_high("add(div(1, 0), 1e100)"),
        Err(CalculationError::NumericParse)
    );
}

#[test]
fn trees_that_the_grammar_does_not_produce_are_refused() {
    fn node(rule: Rule, children: Vec<ParseNode>) -> ParseNode {
        ParseNode { rule, text: String::from("1"), children }
    }
    fn refused<T: Parse>(node: &ParseNode) -> bool {
        matches!(T::parse(node), Err(CalculationError::InternalInvariant))
    }
    let numeral = || node(Rule::literal_expr, vec![node(Rule::num, vec![])]);
    let sine = || node(Rule::unary_op, vec![node(Rule::sin, vec![])]);
    let sum = || node(Rule::binary_op, vec![node(Rule::add, vec![])]);

    assert!(Expression::<Decimal>::parse(&numeral()).is_ok());
    assert!(Expression::<Decimal>::parse(&node(Rule::unary_expr, vec![sine(), numeral()])).is_ok());
    assert!(
        Expression::<Decimal>::parse(&node(Rule::binary_expr, vec![sum(), numeral(), numeral()]))
            .is_ok()
    );

    assert!(refused::<Expression<Decimal>>(&node(Rule::expr, vec![numeral()])));
    assert!(refused::<Expression<Decimal>>(&node(Rule::term, vec![numeral()])));
    assert!(refused::<Expression<Decimal>>(&sine()));
    assert!(refused::<Expression<Decimal>>(&node(Rule::literal_expr, vec![])));
    assert!(refused::<Expression<Decimal>>(&node(Rule::unary_expr, vec![sine()])));
    assert!(refused::<Expression<Decimal>>(&node(Rule::unary_expr, vec![sum(), numeral()])));
    assert!(refused::<Expression<Decimal>>(&node(Rule::unary_expr, vec![numeral(), numeral()])));
    assert!(refused::<Expression<Decimal>>(&node(Rule::binary_expr, vec![sum(), numeral()])));
    assert!(refused::<Expression<Decimal>>(&node(
        Rule::binary_expr,
        vec![sine(), numeral(), numeral()]
    )));
    assert!(refused::<Expression<Decimal>>(&node(
        Rule::binary_expr,
        vec![sum(), numeral(), sine()]
    )));

    assert!(refused::<UnaryOperation>(&node(Rule::unary_op, vec![])));
    assert!(refused::<UnaryOperation>(&node(Rule::unary_op, vec![node(Rule::add, vec![])])));
    assert!(refused::<UnaryOperation>(&node(Rule::binary_op, vec![node(Rule::sin, vec![])])));
    assert!(refused::<BinaryOperation>(&node(Rule::binary_op, vec![])));
    assert!(refused::<BinaryOperation>(&node(Rule::binary_op, vec![node(Rule::sin, vec![])])));
    assert!(refused::<BinaryOperation>(&node(Rule::unary_op, vec![node(Rule::add, vec![])])));
}

#[test]
fn operations_are_built_from_their_names() {
    let unary = [
        ("abs", "abs(-4)", "4"),
        ("sqrt", "sqrt(4)", "2"),
    ];
    for (name, text, expected) in unary {
        let node = GrammarParser::parse(Rule::unary_op, name).unwrap();
        assert!(UnaryOperation::parse(&node).is_ok());
        assert_eq!(high(&radians(), text), read(expected));
    }
    let binary = [
        ("add", "add(6, 3)", "9"),
        ("sub", "sub(6, 3)", "3"),
        ("mul", "mul(6, 3)", "18"),
        ("div", "div(6, 3)", "2"),
        ("pow", "pow(6, 3)", "216"),
    ];
    for (name, text, expected) in binary {
        let node = GrammarParser::parse(Rule::binary_op, name).unwrap();
        assert!(BinaryOperation::parse(&node).is_ok());
        assert_eq!(high(&radians(), text).round_dp(6), read(expected));
    }
    assert!(matches!(
        UnaryOperation::parse(&GrammarParser::parse(Rule::unary_op, "ctg").unwrap()),
        Ok(UnaryOperation::Ctg)
    ));
    assert!(matches!(
        BinaryOperation::parse(&GrammarParser::parse(Rule::binary_op, "pow").unwrap()),
        Ok(BinaryOperation::Pow)
    ));
}

#[test]
fn parse_then_evaluate() {
    let calculator = radians();
    let expression = Calculator::<Decimal>::parse_expression::<Decimal>("mul(add(1, 2), 4)").unwrap();
    assert_eq!(calculator.evaluate_expression(expression), Ok(decimal(12, 0)));
    assert_eq!(
        Calculator::<Decimal>::parse_expression::<Decimal>("mul(add(1, 2), 4").err(),
        Some(CalculationError::Syntax)
    );
}

#[test]
fn the_result_is_tagged_with_the_mode() {
    let calculator = radians();
    assert_eq!(
        calculator.evaluate_string("add(2, 2)", CalculationMode::HighPrecision),
        Ok(CalculationResult::HighPrecision(decimal(4, 0)))
    );
    assert_eq!(
        calculator.evaluate_string("add(2, 2)", CalculationMode::StandardPrecision),
        Ok(CalculationResult::StandardPrecision(decimal(4, 0)))
    );
    assert_eq!(calculator.evaluate_standard("add(2, 2)"), Ok(decimal(4, 0)));
    assert_eq!(
        calculator.evaluate_string("add(2", CalculationMode::HighPrecision),
        Err(CalculationError::Syntax)
    );
    assert_eq!(
        calculator.evaluate_string("add(2", CalculationMode::StandardPrecision),
        Err(CalculationError::Syntax)
    );
}

#[test]
fn evaluating_twice_gives_the_same_result() {
    let calculator = degrees();
    for text in ["add(1.5, 2)", "div(1, 3)", "sqrt(2)", "pow(2, 0.5)", "div(1, 0)", "add(1"] {
        assert_eq!(calculator.evaluate_high(text), calculator.evaluate_high(text));
    }
}

#[test]
fn state_starts_without_variables() {
    let state = State::default();
    assert!(matches!(state.angle_representation(), AngleRepresentation::Radian));
    assert_eq!(state.variable("x"), None);
    let state = State::new(AngleRepresentation::Degree);
    assert!(matches!(state.angle_representation(), AngleRepresentation::Degree));
    assert_eq!(state.variable(""), None);
}

#[test]
fn variables_are_bound_replaced_and_removed() {
    let mut state = State::new(AngleRepresentation::Degree);
    let one = CalculationResult::HighPrecision(decimal(1, 0));
    let two = CalculationResult::StandardPrecision(decimal(2, 0));
    let three = CalculationResult::HighPrecision(decimal(3, 0));

    state.push_variable("x", one.clone());
    state.push_variable("y", two.clone());
    assert_eq!(state.variable("x"), Some(&one));
    assert_eq!(state.variable("y"), Some(&two));
    assert_eq!(state.variable("z"), None);
    assert_eq!(state.variable("X"), None);

    state.push_variable("x", three.clone());
    assert_eq!(state.variable("x"), Some(&three));
    assert_eq!(state.variable("y"), Some(&two));

    state.remove_variable("x");
    assert_eq!(state.variable("x"), None);
    assert_eq!(state.variable("y"), Some(&two));

    state.remove_variable("x");
    state.remove_variable("never bound");
    assert_eq!(state.variable("y"), Some(&two));
    assert!(matches!(state.angle_representation(), AngleRepresentation::Degree));

    state.remove_variable("y");
    assert_eq!(state.variable("y"), None);
}

#[test]
fn variables_play_no_part_in_an_evaluation() {
    let mut state = State::default();
    state.push_variable("add", CalculationResult::HighPrecision(decimal(100, 0)));
    state.push_variable("1", CalculationResult::HighPrecision(decimal(100, 0)));
    let calculator = Calculator::new(state);
    assert_eq!(calculator.evaluate_high("add(1, 1)"), Ok(decimal(2, 0)));
}

#[test]
fn operation_names() {
    assert_eq!(
        Calculator::<Decimal>::get_binary_operations(),
        vec!["add", "sub", "mul", "div", "pow"]
    );
    assert_eq!(
        Calculator::<Decimal>::get_unary_operations(),
        vec!["abs", "sqrt", "sin", "cos", "tg", "ctg"]
    );
    for name in Calculator::<Decimal>::get_binary_operations() {
        assert!(GrammarParser::parse(Rule::binary_op, name).is_ok());
    }
    for name in Calculator::<Decimal>::get_unary_operations() {
        assert!(GrammarParser::parse(Rule::unary_op, name).is_ok());
    }
}

#[test]
fn texts_nest_as_expressions_do() {
    let calculator = radians();
    let inner = calculator.evaluate_high("sub(10,4)").unwrap();
    let outer = calculator.evaluate_high("mul(sub(10,4),abs(-7))").unwrap();
    assert_eq!(outer, inner.mul(&decimal(7, 0)).unwrap());
    assert_eq!(outer, decimal(42, 0));

    let by_hand = binary(
        BinaryOperation::Pow,
        number(2),
        binary(BinaryOperation::Pow, number(2), number(2)),
    );
    assert_eq!(
        calculator.evaluate_high("pow(2,pow(2,2))"),
        calculator.evaluate_expression(by_hand)
    );
}

#[test]
fn a_closing_parenthesis_too_many_plays_no_part() {
    let calculator = radians();
    assert_eq!(
        calculator.evaluate_high("pow(2, pow(2, 2)))"),
        calculator.evaluate_high("pow(2, pow(2, 2))")
    );
    assert_eq!(calculator.evaluate_high("add(1, 2)) and more"), Ok(decimal(3, 0)));
}

#[test]
fn a_clone_of_an_expression_evaluates_alike() {
    let state = State::default();
    let expression = binary(
        BinaryOperation::Mul,
        binary(BinaryOperation::Sub, number(10), number(4)),
        unary(UnaryOperation::Abs, number(-7)),
    );
    let copy = expression.clone();
    assert_eq!(copy.evaluate(&state), Ok(decimal(42, 0)));
    assert_eq!(expression.evaluate(&state), Ok(decimal(42, 0)));
    if let Expression::Binary(application) = &expression {
        assert_eq!(application.clone().evaluate(&state), Ok(decimal(42, 0)));
        if let Expression::Unary(function) = application.rhs.as_ref() {
            assert_eq!(function.clone().evaluate(&state), Ok(decimal(7, 0)));
        } else {
            panic!("the right operand is an application of one operand");
        }
    } else {
        panic!("the expression is an application of two operands");
    }
}

#[test]
fn a_clone_of_a_state_has_bindings_of_its_own() {
    let mut state = State::new(AngleRepresentation::Degree);
    let one = CalculationResult::HighPrecision(decimal(1, 0));
    let two = CalculationResult::HighPrecision(decimal(2, 0));
    state.push_variable("x", one.clone());
    state.push_variable("y", two.clone());

    let mut copy = state.clone();
    assert!(matches!(copy.angle_representation(), AngleRepresentation::Degree));
    assert_eq!(copy.variable("x"), Some(&one));
    assert_eq!(copy.variable("y"), Some(&two));

    copy.remove_variable("x");
    copy.push_variable("y", one.clone());
    assert_eq!(copy.variable("x"), None);
    assert_eq!(copy.variable("y"), Some(&one));
    assert_eq!(state.variable("x"), Some(&one));
    assert_eq!(state.variable("y"), Some(&two));
}

#[test]
fn a_name_is_bound_once() {
    let mut state = State::default();
    for round in 0..5 {
        state.push_variable("x", CalculationResult::HighPrecision(decimal(round, 0)));
    }
    assert_eq!(state.variable("x"), Some(&CalculationResult::HighPrecision(decimal(4, 0))));
    state.remove_variable("x");
    assert_eq!(state.variable("x"), None);
}
