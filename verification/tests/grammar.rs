use calculator::parser::{GrammarParser, Rule};

#[test]
pub fn binary_operation() {
    let operations = vec!["add", "sub", "mul", "div", "pow"];
    for operation in operations {
        GrammarParser::parse(Rule::binary_op, operation).unwrap();
    }
}

#[test]
pub fn unary_operation() {
    let operations = vec!["abs", "sqrt", "sin", "cos", "tg", "ctg"];
    for operation in operations {
        GrammarParser::parse(Rule::unary_op, operation).unwrap();
    }
}

#[test]
pub fn num() {
    let literals = vec!["65279", "3.1415927", "1e10", "1e-10", "3.1415927e10"];
    for literal in literals {
        GrammarParser::parse(Rule::literal_expr, literal).unwrap();
    }
}

#[test]
pub fn binary_expression() {
    // 1 + 2
    GrammarParser::parse(Rule::binary_expr, "add(1, 2)").unwrap();

    // 5^(8^3)
    GrammarParser::parse(Rule::binary_expr, "pow(5, pow(8, 3))").unwrap();

    // Test surrounding with parentheses. 5 - (2^2)
    GrammarParser::parse(Rule::binary_expr, "sub((5), (pow(2, 2)))").unwrap();
}

#[test]
pub fn unary_expression() {
    // sin 3.14
    GrammarParser::parse(Rule::unary_expr, "sin(3.14)").unwrap();

    // |-10|
    GrammarParser::parse(Rule::unary_expr, "abs(-10)").unwrap();

    // Square root from 100
    GrammarParser::parse(Rule::unary_expr, "sqrt(100)").unwrap();
}

#[test]
pub fn term() {
    GrammarParser::parse(Rule::term, "5").unwrap();
    GrammarParser::parse(Rule::term, "abs(5)").unwrap();

    GrammarParser::parse(Rule::term, "(5)").unwrap();
    GrammarParser::parse(Rule::term, "(((add(1,2))))").unwrap();
}

fn parse(rule: Rule, text: &str) -> Result<calculator::parser::ParseNode, calculator::CalculationError> {
    GrammarParser::parse(rule, text)
}

#[test]
fn binary_expression_tree() {
    let node = parse(Rule::expr, "add(1, 2)").unwrap();
    assert_eq!(node.rule, Rule::binary_expr);
    assert_eq!(node.text, "add(1, 2)");
    assert_eq!(node.children.len(), 3);

    let operator = &node.children[0];
    assert_eq!(operator.rule, Rule::binary_op);
    assert_eq!(operator.text, "add");
    assert_eq!(operator.children.len(), 1);
    assert_eq!(operator.children[0].rule, Rule::add);
    assert_eq!(operator.children[0].text, "add");
    assert!(operator.children[0].children.is_empty());

    let left = &node.children[1];
    assert_eq!(left.rule, Rule::literal_expr);
    assert_eq!(left.text, "1");
    assert_eq!(left.children.len(), 1);
    assert_eq!(left.children[0].rule, Rule::num);
    assert_eq!(left.children[0].text, "1");

    let right = &node.children[2];
    assert_eq!(right.rule, Rule::literal_expr);
    assert_eq!(right.text, "2");
}

#[test]
fn unary_expression_tree() {
    let node = parse(Rule::expr, "sqrt(100)").unwrap();
    assert_eq!(node.rule, Rule::unary_expr);
    assert_eq!(node.text, "sqrt(100)");
    assert_eq!(node.children.len(), 2);
    assert_eq!(node.children[0].rule, Rule::unary_op);
    assert_eq!(node.children[0].children[0].rule, Rule::sqrt);
    assert_eq!(node.children[1].rule, Rule::literal_expr);
    assert_eq!(node.children[1].children[0].text, "100");
}

#[test]
fn every_operation_name_is_told_apart() {
    let unary = [
        ("abs", Rule::abs),
        ("sqrt", Rule::sqrt),
        ("sin", Rule::sin),
        ("cos", Rule::cos),
        ("tg", Rule::tg),
        ("ctg", Rule::ctg),
    ];
    for (word, rule) in unary {
        let node = parse(Rule::unary_op, word).unwrap();
        assert_eq!(node.children[0].rule, rule);
        assert_eq!(parse(rule, word).unwrap().rule, rule);
        assert!(parse(Rule::binary_op, word).is_err());
    }
    let binary = [
        ("add", Rule::add),
        ("sub", Rule::sub),
        ("mul", Rule::mul),
        ("div", Rule::div),
        ("pow", Rule::pow),
    ];
    for (word, rule) in binary {
        let node = parse(Rule::binary_op, word).unwrap();
        assert_eq!(node.children[0].rule, rule);
        assert_eq!(parse(rule, word).unwrap().rule, rule);
        assert!(parse(Rule::unary_op, word).is_err());
    }
}

#[test]
fn operation_names_are_case_sensitive() {
    assert!(parse(Rule::expr, "ADD(1, 2)").is_err());
    assert!(parse(Rule::expr, "Sin(1)").is_err());
}

#[test]
fn parentheses_leave_no_node() {
    let node = parse(Rule::term, "(((add(1,2))))").unwrap();
    assert_eq!(node.rule, Rule::binary_expr);
    assert_eq!(node.text, "add(1,2)");

    let node = parse(Rule::term, "( 5 )").unwrap();
    assert_eq!(node.rule, Rule::literal_expr);
    assert_eq!(node.text, "5");

    let node = parse(Rule::binary_expr, "sub((5), (pow(2, 2)))").unwrap();
    assert_eq!(node.children[1].rule, Rule::literal_expr);
    assert_eq!(node.children[1].text, "5");
    assert_eq!(node.children[2].rule, Rule::binary_expr);
    assert_eq!(node.children[2].text, "pow(2, 2)");
}

#[test]
fn the_rule_expr_takes_no_parentheses_of_its_own() {
    assert!(parse(Rule::expr, "(5)").is_err());
    assert!(parse(Rule::term, "(5)").is_ok());
}

#[test]
fn whitespace_between_the_parts() {
    let node = parse(Rule::expr, "add \t( 1 ,\n 2 )").unwrap();
    assert_eq!(node.rule, Rule::binary_expr);
    assert_eq!(node.text, "add \t( 1 ,\n 2 )");
    assert_eq!(node.children[1].text, "1");
    assert_eq!(node.children[2].text, "2");

    // Not before the first part.
    assert!(parse(Rule::expr, " add(1, 2)").is_err());
    // Not inside a numeral or a word.
    assert!(parse(Rule::expr, "a dd(1, 2)").is_err());
    assert_eq!(parse(Rule::expr, "1 2").unwrap().text, "1");
}

#[test]
fn what_follows_the_match_is_not_looked_at() {
    let node = parse(Rule::expr, "pow(5, pow(8, 3)))").unwrap();
    assert_eq!(node.text, "pow(5, pow(8, 3))");

    let node = parse(Rule::expr, "12abc").unwrap();
    assert_eq!(node.text, "12");

    let node = parse(Rule::unary_op, "sinh").unwrap();
    assert_eq!(node.text, "sin");
}

#[test]
fn numerals() {
    let whole = [
        "0", "65279", "-5", "3.1415927", "-0.5", "1e10", "1E10", "1e-10", "1e+10", "3.1415927e10",
        "-2.5E-3",
    ];
    for text in whole {
        let node = parse(Rule::num, text).unwrap();
        assert_eq!(node.rule, Rule::num);
        assert_eq!(node.text, text);
        assert!(node.children.is_empty());
    }
    // A numeral ends where it cannot go on.
    assert_eq!(parse(Rule::num, "1.").unwrap().text, "1");
    assert_eq!(parse(Rule::num, "1.e5").unwrap().text, "1");
    assert_eq!(parse(Rule::num, "1e").unwrap().text, "1");
    assert_eq!(parse(Rule::num, "1e+").unwrap().text, "1");
    assert_eq!(parse(Rule::num, "1.5.5").unwrap().text, "1.5");
    assert_eq!(parse(Rule::num, "1e5e5").unwrap().text, "1e5");
    assert_eq!(parse(Rule::num, "1-2").unwrap().text, "1");
    // It needs a digit first, after an optional minus.
    for text in ["", "-", ".5", "+5", "e5", "--5", "- 5", "x"] {
        assert_eq!(parse(Rule::num, text).unwrap_err(), calculator::CalculationError::Syntax);
    }
}

#[test]
fn malformed_texts_are_syntax_errors() {
    let texts = [
        "", "add(1", "add(1,", "add(1, 2", "add(1 2)", "add 1, 2", "add(, 2)", "add()", "sin()",
        "sin(1, 2)", "add(1)", "foo(1)", "sinh(1)", "(", ")", "add(1, sin)", "abs(-)",
    ];
    for text in texts {
        assert_eq!(parse(Rule::expr, text).unwrap_err(), calculator::CalculationError::Syntax);
    }
}

#[test]
fn a_rule_matches_what_it_names_only() {
    assert!(parse(Rule::literal_expr, "add(1, 2)").is_err());
    assert!(parse(Rule::unary_expr, "add(1, 2)").is_err());
    assert!(parse(Rule::binary_expr, "sin(1)").is_err());
    assert!(parse(Rule::binary_expr, "1").is_err());
    assert!(parse(Rule::add, "sub").is_err());
    assert!(parse(Rule::num, "abs").is_err());
    assert!(parse(Rule::expr, "add").is_err());
}

#[test]
fn nesting() {
    let node = parse(Rule::expr, "add(sin(mul(2, 3)), sqrt(abs(-4)))").unwrap();
    assert_eq!(node.rule, Rule::binary_expr);
    let left = &node.children[1];
    assert_eq!(left.rule, Rule::unary_expr);
    assert_eq!(left.text, "sin(mul(2, 3))");
    assert_eq!(left.children[1].rule, Rule::binary_expr);
    assert_eq!(left.children[1].text, "mul(2, 3)");
    let right = &node.children[2];
    assert_eq!(right.text, "sqrt(abs(-4))");
    assert_eq!(right.children[1].children[1].children[0].text, "-4");
}

#[test]
fn texts_beyond_ascii() {
    assert!(parse(Rule::expr, "añd(1, 2)").is_err());
    assert_eq!(parse(Rule::expr, "12€").unwrap().text, "12");
    assert!(parse(Rule::expr, "add(1, ２)").is_err());
}

fn same_tree(one: &calculator::parser::ParseNode, other: &calculator::parser::ParseNode) -> bool {
    one.rule == other.rule
        && one.text == other.text
        && one.children.len() == other.children.len()
        && one.children.iter().zip(other.children.iter()).all(|(a, b)| same_tree(a, b))
}

fn every_expression_is_its_own_parse(node: &calculator::parser::ParseNode) {
    let again = parse(Rule::expr, &node.text).unwrap();
    assert!(same_tree(node, &again));
    for child in node.children.iter().skip(1) {
        every_expression_is_its_own_parse(child);
    }
}

#[test]
fn the_text_of_a_node_is_parsed_to_the_node() {
    let texts = [
        "7",
        "-1.5e-3",
        "abs( -4 )",
        "add(sin(mul(2, 3)), sqrt(abs(-4)))",
        "sub((5), (pow(2, 2)))",
        "pow ( ( ( tg ( 1 ) ) ) ,\t( -2 ) )",
    ];
    for text in texts {
        every_expression_is_its_own_parse(&parse(Rule::expr, text).unwrap());
    }
}

#[test]
fn a_text_is_parsed_the_same_wherever_it_stands() {
    let parts = ["7", "-1.5e-3", "abs(-4)", "(2)", "add(sin(1), (sqrt(4)))"];
    for left in parts {
        for right in parts {
            let alone_left = parse(Rule::term, left).unwrap();
            let alone_right = parse(Rule::term, right).unwrap();
            let text = format!("mul({},{})", left, right);
            let node = parse(Rule::expr, &text).unwrap();
            assert_eq!(node.text, text);
            assert_eq!(node.children[0].children[0].rule, Rule::mul);
            assert!(same_tree(&node.children[1], &alone_left));
            assert!(same_tree(&node.children[2], &alone_right));

            let text = format!("cos({})", left);
            let node = parse(Rule::expr, &text).unwrap();
            assert!(same_tree(&node.children[1], &alone_left));
        }
    }
}

#[test]
fn the_rest_of_a_text_plays_no_part() {
    let texts = ["7", "abs(-4)", "add(sin(1), (sqrt(4)))"];
    let rests = ["", ")", " ", " + 1", ", 2", "x", "-1", "+5"];
    for text in texts {
        let alone = parse(Rule::expr, text).unwrap();
        for rest in rests {
            let longer = format!("{}{}", text, rest);
            assert!(same_tree(&parse(Rule::expr, &longer).unwrap(), &alone));
            assert!(same_tree(&parse(Rule::term, &longer).unwrap(), &alone));
        }
    }
    // What follows may lengthen a numeral.
    assert_eq!(parse(Rule::expr, "75").unwrap().text, "75");
    assert_eq!(parse(Rule::expr, "7.5").unwrap().text, "7.5");
    assert_eq!(parse(Rule::expr, "7e5").unwrap().text, "7e5");
}
