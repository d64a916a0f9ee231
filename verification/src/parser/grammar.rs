//! The grammar, as functions on a text and a position in it.
//!
//! ```text
//! whitespace  = " " | "\t" | "\r" | "\n"
//! num         = "-"? digit+ ("." digit+)? (("e" | "E") ("+" | "-")? digit+)?
//! literal_expr = num
//! unary_op    = "abs" | "sqrt" | "sin" | "cos" | "tg" | "ctg"
//! binary_op   = "add" | "sub" | "mul" | "div" | "pow"
//! unary_expr  = unary_op "(" term ")"
//! binary_expr = binary_op "(" term "," term ")"
//! expr        = literal_expr | unary_expr | binary_expr
//! term        = expr | "(" term ")"
//! ```
//!
//! Whitespace may stand between the parts of `unary_expr`, `binary_expr` and
//! of a parenthesised `term`, and nowhere else.  A rule matches a prefix of
//! the text: what follows the match is not looked at.  Alternatives are tried
//! in the order given and repetitions take all they can.
//!
//! `expr` and `term` leave no node in the tree: their match is the node of
//! the alternative that matched, and parentheses leave no trace.
use vstd::prelude::*;

use crate::parser::{ParseTree, Rule};
use crate::CalculationError;

verus! {

/// Whether the character is whitespace: a space, a tab, a carriage return
/// or a line feed.
pub open spec fn is_whitespace(c: char) -> bool {
    c == ' ' || c == '\t' || c == '\r' || c == '\n'
}

/// Whether the character is one of the ten digits.
pub open spec fn is_digit(c: char) -> bool {
    '0' <= c <= '9'
}

/// Whether the text holds the character `c` at `pos`.
pub open spec fn char_at(s: Seq<char>, pos: int, c: char) -> bool {
    0 <= pos < s.len() && s[pos] == c
}

/// Whether the text holds `word` from `pos` on.
pub open spec fn word_at(s: Seq<char>, pos: int, word: Seq<char>) -> bool {
    0 <= pos && pos + word.len() <= s.len() && s.subrange(pos, pos + word.len()) == word
}

/// The first position from `pos` on that holds no whitespace.
pub open spec fn skip_whitespace(s: Seq<char>, pos: int) -> int
    decreases s.len() - pos,
{
    if 0 <= pos < s.len() && is_whitespace(s[pos]) {
        skip_whitespace(s, pos + 1)
    } else {
        pos
    }
}

/// The first position from `pos` on that holds no digit.
pub open spec fn digits_end(s: Seq<char>, pos: int) -> int
    decreases s.len() - pos,
{
    if 0 <= pos < s.len() && is_digit(s[pos]) {
        digits_end(s, pos + 1)
    } else {
        pos
    }
}

/// The end of an optional `-` at `pos`.
pub open spec fn sign_end(s: Seq<char>, pos: int) -> int {
    if char_at(s, pos, '-') {
        pos + 1
    } else {
        pos
    }
}

/// The end of an optional fraction at `pos`: a point and at least one digit.
pub open spec fn fraction_end(s: Seq<char>, pos: int) -> int {
    if char_at(s, pos, '.') && digits_end(s, pos + 1) > pos + 1 {
        digits_end(s, pos + 1)
    } else {
        pos
    }
}

/// Where the digits of an exponent begin whose letter stands at `pos`.
pub open spec fn exponent_digits(s: Seq<char>, pos: int) -> int {
    if char_at(s, pos + 1, '+') || char_at(s, pos + 1, '-') {
        pos + 2
    } else {
        pos + 1
    }
}

/// The end of an optional exponent at `pos`: the letter `e` or `E`, an
/// optional sign and at least one digit.
pub open spec fn exponent_end(s: Seq<char>, pos: int) -> int {
    if (char_at(s, pos, 'e') || char_at(s, pos, 'E')) && digits_end(s, exponent_digits(s, pos))
        > exponent_digits(s, pos) {
        digits_end(s, exponent_digits(s, pos))
    } else {
        pos
    }
}

/// The end of the numeral that begins at `pos`, if one does.
pub open spec fn numeral_end(s: Seq<char>, pos: int) -> Option<int> {
    let digits = sign_end(s, pos);
    if digits_end(s, digits) > digits {
        Some(exponent_end(s, fraction_end(s, digits_end(s, digits))))
    } else {
        None
    }
}

/// The word of an operation's rule; no other rule has a word.
pub open spec fn word(rule: Rule) -> Seq<char> {
    match rule {
        Rule::abs => seq!['a', 'b', 's'],
        Rule::sqrt => seq!['s', 'q', 'r', 't'],
        Rule::sin => seq!['s', 'i', 'n'],
        Rule::cos => seq!['c', 'o', 's'],
        Rule::tg => seq!['t', 'g'],
        Rule::ctg => seq!['c', 't', 'g'],
        Rule::add => seq!['a', 'd', 'd'],
        Rule::sub => seq!['s', 'u', 'b'],
        Rule::mul => seq!['m', 'u', 'l'],
        Rule::div => seq!['d', 'i', 'v'],
        Rule::pow => seq!['p', 'o', 'w'],
        _ => Seq::empty(),
    }
}

/// The operation of one operand whose word stands at `pos`, if one does.
pub open spec fn unary_name_at(s: Seq<char>, pos: int) -> Option<Rule> {
    if word_at(s, pos, word(Rule::abs)) {
        Some(Rule::abs)
    } else if word_at(s, pos, word(Rule::sqrt)) {
        Some(Rule::sqrt)
    } else if word_at(s, pos, word(Rule::sin)) {
        Some(Rule::sin)
    } else if word_at(s, pos, word(Rule::cos)) {
        Some(Rule::cos)
    } else if word_at(s, pos, word(Rule::tg)) {
        Some(Rule::tg)
    } else if word_at(s, pos, word(Rule::ctg)) {
        Some(Rule::ctg)
    } else {
        None
    }
}

/// The operation of two operands whose word stands at `pos`, if one does.
pub open spec fn binary_name_at(s: Seq<char>, pos: int) -> Option<Rule> {
    if word_at(s, pos, word(Rule::add)) {
        Some(Rule::add)
    } else if word_at(s, pos, word(Rule::sub)) {
        Some(Rule::sub)
    } else if word_at(s, pos, word(Rule::mul)) {
        Some(Rule::mul)
    } else if word_at(s, pos, word(Rule::div)) {
        Some(Rule::div)
    } else if word_at(s, pos, word(Rule::pow)) {
        Some(Rule::pow)
    } else {
        None
    }
}

/// A node without children for the text from `start` to `end`.
pub open spec fn leaf(rule: Rule, s: Seq<char>, start: int, end: int) -> ParseTree {
    ParseTree { rule, text: s.subrange(start, end), children: Seq::empty() }
}

/// A node with the given children for the text from `start` to `end`.
pub open spec fn inner(
    rule: Rule,
    s: Seq<char>,
    start: int,
    end: int,
    children: Seq<ParseTree>,
) -> ParseTree {
    ParseTree { rule, text: s.subrange(start, end), children }
}

/// A match: the tree of what matched, and the position where the match ends.
pub type Match = Option<(ParseTree, int)>;

/// The match of a word's own rule: a leaf.
pub open spec fn match_word(rule: Rule, s: Seq<char>, pos: int) -> Match {
    if word(rule).len() > 0 && word_at(s, pos, word(rule)) {
        Some((leaf(rule, s, pos, pos + word(rule).len()), pos + word(rule).len()))
    } else {
        None
    }
}

/// The match of an operator: a node of the rule `kind` over the leaf of the
/// operation named.
pub open spec fn match_operator(kind: Rule, name: Option<Rule>, s: Seq<char>, pos: int) -> Match {
    match name {
        Some(name) => {
            let end = pos + word(name).len();
            Some((inner(kind, s, pos, end, seq![leaf(name, s, pos, end)]), end))
        },
        None => None,
    }
}

/// The match of `unary_op` at `pos`.
pub open spec fn match_unary_op(s: Seq<char>, pos: int) -> Match {
    match_operator(Rule::unary_op, unary_name_at(s, pos), s, pos)
}

/// The match of `binary_op` at `pos`.
pub open spec fn match_binary_op(s: Seq<char>, pos: int) -> Match {
    match_operator(Rule::binary_op, binary_name_at(s, pos), s, pos)
}

/// The match of `num` at `pos`: a leaf.
pub open spec fn match_num(s: Seq<char>, pos: int) -> Match {
    match numeral_end(s, pos) {
        Some(end) => Some((leaf(Rule::num, s, pos, end), end)),
        None => None,
    }
}

/// The match of `literal_expr` at `pos`: a node over the leaf of the
/// numeral.
pub open spec fn match_literal(s: Seq<char>, pos: int) -> Match {
    match numeral_end(s, pos) {
        Some(end) => Some(
            (inner(Rule::literal_expr, s, pos, end, seq![leaf(Rule::num, s, pos, end)]), end),
        ),
        None => None,
    }
}

/// The position after the character `c`, which must follow optional
/// whitespace at `pos`; and after the whitespace that follows `c`, where
/// `then_whitespace` says so.
pub open spec fn expect(s: Seq<char>, pos: int, c: char, then_whitespace: bool) -> Option<int> {
    let at = skip_whitespace(s, pos);
    if char_at(s, at, c) {
        Some(
            if then_whitespace {
                skip_whitespace(s, at + 1)
            } else {
                at + 1
            },
        )
    } else {
        None
    }
}

/// Skipping whitespace moves forward and stays inside the text.
pub proof fn lemma_skip_whitespace_bounds(s: Seq<char>, pos: int)
    requires
        0 <= pos <= s.len(),
    ensures
        pos <= skip_whitespace(s, pos) <= s.len(),
    decreases s.len() - pos,
{
    if pos < s.len() && is_whitespace(s[pos]) {
        lemma_skip_whitespace_bounds(s, pos + 1);
    }
}

/// A character that is found where it is expected lies inside the text, and
/// the position after it lies beyond the position where it was looked for.
pub proof fn lemma_expect_bounds(s: Seq<char>, pos: int, c: char, then_whitespace: bool)
    requires
        0 <= pos <= s.len(),
    ensures
        expect(s, pos, c, then_whitespace) matches Some(next) ==> pos < next <= s.len(),
{
    lemma_skip_whitespace_bounds(s, pos);
    let at = skip_whitespace(s, pos);
    if char_at(s, at, c) {
        lemma_skip_whitespace_bounds(s, at + 1);
    }
}

/// The match, if it ends inside the text and beyond `from`.  Every match of
/// a rule at `from` does ([`lemma_match_bounds`]); the definition of
/// `binary_expr` says so of its left operand, on which the position of the
/// right one depends.
pub open spec fn forward(s: Seq<char>, from: int, found: Match) -> Match {
    match found {
        Some((_, end)) if from < end <= s.len() => found,
        _ => None,
    }
}

/// The match of `term` at `pos`: that of `expr`, or else that of a `term`
/// in parentheses.
pub open spec fn match_term(s: Seq<char>, pos: int) -> Match
    decreases s.len() - pos, 2int,
{
    if !(0 <= pos <= s.len()) {
        None
    } else {
        match match_expr(s, pos) {
            Some(found) => Some(found),
            None => {
                if char_at(s, pos, '(') {
                    proof {
                        lemma_skip_whitespace_bounds(s, pos + 1);
                    }
                    match match_term(s, skip_whitespace(s, pos + 1)) {
                        Some((tree, end)) => match expect(s, end, ')', false) {
                            Some(next) => Some((tree, next)),
                            None => None,
                        },
                        None => None,
                    }
                } else {
                    None
                }
            },
        }
    }
}

/// The match of `expr` at `pos`: that of the first of `literal_expr`,
/// `unary_expr` and `binary_expr` that matches.
pub open spec fn match_expr(s: Seq<char>, pos: int) -> Match
    decreases s.len() - pos, 1int,
{
    if !(0 <= pos <= s.len()) {
        None
    } else {
        match match_literal(s, pos) {
            Some(found) => Some(found),
            None => match match_unary(s, pos) {
                Some(found) => Some(found),
                None => match_binary(s, pos),
            },
        }
    }
}

/// The match of `unary_expr` at `pos`: a node over the operator and the
/// operand, for the text from the operator to the closing parenthesis.
pub open spec fn match_unary(s: Seq<char>, pos: int) -> Match
    decreases s.len() - pos, 0int,
{
    if !(0 <= pos <= s.len()) {
        None
    } else {
        match match_unary_op(s, pos) {
            None => None,
            Some((operation, after_name)) => match expect(s, after_name, '(', true) {
                None => None,
                Some(at_operand) => {
                    proof {
                        lemma_expect_bounds(s, after_name, '(', true);
                    }
                    match match_term(s, at_operand) {
                        None => None,
                        Some((operand, after_operand)) => match expect(s, after_operand, ')', false) {
                            None => None,
                            Some(end) => Some(
                                (inner(Rule::unary_expr, s, pos, end, seq![operation, operand]), end),
                            ),
                        },
                    }
                },
            },
        }
    }
}

/// The match of `binary_expr` at `pos`: a node over the operator and the
/// two operands, for the text from the operator to the closing parenthesis.
pub open spec fn match_binary(s: Seq<char>, pos: int) -> Match
    decreases s.len() - pos, 0int,
{
    if !(0 <= pos <= s.len()) {
        None
    } else {
        match match_binary_op(s, pos) {
            None => None,
            Some((operation, after_name)) => match expect(s, after_name, '(', true) {
                None => None,
                Some(at_left) => {
                    proof {
                        lemma_expect_bounds(s, after_name, '(', true);
                    }
                    match forward(s, at_left, match_term(s, at_left)) {
                        None => None,
                        Some((left, after_left)) => match expect(s, after_left, ',', true) {
                            None => None,
                            Some(at_right) => {
                                proof {
                                    lemma_expect_bounds(s, after_left, ',', true);
                                }
                                match match_term(s, at_right) {
                                    None => None,
                                    Some((right, after_right)) => match expect(
                                        s,
                                        after_right,
                                        ')',
                                        false,
                                    ) {
                                        None => None,
                                        Some(end) => Some(
                                            (
                                                inner(
                                                    Rule::binary_expr,
                                                    s,
                                                    pos,
                                                    end,
                                                    seq![operation, left, right],
                                                ),
                                                end,
                                            ),
                                        ),
                                    },
                                }
                            },
                        },
                    }
                },
            },
        }
    }
}

/// The match of any rule at `pos`.
pub open spec fn match_rule(rule: Rule, s: Seq<char>, pos: int) -> Match {
    match rule {
        Rule::expr => match_expr(s, pos),
        Rule::term => match_term(s, pos),
        Rule::literal_expr => match_literal(s, pos),
        Rule::unary_expr => match_unary(s, pos),
        Rule::binary_expr => match_binary(s, pos),
        Rule::num => match_num(s, pos),
        Rule::unary_op => match_unary_op(s, pos),
        Rule::binary_op => match_binary_op(s, pos),
        _ => match_word(rule, s, pos),
    }
}

/// The parse tree of a text under a rule: the tree of the rule's match at
/// the start of the text, or [`CalculationError::Syntax`] where the rule does
/// not match there.
pub open spec fn parse_text(rule: Rule, s: Seq<char>) -> Result<ParseTree, CalculationError> {
    match match_rule(rule, s, 0) {
        Some((tree, _)) => Ok(tree),
        None => Err(CalculationError::Syntax),
    }
}

/// A run of digits ends inside the text.
pub proof fn lemma_digits_end_bounds(s: Seq<char>, pos: int)
    requires
        0 <= pos <= s.len(),
    ensures
        pos <= digits_end(s, pos) <= s.len(),
    decreases s.len() - pos,
{
    if pos < s.len() && is_digit(s[pos]) {
        lemma_digits_end_bounds(s, pos + 1);
    }
}

/// A numeral is not empty and ends inside the text.
pub proof fn lemma_numeral_bounds(s: Seq<char>, pos: int)
    ensures
        numeral_end(s, pos) matches Some(end) ==> 0 <= pos < end <= s.len(),
{
    if 0 <= pos <= s.len() {
        let digits = sign_end(s, pos);
        lemma_digits_end_bounds(s, digits);
        let whole = digits_end(s, digits);
        if whole > digits {
            if char_at(s, whole, '.') {
                lemma_digits_end_bounds(s, whole + 1);
            }
            let fraction = fraction_end(s, whole);
            if char_at(s, fraction, 'e') || char_at(s, fraction, 'E') {
                if exponent_digits(s, fraction) <= s.len() {
                    lemma_digits_end_bounds(s, exponent_digits(s, fraction));
                }
            }
        }
    }
}

/// A match of `term` is not empty and ends inside the text.
pub proof fn lemma_term_bounds(s: Seq<char>, pos: int)
    ensures
        match_term(s, pos) matches Some((_, end)) ==> 0 <= pos < end <= s.len(),
    decreases s.len() - pos, 2int,
{
    if 0 <= pos <= s.len() {
        lemma_expr_bounds(s, pos);
        if match_expr(s, pos) is None && char_at(s, pos, '(') {
            lemma_skip_whitespace_bounds(s, pos + 1);
            lemma_term_bounds(s, skip_whitespace(s, pos + 1));
            if let Some((_, end)) = match_term(s, skip_whitespace(s, pos + 1)) {
                lemma_expect_bounds(s, end, ')', false);
            }
        }
    }
}

/// A match of `expr` is not empty and ends inside the text.
pub proof fn lemma_expr_bounds(s: Seq<char>, pos: int)
    ensures
        match_expr(s, pos) matches Some((_, end)) ==> 0 <= pos < end <= s.len(),
    decreases s.len() - pos, 1int,
{
    if 0 <= pos <= s.len() {
        lemma_numeral_bounds(s, pos);
        lemma_unary_bounds(s, pos);
        lemma_binary_bounds(s, pos);
    }
}

/// A match of `unary_expr` is not empty and ends inside the text.
pub proof fn lemma_unary_bounds(s: Seq<char>, pos: int)
    ensures
        match_unary(s, pos) matches Some((_, end)) ==> 0 <= pos < end <= s.len(),
    decreases s.len() - pos, 0int,
{
    if 0 <= pos <= s.len() {
        if let Some((_, after_name)) = match_unary_op(s, pos) {
            lemma_expect_bounds(s, after_name, '(', true);
            if let Some(at_operand) = expect(s, after_name, '(', true) {
                lemma_term_bounds(s, at_operand);
                if let Some((_, after_operand)) = match_term(s, at_operand) {
                    lemma_expect_bounds(s, after_operand, ')', false);
                }
            }
        }
    }
}

/// A match of `binary_expr` is not empty and ends inside the text.
pub proof fn lemma_binary_bounds(s: Seq<char>, pos: int)
    ensures
        match_binary(s, pos) matches Some((_, end)) ==> 0 <= pos < end <= s.len(),
    decreases s.len() - pos, 0int,
{
    if 0 <= pos <= s.len() {
        if let Some((_, after_name)) = match_binary_op(s, pos) {
            lemma_expect_bounds(s, after_name, '(', true);
            if let Some(at_left) = expect(s, after_name, '(', true) {
                lemma_term_bounds(s, at_left);
                if let Some((_, after_left)) = match_term(s, at_left) {
                    lemma_expect_bounds(s, after_left, ',', true);
                    if let Some(at_right) = expect(s, after_left, ',', true) {
                        lemma_term_bounds(s, at_right);
                        if let Some((_, after_right)) = match_term(s, at_right) {
                            lemma_expect_bounds(s, after_right, ')', false);
                        }
                    }
                }
            }
        }
    }
}

/// Every match of a rule is not empty and ends inside the text.  So the
/// left operand of `binary_expr` always moves [`forward`].
pub proof fn lemma_match_bounds(rule: Rule, s: Seq<char>, pos: int)
    ensures
        match_rule(rule, s, pos) matches Some((_, end)) ==> 0 <= pos < end <= s.len(),
        forward(s, pos, match_term(s, pos)) == match_term(s, pos),
{
    lemma_term_bounds(s, pos);
    lemma_expr_bounds(s, pos);
    lemma_unary_bounds(s, pos);
    lemma_binary_bounds(s, pos);
    lemma_numeral_bounds(s, pos);
}

/// Whether the rule is that of an operation of two operands.
pub open spec fn is_binary_name(rule: Rule) -> bool {
    rule == Rule::add || rule == Rule::sub || rule == Rule::mul || rule == Rule::div || rule
        == Rule::pow
}

/// Whether the rule is that of an operation of one operand.
pub open spec fn is_unary_name(rule: Rule) -> bool {
    rule == Rule::abs || rule == Rule::sqrt || rule == Rule::sin || rule == Rule::cos || rule
        == Rule::tg || rule == Rule::ctg
}

/// Whether the tree is that of an operator of the given kind, `unary_op`
/// or `binary_op`: a node of that rule over one node that names an
/// operation of the kind.
pub open spec fn is_operator_tree(tree: ParseTree, kind: Rule) -> bool {
    &&& tree.rule == kind
    &&& tree.children.len() == 1
    &&& kind == Rule::unary_op ==> is_unary_name(tree.children[0].rule)
    &&& kind == Rule::binary_op ==> is_binary_name(tree.children[0].rule)
}

/// Whether the tree has one of the three shapes of an expression: a
/// `literal_expr` over a `num`; a `unary_expr` over an operator and an
/// expression; a `binary_expr` over an operator and two expressions.
pub open spec fn is_expression_tree(tree: ParseTree) -> bool
    decreases tree,
{
    match tree.rule {
        Rule::literal_expr => tree.children.len() == 1 && tree.children[0].rule == Rule::num,
        Rule::unary_expr => {
            &&& tree.children.len() == 2
            &&& is_operator_tree(tree.children[0], Rule::unary_op)
            &&& is_expression_tree(tree.children[1])
        },
        Rule::binary_expr => {
            &&& tree.children.len() == 3
            &&& is_operator_tree(tree.children[0], Rule::binary_op)
            &&& is_expression_tree(tree.children[1])
            &&& is_expression_tree(tree.children[2])
        },
        _ => false,
    }
}

/// The tree of a match of `term` has the shape of an expression.
pub proof fn lemma_term_shape(s: Seq<char>, pos: int)
    ensures
        match_term(s, pos) matches Some((tree, _)) ==> is_expression_tree(tree),
    decreases s.len() - pos, 2int,
{
    if 0 <= pos <= s.len() {
        lemma_expr_shape(s, pos);
        if match_expr(s, pos) is None && char_at(s, pos, '(') {
            lemma_skip_whitespace_bounds(s, pos + 1);
            lemma_term_shape(s, skip_whitespace(s, pos + 1));
        }
    }
}

/// The tree of a match of `expr` has the shape of an expression.
pub proof fn lemma_expr_shape(s: Seq<char>, pos: int)
    ensures
        match_expr(s, pos) matches Some((tree, _)) ==> is_expression_tree(tree),
    decreases s.len() - pos, 1int,
{
    if 0 <= pos <= s.len() {
        lemma_unary_shape(s, pos);
        lemma_binary_shape(s, pos);
    }
}

/// The tree of a match of `unary_expr` has the shape of an expression.
pub proof fn lemma_unary_shape(s: Seq<char>, pos: int)
    ensures
        match_unary(s, pos) matches Some((tree, _)) ==> is_expression_tree(tree),
    decreases s.len() - pos, 0int,
{
    if 0 <= pos <= s.len() {
        if let Some((operation, after_name)) = match_unary_op(s, pos) {
            assert(is_operator_tree(operation, Rule::unary_op));
            lemma_expect_bounds(s, after_name, '(', true);
            if let Some(at_operand) = expect(s, after_name, '(', true) {
                lemma_term_shape(s, at_operand);
            }
        }
    }
}

/// The tree of a match of `binary_expr` has the shape of an expression.
pub proof fn lemma_binary_shape(s: Seq<char>, pos: int)
    ensures
        match_binary(s, pos) matches Some((tree, _)) ==> is_expression_tree(tree),
    decreases s.len() - pos, 0int,
{
    if 0 <= pos <= s.len() {
        if let Some((operation, after_name)) = match_binary_op(s, pos) {
            assert(is_operator_tree(operation, Rule::binary_op));
            lemma_expect_bounds(s, after_name, '(', true);
            if let Some(at_left) = expect(s, after_name, '(', true) {
                lemma_term_shape(s, at_left);
                lemma_term_bounds(s, at_left);
                if let Some((_, after_left)) = match_term(s, at_left) {
                    lemma_expect_bounds(s, after_left, ',', true);
                    if let Some(at_right) = expect(s, after_left, ',', true) {
                        lemma_term_shape(s, at_right);
                    }
                }
            }
        }
    }
}

/// The tree that `expr` or `term` gives for a text has the shape of an
/// expression.
pub proof fn lemma_parse_shape(rule: Rule, s: Seq<char>)
    requires
        rule == Rule::expr || rule == Rule::term || rule == Rule::literal_expr || rule
            == Rule::unary_expr || rule == Rule::binary_expr,
    ensures
        parse_text(rule, s) matches Ok(tree) ==> is_expression_tree(tree),
{
    lemma_term_shape(s, 0);
    lemma_expr_shape(s, 0);
    lemma_unary_shape(s, 0);
    lemma_binary_shape(s, 0);
}

} // verus!
