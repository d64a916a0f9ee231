use vstd::prelude::*;
use vstd::std_specs::iter::IteratorSpec;
use vstd::string::StrSliceExecFns;

use crate::CalculationError;

pub mod context;
pub mod grammar;

verus! {

/// The rules of the grammar.  A node of a parse tree carries the rule that
/// produced it; `expr` and `term` produce no node of their own.
#[derive(Debug, Clone, Copy, PartialEq, Eq, Hash, Structural)]
#[allow(non_camel_case_types)]
pub enum Rule {
    expr,
    term,
    literal_expr,
    unary_expr,
    binary_expr,
    num,
    unary_op,
    binary_op,
    abs,
    sqrt,
    sin,
    cos,
    tg,
    ctg,
    add,
    sub,
    mul,
    div,
    pow,
}

/// A node of a parse tree: the rule that matched, the text it matched, and
/// the nodes of the rules that matched inside it, in the order of the text.
#[derive(Debug)]
pub struct ParseNode {
    pub rule: Rule,
    pub text: String,
    pub children: Vec<ParseNode>,
}

/// The mathematical value of a [`ParseNode`].
pub struct ParseTree {
    pub rule: Rule,
    pub text: Seq<char>,
    pub children: Seq<ParseTree>,
}

/// The trees of a sequence of nodes.
pub open spec fn trees_of(nodes: Seq<ParseNode>) -> Seq<ParseTree>
    decreases nodes,
{
    Seq::new(
        nodes.len(),
        |i: int|
            if 0 <= i < nodes.len() {
                tree_of(nodes[i])
            } else {
                arbitrary()
            },
    )
}

/// The tree of a node.
pub open spec fn tree_of(node: ParseNode) -> ParseTree
    decreases node,
{
    ParseTree { rule: node.rule, text: node.text@, children: trees_of(node.children@) }
}

impl View for ParseNode {
    type V = ParseTree;

    open spec fn view(&self) -> ParseTree {
        tree_of(*self)
    }
}

/// A value that is built from a parse tree.
pub trait Parse: Sized {
    /// Whether `parse` may make `built` of a tree.
    spec fn parses(tree: ParseTree, built: Result<Self, CalculationError>) -> bool;

    /// Builds the value from a node of a parse tree.  A node that the grammar
    /// cannot have produced gives [`CalculationError::InternalInvariant`].
    fn parse(node: &ParseNode) -> (built: Result<Self, CalculationError>)
        ensures
            Self::parses(node@, built),
    ;
}

/// The tree of a node has the node's rule and text, and the trees of its
/// children as children.
pub proof fn lemma_view_children(node: ParseNode)
    ensures
        node@.rule == node.rule,
        node@.text == node.text@,
        node@.children.len() == node.children@.len(),
        forall|i: int|
            0 <= i < node.children@.len() ==> node@.children[i] == (#[trigger] node.children@[i])@,
{
}

/// The parser of the grammar in [`grammar`].
pub struct GrammarParser;

/// The match that a matcher has found, as the grammar states it.
spec fn found_view(found: Option<(ParseNode, usize)>) -> grammar::Match {
    match found {
        Some((node, end)) => Some((node@, end as int)),
        None => None,
    }
}

/// Whether a matcher has found what the grammar states, inside the text and
/// beyond the position it began at.
spec fn found_is(
    found: Option<(ParseNode, usize)>,
    stated: grammar::Match,
    s: Seq<char>,
    pos: int,
) -> bool {
    &&& found_view(found) == stated
    &&& found matches Some((_, end)) ==> pos < end <= s.len()
}

/// The characters of a text.
fn characters(text: &str) -> (chars: Vec<char>)
    ensures
        chars@ == text@,
{
    broadcast use vstd::string::axiom_spec_iter, vstd::string::next_postcondition;

    let mut chars: Vec<char> = Vec::new();
    let mut it = text.chars();
    loop
        invariant
            chars@ + it.remaining() == text@,
        ensures
            chars@ == text@,
        decreases text@.len() - chars@.len(),
    {
        let ghost before = it.remaining();
        match it.next() {
            Some(c) => {
                chars.push(c);
                assert(before == seq![c] + it.remaining());
            },
            None => {
                assert(chars@ + Seq::<char>::empty() == chars@);
                break ;
            },
        }
    }
    chars
}

fn is_whitespace(c: char) -> (b: bool)
    ensures
        b == grammar::is_whitespace(c),
{
    c == ' ' || c == '\t' || c == '\r' || c == '\n'
}

fn is_digit(c: char) -> (b: bool)
    ensures
        b == grammar::is_digit(c),
{
    '0' <= c && c <= '9'
}

fn char_at(chars: &Vec<char>, pos: usize, c: char) -> (b: bool)
    ensures
        b == grammar::char_at(chars@, pos as int, c),
{
    pos < chars.len() && chars[pos] == c
}

fn skip_whitespace(chars: &Vec<char>, pos: usize) -> (end: usize)
    requires
        pos <= chars.len(),
    ensures
        end == grammar::skip_whitespace(chars@, pos as int),
        pos <= end <= chars.len(),
{
    let mut end: usize = pos;
    while end < chars.len() && is_whitespace(chars[end])
        invariant
            pos <= end <= chars.len(),
            grammar::skip_whitespace(chars@, pos as int) == grammar::skip_whitespace(
                chars@,
                end as int,
            ),
        decreases chars.len() - end,
    {
        end += 1;
    }
    end
}

fn digits_end(chars: &Vec<char>, pos: usize) -> (end: usize)
    requires
        pos <= chars.len(),
    ensures
        end == grammar::digits_end(chars@, pos as int),
        pos <= end <= chars.len(),
{
    let mut end: usize = pos;
    while end < chars.len() && is_digit(chars[end])
        invariant
            pos <= end <= chars.len(),
            grammar::digits_end(chars@, pos as int) == grammar::digits_end(chars@, end as int),
        decreases chars.len() - end,
    {
        end += 1;
    }
    end
}

fn numeral_end(chars: &Vec<char>, pos: usize) -> (end: Option<usize>)
    requires
        pos <= chars.len(),
    ensures
        match end {
            Some(end) => grammar::numeral_end(chars@, pos as int) == Some(end as int) && pos < end
                <= chars.len(),
            None => grammar::numeral_end(chars@, pos as int) is None,
        },
{
    let digits: usize = if char_at(chars, pos, '-') {
        pos + 1
    } else {
        pos
    };
    let mut end: usize = digits_end(chars, digits);
    if end == digits {
        return None;
    }
    if char_at(chars, end, '.') {
        let fraction: usize = digits_end(chars, end + 1);
        if fraction > end + 1 {
            end = fraction;
        }
    }
    if char_at(chars, end, 'e') || char_at(chars, end, 'E') {
        let digits: usize = if char_at(chars, end + 1, '+') || char_at(chars, end + 1, '-') {
            end + 2
        } else {
            end + 1
        };
        let exponent: usize = digits_end(chars, digits);
        if exponent > digits {
            end = exponent;
        }
    }
    Some(end)
}

/// The word of an operation's rule.
fn word(rule: Rule) -> (word: Vec<char>)
    ensures
        word@ == grammar::word(rule),
{
    match rule {
        Rule::abs => vec!['a', 'b', 's'],
        Rule::sqrt => vec!['s', 'q', 'r', 't'],
        Rule::sin => vec!['s', 'i', 'n'],
        Rule::cos => vec!['c', 'o', 's'],
        Rule::tg => vec!['t', 'g'],
        Rule::ctg => vec!['c', 't', 'g'],
        Rule::add => vec!['a', 'd', 'd'],
        Rule::sub => vec!['s', 'u', 'b'],
        Rule::mul => vec!['m', 'u', 'l'],
        Rule::div => vec!['d', 'i', 'v'],
        Rule::pow => vec!['p', 'o', 'w'],
        _ => Vec::new(),
    }
}

/// Whether the word of `rule` stands at `pos`.
fn word_at(chars: &Vec<char>, pos: usize, rule: Rule) -> (b: bool)
    requires
        pos <= chars.len(),
    ensures
        b == grammar::word_at(chars@, pos as int, grammar::word(rule)),
        grammar::word(rule).len() <= 4,
{
    let word = word(rule);
    if word.len() > chars.len() - pos {
        return false;
    }
    let mut i: usize = 0;
    while i < word.len()
        invariant
            i <= word.len(),
            pos + word.len() <= chars.len(),
            word@ == grammar::word(rule),
            chars@.subrange(pos as int, pos + i) == word@.subrange(0, i as int),
        decreases word.len() - i,
    {
        if chars[pos + i] != word[i] {
            proof {
                let whole = chars@.subrange(pos as int, pos + word.len());
                assert(whole[i as int] == chars@[pos + i]);
            }
            return false;
        }
        proof {
            assert(chars@.subrange(pos as int, pos + i + 1) == chars@.subrange(
                pos as int,
                pos + i,
            ).push(chars@[pos + i]));
            assert(word@.subrange(0, i + 1) == word@.subrange(0, i as int).push(word@[i as int]));
        }
        i += 1;
    }
    proof {
        assert(word@.subrange(0, word.len() as int) == word@);
    }
    true
}

/// The text between two positions.
fn text_between(input: &str, start: usize, end: usize) -> (text: String)
    requires
        start <= end <= input@.len(),
    ensures
        text@ == input@.subrange(start as int, end as int),
{
    input.substring_char(start, end).to_owned()
}

fn leaf(rule: Rule, input: &str, start: usize, end: usize) -> (node: ParseNode)
    requires
        start <= end <= input@.len(),
    ensures
        node@ == grammar::leaf(rule, input@, start as int, end as int),
{
    let node = ParseNode { rule, text: text_between(input, start, end), children: Vec::new() };
    proof {
        assert(node@.children == Seq::<ParseTree>::empty());
    }
    node
}

fn inner(rule: Rule, input: &str, start: usize, end: usize, children: Vec<ParseNode>) -> (node:
    ParseNode)
    requires
        start <= end <= input@.len(),
    ensures
        node@ == grammar::inner(rule, input@, start as int, end as int, trees_of(children@)),
{
    ParseNode { rule, text: text_between(input, start, end), children }
}

/// The operation of one operand whose word stands at `pos`.
fn unary_name_at(chars: &Vec<char>, pos: usize) -> (name: Option<Rule>)
    requires
        pos <= chars.len(),
    ensures
        name == grammar::unary_name_at(chars@, pos as int),
{
    if word_at(chars, pos, Rule::abs) {
        Some(Rule::abs)
    } else if word_at(chars, pos, Rule::sqrt) {
        Some(Rule::sqrt)
    } else if word_at(chars, pos, Rule::sin) {
        Some(Rule::sin)
    } else if word_at(chars, pos, Rule::cos) {
        Some(Rule::cos)
    } else if word_at(chars, pos, Rule::tg) {
        Some(Rule::tg)
    } else if word_at(chars, pos, Rule::ctg) {
        Some(Rule::ctg)
    } else {
        None
    }
}

/// The operation of two operands whose word stands at `pos`.
fn binary_name_at(chars: &Vec<char>, pos: usize) -> (name: Option<Rule>)
    requires
        pos <= chars.len(),
    ensures
        name == grammar::binary_name_at(chars@, pos as int),
{
    if word_at(chars, pos, Rule::add) {
        Some(Rule::add)
    } else if word_at(chars, pos, Rule::sub) {
        Some(Rule::sub)
    } else if word_at(chars, pos, Rule::mul) {
        Some(Rule::mul)
    } else if word_at(chars, pos, Rule::div) {
        Some(Rule::div)
    } else if word_at(chars, pos, Rule::pow) {
        Some(Rule::pow)
    } else {
        None
    }
}

fn match_word(rule: Rule, input: &str, chars: &Vec<char>, pos: usize) -> (found: Option<
    (ParseNode, usize),
>)
    requires
        chars@ == input@,
        pos <= chars.len(),
    ensures
        found_is(found, grammar::match_word(rule, input@, pos as int), input@, pos as int),
{
    let length: usize = word(rule).len();
    if length > 0 && word_at(chars, pos, rule) {
        Some((leaf(rule, input, pos, pos + length), pos + length))
    } else {
        None
    }
}

fn match_operator(kind: Rule, name: Option<Rule>, input: &str, chars: &Vec<char>, pos: usize) -> (found:
    Option<(ParseNode, usize)>)
    requires
        chars@ == input@,
        pos <= chars.len(),
        name matches Some(rule) ==> grammar::word(rule).len() > 0 && grammar::word_at(
            input@,
            pos as int,
            grammar::word(rule),
        ),
    ensures
        found_is(found, grammar::match_operator(kind, name, input@, pos as int), input@, pos as int),
{
    match name {
        Some(name) => {
            let end: usize = pos + word(name).len();
            let children = vec![leaf(name, input, pos, end)];
            proof {
                assert(trees_of(children@) == seq![
                    grammar::leaf(name, input@, pos as int, end as int),
                ]);
            }
            Some((inner(kind, input, pos, end, children), end))
        },
        None => None,
    }
}

fn match_unary_op(input: &str, chars: &Vec<char>, pos: usize) -> (found: Option<(ParseNode, usize)>)
    requires
        chars@ == input@,
        pos <= chars.len(),
    ensures
        found_is(found, grammar::match_unary_op(input@, pos as int), input@, pos as int),
{
    match_operator(Rule::unary_op, unary_name_at(chars, pos), input, chars, pos)
}

fn match_binary_op(input: &str, chars: &Vec<char>, pos: usize) -> (found: Option<(ParseNode, usize)>)
    requires
        chars@ == input@,
        pos <= chars.len(),
    ensures
        found_is(found, grammar::match_binary_op(input@, pos as int), input@, pos as int),
{
    match_operator(Rule::binary_op, binary_name_at(chars, pos), input, chars, pos)
}

fn match_num(input: &str, chars: &Vec<char>, pos: usize) -> (found: Option<(ParseNode, usize)>)
    requires
        chars@ == input@,
        pos <= chars.len(),
    ensures
        found_is(found, grammar::match_num(input@, pos as int), input@, pos as int),
{
    match numeral_end(chars, pos) {
        Some(end) => Some((leaf(Rule::num, input, pos, end), end)),
        None => None,
    }
}

fn match_literal(input: &str, chars: &Vec<char>, pos: usize) -> (found: Option<(ParseNode, usize)>)
    requires
        chars@ == input@,
        pos <= chars.len(),
    ensures
        found_is(found, grammar::match_literal(input@, pos as int), input@, pos as int),
{
    match numeral_end(chars, pos) {
        Some(end) => {
            let children = vec![leaf(Rule::num, input, pos, end)];
            proof {
                assert(trees_of(children@) == seq![
                    grammar::leaf(Rule::num, input@, pos as int, end as int),
                ]);
            }
            Some((inner(Rule::literal_expr, input, pos, end, children), end))
        },
        None => None,
    }
}

fn expect(chars: &Vec<char>, pos: usize, c: char, then_whitespace: bool) -> (next: Option<usize>)
    requires
        pos <= chars.len(),
    ensures
        match next {
            Some(next) => grammar::expect(chars@, pos as int, c, then_whitespace) == Some(
                next as int,
            ) && pos < next <= chars.len(),
            None => grammar::expect(chars@, pos as int, c, then_whitespace) is None,
        },
{
    let at: usize = skip_whitespace(chars, pos);
    if char_at(chars, at, c) {
        Some(
            if then_whitespace {
                skip_whitespace(chars, at + 1)
            } else {
                at + 1
            },
        )
    } else {
        None
    }
}

fn match_term(input: &str, chars: &Vec<char>, pos: usize) -> (found: Option<(ParseNode, usize)>)
    requires
        chars@ == input@,
        pos <= chars.len(),
    ensures
        found_is(found, grammar::match_term(input@, pos as int), input@, pos as int),
    decreases chars.len() - pos, 2int,
{
    match match_expr(input, chars, pos) {
        Some(found) => Some(found),
        None => {
            if !char_at(chars, pos, '(') {
                return None;
            }
            let (node, end) = match match_term(input, chars, skip_whitespace(chars, pos + 1)) {
                Some(found) => found,
                None => {
                    return None;
                },
            };
            match expect(chars, end, ')', false) {
                Some(next) => Some((node, next)),
                None => None,
            }
        },
    }
}

fn match_expr(input: &str, chars: &Vec<char>, pos: usize) -> (found: Option<(ParseNode, usize)>)
    requires
        chars@ == input@,
        pos <= chars.len(),
    ensures
        found_is(found, grammar::match_expr(input@, pos as int), input@, pos as int),
    decreases chars.len() - pos, 1int,
{
    match match_literal(input, chars, pos) {
        Some(found) => Some(found),
        None => match match_unary(input, chars, pos) {
            Some(found) => Some(found),
            None => match_binary(input, chars, pos),
        },
    }
}

fn match_unary(input: &str, chars: &Vec<char>, pos: usize) -> (found: Option<(ParseNode, usize)>)
    requires
        chars@ == input@,
        pos <= chars.len(),
    ensures
        found_is(found, grammar::match_unary(input@, pos as int), input@, pos as int),
    decreases chars.len() - pos, 0int,
{
    let (operation, after_name) = match match_unary_op(input, chars, pos) {
        Some(found) => found,
        None => {
            return None;
        },
    };
    let at_operand: usize = match expect(chars, after_name, '(', true) {
        Some(next) => next,
        None => {
            return None;
        },
    };
    let (operand, after_operand) = match match_term(input, chars, at_operand) {
        Some(found) => found,
        None => {
            return None;
        },
    };
    let end: usize = match expect(chars, after_operand, ')', false) {
        Some(next) => next,
        None => {
            return None;
        },
    };
    let ghost trees = seq![operation@, operand@];
    let children = vec![operation, operand];
    proof {
        assert(trees_of(children@) == trees);
    }
    Some((inner(Rule::unary_expr, input, pos, end, children), end))
}

fn match_binary(input: &str, chars: &Vec<char>, pos: usize) -> (found: Option<(ParseNode, usize)>)
    requires
        chars@ == input@,
        pos <= chars.len(),
    ensures
        found_is(found, grammar::match_binary(input@, pos as int), input@, pos as int),
    decreases chars.len() - pos, 0int,
{
    let (operation, after_name) = match match_binary_op(input, chars, pos) {
        Some(found) => found,
        None => {
            return None;
        },
    };
    let at_left: usize = match expect(chars, after_name, '(', true) {
        Some(next) => next,
        None => {
            return None;
        },
    };
    let (left, after_left) = match match_term(input, chars, at_left) {
        Some(found) => found,
        None => {
            return None;
        },
    };
    let at_right: usize = match expect(chars, after_left, ',', true) {
        Some(next) => next,
        None => {
            return None;
        },
    };
    let (right, after_right) = match match_term(input, chars, at_right) {
        Some(found) => found,
        None => {
            return None;
        },
    };
    let end: usize = match expect(chars, after_right, ')', false) {
        Some(next) => next,
        None => {
            return None;
        },
    };
    let ghost trees = seq![operation@, left@, right@];
    let children = vec![operation, left, right];
    proof {
        assert(trees_of(children@) == trees);
    }
    Some((inner(Rule::binary_expr, input, pos, end, children), end))
}

impl GrammarParser {
    /// Matches the text against a rule of the grammar, from the start of the
    /// text, and returns the tree of the match.  What follows the match in
    /// the text is not looked at.
    ///
    /// The matchers call each other as deep as the text nests its
    /// parentheses, so the depth of nesting that can be read is bounded by
    /// the stack.
    pub fn parse(rule: Rule, input: &str) -> (parsed: Result<ParseNode, CalculationError>)
        ensures
            match parsed {
                Ok(node) => grammar::parse_text(rule, input@) == Ok::<ParseTree, CalculationError>(
                    node@,
                ),
                Err(error) => grammar::parse_text(rule, input@) == Err::<
                    ParseTree,
                    CalculationError,
                >(error),
            },
    {
        let chars = characters(input);
        let found = match rule {
            Rule::expr => match_expr(input, &chars, 0),
            Rule::term => match_term(input, &chars, 0),
            Rule::literal_expr => match_literal(input, &chars, 0),
            Rule::unary_expr => match_unary(input, &chars, 0),
            Rule::binary_expr => match_binary(input, &chars, 0),
            Rule::num => match_num(input, &chars, 0),
            Rule::unary_op => match_unary_op(input, &chars, 0),
            Rule::binary_op => match_binary_op(input, &chars, 0),
            _ => match_word(rule, input, &chars, 0),
        };
        match found {
            Some((node, _)) => Ok(node),
            None => Err(CalculationError::Syntax),
        }
    }
}

} // verus!
