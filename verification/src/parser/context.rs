//! A match does not depend on the text around it.
//!
//! Where two texts hold the same characters over a stretch, a rule that
//! matches inside the stretch of one matches the stretch of the other in the
//! same way, as long as the other text does not go on behind the match in a
//! way that would lengthen a numeral at its end.  So a part of a text is
//! matched wherever it stands as it is matched alone, the text of a node of
//! a parse tree is parsed to that node, and what follows a match in a text
//! plays no part in it.
use vstd::prelude::*;

use crate::parser::grammar::{
    binary_name_at, char_at, digits_end, expect, exponent_digits, exponent_end, fraction_end,
    inner, is_binary_name, is_digit, is_unary_name, is_whitespace, leaf,
    lemma_digits_end_bounds, lemma_expect_bounds, lemma_expr_bounds, lemma_numeral_bounds,
    lemma_skip_whitespace_bounds, lemma_term_bounds, match_binary, match_binary_op, match_expr,
    match_literal, match_term, match_unary, match_unary_op, numeral_end, parse_text, sign_end,
    skip_whitespace, unary_name_at, word, word_at, Match,
};
use crate::parser::{ParseTree, Rule};
use crate::CalculationError;

verus! {

/// Whether the text `a` holds from `from` to `to` what the text `b` holds
/// `by` places further on.
pub open spec fn same_stretch(a: Seq<char>, b: Seq<char>, from: int, to: int, by: int) -> bool {
    &&& 0 <= from <= to <= a.len()
    &&& 0 <= from + by
    &&& to + by <= b.len()
    &&& a.subrange(from, to) == b.subrange(from + by, to + by)
}

/// Whether a numeral that ends at `pos` cannot go on there: the text ends,
/// or holds at `pos` neither a digit nor a point nor the letter of an
/// exponent.
pub open spec fn numeral_stops(s: Seq<char>, pos: int) -> bool {
    pos >= s.len() || !(is_digit(s[pos]) || s[pos] == '.' || s[pos] == 'e' || s[pos] == 'E')
}

/// A match in one text, seen from a text that holds it `by` places further on.
pub open spec fn shifted(found: Match, by: int) -> Match {
    match found {
        Some((tree, end)) => Some((tree, end + by)),
        None => None,
    }
}

/// Two texts hold the same characters over a stretch that they share.
pub proof fn lemma_stretch_characters(a: Seq<char>, b: Seq<char>, from: int, to: int, by: int)
    requires
        same_stretch(a, b, from, to, by),
    ensures
        forall|i: int| from <= i < to ==> #[trigger] a[i] == b[i + by],
{
    assert forall|i: int| from <= i < to implies #[trigger] a[i] == b[i + by] by {
        assert(a.subrange(from, to)[i - from] == a[i]);
        assert(b.subrange(from + by, to + by)[i - from] == b[i + by]);
    }
}

/// Two texts share every piece of a stretch that they share.
pub proof fn lemma_stretch_pieces(
    a: Seq<char>,
    b: Seq<char>,
    from: int,
    to: int,
    by: int,
    start: int,
    end: int,
)
    requires
        same_stretch(a, b, from, to, by),
        from <= start <= end <= to,
    ensures
        a.subrange(start, end) == b.subrange(start + by, end + by),
{
    lemma_stretch_characters(a, b, from, to, by);
    assert(a.subrange(start, end) =~= b.subrange(start + by, end + by));
}

/// The node of a piece of a shared stretch is the same node in both texts.
pub proof fn lemma_node_shared(
    a: Seq<char>,
    b: Seq<char>,
    from: int,
    to: int,
    by: int,
    rule: Rule,
    start: int,
    end: int,
    children: Seq<ParseTree>,
)
    requires
        same_stretch(a, b, from, to, by),
        from <= start <= end <= to,
    ensures
        inner(rule, a, start, end, children) == inner(rule, b, start + by, end + by, children),
        leaf(rule, a, start, end) == leaf(rule, b, start + by, end + by),
{
    lemma_stretch_pieces(a, b, from, to, by, start, end);
}

/// A word does not stand where one of its characters is missing.
pub proof fn lemma_word_mismatch(s: Seq<char>, pos: int, word: Seq<char>, i: int)
    requires
        0 <= i < word.len(),
        pos + i >= s.len() || pos < 0 || s[pos + i] != word[i],
    ensures
        !word_at(s, pos, word),
{
    if word_at(s, pos, word) {
        assert(s.subrange(pos, pos + word.len())[i] == s[pos + i]);
    }
}

/// Where the word of an operation of two operands stands, that operation
/// is matched, and neither an operation of one operand nor a numeral.
pub proof fn lemma_binary_name(s: Seq<char>, pos: int, name: Rule)
    requires
        is_binary_name(name),
        word_at(s, pos, word(name)),
    ensures
        binary_name_at(s, pos) == Some(name),
        unary_name_at(s, pos) is None,
        numeral_end(s, pos) is None,
{
    let w = word(name);
    assert forall|i: int| 0 <= i < w.len() implies s[pos + i] == w[i] by {
        assert(s.subrange(pos, pos + w.len())[i] == s[pos + i]);
    }
    assert(s[pos] == w[0] && s[pos + 1] == w[1] && s[pos + 2] == w[2]);
    lemma_word_mismatch(s, pos, word(Rule::abs), 1);
    lemma_word_mismatch(s, pos, word(Rule::sqrt), 1);
    lemma_word_mismatch(s, pos, word(Rule::sin), 2);
    lemma_word_mismatch(s, pos, word(Rule::cos), 0);
    lemma_word_mismatch(s, pos, word(Rule::tg), 0);
    lemma_word_mismatch(s, pos, word(Rule::ctg), 0);
    if name != Rule::add {
        lemma_word_mismatch(s, pos, word(Rule::add), 0);
    }
    if name != Rule::sub {
        lemma_word_mismatch(s, pos, word(Rule::sub), 0);
    }
    if name != Rule::mul {
        lemma_word_mismatch(s, pos, word(Rule::mul), 0);
    }
    if name != Rule::div {
        lemma_word_mismatch(s, pos, word(Rule::div), 0);
    }
}

/// Where the word of an operation of one operand stands, that operation is
/// matched, and no numeral.
pub proof fn lemma_unary_name(s: Seq<char>, pos: int, name: Rule)
    requires
        is_unary_name(name),
        word_at(s, pos, word(name)),
    ensures
        unary_name_at(s, pos) == Some(name),
        numeral_end(s, pos) is None,
{
    let w = word(name);
    assert forall|i: int| 0 <= i < w.len() implies s[pos + i] == w[i] by {
        assert(s.subrange(pos, pos + w.len())[i] == s[pos + i]);
    }
    assert(s[pos] == w[0] && s[pos + 1] == w[1]);
    if name != Rule::abs {
        lemma_word_mismatch(s, pos, word(Rule::abs), 0);
    }
    if name == Rule::sin {
        lemma_word_mismatch(s, pos, word(Rule::sqrt), 1);
    } else if name != Rule::sqrt {
        lemma_word_mismatch(s, pos, word(Rule::sqrt), 0);
    }
    if name != Rule::sin && name != Rule::sqrt {
        lemma_word_mismatch(s, pos, word(Rule::sin), 0);
    }
    if name == Rule::ctg {
        lemma_word_mismatch(s, pos, word(Rule::cos), 1);
    } else if name != Rule::cos {
        lemma_word_mismatch(s, pos, word(Rule::cos), 0);
    }
    if name == Rule::ctg {
        lemma_word_mismatch(s, pos, word(Rule::tg), 0);
    }
}

/// The operation that is matched at a position has its word standing there.
pub proof fn lemma_name_stands(s: Seq<char>, pos: int)
    ensures
        unary_name_at(s, pos) matches Some(name) ==> is_unary_name(name) && word_at(
            s,
            pos,
            word(name),
        ),
        binary_name_at(s, pos) matches Some(name) ==> is_binary_name(name) && word_at(
            s,
            pos,
            word(name),
        ),
{
}

/// Where a parenthesis opens, neither a numeral nor the word of an
/// operation begins.
pub proof fn lemma_parenthesis_begins_nothing(s: Seq<char>, pos: int)
    requires
        char_at(s, pos, '('),
    ensures
        numeral_end(s, pos) is None,
        unary_name_at(s, pos) is None,
        binary_name_at(s, pos) is None,
{
    lemma_word_mismatch(s, pos, word(Rule::abs), 0);
    lemma_word_mismatch(s, pos, word(Rule::sqrt), 0);
    lemma_word_mismatch(s, pos, word(Rule::sin), 0);
    lemma_word_mismatch(s, pos, word(Rule::cos), 0);
    lemma_word_mismatch(s, pos, word(Rule::tg), 0);
    lemma_word_mismatch(s, pos, word(Rule::ctg), 0);
    lemma_word_mismatch(s, pos, word(Rule::add), 0);
    lemma_word_mismatch(s, pos, word(Rule::sub), 0);
    lemma_word_mismatch(s, pos, word(Rule::mul), 0);
    lemma_word_mismatch(s, pos, word(Rule::div), 0);
    lemma_word_mismatch(s, pos, word(Rule::pow), 0);
}

/// Where a comma or a closing parenthesis is found as expected, a numeral
/// that ends there cannot go on.
pub proof fn lemma_expected_stops(s: Seq<char>, pos: int, c: char, then_whitespace: bool)
    requires
        c == ',' || c == ')',
        0 <= pos <= s.len(),
        expect(s, pos, c, then_whitespace) is Some,
    ensures
        pos < s.len(),
        numeral_stops(s, pos),
{
    lemma_skip_whitespace_bounds(s, pos);
}

/// Whitespace that ends inside a shared stretch ends at the same place in
/// both texts.
pub proof fn lemma_whitespace_shared(
    a: Seq<char>,
    b: Seq<char>,
    from: int,
    to: int,
    by: int,
    pos: int,
)
    requires
        same_stretch(a, b, from, to, by),
        from <= pos <= to,
        skip_whitespace(a, pos) < to,
    ensures
        skip_whitespace(b, pos + by) == skip_whitespace(a, pos) + by,
    decreases to - pos,
{
    lemma_stretch_characters(a, b, from, to, by);
    if pos < a.len() && is_whitespace(a[pos]) {
        lemma_skip_whitespace_bounds(a, pos + 1);
        lemma_whitespace_shared(a, b, from, to, by, pos + 1);
    }
}

/// A character that is found where it is expected inside a shared stretch
/// is found at the same place in both texts, if the position behind it lies
/// inside the stretch or no whitespace is skipped behind the character.
pub proof fn lemma_expect_shared(
    a: Seq<char>,
    b: Seq<char>,
    from: int,
    to: int,
    by: int,
    pos: int,
    c: char,
    then_whitespace: bool,
)
    requires
        same_stretch(a, b, from, to, by),
        from <= pos <= to,
        expect(a, pos, c, then_whitespace) matches Some(next) && if then_whitespace {
            next < to
        } else {
            next <= to
        },
    ensures
        expect(b, pos + by, c, then_whitespace) == Some(
            expect(a, pos, c, then_whitespace).unwrap() + by,
        ),
{
    lemma_stretch_characters(a, b, from, to, by);
    lemma_skip_whitespace_bounds(a, pos);
    let found = skip_whitespace(a, pos);
    lemma_skip_whitespace_bounds(a, found + 1);
    lemma_whitespace_shared(a, b, from, to, by, pos);
    if then_whitespace {
        lemma_whitespace_shared(a, b, from, to, by, found + 1);
    }
}

/// A run of digits that ends in a shared stretch ends at the same place in
/// both texts, if it ends inside the stretch or no digit follows the
/// stretch in the second text.
pub proof fn lemma_digits_shared(a: Seq<char>, b: Seq<char>, from: int, to: int, by: int, pos: int)
    requires
        same_stretch(a, b, from, to, by),
        from <= pos <= to,
        digits_end(a, pos) <= to,
        digits_end(a, pos) < to || to + by == b.len() || !is_digit(b[to + by]),
    ensures
        digits_end(b, pos + by) == digits_end(a, pos) + by,
    decreases to - pos,
{
    lemma_stretch_characters(a, b, from, to, by);
    if pos < a.len() && is_digit(a[pos]) {
        lemma_digits_end_bounds(a, pos + 1);
        lemma_digits_shared(a, b, from, to, by, pos + 1);
    }
}

/// A numeral that ends in a shared stretch is the same numeral in both
/// texts, if it cannot go on in the second text behind its end.
pub proof fn lemma_numeral_shared(a: Seq<char>, b: Seq<char>, from: int, to: int, by: int, pos: int)
    requires
        same_stretch(a, b, from, to, by),
        from <= pos,
        numeral_end(a, pos) matches Some(end) && end <= to && numeral_stops(b, end + by),
    ensures
        numeral_end(b, pos + by) == Some(numeral_end(a, pos).unwrap() + by),
{
    let end = numeral_end(a, pos).unwrap();
    lemma_stretch_characters(a, b, from, to, by);
    lemma_numeral_bounds(a, pos);
    let digits = sign_end(a, pos);
    assert(sign_end(b, pos + by) == digits + by);
    lemma_digits_end_bounds(a, digits);
    let whole = digits_end(a, digits);
    let fraction = fraction_end(a, whole);
    assert(whole <= fraction <= end) by {
        if char_at(a, whole, '.') {
            lemma_digits_end_bounds(a, whole + 1);
        }
        if char_at(a, fraction, 'e') || char_at(a, fraction, 'E') {
            if exponent_digits(a, fraction) <= a.len() {
                lemma_digits_end_bounds(a, exponent_digits(a, fraction));
            }
        }
    }
    lemma_digits_shared(a, b, from, to, by, digits);
    assert(digits_end(b, digits + by) == whole + by);
    if char_at(a, whole, '.') {
        lemma_digits_end_bounds(a, whole + 1);
        if fraction > whole {
            lemma_digits_shared(a, b, from, to, by, whole + 1);
        } else {
            assert(end == whole);
        }
    }
    assert(fraction_end(b, whole + by) == fraction + by);
    if char_at(a, fraction, 'e') || char_at(a, fraction, 'E') {
        let exponent = exponent_digits(a, fraction);
        if exponent <= a.len() {
            lemma_digits_end_bounds(a, exponent);
        }
        if digits_end(a, exponent) > exponent {
            assert(end == digits_end(a, exponent));
            assert(exponent_digits(b, fraction + by) == exponent + by);
            lemma_digits_shared(a, b, from, to, by, exponent);
        } else {
            assert(end == fraction);
        }
    }
    assert(exponent_end(b, fraction + by) == exponent_end(a, fraction) + by);
}

/// The operator that is matched inside a shared stretch is matched at the
/// same place in both texts, and there neither a numeral is matched nor,
/// for an operator of two operands, one of one operand.
pub proof fn lemma_operator_shared(
    a: Seq<char>,
    b: Seq<char>,
    from: int,
    to: int,
    by: int,
    pos: int,
)
    requires
        same_stretch(a, b, from, to, by),
        from <= pos,
    ensures
        match_unary_op(a, pos) matches Some((_, end)) && end <= to ==> match_unary_op(b, pos + by)
            == shifted(match_unary_op(a, pos), by) && numeral_end(b, pos + by) is None,
        match_binary_op(a, pos) matches Some((_, end)) && end <= to ==> match_binary_op(
            b,
            pos + by,
        ) == shifted(match_binary_op(a, pos), by) && numeral_end(b, pos + by) is None
            && unary_name_at(b, pos + by) is None,
{
    lemma_name_stands(a, pos);
    if let Some(name) = unary_name_at(a, pos) {
        let end = pos + word(name).len();
        if end <= to {
            lemma_stretch_pieces(a, b, from, to, by, pos, end);
            lemma_unary_name(b, pos + by, name);
            lemma_node_shared(a, b, from, to, by, name, pos, end, Seq::empty());
            lemma_node_shared(
                a,
                b,
                from,
                to,
                by,
                Rule::unary_op,
                pos,
                end,
                seq![leaf(name, a, pos, end)],
            );
        }
    }
    if let Some(name) = binary_name_at(a, pos) {
        let end = pos + word(name).len();
        if end <= to {
            lemma_stretch_pieces(a, b, from, to, by, pos, end);
            lemma_binary_name(b, pos + by, name);
            lemma_node_shared(a, b, from, to, by, name, pos, end, Seq::empty());
            lemma_node_shared(
                a,
                b,
                from,
                to,
                by,
                Rule::binary_op,
                pos,
                end,
                seq![leaf(name, a, pos, end)],
            );
        }
    }
}

/// A numeral that `literal_expr` matches inside a shared stretch is matched
/// at the same place in both texts, if it cannot go on in the second text
/// behind its end.
pub proof fn lemma_literal_shared(a: Seq<char>, b: Seq<char>, from: int, to: int, by: int, pos: int)
    requires
        same_stretch(a, b, from, to, by),
        from <= pos,
        match_literal(a, pos) matches Some((_, end)) && end <= to && numeral_stops(b, end + by),
    ensures
        match_literal(b, pos + by) == shifted(match_literal(a, pos), by),
{
    lemma_numeral_shared(a, b, from, to, by, pos);
    lemma_numeral_bounds(a, pos);
    let end = numeral_end(a, pos).unwrap();
    lemma_node_shared(a, b, from, to, by, Rule::num, pos, end, Seq::empty());
    lemma_node_shared(
        a,
        b,
        from,
        to,
        by,
        Rule::literal_expr,
        pos,
        end,
        seq![leaf(Rule::num, a, pos, end)],
    );
}

/// What `term` matches inside a shared stretch it matches at the same place
/// in both texts, if a numeral at the end of the match cannot go on in the
/// second text.
pub proof fn lemma_term_shared(a: Seq<char>, b: Seq<char>, from: int, to: int, by: int, pos: int)
    requires
        same_stretch(a, b, from, to, by),
        from <= pos,
        match_term(a, pos) matches Some((_, end)) && end <= to && numeral_stops(b, end + by),
    ensures
        match_term(b, pos + by) == shifted(match_term(a, pos), by),
    decreases a.len() - pos, 2int,
{
    lemma_stretch_characters(a, b, from, to, by);
    lemma_term_bounds(a, pos);
    if match_expr(a, pos) is Some {
        lemma_expr_shared(a, b, from, to, by, pos);
    } else {
        lemma_parenthesis_begins_nothing(b, pos + by);
        assert(match_expr(b, pos + by) is None);
        lemma_skip_whitespace_bounds(a, pos + 1);
        let inside = skip_whitespace(a, pos + 1);
        lemma_term_bounds(a, inside);
        let after = match_term(a, inside).unwrap().1;
        lemma_expect_bounds(a, after, ')', false);
        lemma_whitespace_shared(a, b, from, to, by, pos + 1);
        lemma_expected_stops(a, after, ')', false);
        lemma_term_shared(a, b, from, to, by, inside);
        lemma_expect_shared(a, b, from, to, by, after, ')', false);
    }
}

/// What `expr` matches inside a shared stretch it matches at the same place
/// in both texts, if a numeral at the end of the match cannot go on in the
/// second text.
pub proof fn lemma_expr_shared(a: Seq<char>, b: Seq<char>, from: int, to: int, by: int, pos: int)
    requires
        same_stretch(a, b, from, to, by),
        from <= pos,
        match_expr(a, pos) matches Some((_, end)) && end <= to && numeral_stops(b, end + by),
    ensures
        match_expr(b, pos + by) == shifted(match_expr(a, pos), by),
    decreases a.len() - pos, 1int,
{
    if match_literal(a, pos) is Some {
        lemma_literal_shared(a, b, from, to, by, pos);
    } else if match_unary(a, pos) is Some {
        lemma_unary_shared(a, b, from, to, by, pos);
        assert(match_literal(b, pos + by) is None);
    } else {
        lemma_binary_shared(a, b, from, to, by, pos);
        assert(match_literal(b, pos + by) is None);
        assert(match_unary(b, pos + by) is None);
    }
}

/// What `unary_expr` matches inside a shared stretch it matches at the same
/// place in both texts.
pub proof fn lemma_unary_shared(a: Seq<char>, b: Seq<char>, from: int, to: int, by: int, pos: int)
    requires
        same_stretch(a, b, from, to, by),
        from <= pos,
        match_unary(a, pos) matches Some((_, end)) && end <= to,
    ensures
        match_unary(b, pos + by) == shifted(match_unary(a, pos), by),
        numeral_end(b, pos + by) is None,
    decreases a.len() - pos, 0int,
{
    lemma_stretch_characters(a, b, from, to, by);
    let (operation, after_name) = match_unary_op(a, pos).unwrap();
    lemma_expect_bounds(a, after_name, '(', true);
    let at_operand = expect(a, after_name, '(', true).unwrap();
    lemma_term_bounds(a, at_operand);
    let (operand, after_operand) = match_term(a, at_operand).unwrap();
    lemma_expect_bounds(a, after_operand, ')', false);
    let end = expect(a, after_operand, ')', false).unwrap();
    lemma_operator_shared(a, b, from, to, by, pos);
    lemma_expect_shared(a, b, from, to, by, after_name, '(', true);
    lemma_expected_stops(a, after_operand, ')', false);
    lemma_term_shared(a, b, from, to, by, at_operand);
    lemma_expect_shared(a, b, from, to, by, after_operand, ')', false);
    lemma_node_shared(a, b, from, to, by, Rule::unary_expr, pos, end, seq![operation, operand]);
}

/// What `binary_expr` matches inside a shared stretch it matches at the
/// same place in both texts.
pub proof fn lemma_binary_shared(a: Seq<char>, b: Seq<char>, from: int, to: int, by: int, pos: int)
    requires
        same_stretch(a, b, from, to, by),
        from <= pos,
        match_binary(a, pos) matches Some((_, end)) && end <= to,
    ensures
        match_binary(b, pos + by) == shifted(match_binary(a, pos), by),
        numeral_end(b, pos + by) is None,
        unary_name_at(b, pos + by) is None,
    decreases a.len() - pos, 0int,
{
    lemma_stretch_characters(a, b, from, to, by);
    let (operation, after_name) = match_binary_op(a, pos).unwrap();
    lemma_expect_bounds(a, after_name, '(', true);
    let at_left = expect(a, after_name, '(', true).unwrap();
    lemma_term_bounds(a, at_left);
    let (left, after_left) = match_term(a, at_left).unwrap();
    lemma_expect_bounds(a, after_left, ',', true);
    let at_right = expect(a, after_left, ',', true).unwrap();
    lemma_term_bounds(a, at_right);
    let (right, after_right) = match_term(a, at_right).unwrap();
    lemma_expect_bounds(a, after_right, ')', false);
    let end = expect(a, after_right, ')', false).unwrap();
    lemma_operator_shared(a, b, from, to, by, pos);
    lemma_expect_shared(a, b, from, to, by, after_name, '(', true);
    lemma_expected_stops(a, after_left, ',', true);
    lemma_term_shared(a, b, from, to, by, at_left);
    lemma_expect_shared(a, b, from, to, by, after_left, ',', true);
    lemma_expected_stops(a, after_right, ')', false);
    lemma_term_shared(a, b, from, to, by, at_right);
    lemma_expect_shared(a, b, from, to, by, after_right, ')', false);
    lemma_node_shared(
        a,
        b,
        from,
        to,
        by,
        Rule::binary_expr,
        pos,
        end,
        seq![operation, left, right],
    );
    lemma_term_bounds(b, at_left + by);
}

/// The tree of a text that `term` matches as a whole.
pub open spec fn whole_term(text: Seq<char>) -> Option<ParseTree> {
    match match_term(text, 0) {
        Some((tree, end)) if end == text.len() => Some(tree),
        _ => None,
    }
}

/// Whether the whole text is one numeral.
pub open spec fn is_numeral(text: Seq<char>) -> bool {
    numeral_end(text, 0) == Some(text.len() as int)
}

/// The tree of a text that is one numeral.
pub open spec fn numeral_tree(text: Seq<char>) -> ParseTree {
    ParseTree {
        rule: Rule::literal_expr,
        text,
        children: seq![ParseTree { rule: Rule::num, text, children: Seq::empty() }],
    }
}

/// The tree of the word of an operation: a node of the rule `kind` over the
/// leaf of the operation.
pub open spec fn operator_tree(kind: Rule, name: Rule) -> ParseTree {
    ParseTree {
        rule: kind,
        text: word(name),
        children: seq![ParseTree { rule: name, text: word(name), children: Seq::empty() }],
    }
}

/// The text of an operation of one operand applied to a text, with no
/// whitespace around the parts: the word, and in parentheses the operand.
pub open spec fn unary_application(name: Rule, operand: Seq<char>) -> Seq<char> {
    word(name) + seq!['('] + operand + seq![')']
}

/// The text of an operation of two operands applied to two texts, with no
/// whitespace around the parts: the word, and in parentheses the operands
/// with a comma between them.
pub open spec fn binary_application(name: Rule, left: Seq<char>, right: Seq<char>) -> Seq<char> {
    word(name) + seq!['('] + left + seq![','] + right + seq![')']
}

/// The tree of an operation of one operand applied to a text.
pub open spec fn unary_application_tree(name: Rule, operand: Seq<char>, tree: ParseTree) -> ParseTree {
    ParseTree {
        rule: Rule::unary_expr,
        text: unary_application(name, operand),
        children: seq![operator_tree(Rule::unary_op, name), tree],
    }
}

/// The tree of an operation of two operands applied to two texts.
pub open spec fn binary_application_tree(
    name: Rule,
    left: Seq<char>,
    right: Seq<char>,
    left_tree: ParseTree,
    right_tree: ParseTree,
) -> ParseTree {
    ParseTree {
        rule: Rule::binary_expr,
        text: binary_application(name, left, right),
        children: seq![operator_tree(Rule::binary_op, name), left_tree, right_tree],
    }
}

/// What `term` matches does not begin with whitespace.
pub proof fn lemma_term_begins(s: Seq<char>, pos: int)
    requires
        match_term(s, pos) is Some,
    ensures
        0 <= pos < s.len(),
        !is_whitespace(s[pos]),
{
    lemma_term_bounds(s, pos);
    lemma_name_stands(s, pos);
    if match_literal(s, pos) is Some {
        assert(s[pos] == '-' || is_digit(s[pos]));
    } else if match_unary(s, pos) is Some {
        let name = unary_name_at(s, pos).unwrap();
        assert(s.subrange(pos, pos + word(name).len())[0] == s[pos]);
    } else if match_binary(s, pos) is Some {
        let name = binary_name_at(s, pos).unwrap();
        assert(s.subrange(pos, pos + word(name).len())[0] == s[pos]);
    } else {
        assert(match_expr(s, pos) is None);
        assert(char_at(s, pos, '('));
    }
}

/// A part that `term` matches as a whole is matched by `term` wherever it
/// stands in a text, if a numeral at its end cannot go on in the text.
pub proof fn lemma_term_in_context(s: Seq<char>, at: int, part: Seq<char>)
    requires
        whole_term(part) is Some,
        0 <= at,
        at + part.len() <= s.len(),
        s.subrange(at, at + part.len()) == part,
        numeral_stops(s, at + part.len()),
    ensures
        match_term(s, at) == Some((whole_term(part).unwrap(), at + part.len())),
        !is_whitespace(s[at]),
{
    assert(part.subrange(0, part.len() as int) == part);
    lemma_term_shared(part, s, 0, part.len() as int, at, 0);
    lemma_term_begins(part, 0);
    assert(s.subrange(at, at + part.len())[0] == s[at]);
}

/// A text is parsed as if what follows the match were not there: the tree
/// of a text that `expr` or `term` matches as a whole is the tree of every
/// text that begins with it, if a numeral at its end cannot go on.
pub proof fn lemma_rest_ignored(rule: Rule, text: Seq<char>, rest: Seq<char>)
    requires
        rule == Rule::expr || rule == Rule::term,
        match rule {
            Rule::expr => match_expr(text, 0),
            _ => match_term(text, 0),
        } matches Some((_, end)) && end == text.len(),
        numeral_stops(rest, 0),
    ensures
        parse_text(rule, text + rest) == parse_text(rule, text),
{
    let longer = text + rest;
    let n = text.len() as int;
    assert(text.subrange(0, n) == longer.subrange(0, n));
    if rest.len() > 0 {
        assert(longer[n] == rest[0]);
    }
    if rule == Rule::expr {
        lemma_expr_shared(text, longer, 0, n, 0, 0);
    } else {
        lemma_term_shared(text, longer, 0, n, 0, 0);
    }
}

/// A numeral is a term, and its tree is that of the numeral.
pub proof fn lemma_numeral_is_term(text: Seq<char>)
    requires
        is_numeral(text),
    ensures
        whole_term(text) == Some(numeral_tree(text)),
{
    lemma_numeral_bounds(text, 0);
    let n = text.len() as int;
    assert(text.subrange(0, n) == text);
    assert(match_literal(text, 0) == Some((numeral_tree(text), n)));
    assert(match_expr(text, 0) == Some((numeral_tree(text), n)));
}

/// A term in parentheses is a term with the same tree.
pub proof fn lemma_parenthesized(text: Seq<char>)
    requires
        whole_term(text) is Some,
    ensures
        whole_term(seq!['('] + text + seq![')']) == whole_term(text),
{
    let s = seq!['('] + text + seq![')'];
    let n = text.len() as int;
    assert(s.subrange(1, 1 + n) == text);
    assert(s[0] == '(');
    assert(s[1 + n] == ')');
    lemma_term_in_context(s, 1, text);
    lemma_parenthesis_begins_nothing(s, 0);
    assert(match_expr(s, 0) is None);
    assert(skip_whitespace(s, 1) == 1);
    assert(skip_whitespace(s, 1 + n) == 1 + n);
    assert(expect(s, 1 + n, ')', false) == Some(2 + n));
}

/// Whether the text holds whitespace only.
pub open spec fn is_blank(text: Seq<char>) -> bool {
    forall|i: int| 0 <= i < text.len() ==> is_whitespace(#[trigger] text[i])
}

/// The whitespace between the parts of an application: behind the word of
/// the operation, before and behind the first operand and, where there are
/// two, before and behind the second.
pub struct Spacing {
    pub after_name: Seq<char>,
    pub before_operand: Seq<char>,
    pub after_operand: Seq<char>,
    pub before_second: Seq<char>,
    pub after_second: Seq<char>,
}

impl Spacing {
    /// Whether each gap holds whitespace only.
    pub open spec fn is_blank(self) -> bool {
        &&& is_blank(self.after_name)
        &&& is_blank(self.before_operand)
        &&& is_blank(self.after_operand)
        &&& is_blank(self.before_second)
        &&& is_blank(self.after_second)
    }
}

/// The text of an operation of one operand applied to a text, with the
/// given whitespace between the parts.
pub open spec fn spaced_unary_application(
    name: Rule,
    spacing: Spacing,
    operand: Seq<char>,
) -> Seq<char> {
    word(name) + spacing.after_name + seq!['('] + spacing.before_operand + operand
        + spacing.after_operand + seq![')']
}

/// The text of an operation of two operands applied to two texts, with the
/// given whitespace between the parts.
pub open spec fn spaced_binary_application(
    name: Rule,
    spacing: Spacing,
    left: Seq<char>,
    right: Seq<char>,
) -> Seq<char> {
    word(name) + spacing.after_name + seq!['('] + spacing.before_operand + left
        + spacing.after_operand + seq![','] + spacing.before_second + right + spacing.after_second
        + seq![')']
}

/// Whitespace is skipped up to the first character that is none.
pub proof fn lemma_blank_skipped(s: Seq<char>, pos: int, blank: Seq<char>)
    requires
        0 <= pos,
        pos + blank.len() < s.len(),
        s.subrange(pos, pos + blank.len()) == blank,
        is_blank(blank),
        !is_whitespace(s[pos + blank.len()]),
    ensures
        skip_whitespace(s, pos) == pos + blank.len(),
    decreases blank.len(),
{
    if blank.len() > 0 {
        assert(s.subrange(pos, pos + blank.len())[0] == s[pos]);
        let rest = blank.drop_first();
        assert(s.subrange(pos + 1, pos + 1 + rest.len()) =~= rest) by {
            assert forall|i: int| 0 <= i < rest.len() implies s[pos + 1 + i] == rest[i] by {
                assert(s.subrange(pos, pos + blank.len())[i + 1] == s[pos + 1 + i]);
            }
        }
        assert forall|i: int| 0 <= i < rest.len() implies is_whitespace(#[trigger] rest[i]) by {
            assert(rest[i] == blank[i + 1]);
        }
        lemma_blank_skipped(s, pos + 1, rest);
    }
}

/// What `expr` matches in a text that is laid out as an application of one
/// operand: the word of the operation, a parenthesis at `open`, a term from
/// `at` to `after`, a parenthesis at `close`, and whitespace between them.
proof fn lemma_spaced_unary_layout(
    s: Seq<char>,
    name: Rule,
    operand: ParseTree,
    open: int,
    at: int,
    after: int,
    close: int,
)
    requires
        is_unary_name(name),
        word_at(s, 0, word(name)),
        skip_whitespace(s, word(name).len() as int) == open,
        char_at(s, open, '('),
        skip_whitespace(s, open + 1) == at,
        match_term(s, at) == Some((operand, after)),
        skip_whitespace(s, after) == close,
        char_at(s, close, ')'),
    ensures
        match_expr(s, 0) == Some(
            (
                inner(
                    Rule::unary_expr,
                    s,
                    0,
                    close + 1,
                    seq![operator_tree(Rule::unary_op, name), operand],
                ),
                close + 1,
            ),
        ),
{
    lemma_unary_name(s, 0, name);
    let k = word(name).len() as int;
    assert(match_unary_op(s, 0) == Some((operator_tree(Rule::unary_op, name), k)));
    assert(expect(s, k, '(', true) == Some(at));
    assert(expect(s, after, ')', false) == Some(close + 1));
    assert(match_literal(s, 0) is None);
}

/// What `expr` matches in a text that is laid out as an application of two
/// operands: the word of the operation, a parenthesis at `open`, a term
/// from `at_left` to `after_left`, a comma at `comma`, a term from
/// `at_right` to `after_right`, a parenthesis at `close`, and whitespace
/// between them.
proof fn lemma_spaced_binary_layout(
    s: Seq<char>,
    name: Rule,
    left: ParseTree,
    right: ParseTree,
    open: int,
    at_left: int,
    after_left: int,
    comma: int,
    at_right: int,
    after_right: int,
    close: int,
)
    requires
        is_binary_name(name),
        word_at(s, 0, word(name)),
        skip_whitespace(s, 3) == open,
        char_at(s, open, '('),
        skip_whitespace(s, open + 1) == at_left,
        match_term(s, at_left) == Some((left, after_left)),
        skip_whitespace(s, after_left) == comma,
        char_at(s, comma, ','),
        skip_whitespace(s, comma + 1) == at_right,
        match_term(s, at_right) == Some((right, after_right)),
        skip_whitespace(s, after_right) == close,
        char_at(s, close, ')'),
    ensures
        match_expr(s, 0) == Some(
            (
                inner(
                    Rule::binary_expr,
                    s,
                    0,
                    close + 1,
                    seq![operator_tree(Rule::binary_op, name), left, right],
                ),
                close + 1,
            ),
        ),
{
    lemma_binary_name(s, 0, name);
    lemma_term_bounds(s, at_left);
    assert(match_binary_op(s, 0) == Some((operator_tree(Rule::binary_op, name), 3int)));
    assert(expect(s, 3, '(', true) == Some(at_left));
    assert(expect(s, after_left, ',', true) == Some(at_right));
    assert(expect(s, after_right, ')', false) == Some(close + 1));
    assert(match_literal(s, 0) is None);
    assert(match_unary(s, 0) is None);
}

/// Where the parts of the text of an application of one operand stand in
/// it.
proof fn lemma_spaced_unary_parts(name: Rule, spacing: Spacing, operand: Seq<char>)
    requires
        is_unary_name(name),
    ensures
        ({
            let s = spaced_unary_application(name, spacing, operand);
            let k = word(name).len() as int;
            let open = k + spacing.after_name.len();
            let at = open + 1 + spacing.before_operand.len();
            let after = at + operand.len();
            let close = after + spacing.after_operand.len();
            &&& s.len() == close + 1
            &&& s.subrange(0, k) == word(name)
            &&& s.subrange(k, open) == spacing.after_name
            &&& s[open] == '('
            &&& s.subrange(open + 1, at) == spacing.before_operand
            &&& s.subrange(at, after) == operand
            &&& s.subrange(after, close) == spacing.after_operand
            &&& s[close] == ')'
            &&& s.subrange(0, close + 1) == s
        }),
{
    let s = spaced_unary_application(name, spacing, operand);
    let k = word(name).len() as int;
    let open = k + spacing.after_name.len();
    let at = open + 1 + spacing.before_operand.len();
    let after = at + operand.len();
    let close = after + spacing.after_operand.len();
    assert(2 <= k <= 4);
    assert(s.len() == close + 1);
    assert(s.subrange(0, k) =~= word(name));
    assert(s.subrange(k, open) =~= spacing.after_name);
    assert(s.subrange(open + 1, at) =~= spacing.before_operand);
    assert(s.subrange(at, after) =~= operand);
    assert(s.subrange(after, close) =~= spacing.after_operand);
    assert(s.subrange(0, close + 1) =~= s);
}

/// The text of an operation of one operand applied to a term, with
/// whitespace between the parts, is matched by `expr` as a whole, and is
/// itself a term: its tree holds the operation and the tree of the operand.
pub proof fn lemma_spaced_unary_application(name: Rule, spacing: Spacing, operand: Seq<char>)
    requires
        is_unary_name(name),
        spacing.is_blank(),
        whole_term(operand) is Some,
    ensures
        parse_text(Rule::expr, spaced_unary_application(name, spacing, operand)) == Ok::<
            ParseTree,
            CalculationError,
        >(
            ParseTree {
                rule: Rule::unary_expr,
                text: spaced_unary_application(name, spacing, operand),
                children: seq![
                    operator_tree(Rule::unary_op, name),
                    whole_term(operand).unwrap(),
                ],
            },
        ),
        whole_term(spaced_unary_application(name, spacing, operand)) == Some(
            ParseTree {
                rule: Rule::unary_expr,
                text: spaced_unary_application(name, spacing, operand),
                children: seq![
                    operator_tree(Rule::unary_op, name),
                    whole_term(operand).unwrap(),
                ],
            },
        ),
{
    let s = spaced_unary_application(name, spacing, operand);
    let k = word(name).len() as int;
    let open = k + spacing.after_name.len();
    let at = open + 1 + spacing.before_operand.len();
    let after = at + operand.len();
    let close = after + spacing.after_operand.len();
    lemma_spaced_unary_parts(name, spacing, operand);
    lemma_stops_before(s, k, spacing.after_name, '(');
    lemma_blank_before_term(s, open + 1, spacing.before_operand, operand);
    lemma_stops_before(s, after, spacing.after_operand, ')');
    lemma_term_in_context(s, at, operand);
    lemma_spaced_unary_layout(s, name, whole_term(operand).unwrap(), open, at, after, close);
}

/// Where the parts of the text of an application of two operands stand
/// in it.
proof fn lemma_spaced_binary_parts(name: Rule, spacing: Spacing, left: Seq<char>, right: Seq<char>)
    requires
        is_binary_name(name),
    ensures
        ({
            let s = spaced_binary_application(name, spacing, left, right);
            let open = 3int + spacing.after_name.len();
            let at_left = open + 1 + spacing.before_operand.len();
            let after_left = at_left + left.len();
            let comma = after_left + spacing.after_operand.len();
            let at_right = comma + 1 + spacing.before_second.len();
            let after_right = at_right + right.len();
            let close = after_right + spacing.after_second.len();
            &&& s.len() == close + 1
            &&& s.subrange(0, 3) == word(name)
            &&& s.subrange(3, open) == spacing.after_name
            &&& s[open] == '('
            &&& s.subrange(open + 1, at_left) == spacing.before_operand
            &&& s.subrange(at_left, after_left) == left
            &&& s.subrange(after_left, comma) == spacing.after_operand
            &&& s[comma] == ','
            &&& s.subrange(comma + 1, at_right) == spacing.before_second
            &&& s.subrange(at_right, after_right) == right
            &&& s.subrange(after_right, close) == spacing.after_second
            &&& s[close] == ')'
            &&& s.subrange(0, close + 1) == s
        }),
{
    let s = spaced_binary_application(name, spacing, left, right);
    let open = 3int + spacing.after_name.len();
    let at_left = open + 1 + spacing.before_operand.len();
    let after_left = at_left + left.len();
    let comma = after_left + spacing.after_operand.len();
    let at_right = comma + 1 + spacing.before_second.len();
    let after_right = at_right + right.len();
    let close = after_right + spacing.after_second.len();
    assert(word(name).len() == 3);
    assert(s.len() == close + 1);
    assert(s.subrange(0, 3) =~= word(name));
    assert(s.subrange(3, open) =~= spacing.after_name);
    assert(s.subrange(open + 1, at_left) =~= spacing.before_operand);
    assert(s.subrange(at_left, after_left) =~= left);
    assert(s.subrange(after_left, comma) =~= spacing.after_operand);
    assert(s.subrange(comma + 1, at_right) =~= spacing.before_second);
    assert(s.subrange(at_right, after_right) =~= right);
    assert(s.subrange(after_right, close) =~= spacing.after_second);
    assert(s.subrange(0, close + 1) =~= s);
}

/// A numeral cannot go on where whitespace or one given character follows.
proof fn lemma_stops_before(s: Seq<char>, pos: int, blank: Seq<char>, c: char)
    requires
        0 <= pos,
        pos + blank.len() < s.len(),
        s.subrange(pos, pos + blank.len()) == blank,
        is_blank(blank),
        s[pos + blank.len()] == c,
        c == ',' || c == ')' || c == '(',
    ensures
        numeral_stops(s, pos),
        skip_whitespace(s, pos) == pos + blank.len(),
{
    lemma_blank_skipped(s, pos, blank);
    if blank.len() > 0 {
        assert(s.subrange(pos, pos + blank.len())[0] == s[pos]);
        assert(is_whitespace(blank[0]));
    }
}

/// Whitespace before a term is skipped up to the term.
proof fn lemma_blank_before_term(s: Seq<char>, pos: int, blank: Seq<char>, term: Seq<char>)
    requires
        0 <= pos,
        pos + blank.len() + term.len() <= s.len(),
        s.subrange(pos, pos + blank.len()) == blank,
        s.subrange(pos + blank.len(), pos + blank.len() + term.len()) == term,
        is_blank(blank),
        whole_term(term) is Some,
    ensures
        skip_whitespace(s, pos) == pos + blank.len(),
{
    lemma_term_begins(term, 0);
    assert(s.subrange(pos + blank.len(), pos + blank.len() + term.len())[0] == s[pos
        + blank.len()]);
    lemma_blank_skipped(s, pos, blank);
}

/// The text of an operation of two operands applied to two terms, with
/// whitespace between the parts, is matched by `expr` as a whole, and is
/// itself a term: its tree holds the operation and the trees of the two
/// operands.
pub proof fn lemma_spaced_binary_application(
    name: Rule,
    spacing: Spacing,
    left: Seq<char>,
    right: Seq<char>,
)
    requires
        is_binary_name(name),
        spacing.is_blank(),
        whole_term(left) is Some,
        whole_term(right) is Some,
    ensures
        parse_text(Rule::expr, spaced_binary_application(name, spacing, left, right)) == Ok::<
            ParseTree,
            CalculationError,
        >(
            ParseTree {
                rule: Rule::binary_expr,
                text: spaced_binary_application(name, spacing, left, right),
                children: seq![
                    operator_tree(Rule::binary_op, name),
                    whole_term(left).unwrap(),
                    whole_term(right).unwrap(),
                ],
            },
        ),
        whole_term(spaced_binary_application(name, spacing, left, right)) == Some(
            ParseTree {
                rule: Rule::binary_expr,
                text: spaced_binary_application(name, spacing, left, right),
                children: seq![
                    operator_tree(Rule::binary_op, name),
                    whole_term(left).unwrap(),
                    whole_term(right).unwrap(),
                ],
            },
        ),
{
    let s = spaced_binary_application(name, spacing, left, right);
    let open = 3int + spacing.after_name.len();
    let at_left = open + 1 + spacing.before_operand.len();
    let after_left = at_left + left.len();
    let comma = after_left + spacing.after_operand.len();
    let at_right = comma + 1 + spacing.before_second.len();
    let after_right = at_right + right.len();
    let close = after_right + spacing.after_second.len();
    lemma_spaced_binary_parts(name, spacing, left, right);
    lemma_stops_before(s, 3, spacing.after_name, '(');
    lemma_blank_before_term(s, open + 1, spacing.before_operand, left);
    lemma_stops_before(s, after_left, spacing.after_operand, ',');
    lemma_blank_before_term(s, comma + 1, spacing.before_second, right);
    lemma_stops_before(s, after_right, spacing.after_second, ')');
    lemma_term_in_context(s, at_left, left);
    lemma_term_in_context(s, at_right, right);
    lemma_spaced_binary_layout(
        s,
        name,
        whole_term(left).unwrap(),
        whole_term(right).unwrap(),
        open,
        at_left,
        after_left,
        comma,
        at_right,
        after_right,
        close,
    );
}

/// No whitespace between the parts of an application.
pub open spec fn no_spacing() -> Spacing {
    Spacing {
        after_name: Seq::empty(),
        before_operand: Seq::empty(),
        after_operand: Seq::empty(),
        before_second: Seq::empty(),
        after_second: Seq::empty(),
    }
}

/// The text of an application without whitespace is that with no spacing.
pub proof fn lemma_no_spacing(name: Rule, left: Seq<char>, right: Seq<char>)
    ensures
        no_spacing().is_blank(),
        spaced_unary_application(name, no_spacing(), left) == unary_application(name, left),
        spaced_binary_application(name, no_spacing(), left, right) == binary_application(
            name,
            left,
            right,
        ),
{
    assert(spaced_unary_application(name, no_spacing(), left) =~= unary_application(name, left));
    assert(spaced_binary_application(name, no_spacing(), left, right) =~= binary_application(
        name,
        left,
        right,
    ));
}

/// The text of an operation of one operand applied to a term is matched by
/// `expr` as a whole, and is itself a term: its tree holds the operation
/// and the tree of the operand.
pub proof fn lemma_unary_application(name: Rule, operand: Seq<char>)
    requires
        is_unary_name(name),
        whole_term(operand) is Some,
    ensures
        parse_text(Rule::expr, unary_application(name, operand)) == Ok::<
            ParseTree,
            CalculationError,
        >(unary_application_tree(name, operand, whole_term(operand).unwrap())),
        whole_term(unary_application(name, operand)) == Some(
            unary_application_tree(name, operand, whole_term(operand).unwrap()),
        ),
{
    lemma_no_spacing(name, operand, operand);
    lemma_spaced_unary_application(name, no_spacing(), operand);
}

/// The text of an operation of two operands applied to two terms is matched
/// by `expr` as a whole, and is itself a term: its tree holds the operation
/// and the trees of the two operands.
pub proof fn lemma_binary_application(name: Rule, left: Seq<char>, right: Seq<char>)
    requires
        is_binary_name(name),
        whole_term(left) is Some,
        whole_term(right) is Some,
    ensures
        parse_text(Rule::expr, binary_application(name, left, right)) == Ok::<
            ParseTree,
            CalculationError,
        >(
            binary_application_tree(
                name,
                left,
                right,
                whole_term(left).unwrap(),
                whole_term(right).unwrap(),
            ),
        ),
        whole_term(binary_application(name, left, right)) == Some(
            binary_application_tree(
                name,
                left,
                right,
                whole_term(left).unwrap(),
                whole_term(right).unwrap(),
            ),
        ),
{
    lemma_no_spacing(name, left, right);
    lemma_spaced_binary_application(name, no_spacing(), left, right);
}

/// The text of the tree that `expr` matches is the text that it matched.
pub proof fn lemma_expr_text(s: Seq<char>, pos: int)
    ensures
        match_expr(s, pos) matches Some((tree, end)) ==> tree.text == s.subrange(pos, end),
{
}

/// The text of a node is parsed to the node: the tree that `term` gives is
/// the tree that `expr` gives for the text of the tree, as a whole.
pub proof fn lemma_term_reparsed(s: Seq<char>, pos: int)
    ensures
        match_term(s, pos) matches Some((tree, _)) ==> match_expr(tree.text, 0) == Some(
            (tree, tree.text.len() as int),
        ),
    decreases s.len() - pos,
{
    if let Some((tree, end)) = match_term(s, pos) {
        lemma_term_bounds(s, pos);
        if match_expr(s, pos) is Some {
            lemma_expr_reparsed(s, pos);
        } else {
            lemma_skip_whitespace_bounds(s, pos + 1);
            lemma_term_reparsed(s, skip_whitespace(s, pos + 1));
        }
    }
}

/// The text of a node is parsed to the node: the tree that `expr` gives is
/// the tree that `expr` gives for the text of the tree, as a whole.
pub proof fn lemma_expr_reparsed(s: Seq<char>, pos: int)
    ensures
        match_expr(s, pos) matches Some((tree, _)) ==> match_expr(tree.text, 0) == Some(
            (tree, tree.text.len() as int),
        ),
{
    if let Some((tree, end)) = match_expr(s, pos) {
        lemma_expr_bounds(s, pos);
        lemma_expr_text(s, pos);
        let text = s.subrange(pos, end);
        assert(text.subrange(0, end - pos) == text);
        lemma_expr_shared(s, text, pos, end, -pos, pos);
    }
}

/// Whether the tree is what `expr` gives for its own text, and so is the
/// tree of each of its operands.
pub open spec fn is_own_parse(tree: ParseTree) -> bool
    decreases tree,
{
    &&& match_expr(tree.text, 0) == Some((tree, tree.text.len() as int))
    &&& tree.rule == Rule::unary_expr ==> tree.children.len() == 2 && is_own_parse(
        tree.children[1],
    )
    &&& tree.rule == Rule::binary_expr ==> tree.children.len() == 3 && is_own_parse(
        tree.children[1],
    ) && is_own_parse(tree.children[2])
}

/// The tree that `term` gives is the parse of its own text, and so is the
/// tree of each operand in it.
pub proof fn lemma_term_own_parse(s: Seq<char>, pos: int)
    ensures
        match_term(s, pos) matches Some((tree, _)) ==> is_own_parse(tree),
    decreases s.len() - pos, 2int,
{
    if 0 <= pos <= s.len() {
        lemma_expr_own_parse(s, pos);
        if match_expr(s, pos) is None && char_at(s, pos, '(') {
            lemma_skip_whitespace_bounds(s, pos + 1);
            lemma_term_own_parse(s, skip_whitespace(s, pos + 1));
        }
    }
}

/// The tree that `expr` gives is the parse of its own text, and so is the
/// tree of each operand in it.
pub proof fn lemma_expr_own_parse(s: Seq<char>, pos: int)
    ensures
        match_expr(s, pos) matches Some((tree, _)) ==> is_own_parse(tree),
    decreases s.len() - pos, 1int,
{
    if let Some((tree, end)) = match_expr(s, pos) {
        lemma_expr_reparsed(s, pos);
        if match_literal(s, pos) is Some {
            assert(tree.rule == Rule::literal_expr);
        } else if match_unary(s, pos) is Some {
            lemma_unary_operand_own_parse(s, pos);
        } else {
            lemma_binary_operands_own_parse(s, pos);
        }
    }
}

/// The operand in the tree that `unary_expr` gives is the parse of its own
/// text.
proof fn lemma_unary_operand_own_parse(s: Seq<char>, pos: int)
    ensures
        match_unary(s, pos) matches Some((tree, _)) ==> tree.rule == Rule::unary_expr
            && tree.children.len() == 2 && is_own_parse(tree.children[1]),
    decreases s.len() - pos, 0int,
{
    if match_unary(s, pos) is Some {
        let after_name = match_unary_op(s, pos).unwrap().1;
        lemma_expect_bounds(s, after_name, '(', true);
        lemma_term_own_parse(s, expect(s, after_name, '(', true).unwrap());
    }
}

/// The operands in the tree that `binary_expr` gives are the parses of
/// their own texts.
proof fn lemma_binary_operands_own_parse(s: Seq<char>, pos: int)
    ensures
        match_binary(s, pos) matches Some((tree, _)) ==> tree.rule == Rule::binary_expr
            && tree.children.len() == 3 && is_own_parse(tree.children[1]) && is_own_parse(
            tree.children[2],
        ),
    decreases s.len() - pos, 0int,
{
    if match_binary(s, pos) is Some {
        let after_name = match_binary_op(s, pos).unwrap().1;
        lemma_expect_bounds(s, after_name, '(', true);
        let at_left = expect(s, after_name, '(', true).unwrap();
        lemma_term_own_parse(s, at_left);
        lemma_term_bounds(s, at_left);
        let after_left = match_term(s, at_left).unwrap().1;
        lemma_expect_bounds(s, after_left, ',', true);
        lemma_term_own_parse(s, expect(s, after_left, ',', true).unwrap());
    }
}

/// The tree of a text is the parse of its own text, and so is the tree of
/// each operand in it: parsing the text of any expression in a parse tree
/// gives that expression's tree again.
pub proof fn lemma_parse_own(rule: Rule, s: Seq<char>)
    requires
        rule == Rule::expr || rule == Rule::term,
    ensures
        parse_text(rule, s) matches Ok(tree) ==> is_own_parse(tree) && parse_text(
            Rule::expr,
            tree.text,
        ) == Ok::<ParseTree, CalculationError>(tree),
{
    lemma_term_own_parse(s, 0);
    lemma_expr_own_parse(s, 0);
}

} // verus!
