//! Evaluation of arithmetic expressions written as nested function calls,
//! such as `add(2, sin(3.14))`.
//!
//! A source text is matched against the grammar ([`parser`]), the resulting
//! parse tree is turned into an expression tree ([`entities::expression`]),
//! and the tree is evaluated over a numeric representation
//! ([`entities::literal`]) under an explicit [`CalculatorState`].
//!
//! A numeric representation says of each of its operations what it may
//! return, and the contracts of building and evaluating are stated over
//! that.  Decimal arithmetic ([`entities::literal::decimal`]) is done by
//! `rust_decimal`; a representation of standard precision is supplied by
//! the caller.
//!
//! What follows from the contracts is proved beside them: that a match does
//! not depend on the text around it ([`parser::context`]), that building
//! and evaluating give one result where the representation's operations are
//! functions ([`entities::expression::facts`]), and what the evaluation of
//! a text of a given form gives ([`text`]).
use vstd::prelude::*;

use crate::entities::expression::{builds_expression, expression_yields, Evaluate, Expression};
use crate::entities::literal::decimal::Decimal;
use crate::entities::literal::Literal;
use crate::parser::grammar::parse_text;
use crate::parser::{GrammarParser, Parse, Rule};

pub mod entities;
pub mod parser;
pub mod text;

verus! {

/// Which numeric representation an evaluation is carried out in.
#[derive(Debug, Clone, Copy)]
pub enum CalculationMode {
    HighPrecision,
    StandardPrecision,
}

/// Unit in which the operand of a trigonometric function is read.
#[derive(Debug, Clone, Copy)]
pub enum AngleRepresentation {
    Degree,
    Radian,
}

/// Why an evaluation did not produce a value.
#[derive(Debug, Clone, Copy, PartialEq, Eq, Structural)]
pub enum CalculationError {
    /// The source text does not match the grammar.
    Syntax,
    /// A numeral matched the grammar but the numeric representation cannot hold it.
    NumericParse,
    /// An operation has no result in the numeric representation.
    Domain,
    /// A parse tree has none of the shapes that the grammar produces.
    InternalInvariant,
}

/// What an evaluation makes of what a numeric operation returned: a value
/// is the result, and a missing value is a [`CalculationError::Domain`]
/// error.
pub open spec fn settled<T>(value: Option<T>) -> Result<T, CalculationError> {
    match value {
        Some(value) => Ok(value),
        None => Err(CalculationError::Domain),
    }
}

/// Turns what a numeric operation returned into the result of an
/// evaluation: a missing value is a [`CalculationError::Domain`] error.
pub fn settle<T>(value: Option<T>) -> (result: Result<T, CalculationError>)
    ensures
        result == settled(value),
{
    match value {
        Some(value) => Ok(value),
        None => Err(CalculationError::Domain),
    }
}

/// The value of an evaluation, tagged with the representation that produced it.
#[derive(Debug, Clone, PartialEq)]
pub enum CalculationResult<S> {
    HighPrecision(Decimal),
    StandardPrecision(S),
}

/// The context of an evaluation: the unit of angles, and values bound to
/// names.  An evaluation reads the state and never changes it.
///
/// The bindings are kept as a list of names and values in which each name
/// occurs once; the order of the list plays no part.
///
/// `S` is the numeric representation of standard precision.
#[derive(Debug)]
pub struct CalculatorState<S> {
    angle_repr: AngleRepresentation,
    variables: Vec<(String, CalculationResult<S>)>,
}

/// Whether no two entries of a list have the same name.
spec fn names_occur_once<S>(entries: Seq<(String, CalculationResult<S>)>) -> bool {
    forall|i: int, j: int|
        0 <= i < j < entries.len() ==> (#[trigger] entries[i]).0@ != (#[trigger] entries[j]).0@
}

/// The bindings that a list of entries stands for: for each name the value
/// of the entry that has it, and of the last such entry if there were more
/// than one.
spec fn bindings<S>(entries: Seq<(String, CalculationResult<S>)>) -> Map<
    Seq<char>,
    CalculationResult<S>,
>
    decreases entries.len(),
{
    if entries.len() == 0 {
        Map::empty()
    } else {
        bindings(entries.drop_last()).insert(entries.last().0@, entries.last().1)
    }
}

impl<S> CalculatorState<S> {
    /// A name is bound once: no two entries of the list have the same name.
    #[verifier::type_invariant]
    closed spec fn well_formed(self) -> bool {
        names_occur_once(self.variables@)
    }

    /// The unit in which the operands of trigonometric functions are read.
    pub closed spec fn angle(&self) -> AngleRepresentation {
        self.angle_repr
    }

    /// The value bound to each name.
    pub closed spec fn variables(&self) -> Map<Seq<char>, CalculationResult<S>> {
        bindings(self.variables@)
    }

    /// A state with the given unit of angles and no variables.
    pub fn new(angle_representation: AngleRepresentation) -> (state: Self)
        ensures
            state.angle() == angle_representation,
            state.variables() == Map::<Seq<char>, CalculationResult<S>>::empty(),
    {
        Self { angle_repr: angle_representation, variables: Vec::new() }
    }

    /// The unit in which the operands of trigonometric functions are read.
    pub fn angle_representation(&self) -> (angle: AngleRepresentation)
        ensures
            angle == self.angle(),
    {
        self.angle_repr
    }

    /// Binds a value to a name.  A value that the name was bound to before
    /// is replaced.
    pub fn push_variable(&mut self, key: &str, value: CalculationResult<S>)
        ensures
            final(self).variables() == old(self).variables().insert(key@, value),
            final(self).angle() == old(self).angle(),
    {
        self.remove_variable(key);
        let ghost before = self.variables@;
        let name = key.to_owned();
        proof {
            use_type_invariant(&*self);
            lemma_unbound_has_no_entry(before, key@);
            let after = before.push((name, value));
            assert(after.drop_last() == before);
            assert(names_occur_once(after)) by {
                assert forall|i: int, j: int| 0 <= i < j < after.len() implies (#[trigger] after[i]).0@
                    != (#[trigger] after[j]).0@ by {
                    if j < before.len() {
                        assert(after[i] == before[i] && after[j] == before[j]);
                    } else {
                        assert(after[i] == before[i]);
                    }
                }
            }
            assert(bindings(before).insert(key@, value) == old(self).variables().insert(
                key@,
                value,
            ));
        }
        let mut entries: Vec<(String, CalculationResult<S>)> = Vec::new();
        core::mem::swap(&mut self.variables, &mut entries);
        entries.push((name, value));
        self.variables = entries;
    }

    /// Removes the binding of a name; a name that is not bound changes nothing.
    pub fn remove_variable(&mut self, key: &str)
        ensures
            final(self).variables() == old(self).variables().remove(key@),
            final(self).angle() == old(self).angle(),
    {
        proof {
            use_type_invariant(&*self);
        }
        let name = key.to_owned();
        let mut i: usize = 0;
        while i < self.variables.len()
            invariant
                i <= self.variables.len(),
                name@ == key@,
                forall|j: int| 0 <= j < i ==> (#[trigger] self.variables@[j]).0@ != key@,
                names_occur_once(self.variables@),
                *self == *old(self),
            decreases self.variables.len() - i,
        {
            if self.variables[i].0 == name {
                proof {
                    let before = self.variables@;
                    let after = before.remove(i as int);
                    lemma_bindings_remove_entry(before, i as int);
                    assert forall|j: int| 0 <= j < after.len() implies (#[trigger] after[j]).0@
                        != key@ by {
                        if j < i {
                            assert(after[j] == before[j]);
                        } else {
                            assert(after[j] == before[j + 1]);
                        }
                    }
                    lemma_bindings_without(after, key@);
                    assert(bindings(after).remove(key@) == bindings(after));
                    assert(names_occur_once(after)) by {
                        assert forall|a: int, b: int| 0 <= a < b < after.len() implies (
                        #[trigger] after[a]).0@ != (#[trigger] after[b]).0@ by {
                            let from_a = if a < i { a } else { a + 1 };
                            let from_b = if b < i { b } else { b + 1 };
                            assert(after[a] == before[from_a] && after[b] == before[from_b]);
                        }
                    }
                }
                let mut entries: Vec<(String, CalculationResult<S>)> = Vec::new();
                core::mem::swap(&mut self.variables, &mut entries);
                entries.remove(i);
                self.variables = entries;
                return ;
            }
            i += 1;
        }
        proof {
            lemma_bindings_without(self.variables@, key@);
            assert(bindings(self.variables@).remove(key@) == bindings(self.variables@));
        }
    }

    /// The value bound to a name, if the name is bound.
    pub fn variable(&self, key: &str) -> (value: Option<&CalculationResult<S>>)
        ensures
            match value {
                Some(value) => self.variables().contains_key(key@) && self.variables()[key@]
                    == *value,
                None => !self.variables().contains_key(key@),
            },
    {
        let name = key.to_owned();
        let mut i: usize = self.variables.len();
        while i > 0
            invariant
                i <= self.variables.len(),
                name@ == key@,
                forall|j: int| i <= j < self.variables.len() ==> (#[trigger] self.variables@[j]).0@
                    != key@,
            decreases i,
        {
            i -= 1;
            if self.variables[i].0 == name {
                proof {
                    lemma_bindings_last(self.variables@, i as int);
                }
                return Some(&self.variables[i].1);
            }
        }
        proof {
            lemma_bindings_without(self.variables@, key@);
        }
        None
    }
}

impl<S: Clone> Clone for CalculatorState<S> {
    /// A state with the same unit of angles and the same names bound, each
    /// to a clone of its value.
    fn clone(&self) -> (copy: Self)
        ensures
            copy.angle() == self.angle(),
            copy.variables().dom() == self.variables().dom(),
    {
        proof {
            use_type_invariant(self);
        }
        let mut entries: Vec<(String, CalculationResult<S>)> = Vec::new();
        let mut i: usize = 0;
        while i < self.variables.len()
            invariant
                i <= self.variables.len(),
                entries@.len() == i,
                forall|j: int| 0 <= j < i ==> (#[trigger] entries@[j]).0@ == self.variables@[j].0@,
                names_occur_once(self.variables@),
            decreases self.variables.len() - i,
        {
            let name = self.variables[i].0.clone();
            let value = self.variables[i].1.clone();
            entries.push((name, value));
            i += 1;
        }
        proof {
            lemma_bindings_names(entries@, self.variables@);
        }
        Self { angle_repr: self.angle_repr, variables: entries }
    }
}

impl<S> Default for CalculatorState<S> {
    /// Angles in radians, and no variables.
    fn default() -> (state: Self)
        ensures
            state.angle() == AngleRepresentation::Radian,
            state.variables() == Map::<Seq<char>, CalculationResult<S>>::empty(),
    {
        Self::new(AngleRepresentation::Radian)
    }
}

/// Whether `built` may be built from a source text: the text is matched
/// against the rule `expr`, and the expression is built from the parse tree.
/// A text that the rule does not match gives [`CalculationError::Syntax`].
pub open spec fn text_builds<T: Literal>(
    text: Seq<char>,
    built: Result<Expression<T>, CalculationError>,
) -> bool {
    match parse_text(Rule::expr, text) {
        Err(error) => built == Err::<Expression<T>, CalculationError>(error),
        Ok(tree) => builds_expression(tree, built),
    }
}

/// Whether evaluating a source text over the representation `T` may give
/// `result`: an error of parsing or building is the result; otherwise the
/// expression that was built is evaluated.
pub open spec fn text_yields<T: Literal>(
    text: Seq<char>,
    angle: AngleRepresentation,
    result: Result<T, CalculationError>,
) -> bool {
    exists|built: Result<Expression<T>, CalculationError>| #[trigger]
        text_builds(text, built) && match built {
            Err(error) => result == Err::<T, CalculationError>(error),
            Ok(expression) => expression_yields(expression, angle, result),
        }
}

/// Whether evaluating a source text in the given mode may give `result`: the
/// text is evaluated over the representation of the mode, and a value is
/// tagged with the mode that produced it.
pub open spec fn evaluation_yields<S: Literal>(
    text: Seq<char>,
    mode: CalculationMode,
    angle: AngleRepresentation,
    result: Result<CalculationResult<S>, CalculationError>,
) -> bool {
    match mode {
        CalculationMode::HighPrecision => match result {
            Ok(CalculationResult::HighPrecision(value)) => text_yields::<Decimal>(
                text,
                angle,
                Ok(value),
            ),
            Ok(CalculationResult::StandardPrecision(_)) => false,
            Err(error) => text_yields::<Decimal>(text, angle, Err(error)),
        },
        CalculationMode::StandardPrecision => match result {
            Ok(CalculationResult::StandardPrecision(value)) => text_yields::<S>(
                text,
                angle,
                Ok(value),
            ),
            Ok(CalculationResult::HighPrecision(_)) => false,
            Err(error) => text_yields::<S>(text, angle, Err(error)),
        },
    }
}

/// An evaluator of source texts under a state of its own.
///
/// `S` is the numeric representation of standard precision; high precision
/// is [`Decimal`].
#[derive(Debug, Clone)]
pub struct Calculator<S> {
    state: CalculatorState<S>,
}

impl<S> Default for Calculator<S> {
    /// A calculator with angles in radians and no variables.
    fn default() -> (calculator: Self)
        ensures
            calculator.state().angle() == AngleRepresentation::Radian,
            calculator.state().variables() == Map::<Seq<char>, CalculationResult<S>>::empty(),
    {
        Self::new(CalculatorState::default())
    }
}

impl<S> Calculator<S> {
    /// The state that evaluations are carried out under.
    pub closed spec fn state(&self) -> CalculatorState<S> {
        self.state
    }

    /// A calculator that evaluates under the given state.
    pub fn new(state: CalculatorState<S>) -> (calculator: Self)
        ensures
            calculator.state() == state,
    {
        Self { state }
    }

    /// Parses a source text and builds its expression.  The text is matched
    /// from its start; what follows the expression in it is not looked at.
    pub fn parse_expression<T>(str: &str) -> (expression: Result<Expression<T>, CalculationError>) where
        T: Literal,

        ensures
            text_builds(str@, expression),
    {
        match GrammarParser::parse(Rule::expr, str) {
            Err(error) => Err(error),
            Ok(node) => Expression::parse(&node),
        }
    }

    /// Evaluates an expression under the calculator's state.
    pub fn evaluate_expression<T>(&self, expr: Expression<T>) -> (result: Result<
        T,
        CalculationError,
    >) where T: Literal
        ensures
            expression_yields(expr, self.state().angle(), result),
    {
        expr.evaluate(&self.state)
    }

    /// The names of the operations of two operands, as the grammar has them.
    pub fn get_binary_operations<'a>() -> (names: Vec<&'a str>)
        ensures
            names@.len() == 5,
            names@[0]@ == parser::grammar::word(Rule::add),
            names@[1]@ == parser::grammar::word(Rule::sub),
            names@[2]@ == parser::grammar::word(Rule::mul),
            names@[3]@ == parser::grammar::word(Rule::div),
            names@[4]@ == parser::grammar::word(Rule::pow),
    {
        proof {
            reveal_strlit("add");
            reveal_strlit("sub");
            reveal_strlit("mul");
            reveal_strlit("div");
            reveal_strlit("pow");
            assert("add"@ =~= parser::grammar::word(Rule::add));
            assert("sub"@ =~= parser::grammar::word(Rule::sub));
            assert("mul"@ =~= parser::grammar::word(Rule::mul));
            assert("div"@ =~= parser::grammar::word(Rule::div));
            assert("pow"@ =~= parser::grammar::word(Rule::pow));
        }
        vec!["add", "sub", "mul", "div", "pow"]
    }

    /// The names of the operations of one operand, as the grammar has them.
    pub fn get_unary_operations<'a>() -> (names: Vec<&'a str>)
        ensures
            names@.len() == 6,
            names@[0]@ == parser::grammar::word(Rule::abs),
            names@[1]@ == parser::grammar::word(Rule::sqrt),
            names@[2]@ == parser::grammar::word(Rule::sin),
            names@[3]@ == parser::grammar::word(Rule::cos),
            names@[4]@ == parser::grammar::word(Rule::tg),
            names@[5]@ == parser::grammar::word(Rule::ctg),
    {
        proof {
            reveal_strlit("abs");
            reveal_strlit("sqrt");
            reveal_strlit("sin");
            reveal_strlit("cos");
            reveal_strlit("tg");
            reveal_strlit("ctg");
            assert("abs"@ =~= parser::grammar::word(Rule::abs));
            assert("sqrt"@ =~= parser::grammar::word(Rule::sqrt));
            assert("sin"@ =~= parser::grammar::word(Rule::sin));
            assert("cos"@ =~= parser::grammar::word(Rule::cos));
            assert("tg"@ =~= parser::grammar::word(Rule::tg));
            assert("ctg"@ =~= parser::grammar::word(Rule::ctg));
        }
        vec!["abs", "sqrt", "sin", "cos", "tg", "ctg"]
    }
}

impl<S: Literal> Calculator<S> {
    /// Evaluates a source text in the given mode and tags the value with it.
    ///
    /// The text is parsed, the expression is built from the parse tree, and
    /// the expression is evaluated under the calculator's state; the first
    /// error on the way is the result.
    pub fn evaluate_string(&self, str: &str, mode: CalculationMode) -> (result: Result<
        CalculationResult<S>,
        CalculationError,
    >)
        ensures
            evaluation_yields(str@, mode, self.state().angle(), result),
    {
        match mode {
            CalculationMode::HighPrecision => {
                let built = Calculator::<S>::parse_expression::<Decimal>(str);
                let expression = match built {
                    Err(error) => {
                        return Err(error);
                    },
                    Ok(expression) => expression,
                };
                match self.evaluate_expression(expression) {
                    Err(error) => Err(error),
                    Ok(value) => Ok(CalculationResult::HighPrecision(value)),
                }
            },
            CalculationMode::StandardPrecision => {
                let built = Calculator::<S>::parse_expression::<S>(str);
                let expression = match built {
                    Err(error) => {
                        return Err(error);
                    },
                    Ok(expression) => expression,
                };
                match self.evaluate_expression(expression) {
                    Err(error) => Err(error),
                    Ok(value) => Ok(CalculationResult::StandardPrecision(value)),
                }
            },
        }
    }

    /// Evaluates a source text in standard precision.
    pub fn evaluate_standard(&self, str: &str) -> (result: Result<S, CalculationError>)
        ensures
            text_yields::<S>(str@, self.state().angle(), result),
    {
        match self.evaluate_string(str, CalculationMode::StandardPrecision) {
            Ok(CalculationResult::StandardPrecision(e)) => Ok(e),
            Ok(CalculationResult::HighPrecision(_)) => Err(CalculationError::InternalInvariant),
            Err(error) => Err(error),
        }
    }

    /// Evaluates a source text in high precision.
    pub fn evaluate_high(&self, str: &str) -> (result: Result<Decimal, CalculationError>)
        ensures
            text_yields::<Decimal>(str@, self.state().angle(), result),
    {
        match self.evaluate_string(str, CalculationMode::HighPrecision) {
            Ok(CalculationResult::HighPrecision(e)) => Ok(e),
            Ok(CalculationResult::StandardPrecision(_)) => Err(CalculationError::InternalInvariant),
            Err(error) => Err(error),
        }
    }
}

/// Taking an entry out of a list changes the bindings of no other name.
proof fn lemma_bindings_remove_entry<S>(entries: Seq<(String, CalculationResult<S>)>, i: int)
    requires
        0 <= i < entries.len(),
    ensures
        bindings(entries.remove(i)).remove(entries[i].0@) == bindings(entries).remove(
            entries[i].0@,
        ),
    decreases entries.len(),
{
    let key = entries[i].0@;
    let last = entries.last();
    if i == entries.len() - 1 {
        assert(entries.remove(i) == entries.drop_last());
        assert(bindings(entries.drop_last()).insert(last.0@, last.1).remove(key) == bindings(
            entries.drop_last(),
        ).remove(key));
    } else {
        let shorter = entries.drop_last();
        lemma_bindings_remove_entry(shorter, i);
        assert(entries.remove(i).drop_last() == shorter.remove(i));
        assert(entries.remove(i).last() == last);
        assert(shorter[i] == entries[i]);
        assert(bindings(shorter.remove(i)).insert(last.0@, last.1).remove(key) == bindings(
            shorter,
        ).insert(last.0@, last.1).remove(key)) by {
            let left = bindings(shorter.remove(i));
            let right = bindings(shorter);
            assert(left.remove(key) == right.remove(key));
            assert forall|k: Seq<char>|
                left.insert(last.0@, last.1).remove(key).contains_key(k) == right.insert(
                    last.0@,
                    last.1,
                ).remove(key).contains_key(k) by {
                assert(left.remove(key).contains_key(k) == right.remove(key).contains_key(k));
            }
            assert forall|k: Seq<char>|
                left.insert(last.0@, last.1).remove(key).contains_key(k) implies left.insert(
                    last.0@,
                    last.1,
                ).remove(key)[k] == right.insert(last.0@, last.1).remove(key)[k] by {
                assert(left.remove(key).contains_key(k) ==> left.remove(key)[k] == right.remove(
                    key,
                )[k]);
            }
            assert(left.insert(last.0@, last.1).remove(key) =~= right.insert(
                last.0@,
                last.1,
            ).remove(key));
        }
    }
}

/// Two lists with the same names in the same places bind the same names.
proof fn lemma_bindings_names<S>(
    one: Seq<(String, CalculationResult<S>)>,
    other: Seq<(String, CalculationResult<S>)>,
)
    requires
        one.len() == other.len(),
        forall|j: int| 0 <= j < one.len() ==> (#[trigger] one[j]).0@ == other[j].0@,
    ensures
        bindings(one).dom() == bindings(other).dom(),
    decreases one.len(),
{
    if one.len() > 0 {
        assert forall|j: int| 0 <= j < one.drop_last().len() implies (#[trigger] one.drop_last()[j]).0@
            == other.drop_last()[j].0@ by {
            assert(one.drop_last()[j] == one[j]);
            assert(other.drop_last()[j] == other[j]);
        }
        lemma_bindings_names(one.drop_last(), other.drop_last());
        assert(one.last() == one[one.len() - 1]);
        assert(other.last() == other[one.len() - 1]);
        assert(bindings(one).dom() =~= bindings(other).dom());
    }
}

/// A name that is not bound is the name of no entry.
proof fn lemma_unbound_has_no_entry<S>(entries: Seq<(String, CalculationResult<S>)>, key: Seq<char>)
    requires
        !bindings(entries).contains_key(key),
    ensures
        forall|j: int| 0 <= j < entries.len() ==> (#[trigger] entries[j]).0@ != key,
    decreases entries.len(),
{
    if entries.len() > 0 {
        let shorter = entries.drop_last();
        lemma_unbound_has_no_entry(shorter, key);
        assert forall|j: int| 0 <= j < entries.len() implies (#[trigger] entries[j]).0@ != key by {
            if j < shorter.len() {
                assert(shorter[j] == entries[j]);
            }
        }
    }
}

/// A name that no entry has is not bound.
proof fn lemma_bindings_without<S>(entries: Seq<(String, CalculationResult<S>)>, key: Seq<char>)
    requires
        forall|j: int| 0 <= j < entries.len() ==> (#[trigger] entries[j]).0@ != key,
    ensures
        !bindings(entries).contains_key(key),
    decreases entries.len(),
{
    if entries.len() > 0 {
        let shorter = entries.drop_last();
        assert forall|j: int| 0 <= j < shorter.len() implies (#[trigger] shorter[j]).0@ != key by {
            assert(shorter[j] == entries[j]);
        }
        lemma_bindings_without(shorter, key);
    }
}

/// A name is bound to the value of the last entry that has it.
proof fn lemma_bindings_last<S>(entries: Seq<(String, CalculationResult<S>)>, i: int)
    requires
        0 <= i < entries.len(),
        forall|j: int| i < j < entries.len() ==> (#[trigger] entries[j]).0@ != entries[i].0@,
    ensures
        bindings(entries).contains_key(entries[i].0@),
        bindings(entries)[entries[i].0@] == entries[i].1,
    decreases entries.len(),
{
    if i < entries.len() - 1 {
        let shorter = entries.drop_last();
        assert(shorter[i] == entries[i]);
        assert forall|j: int| i < j < shorter.len() implies (#[trigger] shorter[j]).0@
            != shorter[i].0@ by {
            assert(shorter[j] == entries[j]);
        }
        lemma_bindings_last(shorter, i);
        assert(entries.last().0@ != entries[i].0@);
    }
}

} // verus!
