use vstd::prelude::*;

use crate::entities::literal::Literal;
use crate::parser::{Parse, ParseNode, ParseTree, Rule, lemma_view_children};
use crate::{settle, CalculationError, CalculatorState};

verus! {

/// The functions of two operands.
#[derive(Clone, Copy, Debug)]
pub enum BinaryOperation {
    Add,
    Sub,
    Div,
    Mul,
    Pow,
}

impl BinaryOperation {
    /// Whether the function itself may return `value` for the two operands.
    pub open spec fn function_outcome<T: Literal>(self, lhs: T, rhs: T, value: Option<T>) -> bool {
        match self {
            BinaryOperation::Add => lhs.add_outcome(rhs, value),
            BinaryOperation::Sub => lhs.sub_outcome(rhs, value),
            BinaryOperation::Div => lhs.div_outcome(rhs, value),
            BinaryOperation::Mul => lhs.mul_outcome(rhs, value),
            BinaryOperation::Pow => lhs.pow_outcome(rhs, value),
        }
    }

    /// Whether applying the operation to the two operands may give `result`:
    /// a value that the function may return, or [`CalculationError::Domain`]
    /// where it may return none.
    pub open spec fn outcome<T: Literal>(self, lhs: T, rhs: T, result: Result<T, CalculationError>) -> bool {
        match result {
            Ok(value) => self.function_outcome(lhs, rhs, Some(value)),
            Err(error) => error == CalculationError::Domain && self.function_outcome(lhs, rhs, None),
        }
    }

    /// Applies the operation to two operands that have been evaluated.  The
    /// state plays no part in the result.
    pub fn apply<T: Literal, S>(&self, lhs: &T, rhs: &T, _state: &CalculatorState<S>) -> (result: Result<
        T,
        CalculationError,
    >)
        ensures
            self.outcome(*lhs, *rhs, result),
    {
        let value = match *self {
            BinaryOperation::Add => lhs.add(rhs),
            BinaryOperation::Sub => lhs.sub(rhs),
            BinaryOperation::Div => lhs.div(rhs),
            BinaryOperation::Mul => lhs.mul(rhs),
            BinaryOperation::Pow => lhs.pow(rhs),
        };
        settle(value)
    }

    /// The operation that a rule names, if it names one.
    pub open spec fn of_rule(rule: Rule) -> Option<BinaryOperation> {
        match rule {
            Rule::add => Some(BinaryOperation::Add),
            Rule::sub => Some(BinaryOperation::Sub),
            Rule::div => Some(BinaryOperation::Div),
            Rule::mul => Some(BinaryOperation::Mul),
            Rule::pow => Some(BinaryOperation::Pow),
            _ => None,
        }
    }
}

impl BinaryOperation {
    /// The operation that a tree stands for: a `binary_op` node whose first
    /// child names an operation gives that operation; every other tree is
    /// refused.
    pub open spec fn of_tree(tree: ParseTree) -> Result<BinaryOperation, CalculationError> {
        if tree.rule == Rule::binary_op && tree.children.len() > 0 {
            match BinaryOperation::of_rule(tree.children[0].rule) {
                Some(operation) => Ok(operation),
                None => Err(CalculationError::InternalInvariant),
            }
        } else {
            Err(CalculationError::InternalInvariant)
        }
    }
}

impl BinaryOperation {
    /// Whether the operation is a function in the representation `T`: it
    /// returns one thing only for each pair of operands.
    pub open spec fn is_determined<T: Literal>(self) -> bool {
        forall|lhs: T, rhs: T, first: Option<T>, second: Option<T>|
            #![trigger self.function_outcome(lhs, rhs, first), self.function_outcome(lhs, rhs, second)]
            self.function_outcome(lhs, rhs, first) && self.function_outcome(lhs, rhs, second)
                ==> first == second
    }

    /// An operation that is a function in the representation has one result
    /// only for each pair of operands.
    pub proof fn lemma_determined<T: Literal>(
        self,
        lhs: T,
        rhs: T,
        first: Result<T, CalculationError>,
        second: Result<T, CalculationError>,
    )
        requires
            self.is_determined::<T>(),
            self.outcome(lhs, rhs, first),
            self.outcome(lhs, rhs, second),
        ensures
            first == second,
    {
        let one: Option<T> = match first {
            Ok(value) => Some(value),
            Err(_) => None,
        };
        let other: Option<T> = match second {
            Ok(value) => Some(value),
            Err(_) => None,
        };
        assert(self.function_outcome(lhs, rhs, one));
        assert(self.function_outcome(lhs, rhs, other));
    }
}

impl Parse for BinaryOperation {
    open spec fn parses(tree: ParseTree, built: Result<Self, CalculationError>) -> bool {
        built == BinaryOperation::of_tree(tree)
    }

    fn parse(node: &ParseNode) -> (built: Result<Self, CalculationError>) {
        proof {
            lemma_view_children(*node);
        }
        match node.rule {
            Rule::binary_op => {
                if node.children.len() == 0 {
                    return Err(CalculationError::InternalInvariant);
                }
                let inner = &node.children[0];
                proof {
                    lemma_view_children(*inner);
                }
                match inner.rule {
                    Rule::add => Ok(Self::Add),
                    Rule::sub => Ok(Self::Sub),
                    Rule::div => Ok(Self::Div),
                    Rule::mul => Ok(Self::Mul),
                    Rule::pow => Ok(Self::Pow),
                    _ => Err(CalculationError::InternalInvariant),
                }
            },
            _ => Err(CalculationError::InternalInvariant),
        }
    }
}

} // verus!
