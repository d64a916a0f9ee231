pub mod expression;
pub mod literal;
pub mod operation;
