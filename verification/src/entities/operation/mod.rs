pub mod binary_operation;
pub mod unary_operation;
