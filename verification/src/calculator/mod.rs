//! Calculators: the reading of a line of numbers and operators, and the
//! reading of a whole expression into a tree.

pub mod expression;
pub mod running;
