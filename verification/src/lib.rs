//! A lexer and a statement builder for a small SQL-like language, a to-do
//! list, two calculators, and some rules of an accounts book and a weather
//! report, with their behaviour stated in contracts and proved.

pub mod accounting;
pub mod calculator;
pub mod text;
pub mod todo;
pub mod weather;
pub mod xsdb;
