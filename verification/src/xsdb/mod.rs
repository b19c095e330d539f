//! A statement language: text is classified into glyphs, lexed into tokens,
//! and read into a statement tree.

pub mod chars;
pub mod lexeme;
pub mod offsets;
pub mod query;
pub mod theorems;
pub mod token;
pub mod tokenizer;
