//! A lexer for arithmetic expressions: it turns one line of text into a
//! sequence of classified tokens (numbers, operators and grouping symbols).

pub mod text;
pub mod token;
pub mod scanner;
pub mod laws;
pub mod display;
