//! A scanner for the source text of a C-like scripting language.
//!
//! [`lexer::Lexer`] reads a text once, from its start to its end, and gives
//! one [`token::Token`] per call: an operator or a punctuation mark, a
//! reserved word, an identifier, a number or a comment, with the line and
//! the column at which it starts. Of the operators that are written at a
//! place the longest is the token. A character that starts no token is a
//! token of its own kind, so that scanning always goes on; only a numeral
//! that writes no number is an error.
//!
//! What the scanner gives is stated over a grammar on sequences of
//! characters, in [`grammar`]. What holds of that grammar for every text is
//! proved in [`theorems`].

pub mod chars;
pub mod grammar;
pub mod lexer;
pub mod number;
pub mod ring;
pub mod text;
pub mod theorems;
pub mod token;
