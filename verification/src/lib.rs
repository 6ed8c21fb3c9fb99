//! Lexical analysis for the Lox scripting language.
//!
//! The crate turns source text into an ordered sequence of tokens together
//! with the lexical errors met on the way. The grammar is stated once, as
//! mathematical functions over sequences of characters, and the executable
//! scanner is proved to compute exactly what the grammar prescribes.

pub mod grammar;
pub mod laws;
pub mod scanner;
pub mod token;

pub use scanner::{ScanOutcome, Scanner};
pub use token::{ScanErrorKind, ScanningError, Token, TokenKind};
