pub mod classify;
pub mod lex;
pub mod round_trip;
pub mod segment;
pub mod token;

pub use lex::lex;
pub use token::{LexError, TokenKind};
