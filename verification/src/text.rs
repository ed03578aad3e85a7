//! Text coordinates for the token-buffer lexer: a position that advances by a
//! token's relative extent rather than character by character.

pub mod position;

pub use position::Position;
