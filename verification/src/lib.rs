//! A lossless tokenizer for a small programming language.
//!
//! A [`Scanner`] is a bounds-checked cursor over the characters of a source
//! text. A [`Lexer`] drives one scanner and classifies the text at the
//! cursor into one [`Token`] per call, longest spelling first. White space
//! and comments are tokens too, so the tokens of a text, put end to end,
//! give the text back.
//!
//! What a token is, for every text and every position in it, is defined once
//! as a mathematical function in [`grammar`]; the executable lexer is proved
//! to compute exactly that function. What holds of the tokens of a whole
//! text is stated and proved in [`stream`]. The few things that are taken
//! on trust stand together in [`trusted`].

pub mod error;
pub mod grammar;
pub mod lengths;
pub mod lexer;
pub mod scanner;
pub mod stream;
pub mod text;
pub mod token;
pub mod trusted;

pub use error::Error;
pub use lexer::Lexer;
pub use scanner::{Scanner, ScannerView};
pub use token::{
    BinOpKind, CommentKind, IdentKind, LitKind, LitKindView, Token, TokenKind, TokenKindView,
    TokenView,
};
