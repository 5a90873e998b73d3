//! Tokens and their kinds, as values and as mathematical views.

use vstd::prelude::*;

verus! {

/// The literal a token spells.
#[derive(Debug, Clone, PartialEq)]
pub enum LitKind {
    /// A string literal; `raw_without_sign` is the text between the quotes.
    Str { terminated: bool, raw_without_sign: String },
    /// A character literal; `raw_without_sign` is the text between the quotes.
    Char { terminated: bool, raw_without_sign: String },
    Num,
    Bool,
    Null,
}

#[derive(Debug, Clone, Copy, PartialEq, Eq, Structural)]
pub enum CommentKind {
    Line,
    Block { terminated: bool },
}

#[derive(Debug, Clone, Copy, PartialEq, Eq, Structural)]
pub enum IdentKind {
    Ident,
    /// An identifier behind the raw prefix; `terminated` tells whether an
    /// identifier really followed the prefix.
    Raw { terminated: bool },
}

#[derive(Debug, Clone, Copy, PartialEq, Eq, Structural)]
pub enum BinOpKind {
    Plus,
    Minus,
    Star,
    Slash,
    Percent,
    Caret,
    And,
    Or,
    AndAnd,
    OrOr,
    ShiftL,
    ShiftR,
}

#[derive(Debug, Clone, PartialEq)]
pub enum TokenKind {
    BinOp(BinOpKind),
    BinOpEq(BinOpKind),
    Not,
    Eq,
    EqEq,
    Ne,
    Gt,
    Lt,
    Ge,
    Le,
    At,
    Dot,
    DotDot,
    DotDotEq,
    Comma,
    Semi,
    LParen,
    RParen,
    LBrace,
    RBrace,
    LBracket,
    RBracket,
    Ident(IdentKind),
    Comment { kind: CommentKind, text: String },
    Whitespace,
    Let,
    Mut,
    Mod,
    Use,
    As,
    From,
    While,
    Loop,
    For,
    In,
    Async,
    Yield,
    Continue,
    Return,
    Break,
    Eof,
    Lit(LitKind),
    Fn,
    Enum,
    Pub,
    If,
    Else,
    Class,
    Extends,
}

/// One classified piece of the source text.
#[derive(Debug, Clone, PartialEq)]
pub struct Token {
    pub kind: TokenKind,
    /// The exact text the token covers.
    pub raw: String,
    /// The offset, in characters, at which the token starts.
    pub pos: usize,
}

/// [`LitKind`] with its texts as character sequences.
pub enum LitKindView {
    Str { terminated: bool, raw_without_sign: Seq<char> },
    Char { terminated: bool, raw_without_sign: Seq<char> },
    Num,
    Bool,
    Null,
}

/// [`TokenKind`] with its texts as character sequences.
pub enum TokenKindView {
    BinOp(BinOpKind),
    BinOpEq(BinOpKind),
    Not,
    Eq,
    EqEq,
    Ne,
    Gt,
    Lt,
    Ge,
    Le,
    At,
    Dot,
    DotDot,
    DotDotEq,
    Comma,
    Semi,
    LParen,
    RParen,
    LBrace,
    RBrace,
    LBracket,
    RBracket,
    Ident(IdentKind),
    Comment { kind: CommentKind, text: Seq<char> },
    Whitespace,
    Let,
    Mut,
    Mod,
    Use,
    As,
    From,
    While,
    Loop,
    For,
    In,
    Async,
    Yield,
    Continue,
    Return,
    Break,
    Eof,
    Lit(LitKindView),
    Fn,
    Enum,
    Pub,
    If,
    Else,
    Class,
    Extends,
}

/// [`Token`] as a mathematical value.
pub struct TokenView {
    pub kind: TokenKindView,
    pub raw: Seq<char>,
    pub pos: nat,
}

impl View for LitKind {
    type V = LitKindView;

    open spec fn view(&self) -> LitKindView {
        match *self {
            LitKind::Str { terminated, raw_without_sign } => LitKindView::Str {
                terminated,
                raw_without_sign: raw_without_sign@,
            },
            LitKind::Char { terminated, raw_without_sign } => LitKindView::Char {
                terminated,
                raw_without_sign: raw_without_sign@,
            },
            LitKind::Num => LitKindView::Num,
            LitKind::Bool => LitKindView::Bool,
            LitKind::Null => LitKindView::Null,
        }
    }
}

impl View for TokenKind {
    type V = TokenKindView;

    open spec fn view(&self) -> TokenKindView {
        match *self {
            TokenKind::BinOp(op) => TokenKindView::BinOp(op),
            TokenKind::BinOpEq(op) => TokenKindView::BinOpEq(op),
            TokenKind::Not => TokenKindView::Not,
            TokenKind::Eq => TokenKindView::Eq,
            TokenKind::EqEq => TokenKindView::EqEq,
            TokenKind::Ne => TokenKindView::Ne,
            TokenKind::Gt => TokenKindView::Gt,
            TokenKind::Lt => TokenKindView::Lt,
            TokenKind::Ge => TokenKindView::Ge,
            TokenKind::Le => TokenKindView::Le,
            TokenKind::At => TokenKindView::At,
            TokenKind::Dot => TokenKindView::Dot,
            TokenKind::DotDot => TokenKindView::DotDot,
            TokenKind::DotDotEq => TokenKindView::DotDotEq,
            TokenKind::Comma => TokenKindView::Comma,
            TokenKind::Semi => TokenKindView::Semi,
            TokenKind::LParen => TokenKindView::LParen,
            TokenKind::RParen => TokenKindView::RParen,
            TokenKind::LBrace => TokenKindView::LBrace,
            TokenKind::RBrace => TokenKindView::RBrace,
            TokenKind::LBracket => TokenKindView::LBracket,
            TokenKind::RBracket => TokenKindView::RBracket,
            TokenKind::Ident(kind) => TokenKindView::Ident(kind),
            TokenKind::Comment { kind, text } => TokenKindView::Comment { kind, text: text@ },
            TokenKind::Whitespace => TokenKindView::Whitespace,
            TokenKind::Let => TokenKindView::Let,
            TokenKind::Mut => TokenKindView::Mut,
            TokenKind::Mod => TokenKindView::Mod,
            TokenKind::Use => TokenKindView::Use,
            TokenKind::As => TokenKindView::As,
            TokenKind::From => TokenKindView::From,
            TokenKind::While => TokenKindView::While,
            TokenKind::Loop => TokenKindView::Loop,
            TokenKind::For => TokenKindView::For,
            TokenKind::In => TokenKindView::In,
            TokenKind::Async => TokenKindView::Async,
            TokenKind::Yield => TokenKindView::Yield,
            TokenKind::Continue => TokenKindView::Continue,
            TokenKind::Return => TokenKindView::Return,
            TokenKind::Break => TokenKindView::Break,
            TokenKind::Eof => TokenKindView::Eof,
            TokenKind::Lit(lit) => TokenKindView::Lit(lit@),
            TokenKind::Fn => TokenKindView::Fn,
            TokenKind::Enum => TokenKindView::Enum,
            TokenKind::Pub => TokenKindView::Pub,
            TokenKind::If => TokenKindView::If,
            TokenKind::Else => TokenKindView::Else,
            TokenKind::Class => TokenKindView::Class,
            TokenKind::Extends => TokenKindView::Extends,
        }
    }
}

impl View for Token {
    type V = TokenView;

    open spec fn view(&self) -> TokenView {
        TokenView { kind: self.kind@, raw: self.raw@, pos: self.pos as nat }
    }
}

impl TokenKindView {
    /// White space and comments separate tokens and mean nothing else.
    pub open spec fn is_nop(self) -> bool {
        self is Comment || self is Whitespace
    }
}

impl Token {
    pub fn new(kind: TokenKind, raw: String, pos: usize) -> (token: Self)
        ensures
            token.kind == kind,
            token.raw == raw,
            token.pos == pos,
    {
        Self { kind, raw, pos }
    }

    /// Whether a parser may pass over this token.
    pub fn is_nop(&self) -> (nop: bool)
        ensures
            nop == self@.kind.is_nop(),
    {
        match self.kind {
            TokenKind::Comment { .. } => true,
            TokenKind::Whitespace => true,
            _ => false,
        }
    }
}

} // verus!
