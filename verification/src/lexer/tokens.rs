//! The token vocabulary.

use vstd::prelude::*;

verus! {

/// What a token is.
#[derive(Debug, Clone, PartialEq)]
pub enum TokenKind {
    /// A name that is no keyword.
    Identifier(String),
    /// The keyword `fn`.
    Function,
    /// The keyword `let`.
    Let,
    /// An integer literal, by its value.
    Integer(i32),
    /// A literal with a decimal point, by its digits and dot with the
    /// grouping underscores removed.
    Float(String),
    Plus,
    OpenParen,
    CloseParen,
    OpenBrace,
    CloseBrace,
    Bar,
    Semicolon,
    Colon,
    Comma,
    Dot,
    Equal,
}

/// A token kind with its texts as character sequences.
pub ghost enum KindView {
    Identifier(Seq<char>),
    Function,
    Let,
    Integer(int),
    Float(Seq<char>),
    Plus,
    OpenParen,
    CloseParen,
    OpenBrace,
    CloseBrace,
    Bar,
    Semicolon,
    Colon,
    Comma,
    Dot,
    Equal,
}

impl View for TokenKind {
    type V = KindView;

    open spec fn view(&self) -> KindView {
        match *self {
            TokenKind::Identifier(name) => KindView::Identifier(name@),
            TokenKind::Function => KindView::Function,
            TokenKind::Let => KindView::Let,
            TokenKind::Integer(value) => KindView::Integer(value as int),
            TokenKind::Float(text) => KindView::Float(text@),
            TokenKind::Plus => KindView::Plus,
            TokenKind::OpenParen => KindView::OpenParen,
            TokenKind::CloseParen => KindView::CloseParen,
            TokenKind::OpenBrace => KindView::OpenBrace,
            TokenKind::CloseBrace => KindView::CloseBrace,
            TokenKind::Bar => KindView::Bar,
            TokenKind::Semicolon => KindView::Semicolon,
            TokenKind::Colon => KindView::Colon,
            TokenKind::Comma => KindView::Comma,
            TokenKind::Dot => KindView::Dot,
            TokenKind::Equal => KindView::Equal,
        }
    }
}

/// A token with the position of its first character.
#[derive(Debug, Clone, PartialEq)]
pub struct Token {
    pub kind: TokenKind,
    pub row: usize,
    pub col: usize,
}

/// A token as a mathematical value.
pub ghost struct TokenView {
    pub kind: KindView,
    pub row: nat,
    pub col: nat,
}

impl View for Token {
    type V = TokenView;

    open spec fn view(&self) -> TokenView {
        TokenView { kind: self.kind@, row: self.row as nat, col: self.col as nat }
    }
}

/// The views of a sequence of tokens, in order.
pub open spec fn token_views(tokens: Seq<Token>) -> Seq<TokenView> {
    tokens.map_values(|t: Token| t@)
}

} // verus!
