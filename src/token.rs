use vstd::prelude::*;

verus! {

/// The kinds of lexical units of the language.
#[derive(Debug, Clone, Copy, PartialEq, Eq, Structural)]
pub enum TokenType {
    // Single-character punctuation.
    LeftParen,
    RightParen,
    LeftBrace,
    RightBrace,
    Comma,
    Dot,
    Minus,
    Plus,
    Semicolon,
    Slash,
    Star,
    Qmark,
    Colon,
    // One- or two-character operators.
    Bang,
    BangEqual,
    Equal,
    EqualEqual,
    Greater,
    GreaterEqual,
    Less,
    LessEqual,
    // Literals.
    Identifier,
    String,
    Number,
    // Keywords.
    And,
    Else,
    False,
    For,
    If,
    Nil,
    Or,
    Print,
    True,
    Var,
    While,
    EOF,
}

/// A lexical unit: its kind, the text it stands for and the line it was read on.
#[derive(Debug, Clone, PartialEq, Eq)]
pub struct Token {
    pub token_type: TokenType,
    pub lexeme: String,
    pub line: usize,
}

/// The mathematical content of a token.
pub struct TokenView {
    pub kind: TokenType,
    pub text: Seq<char>,
    pub line: int,
}

pub open spec fn token_view(kind: TokenType, text: Seq<char>, line: int) -> TokenView {
    TokenView { kind, text, line }
}

impl View for Token {
    type V = TokenView;

    open spec fn view(&self) -> TokenView {
        TokenView { kind: self.token_type, text: self.lexeme@, line: self.line as int }
    }
}

impl Token {
    pub fn new(token_type: TokenType, lexeme: String, line: usize) -> (r: Token)
        ensures
            r.token_type == token_type,
            r.lexeme@ == lexeme@,
            r.line == line,
    {
        Token { token_type, lexeme, line }
    }

    /// A copy of the token that keeps every field.
    pub fn duplicate(&self) -> (r: Token)
        ensures
            r@ == self@,
    {
        Token { token_type: self.token_type, lexeme: self.lexeme.clone(), line: self.line }
    }
}

} // verus!
