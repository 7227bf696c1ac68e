//! The token data model: the closed set of lexical categories, the literal
//! payload union, and the immutable token record, together with their
//! mathematical views.

use vstd::prelude::*;

verus! {

/// The closed, exhaustive set of lexical categories: single-character
/// punctuation, one-or-two-character operators, literals, reserved keywords,
/// and the end-of-input marker.
#[derive(Clone, Copy, Debug, PartialEq, Eq, Structural)]
pub enum TokenType {
    LeftParen,
    RightParen,
    LeftBrace,
    RightBrace,
    Comma,
    Dot,
    Minus,
    Plus,
    Semicolon,
    Slash,
    Star,
    Bang,
    BangEqual,
    Equal,
    EqualEqual,
    Greater,
    GreaterEqual,
    Less,
    LessEqual,
    Identifier,
    Str,
    Number,
    And,
    Class,
    Else,
    False,
    Fun,
    For,
    If,
    Nil,
    Or,
    Print,
    Return,
    Super,
    This,
    True,
    Var,
    While,
    EOF,
}

/// The literal payload of a token. Number literals carry the exact digit text
/// of their lexeme (`digit+ ('.' digit+)?`); turning that text into a machine
/// float is the display layer's concern, not the scanner's. Every non-literal
/// token carries `Null`.
#[derive(Clone, Debug, PartialEq, Eq)]
pub enum LiteralValue {
    StringValue(String),
    NumberValue(String),
    Null,
}

/// Mathematical view of a literal payload.
pub ghost enum LiteralModel {
    StringValue(Seq<char>),
    NumberValue(Seq<char>),
    Null,
}

impl View for LiteralValue {
    type V = LiteralModel;

    open spec fn view(&self) -> LiteralModel {
        match self {
            LiteralValue::StringValue(s) => LiteralModel::StringValue(s@),
            LiteralValue::NumberValue(s) => LiteralModel::NumberValue(s@),
            LiteralValue::Null => LiteralModel::Null,
        }
    }
}

/// An immutable token record: its category, the verbatim source substring it
/// was read from, its literal payload, and the 1-based source line in effect
/// when it was emitted.
#[derive(Clone, Debug, PartialEq, Eq)]
pub struct Token {
    pub token_type: TokenType,
    pub lexeme: String,
    pub literal: LiteralValue,
    pub line: usize,
}

/// Mathematical view of a token record.
pub ghost struct TokenModel {
    pub token_type: TokenType,
    pub lexeme: Seq<char>,
    pub literal: LiteralModel,
    pub line: int,
}

impl View for Token {
    type V = TokenModel;

    open spec fn view(&self) -> TokenModel {
        TokenModel {
            token_type: self.token_type,
            lexeme: self.lexeme@,
            literal: self.literal@,
            line: self.line as int,
        }
    }
}

impl Token {
    /// Construct a token from all four fields; no partially-initialized token
    /// ever exists.
    pub fn new(token_type: TokenType, lexeme: String, literal: LiteralValue, line: usize) -> (t:
        Token)
        ensures
            t@ == (TokenModel {
                token_type,
                lexeme: lexeme@,
                literal: literal@,
                line: line as int,
            }),
    {
        Token { token_type, lexeme, literal, line }
    }
}

/// The views of a token sequence, element by element.
pub open spec fn token_models(ts: Seq<Token>) -> Seq<TokenModel> {
    ts.map_values(|t: Token| t@)
}

} // verus!
