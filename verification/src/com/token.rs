//! The tokens of Marin source text, and how messages name them.

use vstd::prelude::*;

verus! {

/// A kind of token of Marin source text.
#[derive(Debug, Clone, Copy, PartialEq, Eq, Structural)]
pub enum Token {
    Eof,
    Newline,
    Ident,
    Int,
    Float,
    String,
    Builtin,
    True,
    False,
    Underscores,
    Do,
    End,
    If,
    Then,
    Else,
    While,
    Loop,
    Match,
    With,
    Break,
    Skip,
    Fun,
    Let,
    Pub,
    Alias,
    Import,
    From,
    As,
    Super,
    Record,
    Union,
    Class,
    Have,
    Of,
    LeftParen,
    RightParen,
    LeftBracket,
    RightBracket,
    LeftBrace,
    RightBrace,
    LeftChev,
    RightChev,
    Dot,
    Comma,
    Colon,
    Assign,
    Maps,
    Add,
    Sub,
    Mul,
    Div,
    Mod,
    Eq,
    Ne,
    Le,
    Ge,
    BitAnd,
    BitOr,
    BitXor,
    BitNeg,
    And,
    Or,
    Xor,
    Not,
}

/// How a message names a token.
pub open spec fn token_text(t: Token) -> Seq<char> {
    match t {
        Token::Eof => "end of file"@,
        Token::Newline => "new line"@,
        Token::Ident => "identifier"@,
        Token::Int => "integer"@,
        Token::Float => "float"@,
        Token::String => "string"@,
        Token::Builtin => "builtin"@,
        Token::True => "'true'"@,
        Token::False => "'false'"@,
        Token::Underscores => "'_'"@,
        Token::Do => "'do'"@,
        Token::End => "'end'"@,
        Token::If => "'if'"@,
        Token::Then => "'then'"@,
        Token::Else => "'else'"@,
        Token::While => "'while'"@,
        Token::Loop => "'loop'"@,
        Token::Match => "'match'"@,
        Token::With => "'with'"@,
        Token::Break => "'break'"@,
        Token::Skip => "'skip'"@,
        Token::Fun => "'fun'"@,
        Token::Let => "'let'"@,
        Token::Pub => "'pub'"@,
        Token::Alias => "'alias'"@,
        Token::Import => "'import'"@,
        Token::From => "'from'"@,
        Token::As => "'as'"@,
        Token::Super => "'super'"@,
        Token::Record => "'record'"@,
        Token::Union => "'union'"@,
        Token::Class => "'class'"@,
        Token::Have => "'have'"@,
        Token::Of => "'of'"@,
        Token::LeftParen => "'('"@,
        Token::RightParen => "')'"@,
        Token::LeftBracket => "'['"@,
        Token::RightBracket => "']'"@,
        Token::LeftBrace => "'{'"@,
        Token::RightBrace => "'}'"@,
        Token::LeftChev => "'<'"@,
        Token::RightChev => "'>'"@,
        Token::Dot => "'.'"@,
        Token::Comma => "','"@,
        Token::Colon => "':'"@,
        Token::Assign => "'='"@,
        Token::Maps => "'=>'"@,
        Token::Add => "'+'"@,
        Token::Sub => "'-'"@,
        Token::Mul => "'*'"@,
        Token::Div => "'/'"@,
        Token::Mod => "'%'"@,
        Token::Eq => "'=='"@,
        Token::Ne => "'!='"@,
        Token::Le => "'<='"@,
        Token::Ge => "'>='"@,
        Token::BitAnd => "'&'"@,
        Token::BitOr => "'|'"@,
        Token::BitXor => "'^'"@,
        Token::BitNeg => "'~'"@,
        Token::And => "'and'"@,
        Token::Or => "'or'"@,
        Token::Xor => "'xor'"@,
        Token::Not => "'not'"@,
    }
}

impl Token {
    /// How a message names this token.
    pub fn text(&self) -> (s: &'static str)
        ensures
            s@ == token_text(*self),
    {
        match self {
            Token::Eof => "end of file",
            Token::Newline => "new line",
            Token::Ident => "identifier",
            Token::Int => "integer",
            Token::Float => "float",
            Token::String => "string",
            Token::Builtin => "builtin",
            Token::True => "'true'",
            Token::False => "'false'",
            Token::Underscores => "'_'",
            Token::Do => "'do'",
            Token::End => "'end'",
            Token::If => "'if'",
            Token::Then => "'then'",
            Token::Else => "'else'",
            Token::While => "'while'",
            Token::Loop => "'loop'",
            Token::Match => "'match'",
            Token::With => "'with'",
            Token::Break => "'break'",
            Token::Skip => "'skip'",
            Token::Fun => "'fun'",
            Token::Let => "'let'",
            Token::Pub => "'pub'",
            Token::Alias => "'alias'",
            Token::Import => "'import'",
            Token::From => "'from'",
            Token::As => "'as'",
            Token::Super => "'super'",
            Token::Record => "'record'",
            Token::Union => "'union'",
            Token::Class => "'class'",
            Token::Have => "'have'",
            Token::Of => "'of'",
            Token::LeftParen => "'('",
            Token::RightParen => "')'",
            Token::LeftBracket => "'['",
            Token::RightBracket => "']'",
            Token::LeftBrace => "'{'",
            Token::RightBrace => "'}'",
            Token::LeftChev => "'<'",
            Token::RightChev => "'>'",
            Token::Dot => "'.'",
            Token::Comma => "','",
            Token::Colon => "':'",
            Token::Assign => "'='",
            Token::Maps => "'=>'",
            Token::Add => "'+'",
            Token::Sub => "'-'",
            Token::Mul => "'*'",
            Token::Div => "'/'",
            Token::Mod => "'%'",
            Token::Eq => "'=='",
            Token::Ne => "'!='",
            Token::Le => "'<='",
            Token::Ge => "'>='",
            Token::BitAnd => "'&'",
            Token::BitOr => "'|'",
            Token::BitXor => "'^'",
            Token::BitNeg => "'~'",
            Token::And => "'and'",
            Token::Or => "'or'",
            Token::Xor => "'xor'",
            Token::Not => "'not'",
        }
    }
}

} // verus!
