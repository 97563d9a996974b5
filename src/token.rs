use vstd::prelude::*;

verus! {

/// A classified unit of the source text, handed on to the parser.
#[derive(Debug, Clone, PartialEq, Eq)]
pub enum TokenKind {
    OpenBrace,
    CloseBrace,
    OpenParenthesis,
    CloseParenthesis,
    Semicolon,
    IntKeyword,
    ReturnKeyword,
    Identifier(String),
    IntegerLiteral(i32),
}

/// The mathematical value of a token: an identifier is its characters.
pub enum Token {
    OpenBrace,
    CloseBrace,
    OpenParenthesis,
    CloseParenthesis,
    Semicolon,
    IntKeyword,
    ReturnKeyword,
    Identifier(Seq<char>),
    IntegerLiteral(i32),
}

impl View for TokenKind {
    type V = Token;

    open spec fn view(&self) -> Token {
        match self {
            TokenKind::OpenBrace => Token::OpenBrace,
            TokenKind::CloseBrace => Token::CloseBrace,
            TokenKind::OpenParenthesis => Token::OpenParenthesis,
            TokenKind::CloseParenthesis => Token::CloseParenthesis,
            TokenKind::Semicolon => Token::Semicolon,
            TokenKind::IntKeyword => Token::IntKeyword,
            TokenKind::ReturnKeyword => Token::ReturnKeyword,
            TokenKind::Identifier(name) => Token::Identifier(name@),
            TokenKind::IntegerLiteral(v) => Token::IntegerLiteral(*v),
        }
    }
}

/// Why a source text could not be tokenized; each error carries the offending raw word.
#[derive(Debug, Clone, PartialEq, Eq)]
pub enum LexError {
    /// The word matches none of the classification rules.
    UnrecognizedInput(String),
    /// The word is a digit sequence whose value does not fit in an `i32`.
    NumericOverflow(String),
}

/// The mathematical value of a `LexError`.
pub enum Failure {
    UnrecognizedInput(Seq<char>),
    NumericOverflow(Seq<char>),
}

impl View for LexError {
    type V = Failure;

    open spec fn view(&self) -> Failure {
        match self {
            LexError::UnrecognizedInput(w) => Failure::UnrecognizedInput(w@),
            LexError::NumericOverflow(w) => Failure::NumericOverflow(w@),
        }
    }
}

pub open spec fn token_result_view(r: Result<TokenKind, LexError>) -> Result<Token, Failure> {
    match r {
        Ok(t) => Ok(t@),
        Err(e) => Err(e@),
    }
}

pub open spec fn tokens_view(v: Seq<TokenKind>) -> Seq<Token> {
    v.map_values(|t: TokenKind| t@)
}

pub open spec fn tokens_result_view(r: Result<Vec<TokenKind>, LexError>) -> Result<Seq<Token>, Failure> {
    match r {
        Ok(v) => Ok(tokens_view(v@)),
        Err(e) => Err(e@),
    }
}

/// Whitespace separates words and is never part of one.
pub open spec fn is_space(c: char) -> bool {
    c == ' ' || c == '\t' || c == '\n'
}

/// The punctuation table: the token of each single-character punctuation word.
pub open spec fn punct_token(c: char) -> Option<Token> {
    if c == ';' {
        Some(Token::Semicolon)
    } else if c == '(' {
        Some(Token::OpenParenthesis)
    } else if c == ')' {
        Some(Token::CloseParenthesis)
    } else if c == '{' {
        Some(Token::OpenBrace)
    } else if c == '}' {
        Some(Token::CloseBrace)
    } else {
        None
    }
}

pub open spec fn is_punct(c: char) -> bool {
    punct_token(c) is Some
}

/// The keyword table: reserved words, matched verbatim.
pub open spec fn keyword_token(w: Seq<char>) -> Option<Token> {
    if w == seq!['i', 'n', 't'] {
        Some(Token::IntKeyword)
    } else if w == seq!['r', 'e', 't', 'u', 'r', 'n'] {
        Some(Token::ReturnKeyword)
    } else {
        None
    }
}

/// Looks up the punctuation table.
pub fn punctuation(c: char) -> (r: Option<TokenKind>)
    ensures
        r is Some <==> punct_token(c) is Some,
        r matches Some(t) ==> punct_token(c) == Some(t@),
{
    match c {
        ';' => Some(TokenKind::Semicolon),
        '(' => Some(TokenKind::OpenParenthesis),
        ')' => Some(TokenKind::CloseParenthesis),
        '{' => Some(TokenKind::OpenBrace),
        '}' => Some(TokenKind::CloseBrace),
        _ => None,
    }
}

} // verus!
