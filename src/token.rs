use vstd::prelude::*;
use vstd::string::StringExecFns;

use crate::text::{debug_quoted, digits_of, push_decimal, quoted};

verus! {

/// Mathematical model of a token: an identifier is its sequence of characters.
pub enum TokenModel {
    LeftParen,
    RightParen,
    Not,
    Comma,
    Input(nat),
    Identifier(Seq<char>),
}

/// A lexical token of one line of circuit source.
#[derive(Clone, Debug, PartialEq, Eq)]
pub enum Token {
    LeftParen,
    RightParen,
    Not,
    Comma,
    Input { index: usize },
    Identifier { value: String },
}

impl View for Token {
    type V = TokenModel;

    open spec fn view(&self) -> TokenModel {
        match self {
            Token::LeftParen => TokenModel::LeftParen,
            Token::RightParen => TokenModel::RightParen,
            Token::Not => TokenModel::Not,
            Token::Comma => TokenModel::Comma,
            Token::Input { index } => TokenModel::Input(*index as nat),
            Token::Identifier { value } => TokenModel::Identifier(value@),
        }
    }
}

/// The models of a sequence of tokens.
pub open spec fn token_models(toks: Seq<Token>) -> Seq<TokenModel> {
    toks.map_values(|t: Token| t@)
}

/// Mathematical model of an analysis error.
pub enum ErrorModel {
    InvalidNumber(Seq<char>),
    UnexpectedToken(TokenModel),
    UnexpectedRightParen,
    UnknownFunction(Seq<char>),
    UnexpectedComma,
    UnexpectedTokensAfterExpr,
    InvalidParentheses,
    EmptyExpression,
    UnexpectedEndOfSource,
}

/// Why a line of circuit source was rejected.
#[derive(Debug)]
pub enum Error {
    InvalidNumber { text: String },
    UnexpectedToken { token: Token },
    UnexpectedRightParen,
    UnknownFunction { name: String },
    UnexpectedComma,
    UnexpectedTokensAfterExpr,
    InvalidParentheses,
    EmptyExpression,
    UnexpectedEndOfSource,
}

impl View for Error {
    type V = ErrorModel;

    open spec fn view(&self) -> ErrorModel {
        match self {
            Error::InvalidNumber { text } => ErrorModel::InvalidNumber(text@),
            Error::UnexpectedToken { token } => ErrorModel::UnexpectedToken(token@),
            Error::UnexpectedRightParen => ErrorModel::UnexpectedRightParen,
            Error::UnknownFunction { name } => ErrorModel::UnknownFunction(name@),
            Error::UnexpectedComma => ErrorModel::UnexpectedComma,
            Error::UnexpectedTokensAfterExpr => ErrorModel::UnexpectedTokensAfterExpr,
            Error::InvalidParentheses => ErrorModel::InvalidParentheses,
            Error::EmptyExpression => ErrorModel::EmptyExpression,
            Error::UnexpectedEndOfSource => ErrorModel::UnexpectedEndOfSource,
        }
    }
}

/// How `Debug` writes a token.
pub open spec fn token_text(t: TokenModel) -> Seq<char> {
    match t {
        TokenModel::LeftParen => "LeftParen"@,
        TokenModel::RightParen => "RightParen"@,
        TokenModel::Not => "Not"@,
        TokenModel::Comma => "Comma"@,
        TokenModel::Input(index) => "Input { index: "@ + digits_of(index) + " }"@,
        TokenModel::Identifier(value) => "Identifier { value: "@ + quoted(value) + " }"@,
    }
}

/// The message shown to a user for an error.
pub open spec fn message_of(e: ErrorModel) -> Seq<char> {
    match e {
        ErrorModel::InvalidNumber(text) => quoted(text) + " is not a valid number"@,
        ErrorModel::UnexpectedToken(token) => token_text(token) + " was not expected"@,
        ErrorModel::UnexpectedRightParen => "Invalid closing parenthesis in code"@,
        ErrorModel::UnknownFunction(name) => "The function "@ + quoted(name) + " is unknown"@,
        ErrorModel::UnexpectedComma => "Unexpected comma in code"@,
        ErrorModel::UnexpectedTokensAfterExpr => "Unexpected tokens after expression"@,
        ErrorModel::InvalidParentheses => "Invalid parentheses in code"@,
        ErrorModel::EmptyExpression => "The expression cannot be empty"@,
        ErrorModel::UnexpectedEndOfSource => "Unexpected end of code"@,
    }
}

impl Token {
    /// The token as `Debug` writes it.
    pub fn debug_text(&self) -> (r: String)
        ensures
            r@ == token_text(self@),
    {
        match self {
            Token::LeftParen => String::from_str("LeftParen"),
            Token::RightParen => String::from_str("RightParen"),
            Token::Not => String::from_str("Not"),
            Token::Comma => String::from_str("Comma"),
            Token::Input { index } => {
                let mut s = String::from_str("Input { index: ");
                push_decimal(&mut s, *index);
                s.append(" }");
                s
            },
            Token::Identifier { value } => {
                let mut s = String::from_str("Identifier { value: ");
                let q = debug_quoted(value.as_str());
                s.append(q.as_str());
                s.append(" }");
                s
            },
        }
    }
}

impl Error {
    /// The message shown to a user for this error.
    pub fn message(&self) -> (r: String)
        ensures
            r@ == message_of(self@),
    {
        match self {
            Error::InvalidNumber { text } => {
                let q = debug_quoted(text.as_str());
                q.concat(" is not a valid number")
            },
            Error::UnexpectedToken { token } => {
                let t = token.debug_text();
                t.concat(" was not expected")
            },
            Error::UnexpectedRightParen => String::from_str("Invalid closing parenthesis in code"),
            Error::UnknownFunction { name } => {
                let mut s = String::from_str("The function ");
                let q = debug_quoted(name.as_str());
                s.append(q.as_str());
                s.append(" is unknown");
                s
            },
            Error::UnexpectedComma => String::from_str("Unexpected comma in code"),
            Error::UnexpectedTokensAfterExpr => String::from_str("Unexpected tokens after expression"),
            Error::InvalidParentheses => String::from_str("Invalid parentheses in code"),
            Error::EmptyExpression => String::from_str("The expression cannot be empty"),
            Error::UnexpectedEndOfSource => String::from_str("Unexpected end of code"),
        }
    }
}

} // verus!
