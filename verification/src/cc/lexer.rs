//! Tokens.

use vstd::prelude::*;
use crate::text::{decimal, push_decimal, same_text};

verus! {

/// A token of the source text.
#[derive(Debug)]
pub enum Token {
    Ident(String),
    Number(u64),
    LParen,
    RParen,
    LBrace,
    RBrace,
    Return,
    Semicolon,
}

/// What `str`'s `Debug` makes of a text.
pub uninterp spec fn quoted_text(s: Seq<char>) -> Seq<char>;

/// The `Debug` form of a `str`: the text in quotation marks, with escapes.
/// Claimed: it depends on the text alone. Which characters are escaped is left
/// to std.
#[verifier::external_body]
fn quote(s: &str) -> (r: String)
    ensures
        r@ == quoted_text(s@),
{
    format!("{:?}", s)
}

/// How error messages show an identifier that reads `quoted` in quotation
/// marks.
pub open spec fn ident_text(quoted: Seq<char>) -> Seq<char> {
    "Ident("@ + quoted + ")"@
}

/// How error messages show an identifier that reads `quoted` in quotation
/// marks.
pub fn describe_ident(quoted: &str) -> (s: String)
    ensures
        s@ == ident_text(quoted@),
{
    let mut s = String::from_str("Ident(");
    s.append(quoted);
    s.append(")");
    s
}

/// How error messages show a token.
pub open spec fn token_text(t: Token) -> Seq<char> {
    match t {
        Token::Ident(s) => ident_text(quoted_text(s@)),
        Token::Number(n) => "Number("@ + decimal(n as int) + ")"@,
        Token::LParen => "LParen"@,
        Token::RParen => "RParen"@,
        Token::LBrace => "LBrace"@,
        Token::RBrace => "RBrace"@,
        Token::Return => "Return"@,
        Token::Semicolon => "Semicolon"@,
    }
}

/// How error messages show a token that may be missing.
pub open spec fn maybe_token_text(t: Option<Token>) -> Seq<char> {
    match t {
        Some(t) => "Some("@ + token_text(t) + ")"@,
        None => "None"@,
    }
}

/// The two tokens say the same.
pub open spec fn same_token(a: Token, b: Token) -> bool {
    match (a, b) {
        (Token::Ident(x), Token::Ident(y)) => x@ == y@,
        (Token::Number(x), Token::Number(y)) => x == y,
        (Token::LParen, Token::LParen) => true,
        (Token::RParen, Token::RParen) => true,
        (Token::LBrace, Token::LBrace) => true,
        (Token::RBrace, Token::RBrace) => true,
        (Token::Return, Token::Return) => true,
        (Token::Semicolon, Token::Semicolon) => true,
        _ => false,
    }
}

impl Token {
    /// Whether the two tokens say the same.
    pub fn matches(&self, other: &Token) -> (b: bool)
        ensures
            b == same_token(*self, *other),
    {
        match (self, other) {
            (Token::Ident(x), Token::Ident(y)) => same_text(x.as_str(), y.as_str()),
            (Token::Number(x), Token::Number(y)) => *x == *y,
            (Token::LParen, Token::LParen) => true,
            (Token::RParen, Token::RParen) => true,
            (Token::LBrace, Token::LBrace) => true,
            (Token::RBrace, Token::RBrace) => true,
            (Token::Return, Token::Return) => true,
            (Token::Semicolon, Token::Semicolon) => true,
            _ => false,
        }
    }

    /// How error messages show the token.
    pub fn describe(&self) -> (s: String)
        ensures
            s@ == token_text(*self),
    {
        match self {
            Token::Ident(name) => {
                let quoted = quote(name.as_str());
                describe_ident(quoted.as_str())
            },
            Token::Number(n) => {
                let mut s = String::from_str("Number(");
                push_decimal(&mut s, *n);
                s.append(")");
                s
            },
            Token::LParen => String::from_str("LParen"),
            Token::RParen => String::from_str("RParen"),
            Token::LBrace => String::from_str("LBrace"),
            Token::RBrace => String::from_str("RBrace"),
            Token::Return => String::from_str("Return"),
            Token::Semicolon => String::from_str("Semicolon"),
        }
    }
}

/// Tokens are the same where they are of one kind and, for identifiers and
/// numbers, say the same.
pub proof fn law_same_token(a: Token, b: Token)
    ensures
        same_token(a, a),
        same_token(a, b) == same_token(b, a),
        a is Ident && b is Ident ==> (same_token(a, b) <==> a->Ident_0@ == b->Ident_0@),
        a is Number && b is Number ==> (same_token(a, b) <==> a->Number_0 == b->Number_0),
        same_token(a, b) ==> ((a is Ident) == (b is Ident) && (a is Number) == (b is Number) && (a
            is LParen) == (b is LParen) && (a is RParen) == (b is RParen) && (a is LBrace) == (b
            is LBrace) && (a is RBrace) == (b is RBrace) && (a is Return) == (b is Return) && (a
            is Semicolon) == (b is Semicolon)),
        a is LParen && b is LParen || a is RParen && b is RParen || a is LBrace && b is LBrace || a
            is RBrace && b is RBrace || a is Return && b is Return || a is Semicolon && b
            is Semicolon ==> same_token(a, b),
{
}

/// Error messages show a number with its digits, an identifier in quotation
/// marks, and a token that is missing as such.
pub proof fn law_token_texts(n: u64, name: String)
    ensures
        maybe_token_text(Some(Token::Number(n))) == "Some("@ + ("Number("@ + decimal(n as int) + ")"@)
            + ")"@,
        maybe_token_text(Some(Token::Ident(name))) == "Some("@ + ("Ident("@ + quoted_text(name@)
            + ")"@) + ")"@,
        maybe_token_text(Some(Token::LParen)) == "Some("@ + "LParen"@ + ")"@,
        maybe_token_text(Some(Token::RParen)) == "Some("@ + "RParen"@ + ")"@,
        maybe_token_text(Some(Token::LBrace)) == "Some("@ + "LBrace"@ + ")"@,
        maybe_token_text(Some(Token::RBrace)) == "Some("@ + "RBrace"@ + ")"@,
        maybe_token_text(Some(Token::Return)) == "Some("@ + "Return"@ + ")"@,
        maybe_token_text(Some(Token::Semicolon)) == "Some("@ + "Semicolon"@ + ")"@,
        maybe_token_text(None) == "None"@,
{
}

} // verus!
