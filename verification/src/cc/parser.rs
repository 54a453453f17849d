//! The parser. It knows one rule: `uint64_t name() { return integer; }`.

use vstd::prelude::*;
use crate::cc::lexer::{Token, maybe_token_text, same_token, token_text};

verus! {

/// The result of parsing, with error texts by their characters.
pub type ParseOutcome = Result<u64, Seq<char>>;

/// The same result by its characters.
pub open spec fn outcome_of(r: Result<u64, String>) -> ParseOutcome {
    match r {
        Ok(n) => Ok(n),
        Err(s) => Err(s@),
    }
}

/// Token `i`, if there is one.
pub open spec fn token_at(tokens: Seq<Token>, i: int) -> Option<Token> {
    if i < tokens.len() {
        Some(tokens[i])
    } else {
        None
    }
}

/// What stands at each place behind the names, as far as it is fixed.
pub open spec fn fixed_token(i: int) -> Token {
    if i == 2 {
        Token::LParen
    } else if i == 3 {
        Token::RParen
    } else if i == 4 {
        Token::LBrace
    } else if i == 5 {
        Token::Return
    } else if i == 7 {
        Token::Semicolon
    } else {
        Token::RBrace
    }
}

/// Token `i` is the one that has to stand there.
pub open spec fn token_fits(tokens: Seq<Token>, i: int) -> bool {
    match token_at(tokens, i) {
        None => false,
        Some(t) => if i <= 1 {
            t is Ident
        } else if i == 6 {
            t is Number
        } else {
            same_token(t, fixed_token(i))
        },
    }
}

/// The message about a token that does not fit.
pub open spec fn misfit_text(tokens: Seq<Token>, i: int) -> Seq<char> {
    if i == 0 {
        "Expected return-type identifier"@
    } else if i == 1 {
        "Expected function name"@
    } else if i == 6 {
        "Expected integer literal after 'return'"@
    } else {
        "Expected "@ + token_text(fixed_token(i)) + ", got "@ + maybe_token_text(
            token_at(tokens, i),
        )
    }
}

/// The first of the places `i ..= 8` whose token does not fit.
pub open spec fn first_misfit(tokens: Seq<Token>, i: int) -> Option<int>
    decreases 9 - i,
{
    if i > 8 {
        None
    } else if token_fits(tokens, i) {
        first_misfit(tokens, i + 1)
    } else {
        Some(i)
    }
}

/// The value that the function returns, or what is wrong with it first.
pub open spec fn parse_outcome(tokens: Seq<Token>) -> ParseOutcome {
    match first_misfit(tokens, 0) {
        Some(i) => Err(misfit_text(tokens, i)),
        None => Ok(tokens[6]->Number_0),
    }
}

/// Checks that `expected` stands at `i`.
fn expect(tokens: &[Token], i: usize, expected: &Token) -> (r: Result<(), String>)
    ensures
        match r {
            Ok(_) => token_at(tokens@, i as int) matches Some(t) && same_token(t, *expected),
            Err(s) => !(token_at(tokens@, i as int) matches Some(t) && same_token(t, *expected))
                && s@ == "Expected "@ + token_text(*expected) + ", got "@ + maybe_token_text(
                token_at(tokens@, i as int),
            ),
        },
{
    if i < tokens.len() && tokens[i].matches(expected) {
        return Ok(());
    }
    let mut s = String::from_str("Expected ");
    s.append(expected.describe().as_str());
    s.append(", got ");
    if i < tokens.len() {
        s.append("Some(");
        s.append(tokens[i].describe().as_str());
        s.append(")");
    } else {
        s.append("None");
    }
    assert(s@ =~= "Expected "@ + token_text(*expected) + ", got "@ + maybe_token_text(
        token_at(tokens@, i as int),
    ));
    Err(s)
}

/// Parses one function and returns the value that it returns.
pub fn parse_return_value(tokens: &[Token]) -> (r: Result<u64, String>)
    ensures
        outcome_of(r) == parse_outcome(tokens@),
{
    proof {
        reveal_with_fuel(first_misfit, 10);
    }
    if tokens.len() == 0 {
        return Err(String::from_str("Expected return-type identifier"));
    }
    match &tokens[0] {
        Token::Ident(_) => {},
        _ => {
            return Err(String::from_str("Expected return-type identifier"));
        },
    }
    if tokens.len() == 1 {
        return Err(String::from_str("Expected function name"));
    }
    match &tokens[1] {
        Token::Ident(_) => {},
        _ => {
            return Err(String::from_str("Expected function name"));
        },
    }
    match expect(tokens, 2, &Token::LParen) {
        Err(e) => {
            return Err(e);
        },
        Ok(_) => {},
    }
    match expect(tokens, 3, &Token::RParen) {
        Err(e) => {
            return Err(e);
        },
        Ok(_) => {},
    }
    match expect(tokens, 4, &Token::LBrace) {
        Err(e) => {
            return Err(e);
        },
        Ok(_) => {},
    }
    match expect(tokens, 5, &Token::Return) {
        Err(e) => {
            return Err(e);
        },
        Ok(_) => {},
    }
    if tokens.len() == 6 {
        return Err(String::from_str("Expected integer literal after 'return'"));
    }
    let value: u64 = match &tokens[6] {
        Token::Number(n) => *n,
        _ => {
            return Err(String::from_str("Expected integer literal after 'return'"));
        },
    };
    match expect(tokens, 7, &Token::Semicolon) {
        Err(e) => {
            return Err(e);
        },
        Ok(_) => {},
    }
    match expect(tokens, 8, &Token::RBrace) {
        Err(e) => {
            return Err(e);
        },
        Ok(_) => {},
    }
    Ok(value)
}

/// A function of the one known form is accepted with its value, whatever
/// follows it.
pub proof fn law_accepts(kind: String, name: String, n: u64, rest: Seq<Token>)
    ensures
        parse_outcome(
            seq![
                Token::Ident(kind),
                Token::Ident(name),
                Token::LParen,
                Token::RParen,
                Token::LBrace,
                Token::Return,
                Token::Number(n),
                Token::Semicolon,
                Token::RBrace,
            ] + rest,
        ) == ParseOutcome::Ok(n),
{
    reveal_with_fuel(first_misfit, 10);
}

/// Nothing but the one known form is accepted, and its value is the number
/// behind `return`.
pub proof fn law_accepts_only(tokens: Seq<Token>)
    requires
        parse_outcome(tokens) is Ok,
    ensures
        tokens.len() >= 9,
        tokens[0] is Ident,
        tokens[1] is Ident,
        tokens[2] is LParen,
        tokens[3] is RParen,
        tokens[4] is LBrace,
        tokens[5] is Return,
        tokens[6] == Token::Number(parse_outcome(tokens)->Ok_0),
        tokens[7] is Semicolon,
        tokens[8] is RBrace,
{
    reveal_with_fuel(first_misfit, 10);
}

/// The first token that does not fit is complained of: by what was expected
/// where that is a name or the number, else by the token that was expected and
/// the one that stands there.
pub proof fn law_first_complaint(tokens: Seq<Token>)
    ensures
        ({
            let r = parse_outcome(tokens);
            let n = tokens.len();
            let names = n >= 2 && tokens[0] is Ident && tokens[1] is Ident;
            let head = names && n >= 6 && tokens[2] is LParen && tokens[3] is RParen && tokens[4]
                is LBrace && tokens[5] is Return;
            &&& n == 0 || !(tokens[0] is Ident) ==> r == ParseOutcome::Err(
                "Expected return-type identifier"@,
            )
            &&& n >= 1 && tokens[0] is Ident && (n == 1 || !(tokens[1] is Ident)) ==> r
                == ParseOutcome::Err("Expected function name"@)
            &&& names && (n == 2 || !(tokens[2] is LParen)) ==> r == ParseOutcome::Err(
                "Expected "@ + "LParen"@ + ", got "@ + maybe_token_text(token_at(tokens, 2)),
            )
            &&& names && n >= 3 && tokens[2] is LParen && (n == 3 || !(tokens[3] is RParen)) ==> r
                == ParseOutcome::Err(
                "Expected "@ + "RParen"@ + ", got "@ + maybe_token_text(token_at(tokens, 3)),
            )
            &&& names && n >= 4 && tokens[2] is LParen && tokens[3] is RParen && (n == 4 || !(
            tokens[4] is LBrace)) ==> r == ParseOutcome::Err(
                "Expected "@ + "LBrace"@ + ", got "@ + maybe_token_text(token_at(tokens, 4)),
            )
            &&& names && n >= 5 && tokens[2] is LParen && tokens[3] is RParen && tokens[4] is LBrace
                && (n == 5 || !(tokens[5] is Return)) ==> r == ParseOutcome::Err(
                "Expected "@ + "Return"@ + ", got "@ + maybe_token_text(token_at(tokens, 5)),
            )
            &&& head && (n == 6 || !(tokens[6] is Number)) ==> r == ParseOutcome::Err(
                "Expected integer literal after 'return'"@,
            )
            &&& head && n >= 7 && tokens[6] is Number && (n == 7 || !(tokens[7] is Semicolon)) ==> r
                == ParseOutcome::Err(
                "Expected "@ + "Semicolon"@ + ", got "@ + maybe_token_text(token_at(tokens, 7)),
            )
            &&& head && n >= 8 && tokens[6] is Number && tokens[7] is Semicolon && (n == 8 || !(
            tokens[8] is RBrace)) ==> r == ParseOutcome::Err(
                "Expected "@ + "RBrace"@ + ", got "@ + maybe_token_text(token_at(tokens, 8)),
            )
        }),
{
    reveal_with_fuel(first_misfit, 10);
}

} // verus!
