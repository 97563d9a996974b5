use vstd::prelude::*;
use crate::token::{Failure, LexError, Token, TokenKind, is_punct, keyword_token, punct_token, punctuation, token_result_view};

verus! {

pub open spec fn is_ident_start(c: char) -> bool {
    ('a' <= c && c <= 'z') || ('A' <= c && c <= 'Z') || c == '_'
}

pub open spec fn is_digit(c: char) -> bool {
    '0' <= c && c <= '9'
}

pub open spec fn all_digits(w: Seq<char>) -> bool {
    forall|i: int| 0 <= i < w.len() ==> is_digit(#[trigger] w[i])
}

pub open spec fn digit_value(c: char) -> nat {
    ((c as u32) - ('0' as u32)) as nat
}

/// The value of a decimal numeral, read left to right.
pub open spec fn digits_value(w: Seq<char>) -> nat
    decreases w.len(),
{
    if w.len() == 0 {
        0
    } else {
        digits_value(w.drop_last()) * 10 + digit_value(w.last())
    }
}

/// A non-empty word made of decimal digits only.
pub open spec fn is_numeral(w: Seq<char>) -> bool {
    w.len() > 0 && all_digits(w)
}

/// The token of one raw word, by the rules in order of precedence:
/// punctuation, keyword, identifier, integer literal.
pub open spec fn classify(w: Seq<char>) -> Result<Token, Failure> {
    if w.len() == 1 && is_punct(w[0]) {
        Ok(punct_token(w[0])->0)
    } else if keyword_token(w) is Some {
        Ok(keyword_token(w)->0)
    } else if w.len() > 0 && is_ident_start(w[0]) {
        Ok(Token::Identifier(w))
    } else if is_numeral(w) && digits_value(w) <= i32::MAX {
        Ok(Token::IntegerLiteral(digits_value(w) as i32))
    } else if is_numeral(w) {
        Err(Failure::NumericOverflow(w))
    } else {
        Err(Failure::UnrecognizedInput(w))
    }
}

pub fn is_valid_identifier_start_char(c: &char) -> (r: bool)
    ensures
        r == is_ident_start(*c),
{
    ('a' <= *c && *c <= 'z') || ('A' <= *c && *c <= 'Z') || *c == '_'
}

/// Whether a non-empty word starts with a decimal digit.
pub fn is_integer_value(raw_token: &String) -> (r: bool)
    requires
        raw_token@.len() > 0,
    ensures
        r == is_digit(raw_token@[0]),
{
    let c = raw_token.as_str().get_char(0);
    '0' <= c && c <= '9'
}

/// A single punctuation character.
pub fn recognize_basic_token(raw_token: &String) -> (r: Option<TokenKind>)
    ensures
        r is Some <==> (raw_token@.len() == 1 && is_punct(raw_token@[0])),
        r matches Some(t) ==> punct_token(raw_token@[0]) == Some(t@),
{
    if raw_token.as_str().unicode_len() != 1 {
        return None;
    }
    punctuation(raw_token.as_str().get_char(0))
}

/// A reserved word, compared verbatim.
pub fn recognize_keyword_token(raw_token: &String) -> (r: Option<TokenKind>)
    ensures
        r is Some <==> keyword_token(raw_token@) is Some,
        r matches Some(t) ==> keyword_token(raw_token@) == Some(t@),
{
    let int_word = String::from_str("int");
    let return_word = String::from_str("return");
    proof {
        reveal_strlit("int");
        reveal_strlit("return");
        assert(int_word@ =~= seq!['i', 'n', 't']);
        assert(return_word@ =~= seq!['r', 'e', 't', 'u', 'r', 'n']);
    }
    if *raw_token == int_word {
        Some(TokenKind::IntKeyword)
    } else if *raw_token == return_word {
        Some(TokenKind::ReturnKeyword)
    } else {
        None
    }
}

/// A word whose first character is a letter or an underscore names an identifier.
pub fn recognize_identifier_token(raw_token: &String) -> (r: Option<TokenKind>)
    ensures
        r is Some <==> (raw_token@.len() > 0 && is_ident_start(raw_token@[0])),
        r matches Some(t) ==> t@ == Token::Identifier(raw_token@),
{
    if raw_token.as_str().is_empty() {
        return None;
    }
    let c = raw_token.as_str().get_char(0);
    if is_valid_identifier_start_char(&c) {
        Some(TokenKind::Identifier(raw_token.clone()))
    } else {
        None
    }
}

proof fn lemma_digits_value_push(w: Seq<char>, c: char)
    ensures
        digits_value(w.push(c)) == digits_value(w) * 10 + digit_value(c),
{
    assert(w.push(c).drop_last() =~= w);
}

/// A word that starts with a digit: `None` for any other word. It must be a
/// numeral in full, whose value fits in an `i32`.
pub fn recognize_literal_token(raw_token: &String) -> (r: Option<Result<TokenKind, LexError>>)
    ensures
        r is Some <==> (raw_token@.len() > 0 && is_digit(raw_token@[0])),
        r matches Some(res) ==> token_result_view(res) == (if !all_digits(raw_token@) {
            Err(Failure::UnrecognizedInput(raw_token@))
        } else if digits_value(raw_token@) > i32::MAX {
            Err(Failure::NumericOverflow(raw_token@))
        } else {
            Ok(Token::IntegerLiteral(digits_value(raw_token@) as i32))
        }),
{
    if raw_token.as_str().is_empty() || !is_integer_value(raw_token) {
        return None;
    }
    let mut value: i32 = 0;
    let mut overflow = false;
    for c in it: raw_token.as_str().chars()
        invariant
            it.seq() == raw_token@,
            raw_token@.len() > 0 && is_digit(raw_token@[0]),
            0 <= it.index() <= raw_token@.len(),
            all_digits(raw_token@.take(it.index())),
            overflow <==> digits_value(raw_token@.take(it.index())) > i32::MAX,
            !overflow ==> value == digits_value(raw_token@.take(it.index())),
    {
        let ghost prefix = raw_token@.take(it.index());
        assert(raw_token@.take(it.index() + 1) =~= prefix.push(c));
        proof {
            lemma_digits_value_push(prefix, c);
        }
        if !('0' <= c && c <= '9') {
            assert(!is_digit(raw_token@[it.index()]));
            return Some(Err(LexError::UnrecognizedInput(raw_token.clone())));
        }
        if !overflow {
            let next: i64 = (value as i64) * 10 + ((c as u32 - '0' as u32) as i64);
            if next > i32::MAX as i64 {
                overflow = true;
            } else {
                value = next as i32;
            }
        }
    }
    assert(raw_token@.take(raw_token@.len() as int) =~= raw_token@);
    if overflow {
        Some(Err(LexError::NumericOverflow(raw_token.clone())))
    } else {
        Some(Ok(TokenKind::IntegerLiteral(value)))
    }
}

/// Classifies one raw word.
pub fn recognize_token(raw_token: &String) -> (r: Result<TokenKind, LexError>)
    ensures
        token_result_view(r) == classify(raw_token@),
{
    let basic = recognize_basic_token(raw_token);
    if basic.is_some() {
        return Ok(basic.unwrap());
    }
    let keyword = recognize_keyword_token(raw_token);
    if keyword.is_some() {
        return Ok(keyword.unwrap());
    }
    let identifier = recognize_identifier_token(raw_token);
    if identifier.is_some() {
        return Ok(identifier.unwrap());
    }
    let literal = recognize_literal_token(raw_token);
    match literal {
        Some(res) => res,
        None => Err(LexError::UnrecognizedInput(raw_token.clone())),
    }
}

} // verus!
