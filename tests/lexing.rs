use lexer::classify::{
    is_integer_value, is_valid_identifier_start_char, recognize_basic_token,
    recognize_identifier_token, recognize_keyword_token, recognize_literal_token, recognize_token,
};
use lexer::lex::recognize_tokens;
use lexer::segment::{is_basic_char, is_whitespace, split_tokens};
use lexer::token::punctuation;
use lexer::{lex, LexError, TokenKind};

fn words(text: &str) -> Vec<String> {
    split_tokens(&text.to_string())
}

fn ident(name: &str) -> TokenKind {
    TokenKind::Identifier(name.to_string())
}

#[test]
fn maximal_munch_keeps_word_whole() {
    assert_eq!(words("intx"), vec!["intx".to_string()]);
    assert_eq!(lex("intx".to_string()), Ok(vec![ident("intx")]));
    assert_eq!(words("int x"), vec!["int".to_string(), "x".to_string()]);
    assert_eq!(lex("int x".to_string()), Ok(vec![TokenKind::IntKeyword, ident("x")]));
}

#[test]
fn punctuation_forces_a_break() {
    assert_eq!(
        words("foo)bar"),
        vec!["foo".to_string(), ")".to_string(), "bar".to_string()]
    );
    assert_eq!(words("int)"), vec!["int".to_string(), ")".to_string()]);
    assert_eq!(words("foo_bar"), vec!["foo_bar".to_string()]);
}

#[test]
fn whitespace_is_never_a_token() {
    assert_eq!(words("  \t\n"), Vec::<String>::new());
    assert_eq!(lex("  \t\n".to_string()), Ok(vec![]));
    assert_eq!(lex(String::new()), Ok(vec![]));
    assert_eq!(words("a \t\n  b"), vec!["a".to_string(), "b".to_string()]);
}

#[test]
fn literal_boundary() {
    assert_eq!(lex("123".to_string()), Ok(vec![TokenKind::IntegerLiteral(123)]));
    assert_eq!(lex("0".to_string()), Ok(vec![TokenKind::IntegerLiteral(0)]));
    assert_eq!(
        lex("2147483647".to_string()),
        Ok(vec![TokenKind::IntegerLiteral(2147483647)])
    );
    assert_eq!(
        lex("2147483648".to_string()),
        Err(LexError::NumericOverflow("2147483648".to_string()))
    );
    assert_eq!(
        lex("99999999999999999999".to_string()),
        Err(LexError::NumericOverflow("99999999999999999999".to_string()))
    );
    assert_eq!(lex("007".to_string()), Ok(vec![TokenKind::IntegerLiteral(7)]));
}

#[test]
fn end_to_end_program() {
    assert_eq!(
        lex("int main(){return 0;}".to_string()),
        Ok(vec![
            TokenKind::IntKeyword,
            ident("main"),
            TokenKind::OpenParenthesis,
            TokenKind::CloseParenthesis,
            TokenKind::OpenBrace,
            TokenKind::ReturnKeyword,
            TokenKind::IntegerLiteral(0),
            TokenKind::Semicolon,
            TokenKind::CloseBrace,
        ])
    );
}

#[test]
fn unrecognized_assignment_operator() {
    assert_eq!(
        lex("int x = 5;".to_string()),
        Err(LexError::UnrecognizedInput("=".to_string()))
    );
}

#[test]
fn first_unrecognized_word_is_reported() {
    assert_eq!(
        lex("int @ 99999999999 ;".to_string()),
        Err(LexError::UnrecognizedInput("@".to_string()))
    );
    assert_eq!(
        lex("return 12a;".to_string()),
        Err(LexError::UnrecognizedInput("12a".to_string()))
    );
    assert_eq!(
        lex("99999999999x".to_string()),
        Err(LexError::UnrecognizedInput("99999999999x".to_string()))
    );
    assert_eq!(
        lex("\r".to_string()),
        Err(LexError::UnrecognizedInput("\r".to_string()))
    );
    assert_eq!(lex("a\r".to_string()), Ok(vec![ident("a\r")]));
}

#[test]
fn round_trip_with_whitespace_runs() {
    let expected = vec![
        TokenKind::IntKeyword,
        ident("main"),
        TokenKind::OpenParenthesis,
        TokenKind::CloseParenthesis,
        TokenKind::OpenBrace,
        TokenKind::ReturnKeyword,
        TokenKind::IntegerLiteral(42),
        TokenKind::Semicolon,
        TokenKind::CloseBrace,
    ];
    assert_eq!(lex("int main(){return 42;}".to_string()), Ok(expected.clone()));
    assert_eq!(
        lex("\n  int \t main\n(\t)  {\n\n return   42 ;  }  \n".to_string()),
        Ok(expected)
    );
}

#[test]
fn classification_is_repeatable() {
    for w in ["int", "return", "x", "_y1", "42", "(", "=", "4294967296", "7z"] {
        let word = w.to_string();
        assert_eq!(recognize_token(&word), recognize_token(&word));
    }
}

#[test]
fn classification_precedence() {
    assert_eq!(recognize_token(&";".to_string()), Ok(TokenKind::Semicolon));
    assert_eq!(recognize_token(&"int".to_string()), Ok(TokenKind::IntKeyword));
    assert_eq!(recognize_token(&"return".to_string()), Ok(TokenKind::ReturnKeyword));
    assert_eq!(recognize_token(&"Int".to_string()), Ok(ident("Int")));
    assert_eq!(recognize_token(&"returns".to_string()), Ok(ident("returns")));
    assert_eq!(recognize_token(&"x".to_string()), Ok(ident("x")));
    assert_eq!(recognize_token(&"foo$bar".to_string()), Ok(ident("foo$bar")));
    assert_eq!(recognize_token(&"17".to_string()), Ok(TokenKind::IntegerLiteral(17)));
    assert_eq!(
        recognize_token(&"$".to_string()),
        Err(LexError::UnrecognizedInput("$".to_string()))
    );
}

#[test]
fn recognizers_one_by_one() {
    assert_eq!(recognize_basic_token(&"{".to_string()), Some(TokenKind::OpenBrace));
    assert_eq!(recognize_basic_token(&"}".to_string()), Some(TokenKind::CloseBrace));
    assert_eq!(recognize_basic_token(&"((".to_string()), None);
    assert_eq!(recognize_basic_token(&"a".to_string()), None);
    assert_eq!(recognize_keyword_token(&"int".to_string()), Some(TokenKind::IntKeyword));
    assert_eq!(recognize_keyword_token(&"in".to_string()), None);
    assert_eq!(recognize_identifier_token(&"_a".to_string()), Some(ident("_a")));
    assert_eq!(recognize_identifier_token(&"1a".to_string()), None);
    assert_eq!(recognize_literal_token(&"a1".to_string()), None);
    assert_eq!(
        recognize_literal_token(&"305".to_string()),
        Some(Ok(TokenKind::IntegerLiteral(305)))
    );
    assert_eq!(
        recognize_literal_token(&"3x".to_string()),
        Some(Err(LexError::UnrecognizedInput("3x".to_string())))
    );
    assert!(is_integer_value(&"9".to_string()));
    assert!(!is_integer_value(&"a9".to_string()));
    assert!(is_valid_identifier_start_char(&'Z'));
    assert!(is_valid_identifier_start_char(&'_'));
    assert!(!is_valid_identifier_start_char(&'1'));
    assert!(is_whitespace(&'\t'));
    assert!(!is_whitespace(&'\r'));
    assert!(is_basic_char(&';'));
    assert!(!is_basic_char(&'='));
    assert_eq!(punctuation('('), Some(TokenKind::OpenParenthesis));
    assert_eq!(punctuation(')'), Some(TokenKind::CloseParenthesis));
    assert_eq!(punctuation('['), None);
}

#[test]
fn recognize_tokens_stops_at_first_failure() {
    let raw = vec!["int".to_string(), "=".to_string(), "99999999999".to_string()];
    assert_eq!(
        recognize_tokens(&raw),
        Err(LexError::UnrecognizedInput("=".to_string()))
    );
    let raw = vec!["x".to_string(), "1".to_string()];
    assert_eq!(
        recognize_tokens(&raw),
        Ok(vec![ident("x"), TokenKind::IntegerLiteral(1)])
    );
}
