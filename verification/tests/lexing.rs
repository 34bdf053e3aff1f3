use rcc::LexError;
use rcc::Lexer;
use rcc::Token;

fn collect_tokens(source: &str) -> Result<Vec<Token>, LexError> {
    let mut lexer = Lexer::new(source);
    let mut tokens = Vec::new();
    loop {
        match lexer.next() {
            Ok(Some(token)) => tokens.push(token),
            Ok(None) => return Ok(tokens),
            Err(e) => return Err(e),
        }
    }
}

fn token_text(token: &Token) -> String {
    match token {
        Token::Int => "int".to_string(),
        Token::Return => "return".to_string(),
        Token::Identifier(name) => name.clone(),
        Token::OpenParen => "(".to_string(),
        Token::CloseParen => ")".to_string(),
        Token::OpenBrace => "{".to_string(),
        Token::CloseBrace => "}".to_string(),
        Token::Semicolon => ";".to_string(),
        Token::IntLiteral(digits) => digits.clone(),
    }
}

#[test]
fn scenario_int_main() {
    let tokens = collect_tokens("int main() { return 0; }").unwrap();
    assert_eq!(
        tokens,
        vec![
            Token::Int,
            Token::Identifier("main".to_string()),
            Token::OpenParen,
            Token::CloseParen,
            Token::OpenBrace,
            Token::Return,
            Token::IntLiteral("0".to_string()),
            Token::Semicolon,
            Token::CloseBrace,
        ]
    );
}

#[test]
fn scenario_empty_input() {
    assert_eq!(collect_tokens(""), Ok(vec![]));
}

#[test]
fn scenario_unrecognized_character() {
    assert_eq!(
        collect_tokens("@"),
        Err(LexError::UnrecognizedCharacter('@', 0))
    );
}

#[test]
fn scenario_identifier_with_digits_and_underscores() {
    let tokens = collect_tokens("x1_2y").unwrap();
    assert_eq!(tokens, vec![Token::Identifier("x1_2y".to_string())]);
}

#[test]
fn scenario_digits_then_letters_split() {
    let tokens = collect_tokens("42abc").unwrap();
    assert_eq!(
        tokens,
        vec![
            Token::IntLiteral("42".to_string()),
            Token::Identifier("abc".to_string()),
        ]
    );
}

#[test]
fn tokens_reconstruct_source_minus_whitespace() {
    let source = "int main ( ) {\n\treturn 42 ;\n}";
    let tokens = collect_tokens(source).unwrap();
    let mut rebuilt = String::new();
    for token in &tokens {
        rebuilt.push_str(&token_text(token));
    }
    let stripped: String = source.chars().filter(|c| !c.is_whitespace()).collect();
    assert_eq!(rebuilt, stripped);
}

#[test]
fn maximal_munch_consumes_whole_runs() {
    assert_eq!(
        collect_tokens("abc").unwrap(),
        vec![Token::Identifier("abc".to_string())]
    );
    assert_eq!(
        collect_tokens("foo_bar1").unwrap(),
        vec![Token::Identifier("foo_bar1".to_string())]
    );
    assert_eq!(
        collect_tokens("a bc").unwrap(),
        vec![
            Token::Identifier("a".to_string()),
            Token::Identifier("bc".to_string()),
        ]
    );
    assert_eq!(
        collect_tokens("1234").unwrap(),
        vec![Token::IntLiteral("1234".to_string())]
    );
}

#[test]
fn keyword_precedence() {
    assert_eq!(collect_tokens("int").unwrap(), vec![Token::Int]);
    assert_eq!(collect_tokens("return").unwrap(), vec![Token::Return]);
    assert_eq!(
        collect_tokens("integer").unwrap(),
        vec![Token::Identifier("integer".to_string())]
    );
    assert_eq!(
        collect_tokens("returns").unwrap(),
        vec![Token::Identifier("returns".to_string())]
    );
    assert_eq!(
        collect_tokens("Int").unwrap(),
        vec![Token::Identifier("Int".to_string())]
    );
}

#[test]
fn whitespace_run_invariance() {
    let expected = collect_tokens("int x;").unwrap();
    assert_eq!(collect_tokens("int \t x;").unwrap(), expected);
    assert_eq!(collect_tokens("int\nx;").unwrap(), expected);
    assert_eq!(collect_tokens("int\t\t\n   x;").unwrap(), expected);
    assert_eq!(collect_tokens("int\r\nx;").unwrap(), expected);
}

#[test]
fn all_whitespace_input_yields_no_tokens() {
    assert_eq!(collect_tokens(" \t\r\n  "), Ok(vec![]));
    assert_eq!(collect_tokens("\n"), Ok(vec![]));
}

#[test]
fn symbols_lex_one_by_one() {
    assert_eq!(
        collect_tokens("(){};").unwrap(),
        vec![
            Token::OpenParen,
            Token::CloseParen,
            Token::OpenBrace,
            Token::CloseBrace,
            Token::Semicolon,
        ]
    );
}

#[test]
fn error_carries_character_and_position() {
    assert_eq!(
        collect_tokens("ab #"),
        Err(LexError::UnrecognizedCharacter('#', 3))
    );
    assert_eq!(
        collect_tokens("int $"),
        Err(LexError::UnrecognizedCharacter('$', 4))
    );
}

#[test]
fn tokens_before_error_still_come_out() {
    let mut lexer = Lexer::new("x %");
    assert_eq!(
        lexer.next(),
        Ok(Some(Token::Identifier("x".to_string())))
    );
    assert_eq!(
        lexer.next(),
        Err(LexError::UnrecognizedCharacter('%', 2))
    );
}

#[test]
fn end_of_input_signal_repeats() {
    let mut lexer = Lexer::new("x");
    assert_eq!(
        lexer.next(),
        Ok(Some(Token::Identifier("x".to_string())))
    );
    assert_eq!(lexer.next(), Ok(None));
    assert_eq!(lexer.next(), Ok(None));
}

#[test]
fn unicode_whitespace_separates_tokens() {
    let tokens = collect_tokens("a\u{a0}b").unwrap();
    assert_eq!(
        tokens,
        vec![
            Token::Identifier("a".to_string()),
            Token::Identifier("b".to_string()),
        ]
    );
}

#[test]
fn unicode_letters_form_identifiers() {
    let tokens = collect_tokens("\u{3bb}x").unwrap();
    assert_eq!(tokens, vec![Token::Identifier("\u{3bb}x".to_string())]);
}

#[test]
fn unicode_digit_continues_a_word_but_starts_none() {
    let tokens = collect_tokens("a\u{663}").unwrap();
    assert_eq!(tokens, vec![Token::Identifier("a\u{663}".to_string())]);
    assert_eq!(
        collect_tokens("\u{663}"),
        Err(LexError::UnrecognizedCharacter('\u{663}', 0))
    );
}
