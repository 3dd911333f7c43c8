use rlox::scanner::{ScanError, Scanner};
use rlox::token::{Token, TokenType};

fn scan(source: &str) -> (Vec<Token>, Vec<ScanError>) {
    let mut scanner = Scanner::new(source.to_string());
    scanner.scan_tokens();
    scanner.into_parts()
}

fn kinds(tokens: &[Token]) -> Vec<TokenType> {
    tokens.iter().map(|t| *t.typ()).collect()
}

fn lexemes(tokens: &[Token]) -> Vec<String> {
    tokens.iter().map(|t| t.lexeme().to_string()).collect()
}

#[test]
fn an_empty_source_has_only_the_end_token() {
    let (tokens, errors) = scan("");
    assert_eq!(kinds(&tokens), vec![TokenType::EOF]);
    assert_eq!(tokens[0].lexeme(), "");
    assert_eq!(tokens[0].line(), 0);
    assert!(errors.is_empty());
}

#[test]
fn a_print_statement_scans_to_seven_tokens_and_the_end() {
    let (tokens, errors) = scan("print 1 + 2 * 3;");
    assert_eq!(
        kinds(&tokens),
        vec![
            TokenType::PRINT,
            TokenType::NUMBER,
            TokenType::PLUS,
            TokenType::NUMBER,
            TokenType::STAR,
            TokenType::NUMBER,
            TokenType::SEMICOLON,
            TokenType::EOF,
        ]
    );
    assert_eq!(lexemes(&tokens), vec!["print", "1", "+", "2", "*", "3", ";", ""]);
    assert!(errors.is_empty());
}

#[test]
fn single_characters_have_their_categories() {
    let (tokens, errors) = scan("(){},.-+:*/;");
    assert_eq!(
        kinds(&tokens),
        vec![
            TokenType::LeftParen,
            TokenType::RightParen,
            TokenType::LeftBrace,
            TokenType::RightBrace,
            TokenType::COMMA,
            TokenType::DOT,
            TokenType::MINUS,
            TokenType::PLUS,
            TokenType::COLON,
            TokenType::STAR,
            TokenType::SLASH,
            TokenType::SEMICOLON,
            TokenType::EOF,
        ]
    );
    assert!(errors.is_empty());
}

#[test]
fn an_equals_sign_completes_a_two_character_operator() {
    let (tokens, _) = scan("! != = == < <= > >=");
    assert_eq!(
        kinds(&tokens),
        vec![
            TokenType::BANG,
            TokenType::BangEqual,
            TokenType::EQUAL,
            TokenType::EqualEqual,
            TokenType::LESS,
            TokenType::LessEqual,
            TokenType::GREATER,
            TokenType::GreaterEqual,
            TokenType::EOF,
        ]
    );
    assert_eq!(lexemes(&tokens), vec!["!", "!=", "=", "==", "<", "<=", ">", ">=", ""]);
}

#[test]
fn an_operator_at_the_end_of_the_source_is_one_character() {
    let (tokens, _) = scan("a <");
    assert_eq!(kinds(&tokens), vec![TokenType::IDENTIFIER, TokenType::LESS, TokenType::EOF]);
    let (tokens, _) = scan("===");
    assert_eq!(kinds(&tokens), vec![TokenType::EqualEqual, TokenType::EQUAL, TokenType::EOF]);
}

#[test]
fn keywords_are_told_from_identifiers() {
    let source = "and class else false fun for if nil or print return super this true var while";
    let (tokens, _) = scan(source);
    assert_eq!(
        kinds(&tokens),
        vec![
            TokenType::AND,
            TokenType::CLASS,
            TokenType::ELSE,
            TokenType::FALSE,
            TokenType::FUN,
            TokenType::FOR,
            TokenType::IF,
            TokenType::NIL,
            TokenType::OR,
            TokenType::PRINT,
            TokenType::RETURN,
            TokenType::SUPER,
            TokenType::THIS,
            TokenType::TRUE,
            TokenType::VAR,
            TokenType::WHILE,
            TokenType::EOF,
        ]
    );
    assert!(tokens.iter().all(|t| t.literal.is_none()));
    let (tokens, _) = scan("printer vary x1 orchid");
    assert_eq!(
        kinds(&tokens),
        vec![
            TokenType::IDENTIFIER,
            TokenType::IDENTIFIER,
            TokenType::IDENTIFIER,
            TokenType::IDENTIFIER,
            TokenType::EOF,
        ]
    );
    assert_eq!(tokens[2].lexeme(), "x1");
    assert_eq!(tokens[2].literal, Some("x1".to_string()));
}

#[test]
fn numbers_carry_their_text() {
    let (tokens, errors) = scan("12 3.75 4. .5 6.x");
    assert_eq!(
        kinds(&tokens),
        vec![
            TokenType::NUMBER,
            TokenType::NUMBER,
            TokenType::NUMBER,
            TokenType::DOT,
            TokenType::DOT,
            TokenType::NUMBER,
            TokenType::NUMBER,
            TokenType::DOT,
            TokenType::IDENTIFIER,
            TokenType::EOF,
        ]
    );
    assert_eq!(tokens[0].literal, Some("12".to_string()));
    assert_eq!(tokens[1].lexeme(), "3.75");
    assert_eq!(tokens[1].literal, Some("3.75".to_string()));
    assert_eq!(tokens[2].lexeme(), "4");
    assert_eq!(tokens[5].lexeme(), "5");
    assert!(errors.is_empty());
}

#[test]
fn a_string_carries_what_stands_between_its_quotes() {
    let (tokens, errors) = scan("\"hello world\" \"\"");
    assert_eq!(kinds(&tokens), vec![TokenType::STRING, TokenType::STRING, TokenType::EOF]);
    assert_eq!(tokens[0].lexeme(), "\"hello world\"");
    assert_eq!(tokens[0].literal, Some("hello world".to_string()));
    assert_eq!(tokens[1].literal, Some("".to_string()));
    assert!(errors.is_empty());
}

#[test]
fn line_feeds_are_counted() {
    let (tokens, _) = scan("a\nb\n\nc \"x\ny\" d");
    assert_eq!(
        tokens.iter().map(|t| t.line()).collect::<Vec<usize>>(),
        vec![0, 1, 3, 4, 4, 4]
    );
    assert_eq!(tokens[3].literal, Some("x\ny".to_string()));
}

#[test]
fn white_space_and_comments_leave_no_token() {
    let (tokens, errors) = scan(" \t\r\n// nothing here ! @\nprint // the rest\n 1 / 2");
    assert_eq!(
        kinds(&tokens),
        vec![
            TokenType::PRINT,
            TokenType::NUMBER,
            TokenType::SLASH,
            TokenType::NUMBER,
            TokenType::EOF,
        ]
    );
    assert_eq!(tokens[0].line(), 2);
    assert_eq!(tokens[1].line(), 3);
    assert!(errors.is_empty());
    let (tokens, _) = scan("1 // to the end");
    assert_eq!(kinds(&tokens), vec![TokenType::NUMBER, TokenType::EOF]);
}

#[test]
fn an_unknown_character_is_reported_and_passed_over() {
    let mut scanner = Scanner::new("1 @ 2\n#".to_string());
    assert!(!scanner.had_error());
    scanner.scan_tokens();
    assert!(scanner.had_error());
    assert_eq!(
        scanner.errors().clone(),
        vec![
            ScanError::UnexpectedCharacter { character: '@', line: 0 },
            ScanError::UnexpectedCharacter { character: '#', line: 1 },
        ]
    );
    assert_eq!(
        kinds(scanner.tokens()),
        vec![TokenType::NUMBER, TokenType::NUMBER, TokenType::EOF]
    );
}

#[test]
fn a_string_without_its_closing_quote_is_reported() {
    let (tokens, errors) = scan("print \"open\nstill open");
    assert_eq!(kinds(&tokens), vec![TokenType::PRINT, TokenType::EOF]);
    assert_eq!(errors, vec![ScanError::UnterminatedString { line: 1 }]);
    assert_eq!(tokens[1].line(), 1);
}

#[test]
fn a_nul_character_stands_for_the_end() {
    let (tokens, errors) = scan("1\0");
    assert_eq!(kinds(&tokens), vec![TokenType::NUMBER, TokenType::EOF, TokenType::EOF]);
    assert_eq!(tokens[1].lexeme(), "\0");
    assert!(errors.is_empty());
}

#[test]
fn words_may_hold_letters_of_any_script() {
    let (tokens, errors) = scan("größe = été2;");
    assert_eq!(
        kinds(&tokens),
        vec![
            TokenType::IDENTIFIER,
            TokenType::EQUAL,
            TokenType::IDENTIFIER,
            TokenType::SEMICOLON,
            TokenType::EOF,
        ]
    );
    assert_eq!(tokens[0].lexeme(), "größe");
    assert_eq!(tokens[2].lexeme(), "été2");
    assert!(errors.is_empty());
}

#[test]
fn lexemes_stand_in_the_order_of_the_source() {
    let source = "var total = (1 + 22) * 3.5; // sum\nprint total >= \"x\";";
    let (tokens, _) = scan(source);
    let mut from = 0;
    let mut line = 0;
    for token in &tokens[..tokens.len() - 1] {
        assert!(!token.lexeme().is_empty());
        let found = source[from..].find(token.lexeme()).expect("lexeme not in the source");
        from += found + token.lexeme().len();
        assert!(line <= token.line());
        line = token.line();
    }
    assert_eq!(*tokens.last().unwrap().typ(), TokenType::EOF);
}

#[test]
fn scanning_goes_token_by_token() {
    let mut scanner = Scanner::new("a 1".to_string());
    assert!(!scanner.is_at_end());
    scanner.scan_token();
    assert_eq!(kinds(scanner.tokens()), vec![TokenType::IDENTIFIER]);
    scanner.scan_token();
    assert_eq!(kinds(scanner.tokens()), vec![TokenType::IDENTIFIER]);
    scanner.scan_token();
    assert!(scanner.is_at_end());
    scanner.scan_token();
    assert_eq!(
        kinds(scanner.tokens()),
        vec![TokenType::IDENTIFIER, TokenType::NUMBER, TokenType::EOF]
    );
}

#[test]
fn scan_errors_have_a_report() {
    let error = ScanError::UnexpectedCharacter { character: '@', line: 3 };
    assert_eq!(error.to_string(), "Error could not parse token @, [line 3]");
    assert_eq!(error.line(), 3);
    let error = ScanError::UnterminatedString { line: 10 };
    assert_eq!(error.to_string(), "Error found unterminated string on [line 10]");
    assert_eq!(error.line(), 10);
}
