use rlox::token::{Token, TokenType};
use rlox::value::Value;

#[test]
fn a_token_keeps_what_it_was_made_of() {
    let token = Token::new(TokenType::NUMBER, "12".to_string(), Some("12".to_string()), 4);
    assert_eq!(*token.typ(), TokenType::NUMBER);
    assert_eq!(token.token_type, TokenType::NUMBER);
    assert_eq!(token.lexeme(), "12");
    assert_eq!(token.line(), 4);
    assert_eq!(token.line, 4);
    assert_eq!(token.literal, Some("12".to_string()));
    assert_eq!(token.literal(), &Some("12".to_string()));
    let copy = token.clone();
    assert_eq!(copy.lexeme(), "12");
    assert_eq!(token.to_lexme(), "12");
}

#[test]
fn a_token_is_displayed_by_its_category() {
    let token = Token::new(TokenType::LeftParen, "(".to_string(), None, 0);
    assert_eq!(token.to_string(), "LeftParen");
    assert_eq!(TokenType::PLUS.name(), "PLUS");
    assert_eq!(TokenType::GreaterEqual.name(), "GreaterEqual");
    assert_eq!(TokenType::EOF.name(), "EOF");
}

#[test]
fn symbols_have_categories() {
    assert_eq!(TokenType::from_symbol('('), Some(TokenType::LeftParen));
    assert_eq!(TokenType::from_symbol(';'), Some(TokenType::SEMICOLON));
    assert_eq!(TokenType::from_symbol('"'), Some(TokenType::QUOTESTRING));
    assert_eq!(TokenType::from_symbol('\n'), Some(TokenType::NEWLINE));
    assert_eq!(TokenType::from_symbol('a'), None);
    assert_eq!(TokenType::from_symbol('@'), None);
    assert_eq!(TokenType::BANG.paired(), Some(TokenType::BangEqual));
    assert_eq!(TokenType::LESS.paired(), Some(TokenType::LessEqual));
    assert_eq!(TokenType::PLUS.paired(), None);
}

#[test]
fn reserved_words_have_categories() {
    let word: Vec<char> = "while".chars().collect();
    assert_eq!(TokenType::keyword(&word), Some(TokenType::WHILE));
    let word: Vec<char> = "whale".chars().collect();
    assert_eq!(TokenType::keyword(&word), None);
    let word: Vec<char> = "".chars().collect();
    assert_eq!(TokenType::keyword(&word), None);
}

#[test]
fn literal_tokens_have_values() {
    let token = Token::new(TokenType::TRUE, "true".to_string(), None, 0);
    assert_eq!(Value::from_token(token), Value::Boolean(true));
    let token = Token::new(TokenType::FALSE, "false".to_string(), None, 0);
    assert_eq!(Value::from_token(token), Value::Boolean(false));
    let token = Token::new(TokenType::NIL, "nil".to_string(), None, 0);
    assert_eq!(Value::from_token(token), Value::Nil);
    let token = Token::new(TokenType::NUMBER, "45.67".to_string(), Some("45.67".to_string()), 0);
    assert_eq!(Value::from_token(token), Value::Number(45.67f64.to_bits()));
    let token = Token::new(TokenType::NUMBER, "007".to_string(), Some("007".to_string()), 0);
    assert_eq!(Value::from_token(token), Value::Number(7f64.to_bits()));
    let token = Token::new(TokenType::STRING, "\"s\"".to_string(), Some("s".to_string()), 0);
    assert_eq!(Value::from_token(token), Value::String("s".to_string()));
}

#[test]
fn values_are_equal_within_their_kind_only() {
    assert_eq!(Value::Nil, Value::Nil);
    assert_ne!(Value::Nil, Value::Boolean(false));
    assert_ne!(Value::Number(0f64.to_bits()), Value::Boolean(false));
    assert_ne!(Value::String("1".to_string()), Value::Number(1f64.to_bits()));
    assert_eq!(Value::Number(0f64.to_bits()), Value::Number((-0f64).to_bits()));
    assert_ne!(Value::Number(f64::NAN.to_bits()), Value::Number(f64::NAN.to_bits()));
    assert_eq!(Value::String("a".to_string()), Value::String("a".to_string()));
    assert_ne!(Value::String("a".to_string()), Value::String("b".to_string()));
}

#[test]
fn tokens_are_equal_where_all_their_parts_are() {
    let token = Token::new(TokenType::NUMBER, "12".to_string(), Some("12".to_string()), 4);
    assert!(token == token.clone());
    assert!(token == Token::new(TokenType::NUMBER, "12".to_string(), Some("12".to_string()), 4));
    assert!(token != Token::new(TokenType::STRING, "12".to_string(), Some("12".to_string()), 4));
    assert!(token != Token::new(TokenType::NUMBER, "13".to_string(), Some("12".to_string()), 4));
    assert!(token != Token::new(TokenType::NUMBER, "12".to_string(), Some("13".to_string()), 4));
    assert!(token != Token::new(TokenType::NUMBER, "12".to_string(), None, 4));
    assert!(token != Token::new(TokenType::NUMBER, "12".to_string(), Some("12".to_string()), 5));
    let bare = Token::new(TokenType::PLUS, "+".to_string(), None, 0);
    assert!(bare == Token::new(TokenType::PLUS, "+".to_string(), None, 0));
}
