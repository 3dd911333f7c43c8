use rlox::expression::Stmt;
use rlox::parser::{Error, Parser};
use rlox::scanner::Scanner;
use rlox::token::{Token, TokenType};

fn tokens_of(source: &str) -> Vec<Token> {
    let mut scanner = Scanner::new(source.to_string());
    scanner.scan_tokens();
    scanner.into_parts().0
}

fn rendering_of(source: &str) -> String {
    let tokens = tokens_of(source);
    let mut parser = Parser::new(&tokens);
    parser.expression().unwrap().to_string()
}

#[test]
fn parses_the_result_of_variable_assignment() {
    let mut scanner = Scanner::new("2 + 2".to_string());

    scanner.scan_tokens();

    let mut parser = Parser::new(scanner.tokens());
    let expr = parser.expression().unwrap();
    assert_eq!(expr.to_string(), "(+ 2 2)");
}

#[test]
fn parses_true_false() {
    let mut scanner = Scanner::new("true".to_string());
    scanner.scan_tokens();
    let mut parser = Parser::new(scanner.tokens());
    let expr = parser.expression().unwrap();
    assert_eq!(expr.to_string(), "true");

    let mut scanner = Scanner::new("false".to_string());
    scanner.scan_tokens();
    let mut parser = Parser::new(scanner.tokens());
    let expr = parser.expression().unwrap();
    assert_eq!(expr.to_string(), "false");
}

#[test]
fn parses_order_of_operations() {
    let mut scanner = Scanner::new("2 + 2 * 2".to_string());
    scanner.scan_tokens();
    let mut parser = Parser::new(scanner.tokens());
    let expr = parser.expression().unwrap();
    assert_eq!(expr.to_string(), "(+ 2 (* 2 2))");

    // and division
    let mut scanner = Scanner::new("2 + 2 / 2".to_string());
    scanner.scan_tokens();
    let mut parser = Parser::new(scanner.tokens());
    let expr = parser.expression().unwrap();
    assert_eq!(expr.to_string(), "(+ 2 (/ 2 2))");
}

#[test]
fn parses_complex_expressions() {
    let mut scanner = Scanner::new("1 + 2 * 3 + 4 / 5".to_string());
    scanner.scan_tokens();
    let mut parser = Parser::new(scanner.tokens());
    let expr = parser.expression().unwrap();
    assert_eq!(expr.to_string(), "(+ (+ 1 (* 2 3)) (/ 4 5))");
}

#[test]
fn parses_parantheses() {
    let mut scanner = Scanner::new("(1 + 2) * 3 + 4 / 5".to_string());
    scanner.scan_tokens();
    let mut parser = Parser::new(scanner.tokens());
    let expr = parser.expression().unwrap();
    assert_eq!(expr.to_string(), "(+ (* (group (+ 1 2)) 3) (/ 4 5))");
}

#[test]
fn parses_complex_parantheses() {
    let mut scanner = Scanner::new("(1 + 2) * 3 + 4 / 5 == 1".to_string());
    scanner.scan_tokens();
    let mut parser = Parser::new(scanner.tokens());
    let expr = parser.expression().unwrap();
    assert_eq!(expr.to_string(), "(== (+ (* (group (+ 1 2)) 3) (/ 4 5)) 1)");
}

#[test]
fn parses_complex_parantheses_2() {
    let mut scanner = Scanner::new("((1 + 2) * 3 + 4 / 5 == 1) == 1".to_string());
    scanner.scan_tokens();
    let mut parser = Parser::new(scanner.tokens());
    let expr = parser.expression().unwrap();
    assert_eq!(
        expr.to_string(),
        "(== (group (== (+ (* (group (+ 1 2)) 3) (/ 4 5)) 1)) 1)"
    );
}

#[test]
fn parses_full_statement() {
    let mut scanner = Scanner::new("print 1 + 1;".to_string());
    scanner.scan_tokens();
    let mut parser = Parser::new(scanner.tokens());
    let stmts = parser.parse().unwrap();
    assert_eq!(stmts.len(), 1);
    match stmts.get(0).unwrap() {
        Stmt::Print(expr) => assert_eq!(expr.to_string(), "(+ 1 1)"),
        _ => panic!("Expected a print statement"),
    }
}

#[test]
fn parses_multiple_statments() {
    let mut scanner = Scanner::new("print 1 + 1; 1 + 2;".to_string());
    scanner.scan_tokens();
    let mut parser = Parser::new(scanner.tokens());
    let stmts = parser.parse().unwrap();
    assert_eq!(stmts.len(), 2);
    match stmts.get(0).unwrap() {
        Stmt::Print(expr) => assert_eq!(expr.to_string(), "(+ 1 1)"),
        _ => panic!("Expected a print statement"),
    }

    match stmts.get(1).unwrap() {
        Stmt::Expression(expr) => assert_eq!(expr.to_string(), "(+ 1 2)"),
        _ => panic!("Expected an expression statement"),
    }
}

#[test]
fn prases_var_statement() {
    let mut scanner = Scanner::new("var i = 1;".to_string());
    scanner.scan_tokens();
    let mut parser = Parser::new(scanner.tokens());
    let stmts = parser.parse().unwrap();
    assert_eq!(stmts.len(), 1);
    match stmts.get(0).unwrap() {
        Stmt::Var { initializer, name } => {
            assert_eq!(name.clone().literal.unwrap(), "i".to_string());
            assert!(initializer.is_some());
            assert_eq!(initializer.as_ref().unwrap().to_string(), "1");
        }
        _ => panic!("Expected a variable assignment"),
    }
}

#[test]
fn grouping_is_kept_in_the_tree() {
    assert_eq!(rendering_of("(1 + 2) * 3"), "(* (group (+ 1 2)) 3)");
}

#[test]
fn subtraction_nests_to_the_left() {
    assert_eq!(rendering_of("1 - 2 - 3"), "(- (- 1 2) 3)");
    assert_eq!(rendering_of("8 / 4 / 2"), "(/ (/ 8 4) 2)");
    assert_eq!(rendering_of("1 < 2 <= 3"), "(<= (< 1 2) 3)");
    assert_eq!(rendering_of("1 == 2 != 3"), "(!= (== 1 2) 3)");
}

#[test]
fn assignment_nests_to_the_right() {
    assert_eq!(rendering_of("a = b = 3"), "(= a (= b 3))");
    assert_eq!(rendering_of("a = 1 + 2"), "(= a (+ 1 2))");
}

#[test]
fn unary_operators_apply_to_what_follows() {
    assert_eq!(rendering_of("-1"), "(- 1)");
    assert_eq!(rendering_of("!true"), "(! true)");
    assert_eq!(rendering_of("!!x"), "(! (! x))");
    assert_eq!(rendering_of("-1 - -2"), "(- (- 1) (- 2))");
    assert_eq!(rendering_of("2 * -3"), "(* 2 (- 3))");
}

#[test]
fn literals_and_names_are_primaries() {
    assert_eq!(rendering_of("nil"), "nil");
    assert_eq!(rendering_of("\"text\""), "text");
    assert_eq!(rendering_of("12.5"), "12.5");
    assert_eq!(rendering_of("name"), "name");
}

#[test]
fn a_variable_declaration_may_lack_an_initializer() {
    let tokens = tokens_of("var count;");
    let mut parser = Parser::new(&tokens);
    let stmts = parser.parse().unwrap();
    assert_eq!(stmts.len(), 1);
    match &stmts[0] {
        Stmt::Var { name, initializer } => {
            assert_eq!(name.lexeme(), "count");
            assert!(initializer.is_none());
        }
        _ => panic!("Expected a variable declaration"),
    }
}

#[test]
fn an_empty_source_is_an_empty_program() {
    let tokens = tokens_of("");
    let mut parser = Parser::new(&tokens);
    assert_eq!(parser.parse().unwrap().len(), 0);
    assert_eq!(parser.errors().len(), 0);
}

#[test]
fn an_assignment_needs_a_variable_on_its_left() {
    let tokens = tokens_of("1 = 2;");
    let mut parser = Parser::new(&tokens);
    match parser.parse() {
        Err(Error::ParseErrorCustom(message)) => {
            assert_eq!(message, "[line 0] at =, Invalid assignment target")
        }
        _ => panic!("a number was assigned to"),
    }
}

#[test]
fn a_grouping_needs_its_closing_parenthesis() {
    let tokens = tokens_of("(1 + 2;");
    let mut parser = Parser::new(&tokens);
    match parser.parse() {
        Err(Error::ParseErrorCustom(message)) => {
            assert_eq!(message, "[line 0] at ;, Expect ')' after expression")
        }
        _ => panic!("an open grouping was accepted"),
    }
    let tokens = tokens_of("(1 + 2");
    let mut parser = Parser::new(&tokens);
    match parser.parse() {
        Err(Error::ParseErrorCustom(message)) => {
            assert_eq!(message, "[line 0] Expect ')' after expression at end")
        }
        _ => panic!("an open grouping was accepted"),
    }
}

#[test]
fn a_statement_needs_its_semicolon() {
    let tokens = tokens_of("print 1");
    let mut parser = Parser::new(&tokens);
    match parser.parse() {
        Err(Error::ParseErrorCustom(message)) => {
            assert_eq!(message, "[line 0] Expect ';' after value. at end")
        }
        _ => panic!("a statement without ';' was accepted"),
    }
    let tokens = tokens_of("var");
    let mut parser = Parser::new(&tokens);
    match parser.parse() {
        Err(Error::ParseErrorCustom(message)) => {
            assert_eq!(message, "[line 0] Expect variable name. at end")
        }
        _ => panic!("a declaration without a name was accepted"),
    }
    let tokens = tokens_of("var a = 1");
    let mut parser = Parser::new(&tokens);
    match parser.parse() {
        Err(Error::ParseErrorCustom(message)) => {
            assert_eq!(message, "[line 0] Expect ';' after variable decleration at end")
        }
        _ => panic!("a declaration without ';' was accepted"),
    }
}

#[test]
fn a_token_that_begins_no_expression_is_named() {
    let tokens = tokens_of("\n\n* 2;");
    let mut parser = Parser::new(&tokens);
    match parser.parse() {
        Err(error) => {
            match &error {
                Error::ParseErrorToken { token, message } => {
                    assert_eq!(*token.typ(), TokenType::STAR);
                    assert_eq!(token.line(), 2);
                    assert_eq!(message, "Did not find a matching primary token");
                }
                _ => panic!("expected the error that names a token"),
            }
            assert_eq!(
                error.to_string(),
                "Error on [line 2] token: STAR at * parse error: Did not find a matching primary token"
            );
        }
        _ => panic!("'*' began an expression"),
    }
}

#[test]
fn one_error_is_recorded_for_each_broken_statement() {
    let tokens = tokens_of("print (1; print 2; var = 3; print 4;");
    let mut parser = Parser::new(&tokens);
    let result = parser.parse();
    assert!(result.is_err());
    assert_eq!(parser.errors().len(), 2);
    match &parser.errors()[0] {
        Error::ParseErrorCustom(message) => {
            assert_eq!(message, "[line 0] at ;, Expect ')' after expression")
        }
        _ => panic!("expected a message"),
    }
    match &parser.errors()[1] {
        Error::ParseErrorCustom(message) => {
            assert_eq!(message, "[line 0] at =, Expect variable name.")
        }
        _ => panic!("expected a message"),
    }
    match result {
        Err(Error::ParseErrorCustom(message)) => {
            assert_eq!(message, "[line 0] at ;, Expect ')' after expression")
        }
        _ => panic!("the first error was not returned"),
    }
}

#[test]
fn parsing_resumes_at_the_next_statement() {
    // The broken statement is skipped up to the `print` that follows it.
    let tokens = tokens_of("1 2 print 3;");
    let mut parser = Parser::new(&tokens);
    assert!(parser.parse().is_err());
    assert_eq!(parser.errors().len(), 1);
    assert_eq!(parser.position(), tokens.len() - 1);
}

#[test]
fn parse_errors_have_a_text() {
    assert_eq!(Error::ParseErrorGeneric.to_string(), "parse error");
    assert_eq!(
        Error::ParseErrorCustom("Expect ';' after value. at end".to_string()).to_string(),
        "parse error: Expect ';' after value. at end"
    );
}

#[test]
fn tokens_are_checked_before_they_are_parsed() {
    assert!(Parser::accepts(&tokens_of("print 1.5 + \"a\";")));
    assert!(!Parser::accepts(&[]));
    let open = vec![Token::new(TokenType::NIL, "nil".to_string(), None, 0)];
    assert!(!Parser::accepts(&open));
    let end = Token::new(TokenType::EOF, "".to_string(), None, 0);
    let bare = Token::new(TokenType::NUMBER, "1".to_string(), None, 0);
    assert!(!Parser::accepts(&[bare, end.clone()]));
    let odd = Token::new(TokenType::NUMBER, "1.".to_string(), Some("1.".to_string()), 0);
    assert!(!Parser::accepts(&[odd, end.clone()]));
    let fine = Token::new(TokenType::NUMBER, "1.0".to_string(), Some("1.0".to_string()), 0);
    assert!(Parser::accepts(&[fine, end]));
}

#[test]
fn statements_around_a_broken_one_are_kept() {
    let tokens = tokens_of("print 1; print (2; var a = 3;\nprint +; a = 4;");
    let mut parser = Parser::new(&tokens);
    let statements = parser.parse_all();
    assert_eq!(statements.len(), 3);
    match &statements[0] {
        Stmt::Print(e) => assert_eq!(e.to_string(), "1"),
        _ => panic!("Expected a print statement"),
    }
    match &statements[1] {
        Stmt::Var { name, initializer } => {
            assert_eq!(name.lexeme(), "a");
            assert_eq!(initializer.as_ref().unwrap().to_string(), "3");
        }
        _ => panic!("Expected a variable declaration"),
    }
    match &statements[2] {
        Stmt::Expression(e) => assert_eq!(e.to_string(), "(= a 4)"),
        _ => panic!("Expected an expression statement"),
    }
    assert_eq!(parser.errors().len(), 2);
    assert_eq!(
        parser.errors()[1].to_string(),
        "Error on [line 1] token: PLUS at + parse error: Did not find a matching primary token"
    );
    assert_eq!(parser.position(), tokens.len() - 1);
}
