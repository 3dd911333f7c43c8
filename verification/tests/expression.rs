use rlox::expression::{Expr, ExprKind, Stmt};
use rlox::token::{Token, TokenType};
use rlox::value::Value;
use std::collections::hash_map::DefaultHasher;
use std::collections::HashMap;
use std::hash::{Hash, Hasher};

fn number(x: f64) -> Box<Expr> {
    Box::new(Expr::new(ExprKind::Literal(Some(Value::Number(x.to_bits())))))
}

fn operator(token_type: TokenType, lexeme: &str) -> Token {
    Token::new(token_type, lexeme.to_owned(), Option::None, 1)
}

// 25 + 10 * (2 / 4)
fn sum_of_product() -> Expr {
    Expr::new(ExprKind::Binary {
        left: number(25.),
        operator: operator(TokenType::PLUS, "+"),
        right: Box::new(Expr::new(ExprKind::Binary {
            left: number(10.),
            operator: operator(TokenType::STAR, "*"),
            right: Box::new(Expr::new(ExprKind::Grouping(Box::new(Expr::new(
                ExprKind::Binary {
                    left: number(2.),
                    operator: operator(TokenType::SLASH, "/"),
                    right: number(4.),
                },
            ))))),
        })),
    })
}

#[test]
fn prints_basic_ast() {
    let expr = Expr::new(ExprKind::Literal(Some(Value::Number(1f64.to_bits()))));
    assert_eq!(expr.to_string(), "1");
}

#[test]
fn prints_ast_with_binary_expression() {
    let expr = Expr::new(ExprKind::Binary {
        left: number(1.0),
        operator: operator(TokenType::PLUS, "+"),
        right: number(2.0),
    });
    assert_eq!(expr.to_string(), "(+ 1 2)");
}

#[test]
fn prints_ast_with_nested_binary_expression() {
    let expr = Expr::new(ExprKind::Binary {
        left: Box::new(Expr::new(ExprKind::Unary {
            operator: operator(TokenType::MINUS, "-"),
            right: number(123.),
        })),
        operator: operator(TokenType::STAR, "*"),
        right: Box::new(Expr::new(ExprKind::Grouping(number(45.67)))),
    });
    assert_eq!(expr.to_string(), "(* (- 123) (group 45.67))");
}

#[test]
fn prints_ast_with_nested_binary_expression_2() {
    let expr = sum_of_product();
    assert_eq!(expr.to_string(), "(+ 25 (* 10 (group (/ 2 4))))");
}

#[test]
fn prints_ast_with_assignment() {
    let expr = Expr::new(ExprKind::Assign {
        name: Token::new(TokenType::IDENTIFIER, "a".to_owned(), Option::None, 1),
        value: number(1.),
    });
    assert_eq!(expr.to_string(), "(= a 1)");
}

#[test]
fn prints_ast_with_assignment_and_expression() {
    let expr = Expr::new(ExprKind::Assign {
        name: Token::new(TokenType::IDENTIFIER, "a".to_owned(), Option::None, 1),
        value: Box::new(sum_of_product()),
    });
    assert_eq!(expr.to_string(), "(= a (+ 25 (* 10 (group (/ 2 4)))))");
}

#[test]
fn prints_literals_of_every_kind() {
    let text = Expr::new(ExprKind::Literal(Some(Value::String("hi".to_string()))));
    assert_eq!(text.to_string(), "hi");
    let truth = Expr::new(ExprKind::Literal(Some(Value::Boolean(false))));
    assert_eq!(truth.to_string(), "false");
    let nil = Expr::new(ExprKind::Literal(Some(Value::Nil)));
    assert_eq!(nil.to_string(), "nil");
    let absent = Expr::new(ExprKind::Literal(None));
    assert_eq!(absent.to_string(), "nil");
}

#[test]
fn prints_a_variable_by_its_name() {
    let expr = Expr::new(ExprKind::Variable(Token::new(
        TokenType::IDENTIFIER,
        "count".to_owned(),
        Some("count".to_owned()),
        3,
    )));
    assert_eq!(expr.to_string(), "count");
}

#[test]
fn rendering_is_the_same_each_time() {
    let expr = sum_of_product();
    assert_eq!(expr.to_string(), expr.to_string());
}

#[test]
fn nodes_are_told_apart_by_identifier() {
    let a = Expr::new(ExprKind::Literal(Some(Value::Nil)));
    let b = Expr::new(ExprKind::Literal(Some(Value::Nil)));
    assert!(a == a);
    assert!(a != b);
    let same = Expr { id: a.id, kind: ExprKind::Literal(Some(Value::Boolean(true))) };
    assert!(a == same);
    assert_eq!((a.id >> 76) & 0xf, 4);
    assert_eq!((a.id >> 62) & 0x3, 2);
}

#[test]
fn a_copy_is_the_same_tree_under_the_same_identifiers() {
    let expr = Expr::new(ExprKind::Assign {
        name: Token::new(TokenType::IDENTIFIER, "a".to_owned(), Some("a".to_owned()), 1),
        value: Box::new(sum_of_product()),
    });
    let copy = expr.clone();
    assert!(copy == expr);
    assert_eq!(copy.id, expr.id);
    assert_eq!(copy.to_string(), "(= a (+ 25 (* 10 (group (/ 2 4)))))");
    match (&expr.kind, &copy.kind) {
        (ExprKind::Assign { value: a, .. }, ExprKind::Assign { value: b, .. }) => {
            assert_eq!(a.id, b.id);
            assert_eq!(a.to_string(), b.to_string());
        }
        _ => panic!("the copy is of another kind"),
    }
    let kind = expr.kind.clone();
    assert_eq!(Expr::new(kind).to_string(), expr.to_string());
}

#[test]
fn a_copy_of_a_call_keeps_its_arguments() {
    let call = Expr::new(ExprKind::Call {
        callee: Box::new(Expr::new(ExprKind::Variable(operator(TokenType::IDENTIFIER, "f")))),
        paren: operator(TokenType::RightParen, ")"),
        arguments: vec![*number(1.), *number(2.5), sum_of_product()],
    });
    match call.clone().kind {
        ExprKind::Call { callee, paren, arguments } => {
            assert_eq!(callee.to_string(), "f");
            assert_eq!(paren.lexeme(), ")");
            assert_eq!(arguments.len(), 3);
            assert_eq!(arguments[0].to_string(), "1");
            assert_eq!(arguments[1].to_string(), "2.5");
            assert_eq!(arguments[2].to_string(), "(+ 25 (* 10 (group (/ 2 4))))");
        }
        _ => panic!("the copy is of another kind"),
    }
}

#[test]
fn a_copy_of_a_statement_keeps_all_it_owns() {
    let body = Stmt::Block(vec![
        Stmt::Print(sum_of_product()),
        Stmt::Var { name: operator(TokenType::IDENTIFIER, "v"), initializer: Some(*number(3.)) },
        Stmt::Return { keyword: operator(TokenType::RETURN, "return"), value: None },
    ]);
    let function = Stmt::Function {
        name: operator(TokenType::IDENTIFIER, "f"),
        params: vec![operator(TokenType::IDENTIFIER, "x"), operator(TokenType::IDENTIFIER, "y")],
        body: vec![Stmt::If {
            condition: *number(1.),
            then_branch: Box::new(body),
            else_branch: Some(Box::new(Stmt::Expression(*number(2.)))),
        }],
    };
    match function.clone() {
        Stmt::Function { name, params, body } => {
            assert_eq!(name.lexeme(), "f");
            assert_eq!(params.len(), 2);
            assert_eq!(params[1].lexeme(), "y");
            assert_eq!(body.len(), 1);
            match &body[0] {
                Stmt::If { condition, then_branch, else_branch } => {
                    assert_eq!(condition.to_string(), "1");
                    match &**then_branch {
                        Stmt::Block(inner) => {
                            assert_eq!(inner.len(), 3);
                            match &inner[0] {
                                Stmt::Print(e) => {
                                    assert_eq!(e.to_string(), "(+ 25 (* 10 (group (/ 2 4))))")
                                }
                                _ => panic!("Expected a print statement"),
                            }
                            match &inner[1] {
                                Stmt::Var { name, initializer } => {
                                    assert_eq!(name.lexeme(), "v");
                                    assert_eq!(initializer.as_ref().unwrap().to_string(), "3");
                                }
                                _ => panic!("Expected a variable declaration"),
                            }
                        }
                        _ => panic!("Expected a block"),
                    }
                    match else_branch.as_deref() {
                        Some(Stmt::Expression(e)) => assert_eq!(e.to_string(), "2"),
                        _ => panic!("Expected an expression statement"),
                    }
                }
                _ => panic!("Expected an if statement"),
            }
        }
        _ => panic!("the copy is of another kind"),
    }
}

#[test]
fn nodes_are_hashed_by_identifier() {
    let a = Expr::new(ExprKind::Literal(Some(Value::Nil)));
    let b = Expr::new(ExprKind::Literal(Some(Value::Nil)));
    let mut depths: HashMap<Expr, usize> = HashMap::new();
    depths.insert(a.clone(), 1);
    depths.insert(b.clone(), 2);
    assert_eq!(depths.get(&a), Some(&1));
    assert_eq!(depths.get(&b), Some(&2));
    let mut first = DefaultHasher::new();
    a.hash(&mut first);
    let mut second = DefaultHasher::new();
    a.id.hash(&mut second);
    assert_eq!(first.finish(), second.finish());
}
