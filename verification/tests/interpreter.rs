use rlox::expression::{Expr, ExprKind, Stmt};
use rlox::interpreter::{
    apply_binary, apply_unary, can_evaluate, can_run, Environment, Error, Interpreter,
};
use rlox::token::{Token, TokenType};
use rlox::value::Value;

fn number(x: f64) -> Value {
    Value::Number(x.to_bits())
}

fn literal(value: Value) -> Box<Expr> {
    Box::new(Expr::new(ExprKind::Literal(Some(value))))
}

fn operator(token_type: TokenType, lexeme: &str, line: usize) -> Token {
    Token::new(token_type, lexeme.to_string(), None, line)
}

fn binary(left: Value, token_type: TokenType, lexeme: &str, right: Value) -> Expr {
    Expr::new(ExprKind::Binary {
        left: literal(left),
        operator: operator(token_type, lexeme, 1),
        right: literal(right),
    })
}

fn name(text: &str, line: usize) -> Token {
    Token::new(TokenType::IDENTIFIER, text.to_string(), Some(text.to_string()), line)
}

#[test]
fn test_evaluating_literal() {
    let mut interpreter = Interpreter::new();
    let expr = Expr::new(ExprKind::Literal(Some(number(5.0))));
    let result = interpreter.evaluate(expr).unwrap();
    assert_eq!(result, number(5.0));
}

#[test]
fn test_evaluating_grouping() {
    let mut interpreter = Interpreter::new();
    let expr = Expr::new(ExprKind::Grouping(literal(number(5.0))));
    let result = interpreter.evaluate(expr).unwrap();
    assert_eq!(result, number(5.0));
}

#[test]
fn test_evaluating_unary() {
    let mut interpreter = Interpreter::new();
    let expr = Expr::new(ExprKind::Unary {
        operator: operator(TokenType::MINUS, "-", 1),
        right: literal(number(5.0)),
    });
    let result = interpreter.evaluate(expr).unwrap();
    assert_eq!(result, number(-5.0));

    let expr = Expr::new(ExprKind::Unary {
        operator: operator(TokenType::BANG, "!", 1),
        right: literal(Value::Nil),
    });
    let result = interpreter.evaluate(expr).unwrap();
    assert_eq!(result, Value::Boolean(true));

    let expr = Expr::new(ExprKind::Unary {
        operator: operator(TokenType::BANG, "!", 1),
        right: literal(Value::Boolean(false)),
    });
    let result = interpreter.evaluate(expr).unwrap();
    assert_eq!(result, Value::Boolean(true));
}

#[test]
fn test_evaluating_binary() {
    let mut interpreter = Interpreter::new();
    let expr = binary(number(5.0), TokenType::MINUS, "-", number(5.0));
    let result = interpreter.evaluate(expr).unwrap();
    assert_eq!(result, number(0.0));

    let expr = binary(number(5.0), TokenType::SLASH, "/", number(5.0));
    let result = interpreter.evaluate(expr).unwrap();
    assert_eq!(result, number(1.0));

    let expr = binary(number(5.0), TokenType::STAR, "*", number(5.0));
    let result = interpreter.evaluate(expr).unwrap();
    assert_eq!(result, number(25.0));

    let expr = binary(number(5.0), TokenType::PLUS, "+", number(5.0));
    let result = interpreter.evaluate(expr).unwrap();
    assert_eq!(result, number(10.0));
}

#[test]
fn test_evaluating_binary_comparison() {
    let mut interpreter = Interpreter::new();
    let expr = binary(number(5.0), TokenType::GREATER, ">", number(5.0));
    let result = interpreter.evaluate(expr).unwrap();
    assert_eq!(result, Value::Boolean(false));

    let expr = binary(number(5.0), TokenType::GreaterEqual, ">=", number(5.0));
    let result = interpreter.evaluate(expr).unwrap();
    assert_eq!(result, Value::Boolean(true));

    let expr = binary(number(5.0), TokenType::LESS, "<", number(5.0));
    let result = interpreter.evaluate(expr).unwrap();
    assert_eq!(result, Value::Boolean(false));

    let expr = binary(number(5.0), TokenType::LessEqual, "<=", number(5.0));
    let result = interpreter.evaluate(expr).unwrap();
    assert_eq!(result, Value::Boolean(true));

    let expr = binary(number(5.0), TokenType::BangEqual, "!=", number(5.0));
    let result = interpreter.evaluate(expr).unwrap();
    assert_eq!(result, Value::Boolean(false));

    // nil is equal to nil
    let expr = binary(Value::Nil, TokenType::EqualEqual, "==", Value::Nil);
    let result = interpreter.evaluate(expr).unwrap();
    assert_eq!(result, Value::Boolean(true));
}

#[test]
fn test_variable_expression() {
    let mut interpreter = Interpreter::default();

    let initial_value = number(10.0);
    let var_name = Token::new(TokenType::VAR, "x".to_string(), Some("x".to_string()), 0);
    interpreter.environment.define("x", initial_value.clone());

    let var_expr = Expr::new(ExprKind::Variable(var_name.clone()));
    let result = interpreter.evaluate(var_expr).unwrap();

    assert_eq!(result, initial_value);
}

#[test]
fn test_var_initialization_statement() {
    let mut interpreter = Interpreter::default();

    let var_name = Token::new(TokenType::VAR, "y".to_string(), Some("y".to_string()), 0);
    let initial_value = number(42.0);

    let var_stmt = Stmt::Var {
        name: var_name.clone(),
        initializer: Some(Expr::new(ExprKind::Literal(Some(initial_value.clone())))),
    };

    interpreter.execute(var_stmt).unwrap();

    let result = interpreter.environment.get(&var_name).unwrap();
    assert_eq!(result, initial_value);
}

#[test]
fn test_define_and_get() {
    let mut env = Environment::default();
    let value1 = Value::String("1234".to_string());

    env.define("z", value1.clone());
    let token = Token::new(TokenType::VAR, "z".to_string(), Some("z".to_string()), 0);

    assert_eq!(env.get(&token).unwrap(), value1);
}

#[test]
fn test_get_nonexistent_variable() {
    let env = Environment::default();

    let token = Token::new(TokenType::VAR, "y".to_string(), Some("y".to_string()), 0);

    let result = env.get(&token);

    assert!(result.is_err());
    if let Err(Error::Runtime { message: _, line }) = result {
        assert_eq!(line, 0);
    } else {
        panic!("Expected runtime error for undefined variable.");
    }
}

#[test]
fn test_redefine_variable() {
    let mut env = Environment::default();
    let value1 = Value::String("1234".to_string());
    let value2 = Value::String("1".to_string());

    env.define("z", value1);
    env.define("z", value2.clone());

    let token = Token::new(TokenType::VAR, "z".to_string(), Some("z".to_string()), 0);
    assert_eq!(env.get(&token).unwrap(), value2);
}

#[test]
fn names_that_were_never_defined_are_refused() {
    let mut env = Environment::default();
    env.define("other", number(1.0));
    let token = name("missing", 7);
    match env.get(&token) {
        Err(Error::Runtime { message, line }) => {
            assert_eq!(message, "Undefined varliable missing");
            assert_eq!(line, 7);
        }
        _ => panic!("get of an undefined name succeeded"),
    }
    match env.assign(&token, number(2.0)) {
        Err(Error::Runtime { message, line }) => {
            assert_eq!(message, "Undefined varliable missing");
            assert_eq!(line, 7);
        }
        _ => panic!("assign to an undefined name succeeded"),
    }
    assert!(env.get(&token).is_err());
}

#[test]
fn assign_changes_a_defined_name() {
    let mut env = Environment::default();
    env.define("a", Value::Nil);
    let token = name("a", 1);
    assert!(env.assign(&token, number(3.0)).is_ok());
    assert_eq!(env.get(&token).unwrap(), number(3.0));
}

#[test]
fn assignment_yields_the_assigned_value() {
    // var a; a = 1;
    let mut interpreter = Interpreter::new();
    let a = name("a", 1);
    interpreter.execute(Stmt::Var { name: a.clone(), initializer: None }).unwrap();
    assert_eq!(interpreter.environment.get(&a).unwrap(), Value::Nil);
    let assign = Expr::new(ExprKind::Assign { name: a.clone(), value: literal(number(1.0)) });
    let result = interpreter.evaluate(assign).unwrap();
    assert_eq!(result, number(1.0));
    assert_eq!(interpreter.environment.get(&a).unwrap(), number(1.0));
}

#[test]
fn assignment_to_an_undeclared_name_fails() {
    let mut interpreter = Interpreter::new();
    let assign = Expr::new(ExprKind::Assign { name: name("b", 4), value: literal(number(1.0)) });
    match interpreter.evaluate(assign) {
        Err(Error::Runtime { message, line }) => {
            assert_eq!(message, "Undefined varliable b");
            assert_eq!(line, 4);
        }
        _ => panic!("assignment to an undeclared name succeeded"),
    }
    assert!(interpreter.environment.get(&name("b", 4)).is_err());
}

#[test]
fn nested_assignment_assigns_from_the_right() {
    let mut interpreter = Interpreter::new();
    interpreter.environment.define("a", Value::Nil);
    interpreter.environment.define("b", Value::Nil);
    let inner = Expr::new(ExprKind::Assign { name: name("b", 1), value: literal(number(2.0)) });
    let outer = Expr::new(ExprKind::Assign { name: name("a", 1), value: Box::new(inner) });
    assert_eq!(interpreter.evaluate(outer).unwrap(), number(2.0));
    assert_eq!(interpreter.environment.get(&name("a", 1)).unwrap(), number(2.0));
    assert_eq!(interpreter.environment.get(&name("b", 1)).unwrap(), number(2.0));
}

#[test]
fn adding_a_string_and_a_number_is_a_type_error() {
    let mut interpreter = Interpreter::new();
    let expr = Expr::new(ExprKind::Binary {
        left: literal(Value::String("a".to_string())),
        operator: operator(TokenType::PLUS, "+", 9),
        right: literal(number(1.0)),
    });
    match interpreter.evaluate(expr) {
        Err(Error::Runtime { message, line }) => {
            assert_eq!(message, "Operands must be two numbers or two strings");
            assert_eq!(line, 9);
        }
        _ => panic!("a string and a number were added"),
    }
}

#[test]
fn adding_two_numbers_gives_their_sum() {
    let mut interpreter = Interpreter::new();
    let expr = binary(number(1.0), TokenType::PLUS, "+", number(2.0));
    assert_eq!(interpreter.evaluate(expr).unwrap(), number(3.0));
}

#[test]
fn adding_two_strings_joins_them() {
    let mut interpreter = Interpreter::new();
    let expr = binary(
        Value::String("foo".to_string()),
        TokenType::PLUS,
        "+",
        Value::String("bar".to_string()),
    );
    assert_eq!(interpreter.evaluate(expr).unwrap(), Value::String("foobar".to_string()));
}

#[test]
fn arithmetic_is_that_of_doubles() {
    let plus = operator(TokenType::PLUS, "+", 1);
    let minus = operator(TokenType::MINUS, "-", 1);
    let star = operator(TokenType::STAR, "*", 1);
    let slash = operator(TokenType::SLASH, "/", 1);
    assert_eq!(apply_binary(&plus, number(0.1), number(0.2)).unwrap(), number(0.1 + 0.2));
    assert_eq!(apply_binary(&minus, number(7.5), number(2.25)).unwrap(), number(5.25));
    assert_eq!(apply_binary(&star, number(1.5), number(4.0)).unwrap(), number(6.0));
    assert_eq!(apply_binary(&slash, number(1.0), number(3.0)).unwrap(), number(1.0 / 3.0));
    assert_eq!(apply_binary(&slash, number(2.0), number(4.0)).unwrap(), number(0.5));
}

#[test]
fn division_by_zero_is_no_error() {
    let slash = operator(TokenType::SLASH, "/", 1);
    assert_eq!(apply_binary(&slash, number(1.0), number(0.0)).unwrap(), number(f64::INFINITY));
    assert_eq!(
        apply_binary(&slash, number(-1.0), number(0.0)).unwrap(),
        number(f64::NEG_INFINITY)
    );
    match apply_binary(&slash, number(0.0), number(0.0)).unwrap() {
        Value::Number(bits) => assert!(f64::from_bits(bits).is_nan()),
        _ => panic!("0 / 0 is not a number value"),
    }
}

#[test]
fn arithmetic_on_other_values_is_a_type_error() {
    for (token_type, lexeme) in [
        (TokenType::MINUS, "-"),
        (TokenType::SLASH, "/"),
        (TokenType::STAR, "*"),
        (TokenType::GREATER, ">"),
        (TokenType::GreaterEqual, ">="),
        (TokenType::LESS, "<"),
        (TokenType::LessEqual, "<="),
    ] {
        let op = operator(token_type, lexeme, 3);
        match apply_binary(&op, number(1.0), Value::Boolean(true)) {
            Err(Error::Runtime { message, line }) => {
                assert_eq!(message, "Operands must be numbers");
                assert_eq!(line, 3);
            }
            _ => panic!("{} took a boolean", lexeme),
        }
    }
}

#[test]
fn comparisons_order_numbers() {
    let less = operator(TokenType::LESS, "<", 1);
    let greater = operator(TokenType::GREATER, ">", 1);
    let at_most = operator(TokenType::LessEqual, "<=", 1);
    let at_least = operator(TokenType::GreaterEqual, ">=", 1);
    assert_eq!(apply_binary(&less, number(1.0), number(2.0)).unwrap(), Value::Boolean(true));
    assert_eq!(apply_binary(&less, number(-1.0), number(-2.0)).unwrap(), Value::Boolean(false));
    assert_eq!(apply_binary(&greater, number(3.0), number(-4.0)).unwrap(), Value::Boolean(true));
    assert_eq!(apply_binary(&at_most, number(0.0), number(-0.0)).unwrap(), Value::Boolean(true));
    assert_eq!(apply_binary(&at_least, number(-0.0), number(0.0)).unwrap(), Value::Boolean(true));
    assert_eq!(apply_binary(&less, number(-0.0), number(0.0)).unwrap(), Value::Boolean(false));
    assert_eq!(
        apply_binary(&less, number(f64::NAN), number(1.0)).unwrap(),
        Value::Boolean(false)
    );
    assert_eq!(
        apply_binary(&at_least, number(f64::NAN), number(f64::NAN)).unwrap(),
        Value::Boolean(false)
    );
    assert_eq!(
        apply_binary(&less, number(f64::NEG_INFINITY), number(f64::MAX)).unwrap(),
        Value::Boolean(true)
    );
}

#[test]
fn equality_never_fails_across_kinds() {
    let equal = operator(TokenType::EqualEqual, "==", 1);
    let unequal = operator(TokenType::BangEqual, "!=", 1);
    assert_eq!(
        apply_binary(&equal, number(1.0), Value::String("1".to_string())).unwrap(),
        Value::Boolean(false)
    );
    assert_eq!(
        apply_binary(&unequal, Value::Nil, Value::Boolean(false)).unwrap(),
        Value::Boolean(true)
    );
    assert_eq!(
        apply_binary(&equal, Value::String("a".to_string()), Value::String("a".to_string()))
            .unwrap(),
        Value::Boolean(true)
    );
    assert_eq!(
        apply_binary(&equal, number(f64::NAN), number(f64::NAN)).unwrap(),
        Value::Boolean(false)
    );
    assert_eq!(apply_binary(&equal, number(0.0), number(-0.0)).unwrap(), Value::Boolean(true));
}

#[test]
fn unary_operators_check_their_operand() {
    let minus = operator(TokenType::MINUS, "-", 2);
    let bang = operator(TokenType::BANG, "!", 5);
    assert_eq!(apply_unary(&minus, number(0.0)).unwrap(), number(-0.0));
    assert_eq!(apply_unary(&bang, Value::Boolean(true)).unwrap(), Value::Boolean(false));
    match apply_unary(&minus, Value::String("x".to_string())) {
        Err(Error::Runtime { message, line }) => {
            assert_eq!(message, "Operand must be a number");
            assert_eq!(line, 2);
        }
        _ => panic!("a string was negated"),
    }
    match apply_unary(&bang, number(1.0)) {
        Err(Error::Runtime { message, line }) => {
            assert_eq!(message, "Operand must be a boolean");
            assert_eq!(line, 5);
        }
        _ => panic!("a number was taken for a boolean"),
    }
}

#[test]
fn evaluating_twice_gives_the_same_value() {
    let mut interpreter = Interpreter::new();
    let first = interpreter.evaluate(Expr::new(ExprKind::Literal(Some(number(2.5))))).unwrap();
    let second = interpreter.evaluate(Expr::new(ExprKind::Literal(Some(number(2.5))))).unwrap();
    assert_eq!(first, second);
    let grouped = || {
        Expr::new(ExprKind::Grouping(Box::new(binary(
            number(1.0),
            TokenType::PLUS,
            "+",
            number(2.0),
        ))))
    };
    let first = interpreter.evaluate(grouped()).unwrap();
    let second = interpreter.evaluate(grouped()).unwrap();
    assert_eq!(first, second);
    assert_eq!(first, number(3.0));
}

#[test]
fn the_left_operand_is_evaluated_first() {
    let mut interpreter = Interpreter::new();
    let expr = Expr::new(ExprKind::Binary {
        left: Box::new(Expr::new(ExprKind::Variable(name("first", 1)))),
        operator: operator(TokenType::PLUS, "+", 1),
        right: Box::new(Expr::new(ExprKind::Variable(name("second", 2)))),
    });
    match interpreter.evaluate(expr) {
        Err(Error::Runtime { message, line }) => {
            assert_eq!(message, "Undefined varliable first");
            assert_eq!(line, 1);
        }
        _ => panic!("two undefined names were added"),
    }
}

#[test]
fn print_hands_back_the_line() {
    let mut interpreter = Interpreter::new();
    let printed = interpreter
        .execute(Stmt::Print(binary(number(1.0), TokenType::PLUS, "+", number(2.0))))
        .unwrap();
    assert_eq!(printed, Some("3".to_string()));
    let silent = interpreter
        .execute(Stmt::Expression(binary(number(1.0), TokenType::PLUS, "+", number(2.0))))
        .unwrap();
    assert_eq!(silent, None);
}

#[test]
fn a_variable_without_initializer_is_nil() {
    let mut interpreter = Interpreter::new();
    let x = name("x", 1);
    assert_eq!(
        interpreter.execute(Stmt::Var { name: x.clone(), initializer: None }).unwrap(),
        None
    );
    assert_eq!(interpreter.environment.get(&x).unwrap(), Value::Nil);
}

#[test]
fn a_failed_statement_does_not_stop_the_next() {
    let mut interpreter = Interpreter::new();
    let statements = vec![
        Stmt::Print(Expr::new(ExprKind::Variable(name("ghost", 1)))),
        Stmt::Print(Expr::new(ExprKind::Literal(Some(number(2.0))))),
    ];
    let output = interpreter.interpret(statements);
    assert_eq!(
        output,
        vec!["[Error]: Undefined varliable ghost\n[line 1]".to_string(), "2".to_string()]
    );
}

#[test]
fn errors_are_shown_with_their_line() {
    let error = Error::Runtime { message: "Operands must be numbers".to_string(), line: 12 };
    assert_eq!(error.to_string(), "Operands must be numbers\n[line 12]");
    let error = Error::Return { value: number(1.5) };
    assert_eq!(error.to_string(), "Returning 1.5");
}

#[test]
fn what_cannot_be_evaluated_is_recognised() {
    let fine = binary(number(1.0), TokenType::PLUS, "+", number(2.0));
    assert!(can_evaluate(&fine));
    assert!(fine.is_printable());
    let absent = Expr::new(ExprKind::Literal(None));
    assert!(!can_evaluate(&absent));
    assert!(absent.is_printable());
    let odd = binary(number(1.0), TokenType::COMMA, ",", number(2.0));
    assert!(!can_evaluate(&odd));
    let this = Expr::new(ExprKind::This(operator(TokenType::THIS, "this", 1)));
    assert!(!can_evaluate(&this));
    assert!(!this.is_printable());
    assert!(can_run(&Stmt::Print(fine)));
    assert!(!can_run(&Stmt::Block(vec![])));
    assert!(can_run(&Stmt::Var { name: name("v", 1), initializer: None }));
}
