//! The environment of variables and the evaluator that walks the syntax tree.
use crate::expression::{statement_views, Expr, ExprKind, ExprView, Stmt, StmtView};
use crate::number::{
    at_most, difference, less, less_or_equal, less_than, negate, negated, number_difference,
    number_product, number_quotient, number_sum, product, quotient, sum,
};
use crate::text::{decimal, decimal_chars, push_text, string_of};
use crate::token::{Token, TokenType, TokenView};
use crate::value::{value_text, values_equal, Value, ValueView};
use vstd::hash_map::StringHashMap;
use vstd::prelude::*;
use vstd::string::StringExecFns;

verus! {

/// What can go wrong while a statement runs.
#[derive(Debug)]
pub enum Error {
    Runtime { message: String, line: usize },
    Return { value: Value },
}

/// A runtime error as plain data.
pub enum ErrorView {
    Runtime { message: Seq<char>, line: nat },
    Return { value: ValueView },
}

impl View for Error {
    type V = ErrorView;

    open spec fn view(&self) -> ErrorView {
        match self {
            Error::Runtime { message, line } => ErrorView::Runtime {
                message: message@,
                line: *line as nat,
            },
            Error::Return { value } => ErrorView::Return { value: value@ },
        }
    }
}

/// The text of a runtime error: the message, and under it the line in
/// brackets.
pub open spec fn error_text(e: ErrorView) -> Seq<char> {
    match e {
        ErrorView::Runtime { message, line } => message + "\n[line "@ + decimal(line) + "]"@,
        ErrorView::Return { value } => "Returning "@ + value_text(value),
    }
}

/// The error for a name that has no binding.
pub open spec fn undefined_variable(name: TokenView) -> ErrorView {
    ErrorView::Runtime { message: "Undefined varliable "@ + name.lexeme, line: name.line }
}

/// The error for an operator applied to operands that it does not take.
pub open spec fn type_error(message: Seq<char>, operator: TokenView) -> ErrorView {
    ErrorView::Runtime { message, line: operator.line }
}

/// A result as plain data.
pub open spec fn outcome_view(r: Result<Value, Error>) -> Result<ValueView, ErrorView> {
    match r {
        Ok(v) => Ok(v@),
        Err(e) => Err(e@),
    }
}

/// What looking a name up gives: its value, or the error for a name that
/// has no binding.
pub open spec fn lookup(
    env: Map<Seq<char>, ValueView>,
    name: TokenView,
) -> Result<ValueView, ErrorView> {
    if env.contains_key(name.lexeme) {
        Ok(env[name.lexeme])
    } else {
        Err(undefined_variable(name))
    }
}

/// The environment after a definition.
pub open spec fn definition(
    env: Map<Seq<char>, ValueView>,
    name: Seq<char>,
    value: ValueView,
) -> Map<Seq<char>, ValueView> {
    env.insert(name, value)
}

/// The environment after an assignment: changed where the name was bound,
/// else as it was.
pub open spec fn assignment(
    env: Map<Seq<char>, ValueView>,
    name: TokenView,
    value: ValueView,
) -> Map<Seq<char>, ValueView> {
    if env.contains_key(name.lexeme) {
        env.insert(name.lexeme, value)
    } else {
        env
    }
}

/// The environment that a sequence of definitions makes, one after the
/// other, beginning with nothing defined.
pub open spec fn defined(definitions: Seq<(Seq<char>, ValueView)>) -> Map<Seq<char>, ValueView>
    decreases definitions.len(),
{
    if definitions.len() == 0 {
        Map::empty()
    } else {
        definition(defined(definitions.drop_last()), definitions.last().0, definitions.last().1)
    }
}

/// A name that was never defined has no value, and assigning to it fails and
/// changes nothing.
pub proof fn lemma_undefined_names_are_refused(
    definitions: Seq<(Seq<char>, ValueView)>,
    name: TokenView,
    value: ValueView,
)
    requires
        forall|i: int| 0 <= i < definitions.len() ==> (#[trigger] definitions[i]).0 != name.lexeme,
    ensures
        lookup(defined(definitions), name) == Err::<ValueView, ErrorView>(
            undefined_variable(name),
        ),
        assignment(defined(definitions), name, value) == defined(definitions),
    decreases definitions.len(),
{
    if definitions.len() > 0 {
        let before = definitions.drop_last();
        assert forall|i: int| 0 <= i < before.len() implies (#[trigger] before[i]).0
            != name.lexeme by {
            assert(before[i] == definitions[i]);
        }
        lemma_undefined_names_are_refused(before, name, value);
        assert(definitions.last() == definitions[definitions.len() - 1]);
    }
}

/// After a definition the name has the value that it was defined with, and
/// every other name is as it was.
pub proof fn lemma_definition_binds(
    env: Map<Seq<char>, ValueView>,
    name: TokenView,
    value: ValueView,
    other: TokenView,
)
    ensures
        lookup(definition(env, name.lexeme, value), name) == Ok::<ValueView, ErrorView>(value),
        other.lexeme != name.lexeme ==> lookup(definition(env, name.lexeme, value), other)
            == lookup(env, other),
{
}

impl Error {
    /// The text of the error.
    pub fn to_string(&self) -> (r: String)
        ensures
            r@ == error_text(self@),
    {
        match self {
            Error::Runtime { message, line } => {
                let mut out: Vec<char> = Vec::new();
                push_text(&mut out, message.as_str());
                push_text(&mut out, "\n[line ");
                let mut digits = decimal_chars(*line);
                out.append(&mut digits);
                push_text(&mut out, "]");
                string_of(out.as_slice())
            },
            Error::Return { value } => {
                let mut out: Vec<char> = Vec::new();
                push_text(&mut out, "Returning ");
                let text = value.to_string();
                push_text(&mut out, text.as_str());
                assert(out@ =~= "Returning "@ + value_text(value@));
                string_of(out.as_slice())
            },
        }
    }
}

/// The variables of a program: each defined name with its value.
pub struct Environment {
    values: StringHashMap<Value>,
}

impl View for Environment {
    type V = Map<Seq<char>, ValueView>;

    closed spec fn view(&self) -> Map<Seq<char>, ValueView> {
        self.values@.map_values(|v: Value| v@)
    }
}

impl Default for Environment {
    fn default() -> (r: Environment)
        ensures
            r@ == Map::<Seq<char>, ValueView>::empty(),
    {
        let r = Environment { values: StringHashMap::new() };
        assert(r@ =~= Map::<Seq<char>, ValueView>::empty());
        r
    }
}

impl Environment {
    /// Binds `name` to `value`, whether or not it was bound before.
    pub fn define(&mut self, name: &str, value: Value)
        ensures
            final(self)@ == definition(old(self)@, name@, value@),
    {
        self.values.insert(String::from_str(name), value);
        assert(self@ =~= old(self)@.insert(name@, value@));
    }

    /// Gives a bound name a new value. Fails on a name that has no binding,
    /// and then changes nothing.
    pub fn assign(&mut self, name: &Token, value: Value) -> (r: Result<(), Error>)
        ensures
            final(self)@ == assignment(old(self)@, name@, value@),
            match r {
                Ok(_) => lookup(old(self)@, name@) is Ok,
                Err(e) => lookup(old(self)@, name@) == Err::<ValueView, ErrorView>(e@),
            },
    {
        match self.get(name) {
            Ok(_) => {
                self.define(name.lexeme(), value);
                Ok(())
            },
            Err(e) => Err(e),
        }
    }

    /// The value of a bound name. Fails on a name that has no binding.
    pub fn get(&self, token: &Token) -> (r: Result<Value, Error>)
        ensures
            outcome_view(r) == lookup(self@, token@),
    {
        let lexeme = token.lexeme();
        match self.values.get(lexeme) {
            Some(value) => Ok(value.clone()),
            None => {
                let message = String::from_str("Undefined varliable ").concat(lexeme);
                Err(Error::Runtime { message, line: token.line() })
            },
        }
    }
}

/// Whether a category is a unary operator: `-` or `!`.
pub open spec fn is_unary_operator(kind: TokenType) -> bool {
    kind == TokenType::MINUS || kind == TokenType::BANG
}

/// Whether a category is a binary operator: arithmetic, comparison or
/// equality.
pub open spec fn is_binary_operator(kind: TokenType) -> bool {
    match kind {
        TokenType::MINUS
        | TokenType::SLASH
        | TokenType::STAR
        | TokenType::PLUS
        | TokenType::GREATER
        | TokenType::GreaterEqual
        | TokenType::LESS
        | TokenType::LessEqual
        | TokenType::BangEqual
        | TokenType::EqualEqual => true,
        _ => false,
    }
}

/// Whether an expression can be evaluated: it is made of literals with a
/// value, variables, groupings, assignments, and unary and binary operations
/// whose operators are such.
pub open spec fn evaluable(e: ExprView) -> bool
    decreases e,
{
    match e {
        ExprView::Assign { name, value } => evaluable(*value),
        ExprView::Binary { left, operator, right } => is_binary_operator(operator.kind)
            && evaluable(*left) && evaluable(*right),
        ExprView::Grouping(inner) => evaluable(*inner),
        ExprView::Literal(value) => value is Some,
        ExprView::Unary { operator, right } => is_unary_operator(operator.kind) && evaluable(
            *right,
        ),
        ExprView::Variable(_) => true,
        _ => false,
    }
}

/// What a unary operator makes of its operand.
pub open spec fn unary_result(operator: TokenView, operand: ValueView) -> Result<
    ValueView,
    ErrorView,
> {
    if operator.kind == TokenType::MINUS {
        match operand {
            ValueView::Number(n) => Ok(ValueView::Number(negated(n))),
            _ => Err(type_error("Operand must be a number"@, operator)),
        }
    } else {
        match operand {
            ValueView::Boolean(b) => Ok(ValueView::Boolean(!b)),
            ValueView::Nil => Ok(ValueView::Boolean(true)),
            _ => Err(type_error("Operand must be a boolean"@, operator)),
        }
    }
}

/// What an arithmetic operator makes of two numbers.
pub open spec fn arithmetic(kind: TokenType, left: u64, right: u64) -> u64 {
    match kind {
        TokenType::MINUS => number_difference(left, right),
        TokenType::SLASH => number_quotient(left, right),
        TokenType::STAR => number_product(left, right),
        _ => number_sum(left, right),
    }
}

/// What a comparison operator says of two numbers.
pub open spec fn comparison(kind: TokenType, left: u64, right: u64) -> bool {
    match kind {
        TokenType::GREATER => less_than(right, left),
        TokenType::GreaterEqual => at_most(right, left),
        TokenType::LESS => less_than(left, right),
        _ => at_most(left, right),
    }
}

/// What a binary operator makes of its operands.
pub open spec fn binary_result(operator: TokenView, left: ValueView, right: ValueView) -> Result<
    ValueView,
    ErrorView,
> {
    match operator.kind {
        TokenType::MINUS | TokenType::SLASH | TokenType::STAR => match (left, right) {
            (ValueView::Number(l), ValueView::Number(r)) => Ok(
                ValueView::Number(arithmetic(operator.kind, l, r)),
            ),
            _ => Err(type_error("Operands must be numbers"@, operator)),
        },
        TokenType::PLUS => match (left, right) {
            (ValueView::Number(l), ValueView::Number(r)) => Ok(
                ValueView::Number(arithmetic(operator.kind, l, r)),
            ),
            (ValueView::String(l), ValueView::String(r)) => Ok(ValueView::String(l + r)),
            _ => Err(type_error("Operands must be two numbers or two strings"@, operator)),
        },
        TokenType::GREATER | TokenType::GreaterEqual | TokenType::LESS | TokenType::LessEqual => {
            match (left, right) {
                (ValueView::Number(l), ValueView::Number(r)) => Ok(
                    ValueView::Boolean(comparison(operator.kind, l, r)),
                ),
                _ => Err(type_error("Operands must be numbers"@, operator)),
            }
        },
        TokenType::BangEqual => Ok(ValueView::Boolean(!values_equal(left, right))),
        _ => Ok(ValueView::Boolean(values_equal(left, right))),
    }
}

/// What evaluating an expression gives, and the environment that it leaves.
pub struct Evaluation {
    pub result: Result<ValueView, ErrorView>,
    pub environment: Map<Seq<char>, ValueView>,
}

/// The evaluation of an expression in an environment. Operands are evaluated
/// from left to right; the first error ends the evaluation, and what was
/// assigned before it stays assigned.
pub open spec fn evaluation(e: ExprView, env: Map<Seq<char>, ValueView>) -> Evaluation
    decreases e,
{
    match e {
        ExprView::Literal(Some(value)) => Evaluation { result: Ok(value), environment: env },
        ExprView::Grouping(inner) => evaluation(*inner, env),
        ExprView::Variable(name) => Evaluation { result: lookup(env, name), environment: env },
        ExprView::Assign { name, value } => {
            let assigned = evaluation(*value, env);
            match assigned.result {
                Ok(v) => Evaluation {
                    result: match lookup(assigned.environment, name) {
                        Ok(_) => Ok(v),
                        Err(e) => Err(e),
                    },
                    environment: assignment(assigned.environment, name, v),
                },
                Err(_) => assigned,
            }
        },
        ExprView::Unary { operator, right } => {
            let operand = evaluation(*right, env);
            match operand.result {
                Ok(v) => Evaluation {
                    result: unary_result(operator, v),
                    environment: operand.environment,
                },
                Err(_) => operand,
            }
        },
        ExprView::Binary { left, operator, right } => {
            let first = evaluation(*left, env);
            match first.result {
                Ok(l) => {
                    let second = evaluation(*right, first.environment);
                    match second.result {
                        Ok(r) => Evaluation {
                            result: binary_result(operator, l, r),
                            environment: second.environment,
                        },
                        Err(_) => second,
                    }
                },
                Err(_) => first,
            }
        },
        _ => Evaluation { result: Ok(ValueView::Nil), environment: env },
    }
}

/// Whether a statement can be run: it evaluates an expression, prints one, or
/// declares a variable, and its expression can be evaluated.
pub open spec fn runnable(s: StmtView) -> bool {
    match s {
        StmtView::Expression(e) => evaluable(e),
        StmtView::Print(e) => evaluable(e),
        StmtView::Var { name, initializer } => initializer is Some ==> evaluable(initializer->0),
        _ => false,
    }
}

/// What running a statement gives, and the environment that it leaves. The
/// result holds the line that the statement prints, where it prints one.
pub struct Execution {
    pub result: Result<Option<Seq<char>>, ErrorView>,
    pub environment: Map<Seq<char>, ValueView>,
}

/// The execution of a statement in an environment. A variable without an
/// initializer is bound to nil; one whose initializer fails is not bound.
pub open spec fn execution(s: StmtView, env: Map<Seq<char>, ValueView>) -> Execution {
    match s {
        StmtView::Expression(e) => {
            let found = evaluation(e, env);
            Execution {
                result: match found.result {
                    Ok(_) => Ok(None),
                    Err(e) => Err(e),
                },
                environment: found.environment,
            }
        },
        StmtView::Print(e) => {
            let found = evaluation(e, env);
            Execution {
                result: match found.result {
                    Ok(v) => Ok(Some(value_text(v))),
                    Err(e) => Err(e),
                },
                environment: found.environment,
            }
        },
        StmtView::Var { name, initializer } => match initializer {
            Some(e) => {
                let found = evaluation(e, env);
                match found.result {
                    Ok(v) => Execution {
                        result: Ok(None),
                        environment: definition(found.environment, name.lexeme, v),
                    },
                    Err(e) => Execution { result: Err(e), environment: found.environment },
                }
            },
            None => Execution {
                result: Ok(None),
                environment: definition(env, name.lexeme, ValueView::Nil),
            },
        },
        _ => Execution { result: Ok(None), environment: env },
    }
}

/// The lines that a statement adds to the output: the line that it prints,
/// or the report of its error.
pub open spec fn reported(result: Result<Option<Seq<char>>, ErrorView>) -> Seq<Seq<char>> {
    match result {
        Ok(Some(line)) => seq![line],
        Ok(None) => Seq::empty(),
        Err(e) => seq!["[Error]: "@ + error_text(e)],
    }
}

/// What running a program gives: its output, line by line, and the
/// environment that it leaves.
pub struct Run {
    pub output: Seq<Seq<char>>,
    pub environment: Map<Seq<char>, ValueView>,
}

/// The run of a sequence of statements, one after the other. A statement that
/// fails is reported in the output, and the run goes on with the next one.
pub open spec fn run_of(statements: Seq<StmtView>, env: Map<Seq<char>, ValueView>) -> Run
    decreases statements.len(),
{
    if statements.len() == 0 {
        Run { output: Seq::empty(), environment: env }
    } else {
        let before = run_of(statements.drop_last(), env);
        let last = execution(statements.last(), before.environment);
        Run { output: before.output + reported(last.result), environment: last.environment }
    }
}

/// A printed line as plain data.
pub open spec fn line_view(r: Result<Option<String>, Error>) -> Result<
    Option<Seq<char>>,
    ErrorView,
> {
    match r {
        Ok(Some(line)) => Ok(Some(line@)),
        Ok(None) => Ok(None),
        Err(e) => Err(e@),
    }
}

/// The characters of each line.
pub open spec fn line_views(lines: Seq<String>) -> Seq<Seq<char>> {
    Seq::new(lines.len(), |i: int| lines[i]@)
}

/// Whether an expression holds an assignment.
pub open spec fn assigns(e: ExprView) -> bool
    decreases e,
{
    match e {
        ExprView::Assign { name, value } => true,
        ExprView::Binary { left, operator, right } => assigns(*left) || assigns(*right),
        ExprView::Grouping(inner) => assigns(*inner),
        ExprView::Unary { operator, right } => assigns(*right),
        _ => false,
    }
}

/// Evaluating an expression that holds no assignment leaves the environment
/// as it was.
pub proof fn lemma_evaluation_keeps_environment(e: ExprView, env: Map<Seq<char>, ValueView>)
    requires
        !assigns(e),
    ensures
        evaluation(e, env).environment == env,
    decreases e,
{
    match e {
        ExprView::Binary { left, operator, right } => {
            lemma_evaluation_keeps_environment(*left, env);
            lemma_evaluation_keeps_environment(*right, env);
        },
        ExprView::Grouping(inner) => {
            lemma_evaluation_keeps_environment(*inner, env);
        },
        ExprView::Unary { operator, right } => {
            lemma_evaluation_keeps_environment(*right, env);
        },
        _ => {},
    }
}

/// Evaluating an expression once more, the environment being the same as the
/// first time, gives the same result and leaves the same environment. An
/// expression that holds no assignment, such as a literal or a grouping of
/// literals, can be evaluated any number of times with the same result.
pub proof fn lemma_reevaluation(e: ExprView, env: Map<Seq<char>, ValueView>)
    ensures
        evaluation(e, env).environment == env ==> evaluation(e, evaluation(e, env).environment)
            == evaluation(e, env),
        !assigns(e) ==> evaluation(e, evaluation(e, env).environment) == evaluation(e, env),
{
    if !assigns(e) {
        lemma_evaluation_keeps_environment(e, env);
    }
}

/// An assignment to a bound name whose value can be evaluated gives that
/// value, and binds the name to it.
pub proof fn lemma_assignment_binds(
    name: TokenView,
    value: ExprView,
    env: Map<Seq<char>, ValueView>,
)
    requires
        evaluation(value, env).result is Ok,
        evaluation(value, env).environment.contains_key(name.lexeme),
    ensures
        evaluation(ExprView::Assign { name, value: Box::new(value) }, env).result == evaluation(
            value,
            env,
        ).result,
        lookup(
            evaluation(ExprView::Assign { name, value: Box::new(value) }, env).environment,
            name,
        ) == evaluation(value, env).result,
{
}

/// Whether a category is a unary operator.
pub fn unary_operator(kind: TokenType) -> (r: bool)
    ensures
        r == is_unary_operator(kind),
{
    kind == TokenType::MINUS || kind == TokenType::BANG
}

/// Whether a category is a binary operator.
pub fn binary_operator(kind: TokenType) -> (r: bool)
    ensures
        r == is_binary_operator(kind),
{
    match kind {
        TokenType::MINUS
        | TokenType::SLASH
        | TokenType::STAR
        | TokenType::PLUS
        | TokenType::GREATER
        | TokenType::GreaterEqual
        | TokenType::LESS
        | TokenType::LessEqual
        | TokenType::BangEqual
        | TokenType::EqualEqual => true,
        _ => false,
    }
}

/// Whether an expression can be evaluated.
pub fn can_evaluate(expr: &Expr) -> (r: bool)
    ensures
        r == evaluable(expr@),
    decreases expr,
{
    match &expr.kind {
        ExprKind::Assign { name, value } => can_evaluate(value),
        ExprKind::Binary { left, operator, right } => binary_operator(*operator.typ())
            && can_evaluate(left) && can_evaluate(right),
        ExprKind::Grouping(inner) => can_evaluate(inner),
        ExprKind::Literal(value) => value.is_some(),
        ExprKind::Unary { operator, right } => unary_operator(*operator.typ()) && can_evaluate(
            right,
        ),
        ExprKind::Variable(_) => true,
        _ => false,
    }
}

/// Whether a statement can be run.
pub fn can_run(stmt: &Stmt) -> (r: bool)
    ensures
        r == runnable(stmt@),
{
    match stmt {
        Stmt::Expression(e) => can_evaluate(e),
        Stmt::Print(e) => can_evaluate(e),
        Stmt::Var { name, initializer } => match initializer {
            Some(e) => can_evaluate(e),
            None => true,
        },
        _ => false,
    }
}

/// Applies a unary operator to a value.
pub fn apply_unary(operator: &Token, operand: Value) -> (r: Result<Value, Error>)
    requires
        is_unary_operator(operator@.kind),
    ensures
        outcome_view(r) == unary_result(operator@, operand@),
{
    match *operator.typ() {
        TokenType::MINUS => match operand {
            Value::Number(n) => Ok(Value::Number(negate(n))),
            _ => Err(
                Error::Runtime {
                    message: String::from_str("Operand must be a number"),
                    line: operator.line(),
                },
            ),
        },
        _ => match operand {
            Value::Boolean(b) => Ok(Value::Boolean(!b)),
            Value::Nil => Ok(Value::Boolean(true)),
            _ => Err(
                Error::Runtime {
                    message: String::from_str("Operand must be a boolean"),
                    line: operator.line(),
                },
            ),
        },
    }
}

/// The error of an operator whose operands are not what it takes.
fn mismatch(message: &str, operator: &Token) -> (r: Result<Value, Error>)
    ensures
        outcome_view(r) == Err::<ValueView, ErrorView>(type_error(message@, operator@)),
{
    Err(Error::Runtime { message: String::from_str(message), line: operator.line() })
}

/// Applies a binary operator to two values.
pub fn apply_binary(operator: &Token, left: Value, right: Value) -> (r: Result<Value, Error>)
    requires
        is_binary_operator(operator@.kind),
    ensures
        outcome_view(r) == binary_result(operator@, left@, right@),
{
    match *operator.typ() {
        TokenType::MINUS => match (left, right) {
            (Value::Number(l), Value::Number(r)) => Ok(Value::Number(difference(l, r))),
            _ => mismatch("Operands must be numbers", operator),
        },
        TokenType::SLASH => match (left, right) {
            (Value::Number(l), Value::Number(r)) => Ok(Value::Number(quotient(l, r))),
            _ => mismatch("Operands must be numbers", operator),
        },
        TokenType::STAR => match (left, right) {
            (Value::Number(l), Value::Number(r)) => Ok(Value::Number(product(l, r))),
            _ => mismatch("Operands must be numbers", operator),
        },
        TokenType::PLUS => match (left, right) {
            (Value::Number(l), Value::Number(r)) => Ok(Value::Number(sum(l, r))),
            (Value::String(l), Value::String(r)) => Ok(Value::String(l.concat(r.as_str()))),
            _ => mismatch("Operands must be two numbers or two strings", operator),
        },
        TokenType::GREATER => match (left, right) {
            (Value::Number(l), Value::Number(r)) => Ok(Value::Boolean(less(r, l))),
            _ => mismatch("Operands must be numbers", operator),
        },
        TokenType::GreaterEqual => match (left, right) {
            (Value::Number(l), Value::Number(r)) => Ok(Value::Boolean(less_or_equal(r, l))),
            _ => mismatch("Operands must be numbers", operator),
        },
        TokenType::LESS => match (left, right) {
            (Value::Number(l), Value::Number(r)) => Ok(Value::Boolean(less(l, r))),
            _ => mismatch("Operands must be numbers", operator),
        },
        TokenType::LessEqual => match (left, right) {
            (Value::Number(l), Value::Number(r)) => Ok(Value::Boolean(less_or_equal(l, r))),
            _ => mismatch("Operands must be numbers", operator),
        },
        TokenType::BangEqual => Ok(Value::Boolean(left != right)),
        _ => Ok(Value::Boolean(left == right)),
    }
}

/// Runs statements against one environment.
pub struct Interpreter {
    pub environment: Environment,
}

impl Default for Interpreter {
    fn default() -> (r: Interpreter)
        ensures
            r.environment@ == Map::<Seq<char>, ValueView>::empty(),
    {
        Interpreter { environment: Environment::default() }
    }
}

impl Interpreter {
    /// An interpreter in whose environment nothing is defined yet.
    pub fn new() -> (r: Interpreter)
        ensures
            r.environment@ == Map::<Seq<char>, ValueView>::empty(),
    {
        Interpreter::default()
    }

    /// Runs the statements in order and returns the output, line by line:
    /// what they print, and the report of each statement that failed.
    pub fn interpret(&mut self, statements: Vec<Stmt>) -> (r: Vec<String>)
        requires
            forall|i: int| 0 <= i < statements.len() ==> runnable(#[trigger] statements[i]@),
        ensures
            line_views(r@) == run_of(statement_views(statements@), old(self).environment@).output,
            final(self).environment@ == run_of(
                statement_views(statements@),
                old(self).environment@,
            ).environment,
    {
        let mut output: Vec<String> = Vec::new();
        let ghost all = statement_views(statements@);
        let ghost start = self.environment@;
        assert(all.take(0) =~= Seq::<StmtView>::empty());
        assert(line_views(output@) =~= Seq::<Seq<char>>::empty());
        for statement in it: statements
            invariant
                all == statement_views(it.seq()),
                forall|i: int| 0 <= i < it.seq().len() ==> runnable(#[trigger] it.seq()[i]@),
                line_views(output@) == run_of(all.take(it.index() as int), start).output,
                self.environment@ == run_of(all.take(it.index() as int), start).environment,
        {
            let ghost k = it.index() as int;
            assert(all.take(k + 1).drop_last() =~= all.take(k));
            assert(all.take(k + 1).last() == statement@);
            let ghost before = line_views(output@);
            match self.execute(statement) {
                Ok(Some(line)) => {
                    output.push(line);
                    assert(line_views(output@) =~= before + seq![line@]);
                },
                Ok(None) => {
                    assert(line_views(output@) =~= before + Seq::<Seq<char>>::empty());
                },
                Err(error) => {
                    let mut line: Vec<char> = Vec::new();
                    push_text(&mut line, "[Error]: ");
                    let text = error.to_string();
                    push_text(&mut line, text.as_str());
                    let report = string_of(line.as_slice());
                    assert(report@ =~= "[Error]: "@ + error_text(error@));
                    output.push(report);
                    assert(line_views(output@) =~= before + seq![report@]);
                },
            }
        }
        assert(all.take(all.len() as int) =~= all);
        output
    }

    /// Runs one statement against the environment. Returns the line that the
    /// statement prints, where it prints one.
    pub fn execute(&mut self, stmt: Stmt) -> (r: Result<Option<String>, Error>)
        requires
            runnable(stmt@),
        ensures
            line_view(r) == execution(stmt@, old(self).environment@).result,
            final(self).environment@ == execution(stmt@, old(self).environment@).environment,
    {
        match stmt {
            Stmt::Expression(expression) => {
                self.evaluate(expression)?;
                Ok(None)
            },
            Stmt::Print(expression) => {
                let value = self.evaluate(expression)?;
                Ok(Some(value.to_string()))
            },
            Stmt::Var { name, initializer } => {
                let value = match initializer {
                    Some(initializer) => self.evaluate(initializer)?,
                    None => Value::Nil,
                };
                self.environment.define(name.lexeme(), value);
                Ok(None)
            },
            _ => Ok(None),
        }
    }

    /// Evaluates an expression against the environment.
    pub fn evaluate(&mut self, expr: Expr) -> (r: Result<Value, Error>)
        requires
            evaluable(expr@),
        ensures
            outcome_view(r) == evaluation(expr@, old(self).environment@).result,
            final(self).environment@ == evaluation(expr@, old(self).environment@).environment,
        decreases expr,
    {
        match expr.kind {
            ExprKind::Literal(value) => match value {
                Some(v) => Ok(v),
                None => Ok(Value::Nil),
            },
            ExprKind::Assign { name, value } => {
                let v = self.evaluate(*value)?;
                self.environment.assign(&name, v.clone())?;
                Ok(v)
            },
            ExprKind::Binary { left, operator, right } => {
                let l = self.evaluate(*left)?;
                let r = self.evaluate(*right)?;
                apply_binary(&operator, l, r)
            },
            ExprKind::Grouping(inner) => self.evaluate(*inner),
            ExprKind::Unary { operator, right } => {
                let v = self.evaluate(*right)?;
                apply_unary(&operator, v)
            },
            ExprKind::Variable(name) => self.lookup_variable(&name),
            _ => Ok(Value::Nil),
        }
    }

    /// The value of a variable.
    fn lookup_variable(&self, name: &Token) -> (r: Result<Value, Error>)
        ensures
            outcome_view(r) == lookup(self.environment@, name@),
    {
        self.environment.get(name)
    }
}

} // verus!
