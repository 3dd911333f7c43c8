//! The grammar of the language: what parsing a sequence of tokens gives,
//! rule by rule, and what holds of it.
//!
//! ```text
//! program     -> declaration* EOF
//! declaration -> "var" IDENTIFIER ( "=" expression )? ";" | statement
//! statement   -> "print" expression ";" | expression ";"
//! expression  -> assignment
//! assignment  -> IDENTIFIER "=" assignment | equality
//! equality    -> comparison ( ( "!=" | "==" ) comparison )*
//! comparison  -> term ( ( ">" | ">=" | "<" | "<=" ) term )*
//! term        -> factor ( ( "-" | "+" ) factor )*
//! factor      -> unary ( ( "/" | "*" ) unary )*
//! unary       -> ( "!" | "-" ) unary | primary
//! primary     -> NUMBER | STRING | "true" | "false" | "nil"
//!              | "(" expression ")" | IDENTIFIER
//! ```
use crate::expression::{printable, ExprView, StmtView};
use crate::interpreter::{evaluable, runnable};
use crate::parser::ErrorView;
use crate::text::decimal;
use crate::token::{well_formed, TokenType, TokenView};
use crate::value::literal_value;
use vstd::prelude::*;

verus! {

/// What parsing from some position gives: the result, and the number of
/// tokens read on the way to it.
pub struct Parsed<T> {
    pub result: Result<T, ErrorView>,
    pub consumed: nat,
}

/// Whether the tokens end at `pos`: the end token stands there, or nothing.
pub open spec fn at_end(tokens: Seq<TokenView>, pos: nat) -> bool {
    pos >= tokens.len() || tokens[pos as int].kind == TokenType::EOF
}

/// The number of tokens from `pos` to the end of the sequence.
pub open spec fn remaining(tokens: Seq<TokenView>, pos: nat) -> nat {
    if pos < tokens.len() {
        (tokens.len() - pos) as nat
    } else {
        0
    }
}

/// Whether a token of the given category stands at `pos`.
pub open spec fn holds(tokens: Seq<TokenView>, pos: nat, kind: TokenType) -> bool {
    !at_end(tokens, pos) && tokens[pos as int].kind == kind
}

/// Whether a token of one of the given categories stands at `pos`.
pub open spec fn holds_any(tokens: Seq<TokenView>, pos: nat, kinds: Seq<TokenType>) -> bool {
    !at_end(tokens, pos) && kinds.contains(tokens[pos as int].kind)
}

/// The error that names a token and says what was expected in its place.
pub open spec fn error_at(token: TokenView, message: Seq<char>) -> ErrorView {
    ErrorView::ParseErrorCustom(
        if token.kind == TokenType::EOF {
            "[line "@ + decimal(token.line) + "] "@ + message + " at end"@
        } else {
            "[line "@ + decimal(token.line) + "] at "@ + token.lexeme + ", "@ + message
        },
    )
}

/// The token at `pos` where it has the given category; else the error with
/// the given message, and nothing read.
pub open spec fn expected(
    tokens: Seq<TokenView>,
    pos: nat,
    kind: TokenType,
    message: Seq<char>,
) -> Parsed<TokenView> {
    if holds(tokens, pos, kind) {
        Parsed { result: Ok(tokens[pos as int]), consumed: 1 }
    } else {
        Parsed { result: Err(error_at(tokens[pos as int], message)), consumed: 0 }
    }
}

/// The operators of a level of binary operations, from the level that binds
/// most: factor, term, comparison, equality.
pub open spec fn level_operators(level: nat) -> Seq<TokenType> {
    if level == 1 {
        seq![TokenType::STAR, TokenType::SLASH]
    } else if level == 2 {
        seq![TokenType::MINUS, TokenType::PLUS]
    } else if level == 3 {
        seq![
            TokenType::GREATER,
            TokenType::GreaterEqual,
            TokenType::LESS,
            TokenType::LessEqual,
        ]
    } else {
        seq![TokenType::BangEqual, TokenType::EqualEqual]
    }
}

/// `parsed` with `before` more tokens read ahead of it.
pub open spec fn after<T>(before: nat, parsed: Parsed<T>) -> Parsed<T> {
    Parsed { result: parsed.result, consumed: before + parsed.consumed }
}

/// primary: a literal, a variable, or an expression in parentheses. Any other
/// token is read and refused; at the end nothing is read.
pub open spec fn primary(tokens: Seq<TokenView>, pos: nat) -> Parsed<ExprView>
    decreases remaining(tokens, pos), 0nat,
{
    let token = tokens[pos as int];
    if at_end(tokens, pos) {
        Parsed { result: Err(no_primary(token)), consumed: 0 }
    } else {
        match token.kind {
            TokenType::FALSE
            | TokenType::TRUE
            | TokenType::NIL
            | TokenType::NUMBER
            | TokenType::STRING => Parsed {
                result: Ok(ExprView::Literal(Some(literal_value(token)))),
                consumed: 1,
            },
            TokenType::LeftParen => after(1, grouped(tokens, pos + 1)),
            TokenType::IDENTIFIER => Parsed { result: Ok(ExprView::Variable(token)), consumed: 1 },
            _ => Parsed { result: Err(no_primary(token)), consumed: 1 },
        }
    }
}

/// What follows `(`: an expression, and `)`.
pub open spec fn grouped(tokens: Seq<TokenView>, pos: nat) -> Parsed<ExprView>
    decreases remaining(tokens, pos), 19nat,
{
    let inner = expression(tokens, pos);
    match inner.result {
        Ok(e) => {
            let close = expected(
                tokens,
                pos + inner.consumed,
                TokenType::RightParen,
                "Expect ')' after expression"@,
            );
            match close.result {
                Ok(_) => Parsed {
                    result: Ok(ExprView::Grouping(Box::new(e))),
                    consumed: inner.consumed + 1,
                },
                Err(error) => Parsed { result: Err(error), consumed: inner.consumed },
            }
        },
        Err(error) => Parsed { result: Err(error), consumed: inner.consumed },
    }
}

/// The error for a token that begins no expression.
pub open spec fn no_primary(token: TokenView) -> ErrorView {
    ErrorView::ParseErrorToken { token, message: "Did not find a matching primary token"@ }
}

/// unary: `!` or `-` before a unary, or a primary.
pub open spec fn unary(tokens: Seq<TokenView>, pos: nat) -> Parsed<ExprView>
    decreases remaining(tokens, pos), 1nat,
{
    if holds_any(tokens, pos, seq![TokenType::BANG, TokenType::MINUS]) {
        let right = unary(tokens, pos + 1);
        Parsed {
            result: match right.result {
                Ok(e) => Ok(ExprView::Unary { operator: tokens[pos as int], right: Box::new(e) }),
                Err(error) => Err(error),
            },
            consumed: 1 + right.consumed,
        }
    } else {
        primary(tokens, pos)
    }
}

/// An operand of a level of binary operations: an operation of the next
/// level, or a unary below the first.
pub open spec fn operand(tokens: Seq<TokenView>, pos: nat, level: nat) -> Parsed<ExprView>
    decreases remaining(tokens, pos), 3 * level + 2,
{
    if level <= 1 {
        unary(tokens, pos)
    } else {
        binary(tokens, pos, (level - 1) as nat)
    }
}

/// A level of binary operations: an operand, and as long as an operator of
/// the level follows, that operator and one more operand. The operations
/// nest to the left.
pub open spec fn binary(tokens: Seq<TokenView>, pos: nat, level: nat) -> Parsed<ExprView>
    decreases remaining(tokens, pos), 3 * level + 4,
{
    let first = operand(tokens, pos, level);
    match first.result {
        Ok(left) => after(first.consumed, binary_rest(tokens, pos + first.consumed, left, level)),
        Err(_) => first,
    }
}

/// What follows the operand `left` on a level of binary operations.
pub open spec fn binary_rest(
    tokens: Seq<TokenView>,
    pos: nat,
    left: ExprView,
    level: nat,
) -> Parsed<ExprView>
    decreases remaining(tokens, pos), 3 * level + 3,
{
    if holds_any(tokens, pos, level_operators(level)) {
        let right = operand(tokens, pos + 1, level);
        match right.result {
            Ok(e) => after(
                1 + right.consumed,
                binary_rest(
                    tokens,
                    pos + 1 + right.consumed,
                    ExprView::Binary {
                        left: Box::new(left),
                        operator: tokens[pos as int],
                        right: Box::new(e),
                    },
                    level,
                ),
            ),
            Err(error) => Parsed { result: Err(error), consumed: 1 + right.consumed },
        }
    } else {
        Parsed { result: Ok(left), consumed: 0 }
    }
}

/// assignment: an equality; where `=` follows it, the value to assign, and
/// the equality must be a variable. The value is parsed before the target
/// is judged.
pub open spec fn assignment(tokens: Seq<TokenView>, pos: nat) -> Parsed<ExprView>
    decreases remaining(tokens, pos), 17nat,
{
    let target = binary(tokens, pos, 4);
    match target.result {
        Ok(e) => {
            let equals = pos + target.consumed;
            if holds(tokens, equals, TokenType::EQUAL) {
                let value = assignment(tokens, equals + 1);
                Parsed {
                    result: match value.result {
                        Ok(v) => match e {
                            ExprView::Variable(name) => Ok(
                                ExprView::Assign { name, value: Box::new(v) },
                            ),
                            _ => Err(error_at(tokens[equals as int], "Invalid assignment target"@)),
                        },
                        Err(error) => Err(error),
                    },
                    consumed: target.consumed + 1 + value.consumed,
                }
            } else {
                target
            }
        },
        Err(_) => target,
    }
}

/// expression: an assignment.
pub open spec fn expression(tokens: Seq<TokenView>, pos: nat) -> Parsed<ExprView>
    decreases remaining(tokens, pos), 18nat,
{
    assignment(tokens, pos)
}

/// An expression and the `;` that ends its statement.
pub open spec fn terminated(tokens: Seq<TokenView>, pos: nat, message: Seq<char>) -> Parsed<
    ExprView,
> {
    let value = expression(tokens, pos);
    match value.result {
        Ok(e) => {
            let end = expected(tokens, pos + value.consumed, TokenType::SEMICOLON, message);
            Parsed {
                result: match end.result {
                    Ok(_) => Ok(e),
                    Err(error) => Err(error),
                },
                consumed: value.consumed + end.consumed,
            }
        },
        Err(_) => value,
    }
}

/// statement: `print` with an expression, or an expression, and `;`.
pub open spec fn statement(tokens: Seq<TokenView>, pos: nat) -> Parsed<StmtView> {
    if holds(tokens, pos, TokenType::PRINT) {
        let value = terminated(tokens, pos + 1, "Expect ';' after value."@);
        Parsed {
            result: match value.result {
                Ok(e) => Ok(StmtView::Print(e)),
                Err(error) => Err(error),
            },
            consumed: 1 + value.consumed,
        }
    } else {
        let value = terminated(tokens, pos, "Expect ';' after value."@);
        Parsed {
            result: match value.result {
                Ok(e) => Ok(StmtView::Expression(e)),
                Err(error) => Err(error),
            },
            consumed: value.consumed,
        }
    }
}

/// What follows `var`: the name, an initializer where `=` follows, and `;`.
pub open spec fn var_declaration(tokens: Seq<TokenView>, pos: nat) -> Parsed<StmtView> {
    let name = expected(tokens, pos, TokenType::IDENTIFIER, "Expect variable name."@);
    match name.result {
        Ok(token) => {
            if holds(tokens, pos + 1, TokenType::EQUAL) {
                let value = terminated(
                    tokens,
                    pos + 2,
                    "Expect ';' after variable decleration"@,
                );
                Parsed {
                    result: match value.result {
                        Ok(e) => Ok(StmtView::Var { name: token, initializer: Some(e) }),
                        Err(error) => Err(error),
                    },
                    consumed: 2 + value.consumed,
                }
            } else {
                let end = expected(
                    tokens,
                    pos + 1,
                    TokenType::SEMICOLON,
                    "Expect ';' after variable decleration"@,
                );
                Parsed {
                    result: match end.result {
                        Ok(_) => Ok(StmtView::Var { name: token, initializer: None }),
                        Err(error) => Err(error),
                    },
                    consumed: 1 + end.consumed,
                }
            }
        },
        Err(error) => Parsed { result: Err(error), consumed: 0 },
    }
}

/// declaration: a variable declaration after `var`, or a statement.
pub open spec fn declared(tokens: Seq<TokenView>, pos: nat) -> Parsed<StmtView> {
    if holds(tokens, pos, TokenType::VAR) {
        after(1, var_declaration(tokens, pos + 1))
    } else {
        statement(tokens, pos)
    }
}

/// Whether a category begins a statement.
pub open spec fn begins_statement(kind: TokenType) -> bool {
    match kind {
        TokenType::CLASS
        | TokenType::FUN
        | TokenType::VAR
        | TokenType::FOR
        | TokenType::IF
        | TokenType::WHILE
        | TokenType::PRINT
        | TokenType::RETURN => true,
        _ => false,
    }
}

/// The first position from `pos` on where a statement can begin: the end,
/// behind a `;`, or at a token that begins a statement.
pub open spec fn boundary(tokens: Seq<TokenView>, pos: nat) -> nat
    decreases remaining(tokens, pos),
{
    if at_end(tokens, pos) || (pos > 0 && tokens[pos - 1].kind == TokenType::SEMICOLON)
        || begins_statement(tokens[pos as int].kind) {
        pos
    } else {
        boundary(tokens, pos + 1)
    }
}

/// Where parsing resumes after an error at `pos`: one token is dropped, and
/// then all up to the next boundary.
pub open spec fn synchronized(tokens: Seq<TokenView>, pos: nat) -> nat {
    if at_end(tokens, pos) {
        pos
    } else {
        boundary(tokens, pos + 1)
    }
}

/// Where the next declaration begins after the one at `pos`.
pub open spec fn resumed(tokens: Seq<TokenView>, pos: nat) -> nat {
    let found = declared(tokens, pos);
    match found.result {
        Ok(_) => pos + found.consumed,
        Err(_) => synchronized(tokens, pos + found.consumed),
    }
}

/// What parsing a program gives: the statements that were parsed, and the
/// errors of those that were not, both in order.
pub struct Program {
    pub statements: Seq<StmtView>,
    pub errors: Seq<ErrorView>,
}

/// The program from `pos` on: declaration after declaration up to the end.
/// After a declaration that fails, parsing resumes at the next boundary.
pub open spec fn program(tokens: Seq<TokenView>, pos: nat) -> Program
    decreases remaining(tokens, pos),
{
    if at_end(tokens, pos) {
        Program { statements: Seq::empty(), errors: Seq::empty() }
    } else {
        let found = declared(tokens, pos);
        proof {
            lemma_declaration_advances(tokens, pos);
        }
        let rest = program(tokens, resumed(tokens, pos));
        match found.result {
            Ok(s) => Program { statements: seq![s] + rest.statements, errors: rest.errors },
            Err(error) => Program {
                statements: rest.statements,
                errors: seq![error] + rest.errors,
            },
        }
    }
}

/// What `parse` gives for a program: its statements where there is no
/// error, else the first error.
pub open spec fn parse_result(found: Program) -> Result<Seq<StmtView>, ErrorView> {
    if found.errors.len() == 0 {
        Ok(found.statements)
    } else {
        Err(found.errors[0])
    }
}

/// The next boundary lies at or behind `pos`, and inside the tokens.
pub proof fn lemma_boundary(tokens: Seq<TokenView>, pos: nat)
    ensures
        pos <= boundary(tokens, pos),
        pos <= tokens.len() ==> boundary(tokens, pos) <= tokens.len(),
    decreases remaining(tokens, pos),
{
    if !(at_end(tokens, pos) || (pos > 0 && tokens[pos - 1].kind == TokenType::SEMICOLON)
        || begins_statement(tokens[pos as int].kind)) {
        lemma_boundary(tokens, pos + 1);
    }
}

/// An expression that does not begin at the end reads at least one token.
pub proof fn lemma_operand_advances(tokens: Seq<TokenView>, pos: nat, level: nat)
    requires
        !at_end(tokens, pos),
    ensures
        operand(tokens, pos, level).consumed >= 1,
        binary(tokens, pos, level).consumed >= 1,
    decreases level,
{
    if level > 1 {
        lemma_operand_advances(tokens, pos, (level - 1) as nat);
    } else {
        assert(primary(tokens, pos).consumed >= 1);
        assert(unary(tokens, pos).consumed >= 1);
    }
    assert(operand(tokens, pos, level).consumed >= 1);
    let first = operand(tokens, pos, level);
    if first.result is Ok {
        let rest = binary_rest(tokens, pos + first.consumed, first.result->Ok_0, level);
        assert(binary(tokens, pos, level) == after(first.consumed, rest));
    }
}

/// A declaration that does not begin at the end reads at least one token,
/// and parsing resumes behind where it began.
pub proof fn lemma_declaration_advances(tokens: Seq<TokenView>, pos: nat)
    requires
        !at_end(tokens, pos),
    ensures
        declared(tokens, pos).consumed >= 1,
        resumed(tokens, pos) > pos,
{
    lemma_operand_advances(tokens, pos, 4);
    let found = declared(tokens, pos);
    if found.result is Err {
        if !at_end(tokens, pos + found.consumed) {
            lemma_boundary(tokens, pos + found.consumed + 1);
        }
    }
}

/// Whether an expression can be both rendered and evaluated.
pub open spec fn sound(e: ExprView) -> bool {
    printable(e) && evaluable(e)
}

/// Whether a result, where it is an expression, is a sound one.
pub open spec fn sound_result(parsed: Parsed<ExprView>) -> bool {
    parsed.result is Ok ==> sound(parsed.result->Ok_0)
}

/// A primary that was parsed is sound.
proof fn lemma_primary_sound(tokens: Seq<TokenView>, pos: nat)
    ensures
        sound_result(primary(tokens, pos)),
    decreases remaining(tokens, pos), 0nat,
{
    if !at_end(tokens, pos) && tokens[pos as int].kind == TokenType::LeftParen {
        lemma_expression_sound(tokens, pos + 1);
        assert(sound_result(grouped(tokens, pos + 1)));
    }
}

/// A unary that was parsed is sound.
proof fn lemma_unary_sound(tokens: Seq<TokenView>, pos: nat)
    ensures
        sound_result(unary(tokens, pos)),
    decreases remaining(tokens, pos), 1nat,
{
    if holds_any(tokens, pos, seq![TokenType::BANG, TokenType::MINUS]) {
        lemma_unary_sound(tokens, pos + 1);
    } else {
        lemma_primary_sound(tokens, pos);
    }
}

/// An operand that was parsed is sound.
proof fn lemma_operand_sound(tokens: Seq<TokenView>, pos: nat, level: nat)
    ensures
        sound_result(operand(tokens, pos, level)),
    decreases remaining(tokens, pos), 3 * level + 2,
{
    if level <= 1 {
        lemma_unary_sound(tokens, pos);
    } else {
        lemma_binary_sound(tokens, pos, (level - 1) as nat);
    }
}

/// A binary operation that was parsed is sound.
proof fn lemma_binary_sound(tokens: Seq<TokenView>, pos: nat, level: nat)
    ensures
        sound_result(binary(tokens, pos, level)),
    decreases remaining(tokens, pos), 3 * level + 4,
{
    lemma_operand_sound(tokens, pos, level);
    let first = operand(tokens, pos, level);
    if first.result is Ok {
        lemma_binary_rest_sound(tokens, pos + first.consumed, first.result->Ok_0, level);
    }
}

/// What follows a sound operand makes a sound operation with it.
proof fn lemma_binary_rest_sound(tokens: Seq<TokenView>, pos: nat, left: ExprView, level: nat)
    requires
        sound(left),
    ensures
        sound_result(binary_rest(tokens, pos, left, level)),
    decreases remaining(tokens, pos), 3 * level + 3,
{
    if holds_any(tokens, pos, level_operators(level)) {
        lemma_operand_sound(tokens, pos + 1, level);
        let right = operand(tokens, pos + 1, level);
        if right.result is Ok {
            let joined = ExprView::Binary {
                left: Box::new(left),
                operator: tokens[pos as int],
                right: Box::new(right.result->Ok_0),
            };
            lemma_binary_rest_sound(tokens, pos + 1 + right.consumed, joined, level);
        }
    }
}

/// An assignment that was parsed is sound.
proof fn lemma_assignment_sound(tokens: Seq<TokenView>, pos: nat)
    ensures
        sound_result(assignment(tokens, pos)),
    decreases remaining(tokens, pos), 17nat,
{
    lemma_binary_sound(tokens, pos, 4);
    let target = binary(tokens, pos, 4);
    if target.result is Ok && holds(tokens, pos + target.consumed, TokenType::EQUAL) {
        lemma_assignment_sound(tokens, pos + target.consumed + 1);
    }
}

/// Every expression that the parser builds can be rendered and evaluated.
pub proof fn lemma_expression_sound(tokens: Seq<TokenView>, pos: nat)
    ensures
        sound_result(expression(tokens, pos)),
    decreases remaining(tokens, pos), 18nat,
{
    lemma_assignment_sound(tokens, pos);
}

/// An expression that was parsed up to its `;` is sound.
proof fn lemma_terminated_sound(tokens: Seq<TokenView>, pos: nat, message: Seq<char>)
    ensures
        sound_result(terminated(tokens, pos, message)),
{
    lemma_expression_sound(tokens, pos);
}

/// A statement that was parsed can be run.
proof fn lemma_statement_runs(tokens: Seq<TokenView>, pos: nat)
    ensures
        statement(tokens, pos).result is Ok ==> runnable(statement(tokens, pos).result->Ok_0),
{
    lemma_terminated_sound(tokens, pos, "Expect ';' after value."@);
    lemma_terminated_sound(tokens, pos + 1, "Expect ';' after value."@);
}

/// A variable declaration that was parsed can be run.
proof fn lemma_var_declaration_runs(tokens: Seq<TokenView>, pos: nat)
    ensures
        var_declaration(tokens, pos).result is Ok ==> runnable(
            var_declaration(tokens, pos).result->Ok_0,
        ),
{
    lemma_terminated_sound(tokens, pos + 2, "Expect ';' after variable decleration"@);
}

/// A declaration that was parsed can be run.
proof fn lemma_declared_runs(tokens: Seq<TokenView>, pos: nat)
    ensures
        declared(tokens, pos).result is Ok ==> runnable(declared(tokens, pos).result->Ok_0),
{
    lemma_statement_runs(tokens, pos);
    lemma_var_declaration_runs(tokens, pos + 1);
}

/// Every statement that the parser builds can be run.
#[verifier::rlimit(50)]
pub proof fn lemma_program_runs(tokens: Seq<TokenView>, pos: nat)
    ensures
        forall|i: int|
            0 <= i < program(tokens, pos).statements.len() ==> runnable(
                #[trigger] program(tokens, pos).statements[i],
            ),
    decreases remaining(tokens, pos),
{
    if !at_end(tokens, pos) {
        lemma_declaration_advances(tokens, pos);
        lemma_program_runs(tokens, resumed(tokens, pos));
        lemma_declared_runs(tokens, pos);
        let found = declared(tokens, pos);
        let rest = program(tokens, resumed(tokens, pos));
        let all = program(tokens, pos);
        assert forall|i: int| 0 <= i < all.statements.len() implies runnable(
            #[trigger] all.statements[i],
        ) by {
            if found.result is Ok {
                if i > 0 {
                    assert(all.statements[i] == rest.statements[i - 1]);
                }
            } else {
                assert(all.statements[i] == rest.statements[i]);
            }
        }
    }
}

/// What a program is made of: the statement or the error of its first
/// declaration, before those of the rest.
pub proof fn lemma_program_unfolds(tokens: Seq<TokenView>, pos: nat)
    requires
        !at_end(tokens, pos),
    ensures
        resumed(tokens, pos) > pos,
        match declared(tokens, pos).result {
            Ok(s) => program(tokens, pos).statements == seq![s] + program(
                tokens,
                resumed(tokens, pos),
            ).statements && program(tokens, pos).errors == program(
                tokens,
                resumed(tokens, pos),
            ).errors,
            Err(error) => program(tokens, pos).statements == program(
                tokens,
                resumed(tokens, pos),
            ).statements && program(tokens, pos).errors == seq![error] + program(
                tokens,
                resumed(tokens, pos),
            ).errors,
        },
{
    lemma_declaration_advances(tokens, pos);
}

/// Whether tokens can be parsed: the end token closes them, and each token is
/// well formed.
pub open spec fn parseable(tokens: Seq<TokenView>) -> bool {
    &&& tokens.len() > 0
    &&& tokens.last().kind == TokenType::EOF
    &&& forall|i: int| 0 <= i < tokens.len() ==> well_formed(#[trigger] tokens[i])
}

/// The first position from `pos` on at which the tokens end.
pub open spec fn end_of(tokens: Seq<TokenView>, pos: nat) -> nat
    decreases remaining(tokens, pos),
{
    if at_end(tokens, pos) {
        pos
    } else {
        end_of(tokens, pos + 1)
    }
}

/// No token is read past the end: whatever is parsed from `pos`, the end is
/// where it was.
pub proof fn lemma_end_is_kept(tokens: Seq<TokenView>, pos: nat, next: nat)
    requires
        pos <= next <= end_of(tokens, pos),
    ensures
        end_of(tokens, next) == end_of(tokens, pos),
    decreases next - pos,
{
    if pos < next {
        lemma_end_is_kept(tokens, pos + 1, next);
    }
}

/// Whether a parse from `pos` stops at or before the end.
pub open spec fn bounded<T>(tokens: Seq<TokenView>, pos: nat, parsed: Parsed<T>) -> bool {
    pos + parsed.consumed <= end_of(tokens, pos)
}

/// The end lies at or behind `pos`, the tokens end there, and it is the
/// same from the next position on where the tokens do not end at `pos`.
proof fn lemma_end_bounds(tokens: Seq<TokenView>, pos: nat)
    ensures
        pos <= end_of(tokens, pos),
        at_end(tokens, end_of(tokens, pos)),
        !at_end(tokens, pos) ==> end_of(tokens, pos) == end_of(tokens, pos + 1),
    decreases remaining(tokens, pos),
{
    if !at_end(tokens, pos) {
        lemma_end_bounds(tokens, pos + 1);
    }
}

/// Reading an expected token does not pass the end.
proof fn lemma_expected_bounded(
    tokens: Seq<TokenView>,
    pos: nat,
    kind: TokenType,
    message: Seq<char>,
)
    ensures
        bounded(tokens, pos, expected(tokens, pos, kind, message)),
{
    lemma_end_bounds(tokens, pos);
    if !at_end(tokens, pos) {
        lemma_end_bounds(tokens, pos + 1);
    }
}

/// Parsing a primary does not pass the end.
proof fn lemma_primary_bounded(tokens: Seq<TokenView>, pos: nat)
    ensures
        bounded(tokens, pos, primary(tokens, pos)),
    decreases remaining(tokens, pos), 0nat,
{
    lemma_end_bounds(tokens, pos);
    if !at_end(tokens, pos) {
        lemma_end_bounds(tokens, pos + 1);
        if tokens[pos as int].kind == TokenType::LeftParen {
            lemma_expression_bounded(tokens, pos + 1);
            let inner = expression(tokens, pos + 1);
            lemma_end_is_kept(tokens, pos + 1, pos + 1 + inner.consumed);
            lemma_expected_bounded(
                tokens,
                pos + 1 + inner.consumed,
                TokenType::RightParen,
                "Expect ')' after expression"@,
            );
            assert(bounded(tokens, pos + 1, grouped(tokens, pos + 1)));
        }
    }
}

/// Parsing a unary does not pass the end.
proof fn lemma_unary_bounded(tokens: Seq<TokenView>, pos: nat)
    ensures
        bounded(tokens, pos, unary(tokens, pos)),
    decreases remaining(tokens, pos), 1nat,
{
    lemma_end_bounds(tokens, pos);
    if holds_any(tokens, pos, seq![TokenType::BANG, TokenType::MINUS]) {
        lemma_unary_bounded(tokens, pos + 1);
    } else {
        lemma_primary_bounded(tokens, pos);
    }
}

/// Parsing an operand does not pass the end.
proof fn lemma_operand_bounded(tokens: Seq<TokenView>, pos: nat, level: nat)
    ensures
        bounded(tokens, pos, operand(tokens, pos, level)),
    decreases remaining(tokens, pos), 3 * level + 2,
{
    if level <= 1 {
        lemma_unary_bounded(tokens, pos);
    } else {
        lemma_binary_bounded(tokens, pos, (level - 1) as nat);
    }
}

/// Parsing a binary operation does not pass the end.
proof fn lemma_binary_bounded(tokens: Seq<TokenView>, pos: nat, level: nat)
    ensures
        bounded(tokens, pos, binary(tokens, pos, level)),
    decreases remaining(tokens, pos), 3 * level + 4,
{
    lemma_operand_bounded(tokens, pos, level);
    let first = operand(tokens, pos, level);
    if first.result is Ok {
        lemma_binary_rest_bounded(tokens, pos + first.consumed, first.result->Ok_0, level);
        lemma_end_is_kept(tokens, pos, pos + first.consumed);
    }
}

/// Parsing what follows an operand does not pass the end.
proof fn lemma_binary_rest_bounded(tokens: Seq<TokenView>, pos: nat, left: ExprView, level: nat)
    ensures
        bounded(tokens, pos, binary_rest(tokens, pos, left, level)),
    decreases remaining(tokens, pos), 3 * level + 3,
{
    lemma_end_bounds(tokens, pos);
    if holds_any(tokens, pos, level_operators(level)) {
        lemma_operand_bounded(tokens, pos + 1, level);
        let right = operand(tokens, pos + 1, level);
        if right.result is Ok {
            let joined = ExprView::Binary {
                left: Box::new(left),
                operator: tokens[pos as int],
                right: Box::new(right.result->Ok_0),
            };
            lemma_binary_rest_bounded(tokens, pos + 1 + right.consumed, joined, level);
            lemma_end_is_kept(tokens, pos + 1, pos + 1 + right.consumed);
        }
    }
}

/// Parsing an assignment does not pass the end.
proof fn lemma_assignment_bounded(tokens: Seq<TokenView>, pos: nat)
    ensures
        bounded(tokens, pos, assignment(tokens, pos)),
    decreases remaining(tokens, pos), 17nat,
{
    lemma_binary_bounded(tokens, pos, 4);
    let target = binary(tokens, pos, 4);
    let equals = pos + target.consumed;
    if target.result is Ok && holds(tokens, equals, TokenType::EQUAL) {
        lemma_assignment_bounded(tokens, equals + 1);
        lemma_end_is_kept(tokens, pos, equals);
        lemma_end_bounds(tokens, equals);
    }
}

/// An expression is parsed without reading the end token or anything
/// behind it.
pub proof fn lemma_expression_bounded(tokens: Seq<TokenView>, pos: nat)
    ensures
        bounded(tokens, pos, expression(tokens, pos)),
    decreases remaining(tokens, pos), 18nat,
{
    lemma_assignment_bounded(tokens, pos);
}

/// Parsing an expression and its `;` does not pass the end.
proof fn lemma_terminated_bounded(tokens: Seq<TokenView>, pos: nat, message: Seq<char>)
    ensures
        bounded(tokens, pos, terminated(tokens, pos, message)),
{
    lemma_expression_bounded(tokens, pos);
    let value = expression(tokens, pos);
    lemma_end_is_kept(tokens, pos, pos + value.consumed);
    lemma_expected_bounded(tokens, pos + value.consumed, TokenType::SEMICOLON, message);
}

/// The next boundary does not lie behind the end.
proof fn lemma_boundary_bounded(tokens: Seq<TokenView>, pos: nat)
    ensures
        boundary(tokens, pos) <= end_of(tokens, pos),
    decreases remaining(tokens, pos),
{
    lemma_end_bounds(tokens, pos);
    if !(at_end(tokens, pos) || (pos > 0 && tokens[pos - 1].kind == TokenType::SEMICOLON)
        || begins_statement(tokens[pos as int].kind)) {
        lemma_boundary_bounded(tokens, pos + 1);
    }
}

/// Parsing a statement does not pass the end.
proof fn lemma_statement_bounded(tokens: Seq<TokenView>, pos: nat)
    ensures
        bounded(tokens, pos, statement(tokens, pos)),
{
    lemma_end_bounds(tokens, pos);
    if holds(tokens, pos, TokenType::PRINT) {
        lemma_terminated_bounded(tokens, pos + 1, "Expect ';' after value."@);
    } else {
        lemma_terminated_bounded(tokens, pos, "Expect ';' after value."@);
    }
}

/// Parsing a variable declaration does not pass the end.
proof fn lemma_var_declaration_bounded(tokens: Seq<TokenView>, pos: nat)
    ensures
        bounded(tokens, pos, var_declaration(tokens, pos)),
{
    let message = "Expect ';' after variable decleration"@;
    lemma_end_bounds(tokens, pos);
    if holds(tokens, pos, TokenType::IDENTIFIER) {
        lemma_end_bounds(tokens, pos + 1);
        if holds(tokens, pos + 1, TokenType::EQUAL) {
            lemma_end_bounds(tokens, pos + 2);
            lemma_terminated_bounded(tokens, pos + 2, message);
        } else {
            lemma_expected_bounded(tokens, pos + 1, TokenType::SEMICOLON, message);
        }
    }
}

/// Parsing a declaration does not pass the end.
proof fn lemma_declared_bounded(tokens: Seq<TokenView>, pos: nat)
    ensures
        bounded(tokens, pos, declared(tokens, pos)),
{
    lemma_end_bounds(tokens, pos);
    if holds(tokens, pos, TokenType::VAR) {
        lemma_var_declaration_bounded(tokens, pos + 1);
    } else {
        lemma_statement_bounded(tokens, pos);
    }
}

/// Skipping to the next boundary does not pass the end.
proof fn lemma_synchronized_bounded(tokens: Seq<TokenView>, pos: nat)
    ensures
        pos <= synchronized(tokens, pos) <= end_of(tokens, pos),
{
    lemma_end_bounds(tokens, pos);
    if !at_end(tokens, pos) {
        lemma_boundary_bounded(tokens, pos + 1);
        lemma_boundary(tokens, pos + 1);
    }
}

/// Parsing resumes after a declaration at or before the end.
#[verifier::rlimit(50)]
pub proof fn lemma_resumed_before_end(tokens: Seq<TokenView>, pos: nat)
    requires
        !at_end(tokens, pos),
    ensures
        pos < resumed(tokens, pos) <= end_of(tokens, pos),
        end_of(tokens, resumed(tokens, pos)) == end_of(tokens, pos),
{
    lemma_declaration_advances(tokens, pos);
    lemma_declared_bounded(tokens, pos);
    let stopped = pos + declared(tokens, pos).consumed;
    lemma_end_is_kept(tokens, pos, stopped);
    lemma_synchronized_bounded(tokens, stopped);
    lemma_end_is_kept(tokens, pos, resumed(tokens, pos));
}

} // verus!
