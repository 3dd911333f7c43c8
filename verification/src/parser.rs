//! The parser: tokens to statements, by recursive descent. What it gives for
//! a sequence of tokens is stated in the module `grammar`.
use crate::expression::{statement_views, Expr, ExprKind, ExprView, Stmt, StmtView};
use crate::grammar::{
    after, assignment, at_end, binary, binary_rest, boundary, declared, end_of, error_at,
    expected, expression, grouped, holds, holds_any, lemma_program_runs, lemma_program_unfolds,
    lemma_resumed_before_end, level_operators, no_primary, operand, parse_result, parseable,
    primary, program, remaining, resumed, statement, synchronized, terminated, unary,
    var_declaration,
};
use crate::interpreter::runnable;
use crate::text::{decimal, decimal_chars, lemma_push_then_add, push_text, string_of};
use crate::token::{category_name, token_views, well_formed, Token, TokenType, TokenView};
use crate::value::Value;
use vstd::prelude::*;
use vstd::string::StringExecFns;

verus! {

/// What the parser can object to.
#[derive(Debug)]
pub enum Error {
    ParseErrorCustom(String),
    ParseErrorToken { token: Token, message: String },
    ParseErrorGeneric,
}

/// A parse error as plain data.
pub enum ErrorView {
    ParseErrorCustom(Seq<char>),
    ParseErrorToken { token: TokenView, message: Seq<char> },
    ParseErrorGeneric,
}

impl View for Error {
    type V = ErrorView;

    open spec fn view(&self) -> ErrorView {
        match self {
            Error::ParseErrorCustom(message) => ErrorView::ParseErrorCustom(message@),
            Error::ParseErrorToken { token, message } => ErrorView::ParseErrorToken {
                token: token@,
                message: message@,
            },
            Error::ParseErrorGeneric => ErrorView::ParseErrorGeneric,
        }
    }
}

impl Clone for Error {
    fn clone(&self) -> (r: Error)
        ensures
            r == *self,
    {
        match self {
            Error::ParseErrorCustom(message) => Error::ParseErrorCustom(message.clone()),
            Error::ParseErrorToken { token, message } => Error::ParseErrorToken {
                token: token.clone(),
                message: message.clone(),
            },
            Error::ParseErrorGeneric => Error::ParseErrorGeneric,
        }
    }
}

/// The text of a parse error.
pub open spec fn error_text(e: ErrorView) -> Seq<char> {
    match e {
        ErrorView::ParseErrorCustom(message) => "parse error: "@ + message,
        ErrorView::ParseErrorToken { token, message } => "Error on [line "@ + decimal(token.line)
            + "] token: "@ + category_name(token.kind) + " at "@ + token.lexeme
            + " parse error: "@ + message,
        ErrorView::ParseErrorGeneric => "parse error"@,
    }
}

impl Error {
    /// The text of the error.
    pub fn to_string(&self) -> (r: String)
        ensures
            r@ == error_text(self@),
    {
        let mut out: Vec<char> = Vec::new();
        match self {
            Error::ParseErrorCustom(message) => {
                push_text(&mut out, "parse error: ");
                push_text(&mut out, message.as_str());
                assert(out@ =~= error_text(self@));
            },
            Error::ParseErrorToken { token, message } => {
                push_text(&mut out, "Error on [line ");
                let mut digits = decimal_chars(token.line());
                out.append(&mut digits);
                push_text(&mut out, "] token: ");
                let name = token.typ().name();
                push_text(&mut out, name.as_str());
                push_text(&mut out, " at ");
                push_text(&mut out, token.lexeme());
                push_text(&mut out, " parse error: ");
                push_text(&mut out, message.as_str());
                assert(out@ =~= error_text(self@));
            },
            Error::ParseErrorGeneric => {
                push_text(&mut out, "parse error");
                assert(out@ =~= error_text(self@));
            },
        }
        string_of(out.as_slice())
    }
}

/// The level of equality, which binds least.
pub const EQUALITY: u8 = 4;

/// The level of comparison.
pub const COMPARISON: u8 = 3;

/// The level of term.
pub const TERM: u8 = 2;

/// The level of factor, which binds most.
pub const FACTOR: u8 = 1;

/// Parses a sequence of tokens.
pub struct Parser {
    tokens: Vec<Token>,
    position: usize,
    errors: Vec<Error>,
}

/// The state of a parser as plain data.
pub struct ParserView {
    /// The tokens to parse.
    pub tokens: Seq<TokenView>,
    /// The next token to read.
    pub position: nat,
    /// The errors recorded so far.
    pub errors: Seq<ErrorView>,
}

/// The errors of a sequence as plain data.
pub open spec fn error_views(errors: Seq<Error>) -> Seq<ErrorView> {
    Seq::new(errors.len(), |i: int| errors[i]@)
}

/// The result of parsing an expression as plain data.
pub open spec fn expression_view(r: Result<Expr, Error>) -> Result<ExprView, ErrorView> {
    match r {
        Ok(e) => Ok(e@),
        Err(error) => Err(error@),
    }
}

/// The result of parsing a statement as plain data.
pub open spec fn statement_result_view(r: Result<Stmt, Error>) -> Result<StmtView, ErrorView> {
    match r {
        Ok(s) => Ok(s@),
        Err(error) => Err(error@),
    }
}

/// The result of reading a token as plain data.
pub open spec fn token_result_view(r: Result<Token, Error>) -> Result<TokenView, ErrorView> {
    match r {
        Ok(t) => Ok(t@),
        Err(error) => Err(error@),
    }
}

/// The state after `consumed` more tokens were read, nothing else changed.
pub open spec fn advanced(state: ParserView, consumed: nat) -> ParserView {
    ParserView { position: state.position + consumed, ..state }
}

impl View for Parser {
    type V = ParserView;

    closed spec fn view(&self) -> ParserView {
        ParserView {
            tokens: token_views(self.tokens@),
            position: self.position as nat,
            errors: error_views(self.errors@),
        }
    }
}

/// The state after the program from the state's position on was parsed: the
/// parser stands at the end, and the errors of the program are recorded.
pub open spec fn after_program(state: ParserView) -> ParserView {
    ParserView {
        tokens: state.tokens,
        position: end_of(state.tokens, state.position),
        errors: state.errors + program(state.tokens, state.position).errors,
    }
}

/// The state after the declaration at the state's position was parsed: the
/// parser stands where parsing resumes, and the error of a declaration that
/// failed is recorded.
pub open spec fn after_declaration(state: ParserView) -> ParserView {
    ParserView {
        tokens: state.tokens,
        position: resumed(state.tokens, state.position),
        errors: match declared(state.tokens, state.position).result {
            Ok(_) => state.errors,
            Err(error) => state.errors.push(error),
        },
    }
}

/// A statement that was parsed, as plain data.
pub open spec fn optional_statement(r: Option<Stmt>) -> Option<StmtView> {
    match r {
        Some(s) => Some(s@),
        None => None,
    }
}

/// The result of `parse` as plain data.
pub open spec fn program_view(r: Result<Vec<Stmt>, Error>) -> Result<Seq<StmtView>, ErrorView> {
    match r {
        Ok(statements) => Ok(statement_views(statements@)),
        Err(error) => Err(error@),
    }
}

impl Parser {
    /// The parser's tokens can be parsed, and its position lies among them.
    pub closed spec fn consistent(&self) -> bool {
        parseable(token_views(self.tokens@)) && self.position < self.tokens.len()
    }

    /// What consistency says of the state.
    pub proof fn lemma_consistent(&self)
        requires
            self.consistent(),
        ensures
            parseable(self@.tokens),
            self@.position < self@.tokens.len(),
    {
    }

    /// Whether the tokens can be parsed.
    pub fn accepts(tokens: &[Token]) -> (r: bool)
        ensures
            r == parseable(token_views(tokens@)),
    {
        let n = tokens.len();
        let ghost views = token_views(tokens@);
        if n == 0 {
            return false;
        }
        assert(views.last() == tokens@[n - 1]@);
        if *tokens[n - 1].typ() != TokenType::EOF {
            return false;
        }
        let mut i: usize = 0;
        while i < n
            invariant
                i <= n,
                n == tokens.len(),
                views == token_views(tokens@),
                forall|j: int| 0 <= j < i ==> well_formed(#[trigger] views[j]),
            decreases n - i,
        {
            if !tokens[i].is_well_formed() {
                assert(!well_formed(views[i as int]));
                return false;
            }
            i += 1;
        }
        true
    }

    /// A parser at the first of the tokens, with no error recorded.
    pub fn new(tokens: &[Token]) -> (r: Parser)
        requires
            parseable(token_views(tokens@)),
        ensures
            r.consistent(),
            r@ == (ParserView {
                tokens: token_views(tokens@),
                position: 0,
                errors: Seq::empty(),
            }),
    {
        let mut copy: Vec<Token> = Vec::new();
        let mut i: usize = 0;
        while i < tokens.len()
            invariant
                i <= tokens.len(),
                copy@ == tokens@.take(i as int),
            decreases tokens.len() - i,
        {
            copy.push(tokens[i].clone());
            assert(copy@ =~= tokens@.take(i + 1));
            i += 1;
        }
        assert(copy@ =~= tokens@);
        let r = Parser { tokens: copy, position: 0, errors: Vec::new() };
        assert(error_views(r.errors@) =~= Seq::<ErrorView>::empty());
        r
    }

    /// The errors recorded so far.
    pub fn errors(&self) -> (r: &Vec<Error>)
        ensures
            error_views(r@) == self@.errors,
    {
        &self.errors
    }

    /// The index of the next token to read.
    pub fn position(&self) -> (r: usize)
        ensures
            r == self@.position,
    {
        self.position
    }

    /// Moves to the next token.
    fn increment_position(&mut self)
        requires
            old(self).consistent(),
            !at_end(old(self)@.tokens, old(self)@.position),
        ensures
            final(self).consistent(),
            final(self)@ == advanced(old(self)@, 1),
    {
        proof {
            let tokens = token_views(self.tokens@);
            assert(tokens.last() == tokens[tokens.len() - 1]);
        }
        self.position = self.position + 1;
    }

    /// Reads the next token.
    fn advance(&mut self) -> (r: Token)
        requires
            old(self).consistent(),
            !at_end(old(self)@.tokens, old(self)@.position),
        ensures
            final(self).consistent(),
            final(self)@ == advanced(old(self)@, 1),
            r@ == old(self)@.tokens[old(self)@.position as int],
    {
        self.increment_position();
        self.previous()
    }

    /// The token that was read last.
    fn previous(&self) -> (r: Token)
        requires
            self.consistent(),
            self@.position > 0,
        ensures
            r@ == self@.tokens[self@.position - 1],
    {
        self.tokens[self.position - 1].clone()
    }

    /// The next token.
    fn peek(&self) -> (r: Token)
        requires
            self.consistent(),
        ensures
            r@ == self@.tokens[self@.position as int],
    {
        self.tokens[self.position].clone()
    }

    /// Whether the end token is next.
    fn is_at_end(&self) -> (r: bool)
        requires
            self.consistent(),
        ensures
            r == at_end(self@.tokens, self@.position),
    {
        *self.tokens[self.position].typ() == TokenType::EOF
    }

    /// Whether a token of the given category is next.
    fn check(&self, token_type: TokenType) -> (r: bool)
        requires
            self.consistent(),
        ensures
            r == holds(self@.tokens, self@.position, token_type),
    {
        if self.is_at_end() {
            return false;
        }
        *self.tokens[self.position].typ() == token_type
    }

    /// Reads the next token if its category is one of the given ones.
    fn match_token(&mut self, token_types: Vec<TokenType>) -> (r: Option<Token>)
        requires
            old(self).consistent(),
        ensures
            final(self).consistent(),
            match r {
                Some(token) => holds_any(old(self)@.tokens, old(self)@.position, token_types@)
                    && token@ == old(self)@.tokens[old(self)@.position as int] && final(self)@
                    == advanced(old(self)@, 1),
                None => !holds_any(old(self)@.tokens, old(self)@.position, token_types@)
                    && final(self)@ == old(self)@,
            },
    {
        let mut i: usize = 0;
        while i < token_types.len()
            invariant
                i <= token_types.len(),
                self.consistent(),
                self@ == old(self)@,
                forall|j: int|
                    0 <= j < i ==> !holds(self@.tokens, self@.position, #[trigger] token_types@[j]),
            decreases token_types.len() - i,
        {
            if self.check(token_types[i]) {
                return Some(self.advance());
            }
            i += 1;
        }
        None
    }

    /// Reads the next token if it has the given category.
    fn match_one(&mut self, token_type: TokenType) -> (r: Option<Token>)
        requires
            old(self).consistent(),
        ensures
            final(self).consistent(),
            match r {
                Some(token) => holds(old(self)@.tokens, old(self)@.position, token_type)
                    && token@ == old(self)@.tokens[old(self)@.position as int] && final(self)@
                    == advanced(old(self)@, 1),
                None => !holds(old(self)@.tokens, old(self)@.position, token_type) && final(self)@
                    == old(self)@,
            },
    {
        if self.check(token_type) {
            Some(self.advance())
        } else {
            None
        }
    }

    /// Reads the next token if it has the given category; else gives the
    /// error with the given message.
    fn consume(&mut self, token_type: TokenType, message: &str) -> (r: Result<Token, Error>)
        requires
            old(self).consistent(),
        ensures
            final(self).consistent(),
            token_result_view(r) == expected(
                old(self)@.tokens,
                old(self)@.position,
                token_type,
                message@,
            ).result,
            final(self)@ == advanced(
                old(self)@,
                expected(old(self)@.tokens, old(self)@.position, token_type, message@).consumed,
            ),
    {
        if self.check(token_type) {
            return Ok(self.advance());
        }
        Err(self.error(self.peek(), String::from_str(message)))
    }

    /// The error that names `token` and says what was expected in its place.
    fn error(&self, token: Token, message: String) -> (r: Error)
        ensures
            r@ == error_at(token@, message@),
    {
        let mut out: Vec<char> = Vec::new();
        push_text(&mut out, "[line ");
        let mut digits = decimal_chars(token.line());
        out.append(&mut digits);
        if *token.typ() == TokenType::EOF {
            push_text(&mut out, "] ");
            push_text(&mut out, message.as_str());
            push_text(&mut out, " at end");
        } else {
            push_text(&mut out, "] at ");
            push_text(&mut out, token.lexeme());
            push_text(&mut out, ", ");
            push_text(&mut out, message.as_str());
        }
        Error::ParseErrorCustom(string_of(out.as_slice()))
    }

    /// The error for a token that begins no expression.
    fn no_primary(token: Token) -> (r: Error)
        ensures
            r@ == no_primary(token@),
    {
        Error::ParseErrorToken {
            message: String::from_str("Did not find a matching primary token"),
            token,
        }
    }

    /// What follows `(`: an expression, and `)`.
    fn grouping(&mut self) -> (r: Result<Expr, Error>)
        requires
            old(self).consistent(),
        ensures
            final(self).consistent(),
            expression_view(r) == grouped(old(self)@.tokens, old(self)@.position).result,
            final(self)@ == advanced(
                old(self)@,
                grouped(old(self)@.tokens, old(self)@.position).consumed,
            ),
        decreases remaining(old(self)@.tokens, old(self)@.position), 24nat,
    {
        let expr = self.expression()?;
        self.consume(TokenType::RightParen, "Expect ')' after expression")?;
        Ok(Expr::new(ExprKind::Grouping(Box::new(expr))))
    }

    /// primary -> NUMBER | STRING | "true" | "false" | "nil"
    ///          | "(" expression ")" | IDENTIFIER
    #[verifier::rlimit(50)]
    fn primary(&mut self) -> (r: Result<Expr, Error>)
        requires
            old(self).consistent(),
        ensures
            final(self).consistent(),
            expression_view(r) == primary(old(self)@.tokens, old(self)@.position).result,
            final(self)@ == advanced(
                old(self)@,
                primary(old(self)@.tokens, old(self)@.position).consumed,
            ),
        decreases remaining(old(self)@.tokens, old(self)@.position), 0nat,
    {
        if self.is_at_end() {
            return Err(Self::no_primary(self.peek()));
        }
        let token = self.advance();
        match *token.typ() {
            TokenType::FALSE
            | TokenType::TRUE
            | TokenType::NIL
            | TokenType::NUMBER
            | TokenType::STRING => {
                proof {
                    self.lemma_consistent();
                }
                Ok(Expr::new(ExprKind::Literal(Some(Value::from_token(token)))))
            },
            TokenType::LeftParen => self.grouping(),
            TokenType::IDENTIFIER => Ok(Expr::new(ExprKind::Variable(token))),
            _ => Err(Self::no_primary(token)),
        }
    }

    /// unary -> ( "!" | "-" ) unary | primary
    fn unary(&mut self) -> (r: Result<Expr, Error>)
        requires
            old(self).consistent(),
        ensures
            final(self).consistent(),
            expression_view(r) == unary(old(self)@.tokens, old(self)@.position).result,
            final(self)@ == advanced(
                old(self)@,
                unary(old(self)@.tokens, old(self)@.position).consumed,
            ),
        decreases remaining(old(self)@.tokens, old(self)@.position), 1nat,
    {
        match self.match_token(vec![TokenType::BANG, TokenType::MINUS]) {
            Some(operator) => {
                let right = Box::new(self.unary()?);
                Ok(Expr::new(ExprKind::Unary { operator, right }))
            },
            None => self.primary(),
        }
    }

    /// The operators of a level, for `match_token`.
    fn operators(level: u8) -> (r: Vec<TokenType>)
        ensures
            r@ == level_operators(level as nat),
    {
        if level == FACTOR {
            vec![TokenType::STAR, TokenType::SLASH]
        } else if level == TERM {
            vec![TokenType::MINUS, TokenType::PLUS]
        } else if level == COMPARISON {
            vec![TokenType::GREATER, TokenType::GreaterEqual, TokenType::LESS, TokenType::LessEqual]
        } else {
            vec![TokenType::BangEqual, TokenType::EqualEqual]
        }
    }

    /// An operand of a level of binary operations.
    fn operand(&mut self, level: u8) -> (r: Result<Expr, Error>)
        requires
            old(self).consistent(),
        ensures
            final(self).consistent(),
            expression_view(r) == operand(
                old(self)@.tokens,
                old(self)@.position,
                level as nat,
            ).result,
            final(self)@ == advanced(
                old(self)@,
                operand(old(self)@.tokens, old(self)@.position, level as nat).consumed,
            ),
        decreases remaining(old(self)@.tokens, old(self)@.position), 4 * level + 2,
    {
        if level <= FACTOR {
            self.unary()
        } else if level == TERM {
            self.factor()
        } else if level == COMPARISON {
            self.term()
        } else if level == EQUALITY {
            self.comparison()
        } else {
            self.left_associative(level - 1)
        }
    }

    /// A level of binary operations: operands joined by the operators of the
    /// level, nested to the left.
    fn left_associative(&mut self, level: u8) -> (r: Result<Expr, Error>)
        requires
            old(self).consistent(),
        ensures
            final(self).consistent(),
            expression_view(r) == binary(
                old(self)@.tokens,
                old(self)@.position,
                level as nat,
            ).result,
            final(self)@ == advanced(
                old(self)@,
                binary(old(self)@.tokens, old(self)@.position, level as nat).consumed,
            ),
        decreases remaining(old(self)@.tokens, old(self)@.position), 4 * level + 4,
    {
        let ghost tokens = self@.tokens;
        let ghost begin = self@.position;
        let mut expr = self.operand(level)?;
        let ghost first = operand(tokens, begin, level as nat).consumed;
        loop
            invariant
                self.consistent(),
                tokens == old(self)@.tokens,
                begin == old(self)@.position,
                self@ == advanced(old(self)@, (self@.position - begin) as nat),
                self@.position >= begin + first,
                binary(tokens, begin, level as nat) == after(
                    (self@.position - begin) as nat,
                    binary_rest(tokens, self@.position, expr@, level as nat),
                ),
            decreases remaining(tokens, self@.position),
        {
            match self.match_token(Self::operators(level)) {
                Some(operator) => {
                    let right = match self.operand(level) {
                        Ok(right) => right,
                        Err(error) => {
                            return Err(error);
                        },
                    };
                    let left = Box::new(expr);
                    expr = Expr::new(ExprKind::Binary { left, operator, right: Box::new(right) });
                },
                None => {
                    return Ok(expr);
                },
            }
        }
    }

    /// factor -> unary ( ( "/" | "*" ) unary )*
    fn factor(&mut self) -> (r: Result<Expr, Error>)
        requires
            old(self).consistent(),
        ensures
            final(self).consistent(),
            expression_view(r) == binary(old(self)@.tokens, old(self)@.position, 1).result,
            final(self)@ == advanced(
                old(self)@,
                binary(old(self)@.tokens, old(self)@.position, 1).consumed,
            ),
        decreases remaining(old(self)@.tokens, old(self)@.position), 9nat,
    {
        self.left_associative(FACTOR)
    }

    /// term -> factor ( ( "-" | "+" ) factor )*
    fn term(&mut self) -> (r: Result<Expr, Error>)
        requires
            old(self).consistent(),
        ensures
            final(self).consistent(),
            expression_view(r) == binary(old(self)@.tokens, old(self)@.position, 2).result,
            final(self)@ == advanced(
                old(self)@,
                binary(old(self)@.tokens, old(self)@.position, 2).consumed,
            ),
        decreases remaining(old(self)@.tokens, old(self)@.position), 13nat,
    {
        self.left_associative(TERM)
    }

    /// comparison -> term ( ( ">" | ">=" | "<" | "<=" ) term )*
    fn comparison(&mut self) -> (r: Result<Expr, Error>)
        requires
            old(self).consistent(),
        ensures
            final(self).consistent(),
            expression_view(r) == binary(old(self)@.tokens, old(self)@.position, 3).result,
            final(self)@ == advanced(
                old(self)@,
                binary(old(self)@.tokens, old(self)@.position, 3).consumed,
            ),
        decreases remaining(old(self)@.tokens, old(self)@.position), 17nat,
    {
        self.left_associative(COMPARISON)
    }

    /// equality -> comparison ( ( "!=" | "==" ) comparison )*
    fn equality(&mut self) -> (r: Result<Expr, Error>)
        requires
            old(self).consistent(),
        ensures
            final(self).consistent(),
            expression_view(r) == binary(old(self)@.tokens, old(self)@.position, 4).result,
            final(self)@ == advanced(
                old(self)@,
                binary(old(self)@.tokens, old(self)@.position, 4).consumed,
            ),
        decreases remaining(old(self)@.tokens, old(self)@.position), 21nat,
    {
        self.left_associative(EQUALITY)
    }

    /// assignment -> IDENTIFIER "=" assignment | equality
    fn assignment(&mut self) -> (r: Result<Expr, Error>)
        requires
            old(self).consistent(),
        ensures
            final(self).consistent(),
            expression_view(r) == assignment(old(self)@.tokens, old(self)@.position).result,
            final(self)@ == advanced(
                old(self)@,
                assignment(old(self)@.tokens, old(self)@.position).consumed,
            ),
        decreases remaining(old(self)@.tokens, old(self)@.position), 22nat,
    {
        let expr = self.equality()?;
        match self.match_one(TokenType::EQUAL) {
            Some(equals) => {
                let value = Box::new(self.assignment()?);
                match expr.kind {
                    ExprKind::Variable(name) => Ok(Expr::new(ExprKind::Assign { name, value })),
                    _ => Err(self.error(equals, String::from_str("Invalid assignment target"))),
                }
            },
            None => Ok(expr),
        }
    }

    /// expression -> assignment
    pub fn expression(&mut self) -> (r: Result<Expr, Error>)
        requires
            old(self).consistent(),
        ensures
            final(self).consistent(),
            expression_view(r) == expression(old(self)@.tokens, old(self)@.position).result,
            final(self)@ == advanced(
                old(self)@,
                expression(old(self)@.tokens, old(self)@.position).consumed,
            ),
        decreases remaining(old(self)@.tokens, old(self)@.position), 23nat,
    {
        self.assignment()
    }

    /// Parses the program from the parser's position on. Gives the
    /// statements where no error is on record at the end, else the first
    /// error on record.
    pub fn parse(&mut self) -> (r: Result<Vec<Stmt>, Error>)
        requires
            old(self).consistent(),
        ensures
            final(self).consistent(),
            final(self)@ == after_program(old(self)@),
            program_view(r) == if final(self)@.errors.len() == 0 {
                Ok::<Seq<StmtView>, ErrorView>(
                    program(old(self)@.tokens, old(self)@.position).statements,
                )
            } else {
                Err::<Seq<StmtView>, ErrorView>(final(self)@.errors[0])
            },
            old(self)@.errors.len() == 0 ==> program_view(r) == parse_result(
                program(old(self)@.tokens, old(self)@.position),
            ),
            r matches Ok(statements) ==> forall|i: int|
                0 <= i < statements.len() ==> runnable(#[trigger] statements[i]@),
    {
        let statements = self.parse_all();
        if self.errors.len() == 0 {
            Ok(statements)
        } else {
            Err(self.errors[0].clone())
        }
    }

    /// Parses the program from the parser's position on. Gives every
    /// statement that could be parsed, in order, whether or not others
    /// could not; their errors are put on record.
    #[verifier::rlimit(50)]
    pub fn parse_all(&mut self) -> (r: Vec<Stmt>)
        requires
            old(self).consistent(),
        ensures
            final(self).consistent(),
            final(self)@ == after_program(old(self)@),
            statement_views(r@) == program(old(self)@.tokens, old(self)@.position).statements,
            forall|i: int| 0 <= i < r.len() ==> runnable(#[trigger] r[i]@),
    {
        let ghost tokens = self@.tokens;
        let ghost begin = self@.position;
        let ghost recorded = self@.errors;
        let ghost all = program(tokens, begin);
        let mut statements: Vec<Stmt> = Vec::new();
        let ghost parsed = Seq::<StmtView>::empty();
        assert(parsed + all.statements =~= all.statements);
        assert(statement_views(statements@) =~= parsed);
        while !self.is_at_end()
            invariant
                self.consistent(),
                self@.tokens == tokens,
                begin <= self@.position,
                end_of(tokens, self@.position) == end_of(tokens, begin),
                parsed == statement_views(statements@),
                parsed + program(tokens, self@.position).statements == all.statements,
                self@.errors + program(tokens, self@.position).errors == recorded + all.errors,
            decreases remaining(tokens, self@.position),
        {
            let ghost here = self@;
            let ghost rest = program(tokens, resumed(tokens, here.position));
            proof {
                lemma_program_unfolds(tokens, here.position);
                lemma_resumed_before_end(tokens, here.position);
            }
            match self.declaration() {
                Some(stmt) => {
                    statements.push(stmt);
                    proof {
                        lemma_push_then_add(parsed, stmt@, rest.statements);
                        parsed = parsed.push(stmt@);
                        assert(statement_views(statements@) =~= parsed);
                    }
                },
                None => {
                    proof {
                        let error = declared(tokens, here.position).result->Err_0;
                        lemma_push_then_add(here.errors, error, rest.errors);
                    }
                },
            }
        }
        proof {
            assert(parsed + Seq::<StmtView>::empty() =~= parsed);
            assert(self@.errors + Seq::<ErrorView>::empty() =~= self@.errors);
            lemma_program_runs(tokens, begin);
            assert forall|i: int| 0 <= i < statements.len() implies runnable(
                #[trigger] statements[i]@,
            ) by {
                assert(statements[i]@ == statement_views(statements@)[i]);
            }
        }
        statements
    }

    /// Parses one declaration. Where it fails, records the error and skips
    /// to the next place where a statement can begin.
    #[verifier::rlimit(50)]
    fn declaration(&mut self) -> (r: Option<Stmt>)
        requires
            old(self).consistent(),
            !at_end(old(self)@.tokens, old(self)@.position),
        ensures
            final(self).consistent(),
            final(self)@ == after_declaration(old(self)@),
            match declared(old(self)@.tokens, old(self)@.position).result {
                Ok(s) => optional_statement(r) == Some(s),
                Err(_) => r is None,
            },
    {
        let res = match self.match_one(TokenType::VAR) {
            Some(_) => self.var_declaration(),
            None => self.statement(),
        };
        match res {
            Ok(stmt) => Some(stmt),
            Err(err) => {
                let ghost before = error_views(self.errors@);
                self.errors.push(err);
                assert(error_views(self.errors@) =~= before.push(err@));
                self.synchronize();
                None
            },
        }
    }

    /// What follows `var`: the name, an initializer where `=` follows, and
    /// `;`.
    #[verifier::rlimit(50)]
    fn var_declaration(&mut self) -> (r: Result<Stmt, Error>)
        requires
            old(self).consistent(),
        ensures
            final(self).consistent(),
            statement_result_view(r) == var_declaration(
                old(self)@.tokens,
                old(self)@.position,
            ).result,
            final(self)@ == advanced(
                old(self)@,
                var_declaration(old(self)@.tokens, old(self)@.position).consumed,
            ),
    {
        let name = self.consume(TokenType::IDENTIFIER, "Expect variable name.")?;
        match self.match_one(TokenType::EQUAL) {
            Some(_) => {
                let value = self.terminated("Expect ';' after variable decleration")?;
                Ok(Stmt::Var { name, initializer: Some(value) })
            },
            None => {
                self.consume(TokenType::SEMICOLON, "Expect ';' after variable decleration")?;
                Ok(Stmt::Var { name, initializer: None })
            },
        }
    }

    /// Skips to the next place where a statement can begin: one token is
    /// dropped, and then all up to the end, a token behind `;`, or a token
    /// that begins a statement.
    fn synchronize(&mut self)
        requires
            old(self).consistent(),
        ensures
            final(self).consistent(),
            final(self)@ == (ParserView {
                position: synchronized(old(self)@.tokens, old(self)@.position),
                ..old(self)@
            }),
    {
        if self.is_at_end() {
            return ;
        }
        self.advance();
        while !self.is_at_end()
            invariant
                self.consistent(),
                self@ == (ParserView { position: self@.position, ..old(self)@ }),
                self@.position > 0,
                boundary(self@.tokens, self@.position) == synchronized(
                    old(self)@.tokens,
                    old(self)@.position,
                ),
            decreases remaining(self@.tokens, self@.position),
        {
            if *self.previous().typ() == TokenType::SEMICOLON {
                return ;
            }
            match *self.peek().typ() {
                TokenType::CLASS
                | TokenType::FUN
                | TokenType::VAR
                | TokenType::FOR
                | TokenType::IF
                | TokenType::WHILE
                | TokenType::PRINT
                | TokenType::RETURN => {
                    return ;
                },
                _ => {
                    self.advance();
                },
            }
        }
    }

    /// statement -> "print" expression ";" | expression ";"
    fn statement(&mut self) -> (r: Result<Stmt, Error>)
        requires
            old(self).consistent(),
        ensures
            final(self).consistent(),
            statement_result_view(r) == statement(old(self)@.tokens, old(self)@.position).result,
            final(self)@ == advanced(
                old(self)@,
                statement(old(self)@.tokens, old(self)@.position).consumed,
            ),
    {
        match self.match_one(TokenType::PRINT) {
            Some(_) => self.print_statement(),
            None => self.expression_statement(),
        }
    }

    /// An expression and the `;` that ends its statement.
    fn terminated(&mut self, message: &str) -> (r: Result<Expr, Error>)
        requires
            old(self).consistent(),
        ensures
            final(self).consistent(),
            expression_view(r) == terminated(
                old(self)@.tokens,
                old(self)@.position,
                message@,
            ).result,
            final(self)@ == advanced(
                old(self)@,
                terminated(old(self)@.tokens, old(self)@.position, message@).consumed,
            ),
    {
        let value = self.expression()?;
        self.consume(TokenType::SEMICOLON, message)?;
        Ok(value)
    }

    /// What follows `print`: the expression to print, and `;`.
    fn print_statement(&mut self) -> (r: Result<Stmt, Error>)
        requires
            old(self).consistent(),
        ensures
            final(self).consistent(),
            statement_result_view(r) == match terminated(
                old(self)@.tokens,
                old(self)@.position,
                "Expect ';' after value."@,
            ).result {
                Ok(e) => Ok::<StmtView, ErrorView>(StmtView::Print(e)),
                Err(error) => Err::<StmtView, ErrorView>(error),
            },
            final(self)@ == advanced(
                old(self)@,
                terminated(
                    old(self)@.tokens,
                    old(self)@.position,
                    "Expect ';' after value."@,
                ).consumed,
            ),
    {
        let value = self.terminated("Expect ';' after value.")?;
        Ok(Stmt::Print(value))
    }

    /// An expression as a statement, and `;`.
    fn expression_statement(&mut self) -> (r: Result<Stmt, Error>)
        requires
            old(self).consistent(),
        ensures
            final(self).consistent(),
            statement_result_view(r) == match terminated(
                old(self)@.tokens,
                old(self)@.position,
                "Expect ';' after value."@,
            ).result {
                Ok(e) => Ok::<StmtView, ErrorView>(StmtView::Expression(e)),
                Err(error) => Err::<StmtView, ErrorView>(error),
            },
            final(self)@ == advanced(
                old(self)@,
                terminated(
                    old(self)@.tokens,
                    old(self)@.position,
                    "Expect ';' after value."@,
                ).consumed,
            ),
    {
        let expr = self.terminated("Expect ';' after value.")?;
        Ok(Stmt::Expression(expr))
    }
}

} // verus!
