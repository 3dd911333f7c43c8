//! The syntax tree: expressions, statements, and the prefix rendering of an
//! expression.
use crate::text::{push_text, string_of};
use crate::token::{token_views, Token, TokenView};
use crate::value::{value_text, Value, ValueView};
use std::hash::{Hash, Hasher};
use uuid::Uuid;
use vstd::prelude::*;
use vstd::std_specs::cmp::PartialEqSpecImpl;
use vstd::string::StringExecFns;

verus! {

/// The variants of an expression. Each node owns its children.
#[derive(Debug)]
pub enum ExprKind {
    Assign { name: Token, value: Box<Expr> },
    Binary { left: Box<Expr>, operator: Token, right: Box<Expr> },
    Call { callee: Box<Expr>, paren: Token, arguments: Vec<Expr> },
    Get { object: Box<Expr>, name: Token },
    Grouping(Box<Expr>),
    Literal(Option<Value>),
    Logical { left: Box<Expr>, operator: Token, right: Box<Expr> },
    SetProperty { object: Box<Expr>, name: Token, value: Box<Expr> },
    Super { keyword: Token, method: Token },
    This(Token),
    Unary { operator: Token, right: Box<Expr> },
    Variable(Token),
}

/// An expression node: its variant, under an identifier of its own.
#[derive(Debug)]
pub struct Expr {
    pub id: u128,
    pub kind: ExprKind,
}

/// An expression as plain data. Identifiers are left out: they tell nodes
/// apart and say nothing of what a node means.
pub enum ExprView {
    Assign { name: TokenView, value: Box<ExprView> },
    Binary { left: Box<ExprView>, operator: TokenView, right: Box<ExprView> },
    Call { callee: Box<ExprView>, paren: TokenView, arguments: Seq<ExprView> },
    Get { object: Box<ExprView>, name: TokenView },
    Grouping(Box<ExprView>),
    Literal(Option<ValueView>),
    Logical { left: Box<ExprView>, operator: TokenView, right: Box<ExprView> },
    SetProperty { object: Box<ExprView>, name: TokenView, value: Box<ExprView> },
    Super { keyword: TokenView, method: TokenView },
    This(TokenView),
    Unary { operator: TokenView, right: Box<ExprView> },
    Variable(TokenView),
}

/// The value of an optional literal as plain data.
pub open spec fn payload_view(value: Option<Value>) -> Option<ValueView> {
    match value {
        Some(v) => Some(v@),
        None => None,
    }
}

/// The first `count` of the expressions as plain data, in order.
pub open spec fn expression_views(exprs: Seq<Expr>, count: nat) -> Seq<ExprView>
    decreases exprs, count,
{
    if count == 0 || count > exprs.len() {
        Seq::empty()
    } else {
        expression_views(exprs, (count - 1) as nat).push(exprs[count - 1].kind.view())
    }
}

impl View for ExprKind {
    type V = ExprView;

    open spec fn view(&self) -> ExprView
        decreases self, 0nat,
    {
        match self {
            ExprKind::Assign { name, value } => ExprView::Assign {
                name: name@,
                value: Box::new(value.kind.view()),
            },
            ExprKind::Binary { left, operator, right } => ExprView::Binary {
                left: Box::new(left.kind.view()),
                operator: operator@,
                right: Box::new(right.kind.view()),
            },
            ExprKind::Call { callee, paren, arguments } => ExprView::Call {
                callee: Box::new(callee.kind.view()),
                paren: paren@,
                arguments: expression_views(arguments@, arguments@.len()),
            },
            ExprKind::Get { object, name } => ExprView::Get {
                object: Box::new(object.kind.view()),
                name: name@,
            },
            ExprKind::Grouping(inner) => ExprView::Grouping(Box::new(inner.kind.view())),
            ExprKind::Literal(value) => ExprView::Literal(payload_view(*value)),
            ExprKind::Logical { left, operator, right } => ExprView::Logical {
                left: Box::new(left.kind.view()),
                operator: operator@,
                right: Box::new(right.kind.view()),
            },
            ExprKind::SetProperty { object, name, value } => ExprView::SetProperty {
                object: Box::new(object.kind.view()),
                name: name@,
                value: Box::new(value.kind.view()),
            },
            ExprKind::Super { keyword, method } => ExprView::Super {
                keyword: keyword@,
                method: method@,
            },
            ExprKind::This(keyword) => ExprView::This(keyword@),
            ExprKind::Unary { operator, right } => ExprView::Unary {
                operator: operator@,
                right: Box::new(right.kind.view()),
            },
            ExprKind::Variable(name) => ExprView::Variable(name@),
        }
    }
}

impl View for Expr {
    type V = ExprView;

    open spec fn view(&self) -> ExprView {
        self.kind@
    }
}

/// The variants of a statement. Each statement owns its parts.
#[derive(Debug)]
#[allow(inconsistent_fields)]
pub enum Stmt {
    Block(Vec<Stmt>),
    Class { name: Token, superclass: Option<Expr>, methods: Vec<Stmt> },
    Expression(Expr),
    Function { name: Token, params: Vec<Token>, body: Vec<Stmt> },
    If { condition: Expr, then_branch: Box<Stmt>, else_branch: Option<Box<Stmt>> },
    Print(Expr),
    Return { keyword: Token, value: Option<Expr> },
    Var { name: Token, initializer: Option<Expr> },
    While { condition: Expr, body: Box<Stmt> },
}

/// A statement as plain data.
#[allow(inconsistent_fields)]
pub enum StmtView {
    Block(Seq<StmtView>),
    Class { name: TokenView, superclass: Option<ExprView>, methods: Seq<StmtView> },
    Expression(ExprView),
    Function { name: TokenView, params: Seq<TokenView>, body: Seq<StmtView> },
    If { condition: ExprView, then_branch: Box<StmtView>, else_branch: Option<Box<StmtView>> },
    Print(ExprView),
    Return { keyword: TokenView, value: Option<ExprView> },
    Var { name: TokenView, initializer: Option<ExprView> },
    While { condition: ExprView, body: Box<StmtView> },
}

/// An optional expression as plain data.
pub open spec fn optional_view(e: Option<Expr>) -> Option<ExprView> {
    match e {
        Some(e) => Some(e@),
        None => None,
    }
}

/// The statements of a sequence as plain data.
pub open spec fn statement_views(statements: Seq<Stmt>) -> Seq<StmtView> {
    Seq::new(statements.len(), |i: int| statements[i]@)
}

/// The first `count` of the statements as plain data, in order.
pub open spec fn statements_view(statements: Seq<Stmt>, count: nat) -> Seq<StmtView>
    decreases statements, count,
{
    if count == 0 || count > statements.len() {
        Seq::empty()
    } else {
        statements_view(statements, (count - 1) as nat).push(statement_view(statements[count - 1]))
    }
}

/// A statement as plain data.
pub open spec fn statement_view(s: Stmt) -> StmtView
    decreases s, 0nat,
{
    match s {
        Stmt::Block(body) => StmtView::Block(
            statements_view(body@, body@.len()),
        ),
        Stmt::Class { name, superclass, methods } => StmtView::Class {
            name: name@,
            superclass: optional_view(superclass),
            methods: statements_view(methods@, methods@.len()),
        },
        Stmt::Expression(e) => StmtView::Expression(e@),
        Stmt::Function { name, params, body } => StmtView::Function {
            name: name@,
            params: token_views(params@),
            body: statements_view(body@, body@.len()),
        },
        Stmt::If { condition, then_branch, else_branch } => StmtView::If {
            condition: condition@,
            then_branch: Box::new(statement_view(*then_branch)),
            else_branch: match else_branch {
                Some(branch) => Some(Box::new(statement_view(*branch))),
                None => None,
            },
        },
        Stmt::Print(e) => StmtView::Print(e@),
        Stmt::Return { keyword, value } => StmtView::Return {
            keyword: keyword@,
            value: optional_view(value),
        },
        Stmt::Var { name, initializer } => StmtView::Var {
            name: name@,
            initializer: optional_view(initializer),
        },
        Stmt::While { condition, body } => StmtView::While {
            condition: condition@,
            body: Box::new(statement_view(*body)),
        },
    }
}

impl View for Stmt {
    type V = StmtView;

    open spec fn view(&self) -> StmtView {
        statement_view(*self)
    }
}

/// The views of the first `count` statements are as many, and each is the
/// view of the statement in its place.
pub proof fn lemma_statements_view(statements: Seq<Stmt>, count: nat)
    requires
        count <= statements.len(),
    ensures
        statements_view(statements, count).len() == count,
        forall|i: int|
            0 <= i < count ==> #[trigger] statements_view(statements, count)[i] == statements[i]@,
    decreases count,
{
    if count > 0 {
        let before = statements_view(statements, (count - 1) as nat);
        lemma_statements_view(statements, (count - 1) as nat);
        assert(statements_view(statements, count) == before.push(
            statement_view(statements[count - 1]),
        ));
        assert forall|i: int| 0 <= i < count implies #[trigger] statements_view(
            statements,
            count,
        )[i] == statements[i]@ by {
            if i < count - 1 {
                assert(before[i] == statements[i]@);
            }
        }
    } else {
        assert(statements_view(statements, count) == Seq::<StmtView>::empty());
    }
}

/// A copy of an optional expression.
fn duplicate_optional(e: &Option<Expr>) -> (r: Option<Expr>)
    ensures
        optional_view(r) == optional_view(*e),
{
    match e {
        Some(e) => Some(e.clone()),
        None => None,
    }
}

/// Copies of the tokens, in order.
fn duplicate_tokens(tokens: &Vec<Token>) -> (r: Vec<Token>)
    ensures
        r@ == tokens@,
{
    let mut out: Vec<Token> = Vec::new();
    let mut i: usize = 0;
    while i < tokens.len()
        invariant
            i <= tokens.len(),
            out@ == tokens@.take(i as int),
        decreases tokens.len() - i,
    {
        out.push(tokens[i].clone());
        assert(out@ =~= tokens@.take(i + 1));
        i += 1;
    }
    assert(out@ =~= tokens@);
    out
}

/// Copies of the statements, in order.
fn duplicate_statements(statements: &Vec<Stmt>) -> (r: Vec<Stmt>)
    ensures
        r.len() == statements.len(),
        forall|i: int| 0 <= i < r.len() ==> (#[trigger] r[i])@ == statements[i]@,
        statements_view(r@, r@.len()) == statements_view(statements@, statements@.len()),
    decreases statements,
{
    let mut out: Vec<Stmt> = Vec::new();
    let mut i: usize = 0;
    while i < statements.len()
        invariant
            i <= statements.len(),
            out.len() == i,
            forall|j: int| 0 <= j < i ==> (#[trigger] out[j])@ == statements[j]@,
        decreases statements.len() - i,
    {
        out.push(statements[i].duplicate());
        i += 1;
    }
    proof {
        lemma_statements_view(out@, out@.len());
        lemma_statements_view(statements@, statements@.len());
        assert(statements_view(out@, out@.len()) =~= statements_view(
            statements@,
            statements@.len(),
        ));
    }
    out
}

impl Stmt {
    /// A copy of the statement and of all that it owns.
    fn duplicate(&self) -> (r: Stmt)
        ensures
            r@ == self@,
        decreases self,
    {
        match self {
            Stmt::Block(body) => Stmt::Block(duplicate_statements(body)),
            Stmt::Class { name, superclass, methods } => Stmt::Class {
                name: name.clone(),
                superclass: duplicate_optional(superclass),
                methods: duplicate_statements(methods),
            },
            Stmt::Expression(e) => Stmt::Expression(e.clone()),
            Stmt::Function { name, params, body } => Stmt::Function {
                name: name.clone(),
                params: duplicate_tokens(params),
                body: duplicate_statements(body),
            },
            Stmt::If { condition, then_branch, else_branch } => Stmt::If {
                condition: condition.clone(),
                then_branch: Box::new(then_branch.duplicate()),
                else_branch: match else_branch {
                    Some(branch) => Some(Box::new(branch.duplicate())),
                    None => None,
                },
            },
            Stmt::Print(e) => Stmt::Print(e.clone()),
            Stmt::Return { keyword, value } => Stmt::Return {
                keyword: keyword.clone(),
                value: duplicate_optional(value),
            },
            Stmt::Var { name, initializer } => Stmt::Var {
                name: name.clone(),
                initializer: duplicate_optional(initializer),
            },
            Stmt::While { condition, body } => Stmt::While {
                condition: condition.clone(),
                body: Box::new(body.duplicate()),
            },
        }
    }
}

impl Clone for Stmt {
    fn clone(&self) -> (r: Stmt)
        ensures
            r@ == self@,
    {
        self.duplicate()
    }
}

/// Whether an expression has a rendering: it is made of literals, variables,
/// groupings, unary and binary operations and assignments only.
pub open spec fn printable(e: ExprView) -> bool
    decreases e,
{
    match e {
        ExprView::Assign { name, value } => printable(*value),
        ExprView::Binary { left, operator, right } => printable(*left) && printable(*right),
        ExprView::Grouping(inner) => printable(*inner),
        ExprView::Literal(_) => true,
        ExprView::Unary { operator, right } => printable(*right),
        ExprView::Variable(_) => true,
        _ => false,
    }
}

/// The parts, each with a space before it, one after the other.
pub open spec fn spaced(parts: Seq<Seq<char>>) -> Seq<char>
    decreases parts.len(),
{
    if parts.len() == 0 {
        Seq::empty()
    } else {
        spaced(parts.drop_last()) + seq![' '] + parts.last()
    }
}

/// A name and its parts in one pair of parentheses: `(name part part)`.
pub open spec fn parenthesized(name: Seq<char>, parts: Seq<Seq<char>>) -> Seq<char> {
    seq!['('] + name + spaced(parts) + seq![')']
}

/// The prefix rendering of an expression: an operation is written as
/// `(operator operand ...)`, a grouping as `(group inner)`, an assignment as
/// `(= name value)`, a literal as its value is displayed, a variable by its
/// name.
pub open spec fn rendering(e: ExprView) -> Seq<char>
    decreases e,
{
    match e {
        ExprView::Assign { name, value } => parenthesized(
            seq!['='],
            seq![name.lexeme, rendering(*value)],
        ),
        ExprView::Binary { left, operator, right } => parenthesized(
            operator.lexeme,
            seq![rendering(*left), rendering(*right)],
        ),
        ExprView::Grouping(inner) => parenthesized("group"@, seq![rendering(*inner)]),
        ExprView::Literal(Some(value)) => value_text(value),
        ExprView::Literal(None) => "nil"@,
        ExprView::Unary { operator, right } => parenthesized(
            operator.lexeme,
            seq![rendering(*right)],
        ),
        ExprView::Variable(name) => name.lexeme,
        _ => Seq::empty(),
    }
}

/// The characters of each text.
pub open spec fn texts(parts: Seq<String>) -> Seq<Seq<char>> {
    Seq::new(parts.len(), |i: int| parts[i]@)
}

/// Writes `(name part part ...)`.
fn parenthesize(name: &str, parts: &Vec<String>) -> (r: String)
    ensures
        r@ == parenthesized(name@, texts(parts@)),
{
    let mut out: Vec<char> = Vec::new();
    out.push('(');
    push_text(&mut out, name);
    let ghost head = out@;
    assert(head =~= seq!['('] + name@);
    let mut i: usize = 0;
    assert(texts(parts@).take(0) =~= Seq::<Seq<char>>::empty());
    assert(out@ =~= head + spaced(texts(parts@).take(0)));
    while i < parts.len()
        invariant
            i <= parts.len(),
            out@ == head + spaced(texts(parts@).take(i as int)),
        decreases parts.len() - i,
    {
        out.push(' ');
        push_text(&mut out, parts[i].as_str());
        proof {
            let all = texts(parts@);
            assert(all.take(i + 1).drop_last() =~= all.take(i as int));
            assert(all.take(i + 1).last() == parts[i as int]@);
            assert(out@ =~= head + spaced(all.take(i + 1)));
        }
        i += 1;
    }
    assert(texts(parts@).take(parts.len() as int) =~= texts(parts@));
    out.push(')');
    string_of(out.as_slice())
}

/// Whether an identifier is marked as a random one: its version is 4, and
/// its variant is the one of RFC 9562.
pub closed spec fn is_random_identifier(id: u128) -> bool {
    (id >> 76) & 0xf == 4 && (id >> 62) & 0x3 == 2
}

/// `Uuid::new_v4` of the `uuid` crate, read as a 128-bit integer by
/// `Uuid::as_u128`: a random identifier. Which one it is depends on chance;
/// every one is marked as random.
#[verifier::external_body]
fn fresh_id() -> (r: u128)
    ensures
        is_random_identifier(r),
{
    Uuid::new_v4().as_u128()
}

impl PartialEq for Expr {
    fn eq(&self, other: &Expr) -> (r: bool) {
        self.id == other.id
    }
}

impl PartialEqSpecImpl for Expr {
    open spec fn obeys_eq_spec() -> bool {
        true
    }

    open spec fn eq_spec(&self, other: &Expr) -> bool {
        self.id == other.id
    }
}

/// The views of the first `count` expressions are as many, and each is the
/// view of the expression in its place.
pub proof fn lemma_expression_views(exprs: Seq<Expr>, count: nat)
    requires
        count <= exprs.len(),
    ensures
        expression_views(exprs, count).len() == count,
        forall|i: int|
            0 <= i < count ==> #[trigger] expression_views(exprs, count)[i] == exprs[i]@,
    decreases count,
{
    if count > 0 {
        let before = expression_views(exprs, (count - 1) as nat);
        lemma_expression_views(exprs, (count - 1) as nat);
        assert(expression_views(exprs, count) == before.push(exprs[count - 1].kind.view()));
        assert forall|i: int| 0 <= i < count implies #[trigger] expression_views(exprs, count)[i]
            == exprs[i]@ by {
            if i < count - 1 {
                assert(before[i] == exprs[i]@);
            }
        }
    } else {
        assert(expression_views(exprs, count) == Seq::<ExprView>::empty());
    }
}

/// Copies of the expressions, in order, each under the identifier of the one
/// that it was copied from.
fn duplicates(exprs: &Vec<Expr>) -> (r: Vec<Expr>)
    ensures
        r.len() == exprs.len(),
        forall|i: int|
            0 <= i < r.len() ==> (#[trigger] r[i])@ == exprs[i]@ && r[i].id == exprs[i].id,
    decreases exprs,
{
    let mut out: Vec<Expr> = Vec::new();
    let mut i: usize = 0;
    while i < exprs.len()
        invariant
            i <= exprs.len(),
            out.len() == i,
            forall|j: int|
                0 <= j < i ==> (#[trigger] out[j])@ == exprs[j]@ && out[j].id == exprs[j].id,
        decreases exprs.len() - i,
    {
        out.push(exprs[i].duplicate());
        i += 1;
    }
    out
}

impl ExprKind {
    /// A copy of the variant and of all that it owns.
    fn duplicate(&self) -> (r: ExprKind)
        ensures
            r@ == self@,
        decreases self,
    {
        match self {
            ExprKind::Assign { name, value } => ExprKind::Assign {
                name: name.clone(),
                value: Box::new(value.duplicate()),
            },
            ExprKind::Binary { left, operator, right } => ExprKind::Binary {
                left: Box::new(left.duplicate()),
                operator: operator.clone(),
                right: Box::new(right.duplicate()),
            },
            ExprKind::Call { callee, paren, arguments } => {
                let copies = duplicates(arguments);
                let r = ExprKind::Call {
                    callee: Box::new(callee.duplicate()),
                    paren: paren.clone(),
                    arguments: copies,
                };
                proof {
                    lemma_expression_views(arguments@, arguments@.len());
                    lemma_expression_views(copies@, copies@.len());
                    assert(r@->Call_arguments =~= self@->Call_arguments);
                }
                r
            },
            ExprKind::Get { object, name } => ExprKind::Get {
                object: Box::new(object.duplicate()),
                name: name.clone(),
            },
            ExprKind::Grouping(inner) => ExprKind::Grouping(Box::new(inner.duplicate())),
            ExprKind::Literal(value) => ExprKind::Literal(
                match value {
                    Some(v) => Some(v.clone()),
                    None => None,
                },
            ),
            ExprKind::Logical { left, operator, right } => ExprKind::Logical {
                left: Box::new(left.duplicate()),
                operator: operator.clone(),
                right: Box::new(right.duplicate()),
            },
            ExprKind::SetProperty { object, name, value } => ExprKind::SetProperty {
                object: Box::new(object.duplicate()),
                name: name.clone(),
                value: Box::new(value.duplicate()),
            },
            ExprKind::Super { keyword, method } => ExprKind::Super {
                keyword: keyword.clone(),
                method: method.clone(),
            },
            ExprKind::This(keyword) => ExprKind::This(keyword.clone()),
            ExprKind::Unary { operator, right } => ExprKind::Unary {
                operator: operator.clone(),
                right: Box::new(right.duplicate()),
            },
            ExprKind::Variable(name) => ExprKind::Variable(name.clone()),
        }
    }
}

impl Clone for ExprKind {
    fn clone(&self) -> (r: ExprKind)
        ensures
            r@ == self@,
    {
        self.duplicate()
    }
}

impl Clone for Expr {
    fn clone(&self) -> (r: Expr)
        ensures
            r@ == self@,
            r.id == self.id,
    {
        self.duplicate()
    }
}

impl Eq for Expr {

}

/// `Hash::hash` of std on a `u128`: feeds the identifier to the hasher. What
/// the hasher makes of it is the hasher's own matter; nothing is claimed.
#[verifier::external_body]
fn feed<H: Hasher>(id: u128, state: &mut H) {
    id.hash(state)
}

impl Hash for Expr {
    fn hash<H: Hasher>(&self, state: &mut H) {
        feed(self.id, state);
    }
}

impl Expr {
    /// A node of the given variant under a fresh identifier.
    pub fn new(kind: ExprKind) -> (r: Expr)
        ensures
            r.kind == kind,
            is_random_identifier(r.id),
    {
        let id = fresh_id();
        Expr { id, kind }
    }

    /// A copy of the node and of all below it, each under the identifier of
    /// the node that it was copied from.
    fn duplicate(&self) -> (r: Expr)
        ensures
            r@ == self@,
            r.id == self.id,
        decreases self,
    {
        Expr { id: self.id, kind: self.kind.duplicate() }
    }

    /// Whether the expression has a rendering.
    pub fn is_printable(&self) -> (r: bool)
        ensures
            r == printable(self@),
        decreases self,
    {
        match &self.kind {
            ExprKind::Assign { name, value } => value.is_printable(),
            ExprKind::Binary { left, operator, right } => left.is_printable()
                && right.is_printable(),
            ExprKind::Grouping(inner) => inner.is_printable(),
            ExprKind::Literal(_) => true,
            ExprKind::Unary { operator, right } => right.is_printable(),
            ExprKind::Variable(_) => true,
            _ => false,
        }
    }

    /// The prefix rendering of the expression.
    pub fn to_string(&self) -> (r: String)
        requires
            printable(self@),
        ensures
            r@ == rendering(self@),
        decreases self,
    {
        match &self.kind {
            ExprKind::Binary { left, operator, right } => {
                let mut parts: Vec<String> = Vec::new();
                parts.push(left.to_string());
                parts.push(right.to_string());
                assert(texts(parts@) =~= seq![rendering(left@), rendering(right@)]);
                parenthesize(operator.lexeme(), &parts)
            },
            ExprKind::Grouping(inner) => {
                let mut parts: Vec<String> = Vec::new();
                parts.push(inner.to_string());
                assert(texts(parts@) =~= seq![rendering(inner@)]);
                parenthesize("group", &parts)
            },
            ExprKind::Literal(literal) => {
                match literal {
                    Some(value) => value.to_string(),
                    None => String::from_str("nil"),
                }
            },
            ExprKind::Unary { operator, right } => {
                let mut parts: Vec<String> = Vec::new();
                parts.push(right.to_string());
                assert(texts(parts@) =~= seq![rendering(right@)]);
                parenthesize(operator.lexeme(), &parts)
            },
            ExprKind::Assign { name, value } => {
                let mut parts: Vec<String> = Vec::new();
                parts.push(String::from_str(name.lexeme()));
                parts.push(value.to_string());
                assert(texts(parts@) =~= seq![name@.lexeme, rendering(value@)]);
                let r = parenthesize("=", &parts);
                proof {
                    reveal_strlit("=");
                    assert("="@ =~= seq!['=']);
                }
                r
            },
            ExprKind::Variable(name) => String::from_str(name.lexeme()),
            _ => String::new(),
        }
    }
}

} // verus!
