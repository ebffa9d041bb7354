//! The AST: nodes connected to each other.
//!
//! Statements (`LetStatement`, `ReturnStatement`, `ExpressionStatement`) and
//! expressions (`Identifier`, `IntegerLiteral`, `PrefixExpression`,
//! `InfixExpression`) form two closed tagged-variant categories, `Statement`
//! and `Expression`. Every node carries the token that defined it and has a
//! canonical string rendering that fully parenthesizes prefix and infix
//! operators; the rendering is specified by the `render_*` spec functions over
//! the ghost mirrors of the nodes (`ExpressionV`, `StatementV`).

use vstd::prelude::*;
use vstd::string::StringExecFns;

use crate::token::Token;
use crate::token::TokenV;

verus! {

// ===========================================================================
// GHOST MIRRORS OF THE NODES
// ===========================================================================
pub struct IdentifierV {
    pub token: TokenV,
    pub value: Seq<char>,
}

pub struct IntegerLiteralV {
    pub token: TokenV,
    pub value: int,
}

pub struct PrefixExpressionV {
    pub token: TokenV,
    pub operator: Seq<char>,
    pub right: Box<ExpressionV>,
}

pub struct InfixExpressionV {
    pub token: TokenV,
    pub left: Box<ExpressionV>,
    pub operator: Seq<char>,
    pub right: Box<ExpressionV>,
}

pub enum ExpressionV {
    Identifier(IdentifierV),
    IntegerLiteral(IntegerLiteralV),
    Prefix(PrefixExpressionV),
    Infix(InfixExpressionV),
}

pub struct LetStatementV {
    pub token: TokenV,
    pub name: IdentifierV,
    pub value: ExpressionV,
}

pub struct ReturnStatementV {
    pub token: TokenV,
    pub return_value: ExpressionV,
}

pub struct ExpressionStatementV {
    pub token: TokenV,
    pub expression: ExpressionV,
}

pub enum StatementV {
    Let(LetStatementV),
    Return(ReturnStatementV),
    Expression(ExpressionStatementV),
}

// ===========================================================================
// THE CANONICAL RENDERING, AS SPEC FUNCTIONS
// ===========================================================================
/// Canonical rendering of an expression: identifiers and integer literals
/// render as their source text; prefix and infix expressions are fully
/// parenthesized.
pub open spec fn render_expr(e: ExpressionV) -> Seq<char>
    decreases e,
{
    match e {
        ExpressionV::Identifier(i) => i.value,
        ExpressionV::IntegerLiteral(il) => il.token.literal,
        ExpressionV::Prefix(p) => seq!['('] + p.operator + render_expr(*p.right) + seq![')'],
        ExpressionV::Infix(x) => seq!['('] + render_expr(*x.left) + seq![' '] + x.operator + seq![
            ' ',
        ] + render_expr(*x.right) + seq![')'],
    }
}

/// Canonical rendering of a statement.
pub open spec fn render_stmt(s: StatementV) -> Seq<char> {
    match s {
        StatementV::Let(l) => l.token.literal + seq![' '] + l.name.value + seq![' ', '=', ' ']
            + render_expr(l.value) + seq![';'],
        StatementV::Return(r) => r.token.literal + seq![' '] + render_expr(r.return_value)
            + seq![';'],
        StatementV::Expression(es) => render_expr(es.expression),
    }
}

/// The literal of a statement's defining token.
pub open spec fn stmt_token_literal(s: StatementV) -> Seq<char> {
    match s {
        StatementV::Let(l) => l.token.literal,
        StatementV::Return(r) => r.token.literal,
        StatementV::Expression(es) => es.token.literal,
    }
}

/// Rendering of the statements of a program from index `i` on.
pub open spec fn render_program_from(ss: Seq<StatementV>, i: int) -> Seq<char>
    decreases ss.len() - i,
        when 0 <= i <= ss.len()
{
    if i < ss.len() {
        render_stmt(ss[i]) + render_program_from(ss, i + 1)
    } else {
        Seq::empty()
    }
}

/// Canonical rendering of a program: the concatenation of its statements'
/// renderings, in order.
pub open spec fn render_program(ss: Seq<StatementV>) -> Seq<char> {
    render_program_from(ss, 0)
}

/// A program's token literal: that of its first statement, or empty.
pub open spec fn program_token_literal(ss: Seq<StatementV>) -> Seq<char> {
    if ss.len() > 0 {
        stmt_token_literal(ss[0])
    } else {
        Seq::empty()
    }
}

// ===========================================================================
// EXPRESSIONS
// ===========================================================================
/// Identifier is a node that holds the name of a variable.
pub struct Identifier {
    token: Token,  // The Ident token.
    value: String,  // The value of the identifier.
}

/// An integer literal together with its parsed numeric value.
pub struct IntegerLiteral {
    token: Token,  // The Int token.
    value: i64,  // The value of the integer literal.
}

/// A prefix operator applied to an operand; the operators are `!` and `-`.
pub struct PrefixExpression {
    pub token: Token,  // The prefix token.
    pub operator: String,
    pub right: Expression,
}

/// An infix operator applied to two operands: `+ - * / < > == !=`.
pub struct InfixExpression {
    pub token: Token,  // The operator token.
    pub left: Expression,
    pub operator: String,
    pub right: Expression,
}

/// An expression produces a value. The set of expression forms is closed, so
/// the category is a tagged union of the node types.
pub enum Expression {
    Identifier(Identifier),
    IntegerLiteral(IntegerLiteral),
    Prefix(Box<PrefixExpression>),
    Infix(Box<InfixExpression>),
}

pub closed spec fn ident_view(i: Identifier) -> IdentifierV {
    IdentifierV { token: i.token@, value: i.value@ }
}

pub closed spec fn int_lit_view(il: IntegerLiteral) -> IntegerLiteralV {
    IntegerLiteralV { token: il.token@, value: il.value as int }
}

pub open spec fn expr_view(e: Expression) -> ExpressionV
    decreases e,
{
    match e {
        Expression::Identifier(i) => ExpressionV::Identifier(ident_view(i)),
        Expression::IntegerLiteral(il) => ExpressionV::IntegerLiteral(int_lit_view(il)),
        Expression::Prefix(p) => ExpressionV::Prefix(
            PrefixExpressionV {
                token: p.token@,
                operator: p.operator@,
                right: Box::new(expr_view(p.right)),
            },
        ),
        Expression::Infix(x) => ExpressionV::Infix(
            InfixExpressionV {
                token: x.token@,
                left: Box::new(expr_view(x.left)),
                operator: x.operator@,
                right: Box::new(expr_view(x.right)),
            },
        ),
    }
}

impl View for Identifier {
    type V = IdentifierV;

    open spec fn view(&self) -> IdentifierV {
        ident_view(*self)
    }
}

impl View for IntegerLiteral {
    type V = IntegerLiteralV;

    open spec fn view(&self) -> IntegerLiteralV {
        int_lit_view(*self)
    }
}

impl View for PrefixExpression {
    type V = PrefixExpressionV;

    open spec fn view(&self) -> PrefixExpressionV {
        PrefixExpressionV {
            token: self.token@,
            operator: self.operator@,
            right: Box::new(expr_view(self.right)),
        }
    }
}

impl View for InfixExpression {
    type V = InfixExpressionV;

    open spec fn view(&self) -> InfixExpressionV {
        InfixExpressionV {
            token: self.token@,
            left: Box::new(expr_view(self.left)),
            operator: self.operator@,
            right: Box::new(expr_view(self.right)),
        }
    }
}

impl View for Expression {
    type V = ExpressionV;

    open spec fn view(&self) -> ExpressionV {
        expr_view(*self)
    }
}

impl Identifier {
    pub fn new(token: &Token) -> (id: Self)
        ensures
            id@ == (IdentifierV { token: token@, value: token@.literal }),
    {
        Identifier {
            token: Token::new(token.token_type, token.literal.as_str()),
            value: token.literal(),
        }
    }

    pub fn token_literal(&self) -> (l: String)
        ensures
            l@ == self@.token.literal,
    {
        self.token.literal()
    }

    /// The name the identifier holds.
    pub fn value(&self) -> (v: &str)
        ensures
            v@ == self@.value,
    {
        self.value.as_str()
    }

    pub fn string(&self) -> (out: String)
        ensures
            out@ == render_expr(ExpressionV::Identifier(self@)),
    {
        self.value.clone()
    }
}

impl IntegerLiteral {
    pub fn new(token: &Token, value: i64) -> (il: Self)
        ensures
            il@ == (IntegerLiteralV { token: token@, value: value as int }),
    {
        IntegerLiteral { token: Token::new(token.token_type, token.literal.as_str()), value }
    }

    pub fn value(&self) -> (v: i64)
        ensures
            v as int == self@.value,
    {
        self.value
    }

    pub fn token_literal(&self) -> (l: String)
        ensures
            l@ == self@.token.literal,
    {
        self.token.literal()
    }

    pub fn string(&self) -> (out: String)
        ensures
            out@ == render_expr(ExpressionV::IntegerLiteral(self@)),
    {
        self.token.literal()
    }
}

impl PrefixExpression {
    pub fn token_literal(&self) -> (l: String)
        ensures
            l@ == self@.token.literal,
    {
        self.token.literal()
    }

    pub fn string(&self) -> (out: String)
        ensures
            out@ == render_expr(ExpressionV::Prefix(self@)),
        decreases *self,
    {
        let mut out = String::new();
        out.append("(");
        out.append(self.operator.as_str());
        let r = self.right.string();
        out.append(r.as_str());
        out.append(")");
        proof {
            reveal_strlit("(");
            reveal_strlit(")");
            assert(out@ =~= seq!['('] + self.operator@ + render_expr(self.right@) + seq![')']);
        }
        out
    }
}

impl InfixExpression {
    pub fn token_literal(&self) -> (l: String)
        ensures
            l@ == self@.token.literal,
    {
        self.token.literal()
    }

    pub fn string(&self) -> (out: String)
        ensures
            out@ == render_expr(ExpressionV::Infix(self@)),
        decreases *self,
    {
        let mut out = String::new();
        out.append("(");
        let l = self.left.string();
        out.append(l.as_str());
        out.append(" ");
        out.append(self.operator.as_str());
        out.append(" ");
        let r = self.right.string();
        out.append(r.as_str());
        out.append(")");
        proof {
            reveal_strlit("(");
            reveal_strlit(")");
            reveal_strlit(" ");
            assert(" "@ =~= seq![' ']);
            assert(out@ =~= seq!['('] + render_expr(self.left@) + seq![' '] + self.operator@
                + seq![' '] + render_expr(self.right@) + seq![')']);
        }
        out
    }
}

impl Expression {
    pub fn token_literal(&self) -> (l: String)
        ensures
            l@ == expr_token_literal(self@),
    {
        match self {
            Expression::Identifier(i) => i.token_literal(),
            Expression::IntegerLiteral(il) => il.token_literal(),
            Expression::Prefix(p) => p.token_literal(),
            Expression::Infix(x) => x.token_literal(),
        }
    }

    pub fn string(&self) -> (out: String)
        ensures
            out@ == render_expr(self@),
        decreases *self,
    {
        match self {
            Expression::Identifier(i) => i.string(),
            Expression::IntegerLiteral(il) => il.string(),
            Expression::Prefix(p) => p.string(),
            Expression::Infix(x) => x.string(),
        }
    }
}

/// The literal of an expression's defining token.
pub open spec fn expr_token_literal(e: ExpressionV) -> Seq<char> {
    match e {
        ExpressionV::Identifier(i) => i.token.literal,
        ExpressionV::IntegerLiteral(il) => il.token.literal,
        ExpressionV::Prefix(p) => p.token.literal,
        ExpressionV::Infix(x) => x.token.literal,
    }
}

// ===========================================================================
// STATEMENTS
// ===========================================================================
/// LetStatement binds a value to a name: `let <name> = <value>;`.
pub struct LetStatement {
    token: Token,  // The Let token.
    name: Identifier,
    value: Expression,
}

/// ReturnStatement returns a value: `return <value>;`.
pub struct ReturnStatement {
    pub token: Token,  // The Return token.
    pub return_value: Expression,
}

/// An expression statement evaluates an expression and ignores its result.
pub struct ExpressionStatement {
    pub token: Token,  // The first token of the expression.
    pub expression: Expression,
}

/// A statement produces no value; the set of statement forms is closed, so
/// the category is a tagged union of the node types.
pub enum Statement {
    Let(LetStatement),
    Return(ReturnStatement),
    Expression(ExpressionStatement),
}

pub closed spec fn let_stmt_view(l: LetStatement) -> LetStatementV {
    LetStatementV { token: l.token@, name: l.name@, value: expr_view(l.value) }
}

pub open spec fn stmt_view(s: Statement) -> StatementV {
    match s {
        Statement::Let(l) => StatementV::Let(let_stmt_view(l)),
        Statement::Return(r) => StatementV::Return(
            ReturnStatementV { token: r.token@, return_value: expr_view(r.return_value) },
        ),
        Statement::Expression(es) => StatementV::Expression(
            ExpressionStatementV { token: es.token@, expression: expr_view(es.expression) },
        ),
    }
}

impl View for LetStatement {
    type V = LetStatementV;

    open spec fn view(&self) -> LetStatementV {
        let_stmt_view(*self)
    }
}

impl View for ReturnStatement {
    type V = ReturnStatementV;

    open spec fn view(&self) -> ReturnStatementV {
        ReturnStatementV { token: self.token@, return_value: expr_view(self.return_value) }
    }
}

impl View for ExpressionStatement {
    type V = ExpressionStatementV;

    open spec fn view(&self) -> ExpressionStatementV {
        ExpressionStatementV { token: self.token@, expression: expr_view(self.expression) }
    }
}

impl View for Statement {
    type V = StatementV;

    open spec fn view(&self) -> StatementV {
        stmt_view(*self)
    }
}

impl LetStatement {
    /// The name the statement binds.
    pub fn name(&self) -> (n: &str)
        ensures
            n@ == self@.name.value,
    {
        self.name.value()
    }

    pub fn token_literal(&self) -> (l: String)
        ensures
            l@ == self@.token.literal,
    {
        self.token.literal()
    }

    pub fn string(&self) -> (out: String)
        ensures
            out@ == render_stmt(StatementV::Let(self@)),
    {
        let mut out = String::new();
        let lit = self.token_literal();
        out.append(lit.as_str());
        out.append(" ");
        out.append(self.name.value());
        out.append(" = ");
        let v = self.value.string();
        out.append(v.as_str());
        out.append(";");
        proof {
            reveal_strlit(" ");
            reveal_strlit(" = ");
            reveal_strlit(";");
            assert(" "@ =~= seq![' ']);
            assert(" = "@ =~= seq![' ', '=', ' ']);
            assert(";"@ =~= seq![';']);
            assert(out@ =~= self@.token.literal + seq![' '] + self@.name.value + seq![' ', '=', ' ']
                + render_expr(self@.value) + seq![';']);
        }
        out
    }
}

impl ReturnStatement {
    pub fn token_literal(&self) -> (l: String)
        ensures
            l@ == self@.token.literal,
    {
        self.token.literal()
    }

    pub fn string(&self) -> (out: String)
        ensures
            out@ == render_stmt(StatementV::Return(self@)),
    {
        let mut out = String::new();
        let lit = self.token_literal();
        out.append(lit.as_str());
        out.append(" ");
        let v = self.return_value.string();
        out.append(v.as_str());
        out.append(";");
        proof {
            reveal_strlit(" ");
            reveal_strlit(";");
            assert(" "@ =~= seq![' ']);
            assert(";"@ =~= seq![';']);
            assert(out@ =~= self@.token.literal + seq![' '] + render_expr(self@.return_value)
                + seq![';']);
        }
        out
    }
}

impl ExpressionStatement {
    pub fn token_literal(&self) -> (l: String)
        ensures
            l@ == self@.token.literal,
    {
        self.token.literal()
    }

    pub fn string(&self) -> (out: String)
        ensures
            out@ == render_stmt(StatementV::Expression(self@)),
    {
        self.expression.string()
    }
}

impl Statement {
    pub fn token_literal(&self) -> (l: String)
        ensures
            l@ == stmt_token_literal(self@),
    {
        match self {
            Statement::Let(l) => l.token_literal(),
            Statement::Return(r) => r.token_literal(),
            Statement::Expression(es) => es.token_literal(),
        }
    }

    pub fn string(&self) -> (out: String)
        ensures
            out@ == render_stmt(self@),
    {
        match self {
            Statement::Let(l) => l.string(),
            Statement::Return(r) => r.string(),
            Statement::Expression(es) => es.string(),
        }
    }
}

// ===========================================================================
// PROGRAM
// ===========================================================================
/// The root of the AST: an ordered sequence of statements, in source order.
/// An empty sequence is valid.
pub struct Program {
    pub statements: Vec<Statement>,
}

impl View for Program {
    type V = Seq<StatementV>;

    open spec fn view(&self) -> Seq<StatementV> {
        self.statements@.map_values(|s: Statement| stmt_view(s))
    }
}

impl Program {
    pub fn new() -> (p: Self)
        ensures
            p@ =~= Seq::<StatementV>::empty(),
    {
        Program { statements: Vec::new() }
    }

    pub fn push(&mut self, stmt: Statement)
        ensures
            final(self)@ =~= old(self)@.push(stmt@),
    {
        proof {
            assert(old(self).statements@.push(stmt).map_values(|s: Statement| stmt_view(s))
                =~= old(self).statements@.map_values(|s: Statement| stmt_view(s)).push(stmt_view(
                stmt,
            )));
        }
        self.statements.push(stmt);
    }

    /// The literal of the first statement's defining token; empty for an
    /// empty program.
    pub fn token_literal(&self) -> (l: String)
        ensures
            l@ == program_token_literal(self@),
    {
        if self.statements.len() > 0 {
            self.statements[0].token_literal()
        } else {
            String::new()
        }
    }

    /// The canonical rendering: the statements' renderings concatenated in
    /// order.
    pub fn string(&self) -> (out: String)
        ensures
            out@ == render_program(self@),
    {
        let mut out = String::new();
        let mut i: usize = 0;
        while i < self.statements.len()
            invariant
                i <= self.statements.len(),
                out@ + render_program_from(self@, i as int) =~= render_program(self@),
            decreases self.statements.len() - i,
        {
            let s = self.statements[i].string();
            out.append(s.as_str());
            i = i + 1;
        }
        out
    }
}

impl Default for Program {
    fn default() -> (p: Self)
        ensures
            p@ =~= Seq::<StatementV>::empty(),
    {
        Program::new()
    }
}

// ===========================================================================
// BUILDERS
// ===========================================================================
// The parser knows a statement's or expression's defining token before it has
// parsed the children, so nodes are built in two phases: a builder accumulates
// the optional fields, and `build` requires that every required field has been
// supplied.
/// Two-phase construction of a `LetStatement`.
pub struct LetStatementBuilder {
    token: Token,
    name: Option<Identifier>,
    value: Option<Expression>,
}

impl LetStatementBuilder {
    pub closed spec fn token_v(&self) -> TokenV {
        self.token@
    }

    pub closed spec fn name_v(&self) -> Option<IdentifierV> {
        match self.name {
            Some(n) => Some(n@),
            None => None,
        }
    }

    pub closed spec fn value_v(&self) -> Option<ExpressionV> {
        match self.value {
            Some(v) => Some(expr_view(v)),
            None => None,
        }
    }

    pub fn new(token: &Token) -> (b: Self)
        ensures
            b.token_v() == token@,
            b.name_v() is None,
            b.value_v() is None,
    {
        LetStatementBuilder {
            token: Token::new(token.token_type, token.literal.as_str()),
            name: None,
            value: None,
        }
    }

    pub fn name(&mut self, name: Identifier)
        ensures
            final(self).token_v() == old(self).token_v(),
            final(self).name_v() == Some(name@),
            final(self).value_v() == old(self).value_v(),
    {
        self.name = Some(name);
    }

    pub fn value(&mut self, value: Option<Expression>)
        ensures
            final(self).token_v() == old(self).token_v(),
            final(self).name_v() == old(self).name_v(),
            final(self).value_v() == (match value {
                Some(v) => Some(expr_view(v)),
                None => None,
            }),
    {
        self.value = value;
    }

    /// Both the name and the value must have been supplied.
    pub fn build(self) -> (s: LetStatement)
        requires
            self.name_v() is Some,
            self.value_v() is Some,
        ensures
            s@ == (LetStatementV {
                token: self.token_v(),
                name: self.name_v()->Some_0,
                value: self.value_v()->Some_0,
            }),
    {
        LetStatement { token: self.token, name: self.name.unwrap(), value: self.value.unwrap() }
    }
}

/// Two-phase construction of a `ReturnStatement`.
pub struct ReturnStatementBuilder {
    token: Token,
    return_value: Option<Expression>,
}

impl ReturnStatementBuilder {
    pub closed spec fn token_v(&self) -> TokenV {
        self.token@
    }

    pub closed spec fn return_value_v(&self) -> Option<ExpressionV> {
        match self.return_value {
            Some(v) => Some(expr_view(v)),
            None => None,
        }
    }

    pub fn new(token: &Token) -> (b: Self)
        ensures
            b.token_v() == token@,
            b.return_value_v() is None,
    {
        ReturnStatementBuilder {
            token: Token::new(token.token_type, token.literal.as_str()),
            return_value: None,
        }
    }

    pub fn return_value(&mut self, return_value: Option<Expression>)
        ensures
            final(self).token_v() == old(self).token_v(),
            final(self).return_value_v() == (match return_value {
                Some(v) => Some(expr_view(v)),
                None => None,
            }),
    {
        self.return_value = return_value;
    }

    /// The return value must have been supplied.
    pub fn build(self) -> (s: ReturnStatement)
        requires
            self.return_value_v() is Some,
        ensures
            s@ == (ReturnStatementV {
                token: self.token_v(),
                return_value: self.return_value_v()->Some_0,
            }),
    {
        ReturnStatement { token: self.token, return_value: self.return_value.unwrap() }
    }
}

/// Two-phase construction of an `ExpressionStatement`.
pub struct ExpressionStatementBuilder {
    token: Token,
    expression: Option<Expression>,
}

impl ExpressionStatementBuilder {
    pub closed spec fn token_v(&self) -> TokenV {
        self.token@
    }

    pub closed spec fn expression_v(&self) -> Option<ExpressionV> {
        match self.expression {
            Some(v) => Some(expr_view(v)),
            None => None,
        }
    }

    pub fn new(token: &Token) -> (b: Self)
        ensures
            b.token_v() == token@,
            b.expression_v() is None,
    {
        ExpressionStatementBuilder {
            token: Token::new(token.token_type, token.literal.as_str()),
            expression: None,
        }
    }

    pub fn expression(&mut self, expression: Option<Expression>)
        ensures
            final(self).token_v() == old(self).token_v(),
            final(self).expression_v() == (match expression {
                Some(v) => Some(expr_view(v)),
                None => None,
            }),
    {
        self.expression = expression;
    }

    /// The expression must have been supplied.
    pub fn build(self) -> (s: ExpressionStatement)
        requires
            self.expression_v() is Some,
        ensures
            s@ == (ExpressionStatementV {
                token: self.token_v(),
                expression: self.expression_v()->Some_0,
            }),
    {
        ExpressionStatement { token: self.token, expression: self.expression.unwrap() }
    }
}

/// Two-phase construction of a `PrefixExpression`.
pub struct PrefixExpressionBuilder {
    pub token: Token,  // The prefix token; the operators are ! and -.
    pub operator: Option<String>,
    pub right: Option<Expression>,
}

impl PrefixExpressionBuilder {
    pub fn new(token: &Token) -> (b: Self)
        ensures
            b.token@ == token@,
            b.operator is None,
            b.right is None,
    {
        PrefixExpressionBuilder {
            token: Token::new(token.token_type, token.literal.as_str()),
            operator: None,
            right: None,
        }
    }

    pub fn operator(&mut self, operator: String)
        ensures
            final(self).token == old(self).token,
            final(self).operator == Some(operator),
            final(self).right == old(self).right,
    {
        self.operator = Some(operator);
    }

    pub fn right(&mut self, right: Option<Expression>)
        ensures
            final(self).token == old(self).token,
            final(self).operator == old(self).operator,
            final(self).right == right,
    {
        self.right = right;
    }

    /// The operator and the operand must have been supplied.
    pub fn build(self) -> (e: PrefixExpression)
        requires
            self.operator is Some,
            self.right is Some,
        ensures
            e@ == (PrefixExpressionV {
                token: self.token@,
                operator: self.operator->Some_0@,
                right: Box::new(expr_view(self.right->Some_0)),
            }),
    {
        PrefixExpression {
            token: self.token,
            operator: self.operator.unwrap(),
            right: self.right.unwrap(),
        }
    }
}

/// Two-phase construction of an `InfixExpression`.
pub struct InfixExpressionBuilder {
    pub token: Token,  // The operator token: +, -, *, /, <, > ...
    pub left: Option<Expression>,
    pub operator: Option<String>,
    pub right: Option<Expression>,
}

impl InfixExpressionBuilder {
    pub fn new(token: &Token) -> (b: Self)
        ensures
            b.token@ == token@,
            b.left is None,
            b.operator is None,
            b.right is None,
    {
        InfixExpressionBuilder {
            token: Token::new(token.token_type, token.literal.as_str()),
            left: None,
            operator: None,
            right: None,
        }
    }

    pub fn left(&mut self, left: Option<Expression>)
        ensures
            final(self).token == old(self).token,
            final(self).left == left,
            final(self).operator == old(self).operator,
            final(self).right == old(self).right,
    {
        self.left = left;
    }

    pub fn operator(&mut self, operator: String)
        ensures
            final(self).token == old(self).token,
            final(self).left == old(self).left,
            final(self).operator == Some(operator),
            final(self).right == old(self).right,
    {
        self.operator = Some(operator);
    }

    pub fn right(&mut self, right: Option<Expression>)
        ensures
            final(self).token == old(self).token,
            final(self).left == old(self).left,
            final(self).operator == old(self).operator,
            final(self).right == right,
    {
        self.right = right;
    }

    /// Both operands and the operator must have been supplied.
    pub fn build(self) -> (e: InfixExpression)
        requires
            self.left is Some,
            self.operator is Some,
            self.right is Some,
        ensures
            e@ == (InfixExpressionV {
                token: self.token@,
                left: Box::new(expr_view(self.left->Some_0)),
                operator: self.operator->Some_0@,
                right: Box::new(expr_view(self.right->Some_0)),
            }),
    {
        InfixExpression {
            token: self.token,
            left: self.left.unwrap(),
            operator: self.operator.unwrap(),
            right: self.right.unwrap(),
        }
    }
}

} // verus!
