//! The parser: consumes the token stream and produces a `Program`, using
//! precedence-climbing (Pratt) parsing for expressions and straight-line
//! recursive descent for statements.
//!
//! The grammar is given mathematically by the `sp_parse_*` spec functions over
//! a sequence of token models: `sp_parse_expression` associates each token
//! kind with a prefix rule and an infix rule, and resolves precedence by
//! comparing the upcoming operator's precedence against the minimum precedence
//! the current parse may absorb (`sp_infix_loop`). The executable `Parser` is
//! proved to return exactly the statements, cursor positions and error
//! messages of those spec functions. Parse errors accumulate; they never abort
//! the whole parse.

use vstd::prelude::*;
use vstd::string::StrSliceExecFns;
use vstd::string::StringExecFns;

use crate::ast::ExpressionStatementV;
use crate::ast::ExpressionV;
use crate::ast::IdentifierV;
use crate::ast::IntegerLiteralV;
use crate::ast::InfixExpressionV;
use crate::ast::LetStatementV;
use crate::ast::PrefixExpressionV;
use crate::ast::ReturnStatementV;
use crate::ast::StatementV;
use crate::ast::Expression;
use crate::ast::ExpressionStatementBuilder;
use crate::ast::Identifier;
use crate::ast::IntegerLiteral;
use crate::ast::InfixExpressionBuilder;
use crate::ast::LetStatementBuilder;
use crate::ast::PrefixExpressionBuilder;
use crate::ast::Program;
use crate::ast::ReturnStatementBuilder;
use crate::ast::Statement;
use crate::lexer::is_digit_char;
use crate::lexer::keyword_kind;
use crate::lexer::lemma_spec_tokens_len;
use crate::lexer::spec_token;
use crate::lexer::spec_token_pos;
use crate::lexer::spec_tokens;
use crate::lexer::Lexer;
use crate::token::Token;
use crate::token::TokenType;
use crate::token::TokenV;

verus! {

// ===========================================================================
// PRECEDENCE
// ===========================================================================
/// The precedence levels, lowest first. `Call` is reserved for future
/// function-call parsing; no infix rule maps to it yet.
#[derive(PartialEq, Eq, Structural, Debug, Clone, Copy)]
pub enum Precedence {
    Lowest,
    Equals,  // ==
    LessGreater,  // > or <
    Sum,  // +
    Product,  // *
    Prefix,  // -X or !X
    Call,  // myFunction(X)
}

/// Numeric rank of a precedence level, for comparisons.
pub open spec fn prec_val(p: Precedence) -> int {
    match p {
        Precedence::Lowest => 1,
        Precedence::Equals => 2,
        Precedence::LessGreater => 3,
        Precedence::Sum => 4,
        Precedence::Product => 5,
        Precedence::Prefix => 6,
        Precedence::Call => 7,
    }
}

impl Precedence {
    fn value(&self) -> (v: u8)
        ensures
            v as int == prec_val(*self),
    {
        match self {
            Precedence::Lowest => 1,
            Precedence::Equals => 2,
            Precedence::LessGreater => 3,
            Precedence::Sum => 4,
            Precedence::Product => 5,
            Precedence::Prefix => 6,
            Precedence::Call => 7,
        }
    }
}

/// Every token kind maps to some precedence, defaulting to `Lowest`.
pub open spec fn spec_precedences(k: TokenType) -> Precedence {
    match k {
        TokenType::Equal | TokenType::NotEqual => Precedence::Equals,
        TokenType::LT | TokenType::GT => Precedence::LessGreater,
        TokenType::Plus | TokenType::Minus => Precedence::Sum,
        TokenType::Slash | TokenType::Asterisk => Precedence::Product,
        TokenType::LParen => Precedence::Call,
        _ => Precedence::Lowest,
    }
}

/// The token kinds that can start an expression (those with a prefix rule).
pub open spec fn has_prefix_fn(k: TokenType) -> bool {
    k == TokenType::Ident || k == TokenType::Int || k == TokenType::Bang || k == TokenType::Minus
}

/// The token kinds that can continue an expression (those with an infix rule).
pub open spec fn has_infix_fn(k: TokenType) -> bool {
    ||| k == TokenType::Plus
    ||| k == TokenType::Minus
    ||| k == TokenType::Slash
    ||| k == TokenType::Asterisk
    ||| k == TokenType::Equal
    ||| k == TokenType::NotEqual
    ||| k == TokenType::LT
    ||| k == TokenType::GT
}

// ===========================================================================
// THE TOKEN CURSOR
// ===========================================================================
/// The virtual token seen past the end of the stream.
pub open spec fn eof_tv() -> TokenV {
    TokenV { kind: TokenType::EOF, literal: Seq::empty() }
}

/// The token at position `i`; past the end of the stream every position holds
/// the `EOF` token.
pub open spec fn tok_at(toks: Seq<TokenV>, i: int) -> TokenV {
    if 0 <= i < toks.len() {
        toks[i]
    } else {
        eof_tv()
    }
}

/// Advancing the cursor: one step forward, saturating one past the end.
pub open spec fn adv(toks: Seq<TokenV>, i: int) -> int {
    if i <= toks.len() {
        i + 1
    } else {
        i
    }
}

/// Clamp a cursor position into `[lo, toks.len() + 1]` (identity for the
/// positions the parser actually reaches; it keeps the spec recursion well
/// founded).
pub open spec fn clamp_pos(toks: Seq<TokenV>, lo: int, x: int) -> int {
    if x < lo {
        lo
    } else if x > toks.len() + 1 {
        toks.len() as int + 1
    } else {
        x
    }
}

// ===========================================================================
// ERROR MESSAGES
// ===========================================================================
/// The display name of a token kind, as it appears in error messages.
pub open spec fn kind_name(k: TokenType) -> Seq<char> {
    match k {
        TokenType::Illegal => "Illegal"@,
        TokenType::EOF => "EOF"@,
        TokenType::Ident => "Ident"@,
        TokenType::Int => "Int"@,
        TokenType::Assign => "Assign"@,
        TokenType::Plus => "Plus"@,
        TokenType::Minus => "Minus"@,
        TokenType::Bang => "Bang"@,
        TokenType::Asterisk => "Asterisk"@,
        TokenType::Slash => "Slash"@,
        TokenType::LT => "LT"@,
        TokenType::GT => "GT"@,
        TokenType::Equal => "Equal"@,
        TokenType::NotEqual => "NotEqual"@,
        TokenType::Comma => "Comma"@,
        TokenType::Semicolon => "Semicolon"@,
        TokenType::LParen => "LParen"@,
        TokenType::RParen => "RParen"@,
        TokenType::LBrace => "LBrace"@,
        TokenType::RBrace => "RBrace"@,
        TokenType::Function => "Function"@,
        TokenType::Let => "Let"@,
        TokenType::True => "True"@,
        TokenType::False => "False"@,
        TokenType::If => "If"@,
        TokenType::Else => "Else"@,
        TokenType::Return => "Return"@,
    }
}

/// The error recorded when a grammar rule requires a specific lookahead kind
/// and it is absent.
pub open spec fn peek_error_msg(expected: TokenType, got: TokenType) -> Seq<char> {
    "Expected next token to be "@ + kind_name(expected) + ", got "@ + kind_name(got) + " instead"@
}

/// The error recorded when the current token can never start an expression.
pub open spec fn no_prefix_msg(k: TokenType) -> Seq<char> {
    "No prefix parse function found for "@ + kind_name(k)
}

/// The error recorded when an `Int` token's literal fails integer parsing.
pub open spec fn int_parse_msg(lit: Seq<char>) -> Seq<char> {
    "Could not parse "@ + lit + " as integer"@
}

// ===========================================================================
// INTEGER LITERALS
// ===========================================================================
pub open spec fn all_digit_chars(s: Seq<char>) -> bool {
    forall|j: int| 0 <= j < s.len() ==> is_digit_char(#[trigger] s[j])
}

/// The numeric value of a string of decimal digits.
pub open spec fn digits_val(s: Seq<char>) -> nat
    decreases s.len(),
{
    if s.len() == 0 {
        0
    } else {
        digits_val(s.drop_last()) * 10 + (s.last() as int - '0' as int) as nat
    }
}

/// An integer literal parses exactly when it is a nonempty run of digits
/// whose value fits in an `i64`.
pub open spec fn int_literal_ok(s: Seq<char>) -> bool {
    s.len() > 0 && all_digit_chars(s) && digits_val(s) <= i64::MAX as nat
}

// ===========================================================================
// THE GRAMMAR, AS SPEC FUNCTIONS
// ===========================================================================
/// Outcome of parsing one expression: the expression (or nothing, on a
/// grammar gap), the cursor position of its last token, and the errors
/// recorded while parsing it.
pub struct SpExpr {
    pub expr: Option<ExpressionV>,
    pub next: int,
    pub errs: Seq<Seq<char>>,
}

/// Outcome of parsing one statement.
pub struct SpStmt {
    pub stmt: Option<StatementV>,
    pub next: int,
    pub errs: Seq<Seq<char>>,
}

/// Outcome of parsing a whole program.
pub struct SpProg {
    pub stmts: Seq<StatementV>,
    pub next: int,
    pub errs: Seq<Seq<char>>,
}

/// Prefix rule for `Ident`: the identifier names itself; nothing is consumed
/// beyond the current token.
pub open spec fn sp_parse_identifier(toks: Seq<TokenV>, i: int) -> SpExpr {
    let t = tok_at(toks, i);
    SpExpr {
        expr: Some(ExpressionV::Identifier(IdentifierV { token: t, value: t.literal })),
        next: i,
        errs: Seq::empty(),
    }
}

/// Prefix rule for `Int`: the literal is validated as a signed integer; this
/// is the only place numeric-literal validation occurs.
pub open spec fn sp_parse_integer(toks: Seq<TokenV>, i: int) -> SpExpr {
    let t = tok_at(toks, i);
    if int_literal_ok(t.literal) {
        SpExpr {
            expr: Some(
                ExpressionV::IntegerLiteral(
                    IntegerLiteralV { token: t, value: digits_val(t.literal) as int },
                ),
            ),
            next: i,
            errs: Seq::empty(),
        }
    } else {
        SpExpr { expr: None, next: i, errs: seq![int_parse_msg(t.literal)] }
    }
}

/// Prefix rule for `!` and `-`: record the operator, advance, parse the
/// operand at `Prefix` precedence. If the operand is missing, the expression
/// yields nothing (the error was recorded while parsing the operand).
pub open spec fn sp_parse_prefix(toks: Seq<TokenV>, i: int) -> SpExpr
    decreases toks.len() + 1 - i, 2int,
        when 0 <= i <= toks.len()
{
    let op = tok_at(toks, i);
    let r = sp_parse_expression(toks, adv(toks, i), prec_val(Precedence::Prefix));
    match r.expr {
        Some(right) => SpExpr {
            expr: Some(
                ExpressionV::Prefix(
                    PrefixExpressionV {
                        token: op,
                        operator: op.literal,
                        right: Box::new(right),
                    },
                ),
            ),
            next: r.next,
            errs: r.errs,
        },
        None => SpExpr { expr: None, next: r.next, errs: r.errs },
    }
}

/// Infix rule, identical in shape for each of `+ - / * == != < >`: capture
/// the operator and the already-parsed left expression, advance past the
/// operator, parse the right operand at this operator's own precedence.
pub open spec fn sp_parse_infix(toks: Seq<TokenV>, i: int, left: ExpressionV) -> SpExpr
    decreases toks.len() + 1 - i, 2int,
        when 0 <= i <= toks.len()
{
    let op = tok_at(toks, i);
    let r = sp_parse_expression(toks, adv(toks, i), prec_val(spec_precedences(op.kind)));
    match r.expr {
        Some(right) => SpExpr {
            expr: Some(
                ExpressionV::Infix(
                    InfixExpressionV {
                        token: op,
                        left: Box::new(left),
                        operator: op.literal,
                        right: Box::new(right),
                    },
                ),
            ),
            next: r.next,
            errs: r.errs,
        },
        None => SpExpr { expr: None, next: r.next, errs: r.errs },
    }
}

/// The precedence-climbing loop: while the lookahead is not `;` and binds
/// strictly tighter than the minimum precedence, absorb one infix operator
/// and its right operand into the left expression. Equal precedence binds
/// left.
pub open spec fn sp_infix_loop(toks: Seq<TokenV>, i: int, left: ExpressionV, min_prec: int) -> SpExpr
    decreases toks.len() + 1 - i, 1int,
        when 0 <= i <= toks.len() + 1
{
    let pk = tok_at(toks, i + 1);
    if pk.kind == TokenType::Semicolon || !(min_prec < prec_val(spec_precedences(pk.kind))) {
        SpExpr { expr: Some(left), next: i, errs: Seq::empty() }
    } else if !has_infix_fn(pk.kind) {
        SpExpr { expr: Some(left), next: i, errs: Seq::empty() }
    } else {
        let j = adv(toks, i);
        let r = sp_parse_infix(toks, j, left);
        match r.expr {
            Some(newleft) => {
                let rl = sp_infix_loop(toks, clamp_pos(toks, j + 1, r.next), newleft, min_prec);
                SpExpr { expr: rl.expr, next: rl.next, errs: r.errs + rl.errs }
            },
            None => SpExpr { expr: None, next: r.next, errs: r.errs },
        }
    }
}

/// Parse one expression starting at the current token, absorbing every infix
/// operator that binds tighter than `min_prec`. If the current token has no
/// prefix rule, an error is recorded and no expression is produced.
pub open spec fn sp_parse_expression(toks: Seq<TokenV>, i: int, min_prec: int) -> SpExpr
    decreases toks.len() + 1 - i, 3int,
        when 0 <= i <= toks.len() + 1
{
    let k = tok_at(toks, i).kind;
    if !has_prefix_fn(k) {
        SpExpr { expr: None, next: i, errs: seq![no_prefix_msg(k)] }
    } else {
        let r0 = if k == TokenType::Ident {
            sp_parse_identifier(toks, i)
        } else if k == TokenType::Int {
            sp_parse_integer(toks, i)
        } else {
            sp_parse_prefix(toks, i)
        };
        match r0.expr {
            Some(left) => {
                let rl = sp_infix_loop(toks, clamp_pos(toks, i, r0.next), left, min_prec);
                SpExpr { expr: rl.expr, next: rl.next, errs: r0.errs + rl.errs }
            },
            None => r0,
        }
    }
}

/// The deliberate end-of-statement policy of `let` and `return`: advance
/// token by token until a `;` (or the end of the input) is the current token.
pub open spec fn sp_skip_to_semicolon(toks: Seq<TokenV>, i: int) -> int
    decreases toks.len() + 1 - i,
        when 0 <= i <= toks.len() + 1
{
    let k = tok_at(toks, i).kind;
    if k == TokenType::Semicolon || k == TokenType::EOF {
        i
    } else {
        sp_skip_to_semicolon(toks, adv(toks, i))
    }
}

/// The let-statement rule: `let`, a required `Ident` (the bound name), a
/// required `=`, the value expression at `Lowest` precedence, then skip to
/// the statement's `;`. A missing expected token aborts the statement.
pub open spec fn sp_parse_let(toks: Seq<TokenV>, i: int) -> SpStmt {
    let tok = tok_at(toks, i);
    let pk1 = tok_at(toks, i + 1);
    if pk1.kind != TokenType::Ident {
        SpStmt { stmt: None, next: i, errs: seq![peek_error_msg(TokenType::Ident, pk1.kind)] }
    } else {
        let i1 = adv(toks, i);
        let name_tok = tok_at(toks, i1);
        let name = IdentifierV { token: name_tok, value: name_tok.literal };
        let pk2 = tok_at(toks, i1 + 1);
        if pk2.kind != TokenType::Assign {
            SpStmt {
                stmt: None,
                next: i1,
                errs: seq![peek_error_msg(TokenType::Assign, pk2.kind)],
            }
        } else {
            let i2 = adv(toks, i1);
            let i3 = adv(toks, i2);
            let r = sp_parse_expression(toks, i3, prec_val(Precedence::Lowest));
            let i4 = sp_skip_to_semicolon(toks, clamp_pos(toks, 0, r.next));
            match r.expr {
                Some(v) => SpStmt {
                    stmt: Some(StatementV::Let(LetStatementV { token: tok, name, value: v })),
                    next: i4,
                    errs: r.errs,
                },
                None => SpStmt { stmt: None, next: i4, errs: r.errs },
            }
        }
    }
}

/// The return-statement rule: `return`, the value expression, then skip to
/// the statement's `;`.
pub open spec fn sp_parse_return(toks: Seq<TokenV>, i: int) -> SpStmt {
    let tok = tok_at(toks, i);
    let i1 = adv(toks, i);
    let r = sp_parse_expression(toks, i1, prec_val(Precedence::Lowest));
    let i2 = sp_skip_to_semicolon(toks, clamp_pos(toks, 0, r.next));
    match r.expr {
        Some(v) => SpStmt {
            stmt: Some(StatementV::Return(ReturnStatementV { token: tok, return_value: v })),
            next: i2,
            errs: r.errs,
        },
        None => SpStmt { stmt: None, next: i2, errs: r.errs },
    }
}

/// The expression-statement rule: one expression at `Lowest` precedence; a
/// trailing `;` is optional and consumed if present.
pub open spec fn sp_parse_expression_statement(toks: Seq<TokenV>, i: int) -> SpStmt {
    let tok = tok_at(toks, i);
    let r = sp_parse_expression(toks, i, prec_val(Precedence::Lowest));
    let i2 = if tok_at(toks, r.next + 1).kind == TokenType::Semicolon {
        adv(toks, clamp_pos(toks, 0, r.next))
    } else {
        r.next
    };
    match r.expr {
        Some(e) => SpStmt {
            stmt: Some(
                StatementV::Expression(ExpressionStatementV { token: tok, expression: e }),
            ),
            next: i2,
            errs: r.errs,
        },
        None => SpStmt { stmt: None, next: i2, errs: r.errs },
    }
}

/// Statement dispatch: `let` and `return` have their own rules; anything else
/// is an expression statement.
pub open spec fn sp_parse_statement(toks: Seq<TokenV>, i: int) -> SpStmt {
    let k = tok_at(toks, i).kind;
    if k == TokenType::Let {
        sp_parse_let(toks, i)
    } else if k == TokenType::Return {
        sp_parse_return(toks, i)
    } else {
        sp_parse_expression_statement(toks, i)
    }
}

/// The whole program: statements are parsed until the cursor reaches `EOF`;
/// a statement that aborted contributes nothing, and the cursor then advances
/// past the statement's last token. Errors accumulate across statements.
pub open spec fn sp_parse_program(toks: Seq<TokenV>, i: int) -> SpProg
    decreases toks.len() + 1 - i,
        when 0 <= i <= toks.len() + 1
{
    if tok_at(toks, i).kind == TokenType::EOF {
        SpProg { stmts: Seq::empty(), next: i, errs: Seq::empty() }
    } else {
        let r = sp_parse_statement(toks, i);
        let i1 = adv(toks, clamp_pos(toks, i, r.next));
        let rest = sp_parse_program(toks, i1);
        SpProg {
            stmts: (match r.stmt {
                Some(s) => seq![s],
                None => Seq::empty(),
            }) + rest.stmts,
            next: rest.next,
            errs: r.errs + rest.errs,
        }
    }
}


// ===========================================================================
// THE EXECUTABLE PARSER
// ===========================================================================
/// State carried while parsing: the token stream, the cursor (`pos` is the
/// current token; one token of lookahead is `pos + 1`), and the accumulated
/// list of human-readable error strings.
pub struct Parser {
    tokens: Vec<Token>,
    pos: usize,
    eof: Token,  // The virtual token seen past the end of the stream.
    pub errors: Vec<String>,
}

impl Parser {
    /// The models of the tokens being parsed.
    pub closed spec fn toks(&self) -> Seq<TokenV> {
        self.tokens@.map_values(|t: Token| t@)
    }

    /// The cursor: index of the current token.
    pub closed spec fn idx(&self) -> int {
        self.pos as int
    }

    /// The models of the accumulated error messages.
    pub closed spec fn errs(&self) -> Seq<Seq<char>> {
        self.errors@.map_values(|s: String| s@)
    }

    pub closed spec fn wf(&self) -> bool {
        &&& self.pos <= self.tokens@.len() + 1
        &&& self.tokens@.len() + 2 <= usize::MAX
        &&& self.eof@ == eof_tv()
    }

    /// Drain the given lexer and parse its tokens.
    pub fn from_lexer(lexer: Lexer<'_>) -> (p: Parser)
        requires
            lexer.wf(),
        ensures
            p.wf(),
            p.idx() == 0,
            p.toks() == spec_tokens(lexer.src(), lexer.pos()),
            p.errs() =~= Seq::<Seq<char>>::empty(),
    {
        let mut lexer = lexer;
        proof {
            lexer.lemma_wf();
            lemma_spec_tokens_len(lexer.src(), lexer.pos());
        }
        let tokens = lexer.tokens();
        proof {
            reveal_strlit("");
            assert(""@ =~= Seq::<char>::empty());
        }
        Parser { tokens, pos: 0, eof: Token::new(TokenType::EOF, ""), errors: Vec::new() }
    }

    /// Drain the given lexer and parse its tokens.
    pub fn new(lexer: Lexer<'_>) -> (p: Parser)
        requires
            lexer.wf(),
        ensures
            p.wf(),
            p.idx() == 0,
            p.toks() == spec_tokens(lexer.src(), lexer.pos()),
            p.errs() =~= Seq::<Seq<char>>::empty(),
    {
        Parser::from_lexer(lexer)
    }

    // The current token; every position past the end of the stream holds EOF.
    fn cur(&self) -> (t: &Token)
        requires
            self.wf(),
        ensures
            t@ == tok_at(self.toks(), self.idx()),
    {
        if self.pos < self.tokens.len() {
            &self.tokens[self.pos]
        } else {
            &self.eof
        }
    }

    // The one-token lookahead.
    fn peek(&self) -> (t: &Token)
        requires
            self.wf(),
        ensures
            t@ == tok_at(self.toks(), self.idx() + 1),
    {
        if self.pos + 1 < self.tokens.len() {
            &self.tokens[self.pos + 1]
        } else {
            &self.eof
        }
    }

    // Advance the cursor by one token.
    fn next_token(&mut self)
        requires
            old(self).wf(),
        ensures
            final(self).wf(),
            final(self).toks() == old(self).toks(),
            final(self).errs() == old(self).errs(),
            final(self).idx() == adv(old(self).toks(), old(self).idx()),
    {
        if self.pos <= self.tokens.len() {
            self.pos = self.pos + 1;
        }
    }

    // Check if the current token is of the expected type.
    fn cur_token_is(&self, token_type: &TokenType) -> (r: bool)
        requires
            self.wf(),
        ensures
            r == (tok_at(self.toks(), self.idx()).kind == *token_type),
    {
        self.cur().token_type == *token_type
    }

    // Check if the next token is of the expected type.
    fn peek_token_is(&self, token_type: &TokenType) -> (r: bool)
        requires
            self.wf(),
        ensures
            r == (tok_at(self.toks(), self.idx() + 1).kind == *token_type),
    {
        self.peek().token_type == *token_type
    }

    // Record that the lookahead was not of the expected type.
    fn peek_error(&mut self, token_type: &TokenType)
        requires
            old(self).wf(),
        ensures
            final(self).wf(),
            final(self).toks() == old(self).toks(),
            final(self).idx() == old(self).idx(),
            final(self).errs() =~= old(self).errs().push(
                peek_error_msg(*token_type, tok_at(old(self).toks(), old(self).idx() + 1).kind),
            ),
    {
        let mut msg = String::new();
        msg.append("Expected next token to be ");
        msg.append(kind_name_str(*token_type));
        msg.append(", got ");
        msg.append(kind_name_str(self.peek().token_type));
        msg.append(" instead");
        proof {
            lemma_errs_push(self.errors@, msg);
        }
        self.errors.push(msg);
    }

    // If the next token is the expected one, advance to it and return true;
    // otherwise record an error, stay put and return false.
    fn expect_peek(&mut self, token_type: &TokenType) -> (r: bool)
        requires
            old(self).wf(),
        ensures
            final(self).wf(),
            final(self).toks() == old(self).toks(),
            r == (tok_at(old(self).toks(), old(self).idx() + 1).kind == *token_type),
            r ==> final(self).idx() == adv(old(self).toks(), old(self).idx()) && final(self).errs()
                == old(self).errs(),
            !r ==> final(self).idx() == old(self).idx() && final(self).errs() =~= old(
                self,
            ).errs().push(
                peek_error_msg(*token_type, tok_at(old(self).toks(), old(self).idx() + 1).kind),
            ),
    {
        if self.peek_token_is(token_type) {
            self.next_token();
            true
        } else {
            self.peek_error(token_type);
            false
        }
    }

    // Every token kind maps to some precedence, defaulting to Lowest.
    fn precedences(token_type: &TokenType) -> (p: Precedence)
        ensures
            p == spec_precedences(*token_type),
    {
        match token_type {
            TokenType::Equal | TokenType::NotEqual => Precedence::Equals,
            TokenType::LT | TokenType::GT => Precedence::LessGreater,
            TokenType::Plus | TokenType::Minus => Precedence::Sum,
            TokenType::Slash | TokenType::Asterisk => Precedence::Product,
            TokenType::LParen => Precedence::Call,
            _ => Precedence::Lowest,
        }
    }

    fn peek_precedence(&self) -> (p: Precedence)
        requires
            self.wf(),
        ensures
            p == spec_precedences(tok_at(self.toks(), self.idx() + 1).kind),
    {
        Parser::precedences(&self.peek().token_type)
    }

    fn cur_precedence(&self) -> (p: Precedence)
        requires
            self.wf(),
        ensures
            p == spec_precedences(tok_at(self.toks(), self.idx()).kind),
    {
        Parser::precedences(&self.cur().token_type)
    }
}

// Whether an infix rule is registered for the kind.
fn token_has_infix(k: TokenType) -> (r: bool)
    ensures
        r == has_infix_fn(k),
{
    match k {
        TokenType::Plus | TokenType::Minus | TokenType::Slash | TokenType::Asterisk
            | TokenType::Equal | TokenType::NotEqual | TokenType::LT | TokenType::GT => true,
        _ => false,
    }
}

// The display name of a token kind, for error messages.
fn kind_name_str(k: TokenType) -> (s: &'static str)
    ensures
        s@ == kind_name(k),
{
    match k {
        TokenType::Illegal => "Illegal",
        TokenType::EOF => "EOF",
        TokenType::Ident => "Ident",
        TokenType::Int => "Int",
        TokenType::Assign => "Assign",
        TokenType::Plus => "Plus",
        TokenType::Minus => "Minus",
        TokenType::Bang => "Bang",
        TokenType::Asterisk => "Asterisk",
        TokenType::Slash => "Slash",
        TokenType::LT => "LT",
        TokenType::GT => "GT",
        TokenType::Equal => "Equal",
        TokenType::NotEqual => "NotEqual",
        TokenType::Comma => "Comma",
        TokenType::Semicolon => "Semicolon",
        TokenType::LParen => "LParen",
        TokenType::RParen => "RParen",
        TokenType::LBrace => "LBrace",
        TokenType::RBrace => "RBrace",
        TokenType::Function => "Function",
        TokenType::Let => "Let",
        TokenType::True => "True",
        TokenType::False => "False",
        TokenType::If => "If",
        TokenType::Else => "Else",
        TokenType::Return => "Return",
    }
}

proof fn lemma_errs_push(v: Seq<String>, m: String)
    ensures
        v.push(m).map_values(|s: String| s@) =~= v.map_values(|s: String| s@).push(m@),
{
}

// ===========================================================================
// INTEGER LITERAL PARSING
// ===========================================================================
/// Longer digit runs have values at least as large as their prefixes.
proof fn lemma_digits_val_prefix(s: Seq<char>, i: int)
    requires
        0 <= i <= s.len(),
    ensures
        digits_val(s.subrange(0, i)) <= digits_val(s),
    decreases s.len() - i,
{
    if i < s.len() {
        lemma_digits_val_prefix(s, i + 1);
        assert(s.subrange(0, i + 1).drop_last() =~= s.subrange(0, i));
        assert(digits_val(s.subrange(0, i)) <= digits_val(s.subrange(0, i + 1)));
    } else {
        assert(s.subrange(0, i) =~= s);
    }
}

// Parse a nonempty run of decimal digits as an i64, rejecting anything else
// and any value that does not fit.
fn parse_i64_digits(s: &str) -> (r: Option<i64>)
    ensures
        r is Some <==> int_literal_ok(s@),
        match r {
            Some(v) => v as int == digits_val(s@),
            None => !int_literal_ok(s@),
        },
{
    let n = s.unicode_len();
    if n == 0 {
        return None;
    }
    let mut acc: i64 = 0;
    let mut i: usize = 0;
    while i < n
        invariant
            n == s@.len(),
            0 < n,
            i <= n,
            forall|j: int| 0 <= j < i ==> is_digit_char(#[trigger] s@[j]),
            0 <= acc,
            acc as int == digits_val(s@.subrange(0, i as int)),
        decreases n - i,
    {
        let c = s.get_char(i);
        let u = c as u32;
        if !(48 <= u && u <= 57) {
            assert(!is_digit_char(s@[i as int]));
            return None;
        }
        let d = (u - 48) as i64;
        proof {
            assert(s@.subrange(0, i + 1).drop_last() =~= s@.subrange(0, i as int));
            assert(s@.subrange(0, i + 1).last() == s@[i as int]);
        }
        if acc > 922337203685477580i64 || (acc == 922337203685477580i64 && d > 7) {
            // The value overflows an i64 already on this prefix, so the whole
            // literal cannot fit either.
            proof {
                if int_literal_ok(s@) {
                    lemma_digits_val_prefix(s@, i + 1);
                }
            }
            return None;
        }
        acc = acc * 10 + d;
        i = i + 1;
    }
    proof {
        assert(s@.subrange(0, n as int) =~= s@);
    }
    Some(acc)
}


/// The parsed expression matches the one the grammar prescribes.
pub open spec fn expr_opt_matches(e: Option<Expression>, se: Option<ExpressionV>) -> bool {
    match e {
        Some(x) => se == Some(crate::ast::expr_view(x)),
        None => se is None,
    }
}

/// The parsed statement matches the one the grammar prescribes.
pub open spec fn stmt_opt_matches(s: Option<Statement>, ss: Option<StatementV>) -> bool {
    match s {
        Some(x) => ss == Some(crate::ast::stmt_view(x)),
        None => ss is None,
    }
}

impl Parser {
    // Prefix rule for Ident: an identifier named by the current token.
    fn parse_identifier(&mut self) -> (e: Option<Expression>)
        requires
            old(self).wf(),
        ensures
            final(self).wf(),
            final(self).toks() == old(self).toks(),
            final(self).idx() == old(self).idx(),
            final(self).errs() == old(self).errs(),
            expr_opt_matches(e, sp_parse_identifier(old(self).toks(), old(self).idx()).expr),
    {
        Some(Expression::Identifier(Identifier::new(self.cur())))
    }

    // Prefix rule for Int: parse the literal as a signed integer; on failure,
    // record an error and yield no expression.
    fn parse_integer_literal(&mut self) -> (e: Option<Expression>)
        requires
            old(self).wf(),
        ensures
            final(self).wf(),
            final(self).toks() == old(self).toks(),
            final(self).idx() == old(self).idx(),
            ({
                let r = sp_parse_integer(old(self).toks(), old(self).idx());
                expr_opt_matches(e, r.expr) && final(self).errs() =~= old(self).errs() + r.errs
            }),
    {
        let lit = self.cur().literal();
        match parse_i64_digits(lit.as_str()) {
            Some(value) => {
                let e = Some(Expression::IntegerLiteral(IntegerLiteral::new(self.cur(), value)));
                proof {
                    assert(self.errs() =~= self.errs() + Seq::<Seq<char>>::empty());
                }
                e
            },
            None => {
                let mut msg = String::new();
                msg.append("Could not parse ");
                msg.append(lit.as_str());
                msg.append(" as integer");
                proof {
                    assert(msg@ =~= int_parse_msg(lit@));
                    lemma_errs_push(self.errors@, msg);
                }
                self.errors.push(msg);
                proof {
                    assert(self.errs() =~= old(self).errs() + seq![
                        int_parse_msg(
                            tok_at(old(self).toks(), old(self).idx()).literal,
                        ),
                    ]);
                }
                None
            },
        }
    }

    // Prefix rule for ! and -: record the operator text, advance, and parse
    // the operand at Prefix precedence.
    fn parse_prefix_expression(&mut self) -> (e: Option<Expression>)
        requires
            old(self).wf(),
            old(self).idx() <= old(self).toks().len(),
        ensures
            final(self).wf(),
            final(self).toks() == old(self).toks(),
            old(self).idx() <= final(self).idx(),
            ({
                let r = sp_parse_prefix(old(self).toks(), old(self).idx());
                expr_opt_matches(e, r.expr) && final(self).idx() == r.next && final(self).errs()
                    =~= old(self).errs() + r.errs
            }),
        decreases old(self).toks().len() + 1 - old(self).idx(), 2int,
    {
        let mut expr_builder = PrefixExpressionBuilder::new(self.cur());
        expr_builder.operator(self.cur().literal());

        self.next_token();

        let right = self.parse_expression(Precedence::Prefix);
        let has_right = right.is_some();
        expr_builder.right(right);

        if has_right {
            Some(Expression::Prefix(Box::new(expr_builder.build())))
        } else {
            None
        }
    }

    // Infix rule, shared by + - / * == != < >: capture the operator and the
    // already-parsed left expression, advance past the operator, and parse the
    // right operand at this operator's own precedence.
    fn parse_infix_expression(&mut self, left: Expression) -> (e: Option<Expression>)
        requires
            old(self).wf(),
            old(self).idx() <= old(self).toks().len(),
        ensures
            final(self).wf(),
            final(self).toks() == old(self).toks(),
            old(self).idx() < final(self).idx(),
            ({
                let r = sp_parse_infix(
                    old(self).toks(),
                    old(self).idx(),
                    crate::ast::expr_view(left),
                );
                expr_opt_matches(e, r.expr) && final(self).idx() == r.next && final(self).errs()
                    =~= old(self).errs() + r.errs
            }),
        decreases old(self).toks().len() + 1 - old(self).idx(), 2int,
    {
        let mut expr_builder = InfixExpressionBuilder::new(self.cur());
        expr_builder.operator(self.cur().literal());
        expr_builder.left(Some(left));

        let precedence = self.cur_precedence();
        self.next_token();
        let right = self.parse_expression(precedence);
        let has_right = right.is_some();
        expr_builder.right(right);

        if has_right {
            Some(Expression::Infix(Box::new(expr_builder.build())))
        } else {
            None
        }
    }

    // Parse one expression: look up the prefix rule for the current token
    // (recording an error if none exists), then absorb every upcoming infix
    // operator that binds strictly tighter than `precedence`. Equal precedence
    // binds left.
    #[verifier::loop_isolation(false)]
    fn parse_expression(&mut self, precedence: Precedence) -> (e: Option<Expression>)
        requires
            old(self).wf(),
        ensures
            final(self).wf(),
            final(self).toks() == old(self).toks(),
            old(self).idx() <= final(self).idx(),
            ({
                let r = sp_parse_expression(
                    old(self).toks(),
                    old(self).idx(),
                    prec_val(precedence),
                );
                expr_opt_matches(e, r.expr) && final(self).idx() == r.next && final(self).errs()
                    =~= old(self).errs() + r.errs
            }),
        decreases old(self).toks().len() + 1 - old(self).idx(), 3int,
    {
        let ghost toks = old(self).toks();
        let ghost i0 = old(self).idx();
        let ghost mp = prec_val(precedence);
        let k = self.cur().token_type;
        let left_opt: Option<Expression> = match k {
            TokenType::Ident => self.parse_identifier(),
            TokenType::Int => self.parse_integer_literal(),
            TokenType::Bang => self.parse_prefix_expression(),
            TokenType::Minus => self.parse_prefix_expression(),
            _ => {
                let mut msg = String::new();
                msg.append("No prefix parse function found for ");
                msg.append(kind_name_str(k));
                proof {
                    assert(msg@ =~= no_prefix_msg(k));
                    lemma_errs_push(self.errors@, msg);
                }
                self.errors.push(msg);
                proof {
                    assert(self.errs() =~= old(self).errs() + seq![no_prefix_msg(k)]);
                }
                return None;
            },
        };
        let ghost r0 = if k == TokenType::Ident {
            sp_parse_identifier(toks, i0)
        } else if k == TokenType::Int {
            sp_parse_integer(toks, i0)
        } else {
            sp_parse_prefix(toks, i0)
        };
        let mut left = match left_opt {
            Some(l) => l,
            None => {
                return None;
            },
        };
        proof {
            assert(clamp_pos(toks, i0, r0.next) == r0.next);
        }
        let ghost i1 = self.idx();
        let ghost left0 = left@;
        let ghost errs1 = self.errs();
        let mut done = false;
        while !done
            invariant
                self.wf(),
                self.toks() == toks,
                i0 <= i1 <= self.idx() <= toks.len() + 1,
                ({
                    let rt = sp_infix_loop(toks, i1, left0, mp);
                    let rn = sp_infix_loop(toks, self.idx(), left@, mp);
                    &&& rt.expr == rn.expr
                    &&& rt.next == rn.next
                    &&& errs1 + rt.errs =~= self.errs() + rn.errs
                }),
                done ==> ({
                    let rt = sp_infix_loop(toks, i1, left0, mp);
                    &&& rt.expr == Some(left@)
                    &&& rt.next == self.idx()
                    &&& errs1 + rt.errs =~= self.errs()
                }),
            decreases toks.len() + 1 - self.idx() + (if done {
                0int
            } else {
                1int
            }),
        {
            let stop = if self.peek_token_is(&TokenType::Semicolon) {
                true
            } else if {
                let pp = self.peek_precedence();
                !(precedence.value() < pp.value())
            } {
                true
            } else {
                !token_has_infix(self.peek().token_type)
            };
            if stop {
                proof {
                    let rn = sp_infix_loop(toks, self.idx(), left@, mp);
                    assert(rn.errs =~= Seq::<Seq<char>>::empty());
                    assert(self.errs() + rn.errs =~= self.errs());
                    assert(errs1 + sp_infix_loop(toks, i1, left0, mp).errs =~= self.errs());
                }
                done = true;
            } else {
                let ghost i_before = self.idx();
                let ghost errs_before = self.errs();
                let ghost lv = left@;
                proof {
                    assert(i_before + 1 < toks.len());
                    assert(adv(toks, i_before) == i_before + 1);
                }
                self.next_token();
                let res = self.parse_infix_expression(left);
                let ghost r = sp_parse_infix(toks, i_before + 1, lv);
                match res {
                    Some(l2) => {
                        left = l2;
                        proof {
                            assert(self.idx() == r.next);
                            assert(r.expr == Some(left@));
                            assert(clamp_pos(toks, i_before + 2, self.idx()) == self.idx());
                            let rn_before = sp_infix_loop(toks, i_before, lv, mp);
                            let rn_now = sp_infix_loop(toks, self.idx(), left@, mp);
                            assert(rn_before.errs =~= r.errs + rn_now.errs);
                            assert(self.errs() =~= errs_before + r.errs);
                            assert(errs1 + sp_infix_loop(toks, i1, left0, mp).errs =~= self.errs()
                                + sp_infix_loop(toks, self.idx(), left@, mp).errs);
                        }
                    },
                    None => {
                        proof {
                            assert(self.idx() == r.next);
                            let rn_before = sp_infix_loop(toks, i_before, lv, mp);
                            assert(rn_before.expr is None);
                            assert(rn_before.errs =~= r.errs);
                            assert(self.errs() =~= errs_before + r.errs);
                            assert(self.errs() =~= errs1 + sp_infix_loop(toks, i1, left0, mp).errs);
                            assert(self.errs() =~= old(self).errs() + sp_parse_expression(
                                toks,
                                i0,
                                mp,
                            ).errs);
                        }
                        return None;
                    },
                }
            }
        }
        proof {
            assert(self.errs() =~= old(self).errs() + sp_parse_expression(toks, i0, mp).errs);
        }
        Some(left)
    }
}


impl Parser {
    // The let-statement rule: require `let`, a following Ident (the bound
    // name), then `=`, then the value expression at Lowest precedence; finally
    // land on the statement's `;`. A missing expected token aborts the
    // statement without resuming elsewhere.
    #[verifier::loop_isolation(false)]
    fn parse_let_statement(&mut self) -> (s: Option<Statement>)
        requires
            old(self).wf(),
        ensures
            final(self).wf(),
            final(self).toks() == old(self).toks(),
            old(self).idx() <= final(self).idx(),
            ({
                let r = sp_parse_let(old(self).toks(), old(self).idx());
                stmt_opt_matches(s, r.stmt) && final(self).idx() == r.next && final(self).errs()
                    =~= old(self).errs() + r.errs
            }),
    {
        let ghost toks = old(self).toks();
        let ghost i0 = old(self).idx();
        let mut stmt_builder = LetStatementBuilder::new(self.cur());

        if !self.expect_peek(&TokenType::Ident) {
            proof {
                assert(self.errs() =~= old(self).errs() + seq![
                    peek_error_msg(TokenType::Ident, tok_at(toks, i0 + 1).kind),
                ]);
            }
            return None;
        }
        stmt_builder.name(Identifier::new(self.cur()));

        if !self.expect_peek(&TokenType::Assign) {
            proof {
                assert(self.errs() =~= old(self).errs() + seq![
                    peek_error_msg(TokenType::Assign, tok_at(toks, i0 + 2).kind),
                ]);
            }
            return None;
        }

        self.next_token();
        let value = self.parse_expression(Precedence::Lowest);
        let has_value = value.is_some();
        stmt_builder.value(value);

        let ghost skip_start = self.idx();
        while !self.cur_token_is(&TokenType::Semicolon) && !self.cur_token_is(&TokenType::EOF)
            invariant
                self.wf(),
                self.toks() == toks,
                skip_start <= self.idx() <= toks.len() + 1,
                self.errs() == old(self).errs() + sp_parse_let(toks, i0).errs,
                sp_skip_to_semicolon(toks, self.idx()) == sp_skip_to_semicolon(toks, skip_start),
            decreases toks.len() + 1 - self.idx(),
        {
            self.next_token();
        }

        if has_value {
            Some(Statement::Let(stmt_builder.build()))
        } else {
            None
        }
    }

    // The return-statement rule: require `return`, parse the value expression,
    // then land on the statement's `;`, with the same resume policy as `let`.
    #[verifier::loop_isolation(false)]
    fn parse_return_statement(&mut self) -> (s: Option<Statement>)
        requires
            old(self).wf(),
        ensures
            final(self).wf(),
            final(self).toks() == old(self).toks(),
            old(self).idx() <= final(self).idx(),
            ({
                let r = sp_parse_return(old(self).toks(), old(self).idx());
                stmt_opt_matches(s, r.stmt) && final(self).idx() == r.next && final(self).errs()
                    =~= old(self).errs() + r.errs
            }),
    {
        let ghost toks = old(self).toks();
        let ghost i0 = old(self).idx();
        let mut stmt_builder = ReturnStatementBuilder::new(self.cur());

        self.next_token();

        let return_value = self.parse_expression(Precedence::Lowest);
        let has_value = return_value.is_some();
        stmt_builder.return_value(return_value);

        let ghost skip_start = self.idx();
        while !self.cur_token_is(&TokenType::Semicolon) && !self.cur_token_is(&TokenType::EOF)
            invariant
                self.wf(),
                self.toks() == toks,
                skip_start <= self.idx() <= toks.len() + 1,
                self.errs() == old(self).errs() + sp_parse_return(toks, i0).errs,
                sp_skip_to_semicolon(toks, self.idx()) == sp_skip_to_semicolon(toks, skip_start),
            decreases toks.len() + 1 - self.idx(),
        {
            self.next_token();
        }

        if has_value {
            Some(Statement::Return(stmt_builder.build()))
        } else {
            None
        }
    }

    // The expression-statement rule: one expression at Lowest precedence; a
    // trailing `;` is optional and consumed if present.
    fn parse_expression_statement(&mut self) -> (s: Option<Statement>)
        requires
            old(self).wf(),
        ensures
            final(self).wf(),
            final(self).toks() == old(self).toks(),
            old(self).idx() <= final(self).idx(),
            ({
                let r = sp_parse_expression_statement(old(self).toks(), old(self).idx());
                stmt_opt_matches(s, r.stmt) && final(self).idx() == r.next && final(self).errs()
                    =~= old(self).errs() + r.errs
            }),
    {
        let mut stmt_builder = ExpressionStatementBuilder::new(self.cur());

        let expression = self.parse_expression(Precedence::Lowest);
        let has_expression = expression.is_some();
        stmt_builder.expression(expression);

        // The semicolon is optional: consume it if present.
        if self.peek_token_is(&TokenType::Semicolon) {
            self.next_token();
        }

        if has_expression {
            Some(Statement::Expression(stmt_builder.build()))
        } else {
            None
        }
    }

    // Statement dispatch: `let` and `return` have their own rules; anything
    // else parses as an expression statement.
    fn parse_statement(&mut self) -> (s: Option<Statement>)
        requires
            old(self).wf(),
        ensures
            final(self).wf(),
            final(self).toks() == old(self).toks(),
            old(self).idx() <= final(self).idx(),
            ({
                let r = sp_parse_statement(old(self).toks(), old(self).idx());
                stmt_opt_matches(s, r.stmt) && final(self).idx() == r.next && final(self).errs()
                    =~= old(self).errs() + r.errs
            }),
    {
        match self.cur().token_type {
            TokenType::Let => self.parse_let_statement(),
            TokenType::Return => self.parse_return_statement(),
            _ => self.parse_expression_statement(),
        }
    }

    /// Parse statements until the end of the input, collecting them into a
    /// `Program`. Errors never abort the parse: a statement that failed
    /// contributes nothing, and parsing resumes at the next statement. The
    /// accumulated errors are in `self.errors` afterwards.
    #[verifier::loop_isolation(false)]
    pub fn parse_program(&mut self) -> (program: Program)
        requires
            old(self).wf(),
        ensures
            final(self).wf(),
            final(self).toks() == old(self).toks(),
            ({
                let r = sp_parse_program(old(self).toks(), old(self).idx());
                &&& program@ =~= r.stmts
                &&& final(self).idx() == r.next
                &&& final(self).errs() =~= old(self).errs() + r.errs
            }),
    {
        let ghost toks = old(self).toks();
        let ghost i0 = old(self).idx();
        let mut program = Program::new();

        while !self.cur_token_is(&TokenType::EOF)
            invariant
                self.wf(),
                self.toks() == toks,
                i0 <= self.idx() <= toks.len() + 1,
                ({
                    let rt = sp_parse_program(toks, i0);
                    let rn = sp_parse_program(toks, self.idx());
                    &&& program@ + rn.stmts =~= rt.stmts
                    &&& rn.next == rt.next
                    &&& old(self).errs() + rt.errs =~= self.errs() + rn.errs
                }),
            decreases toks.len() + 1 - self.idx(),
        {
            let ghost i_before = self.idx();
            let ghost errs_before = self.errs();
            let ghost prog_before = program@;
            let stmt_opt = self.parse_statement();
            let ghost r = sp_parse_statement(toks, i_before);
            match stmt_opt {
                Some(stmt) => {
                    program.push(stmt);
                },
                None => {},
            }
            self.next_token();
            proof {
                assert(clamp_pos(toks, i_before, r.next) == r.next);
                let rn_before = sp_parse_program(toks, i_before);
                let rn_now = sp_parse_program(toks, self.idx());
                assert(rn_before.stmts =~= (match r.stmt {
                    Some(st) => seq![st],
                    None => Seq::<StatementV>::empty(),
                }) + rn_now.stmts);
                assert(program@ =~= prog_before + (match r.stmt {
                    Some(st) => seq![st],
                    None => Seq::<StatementV>::empty(),
                }));
                assert(program@ + rn_now.stmts =~= sp_parse_program(toks, i0).stmts);
                assert(self.errs() =~= errs_before + r.errs);
                assert(old(self).errs() + sp_parse_program(toks, i0).errs =~= self.errs()
                    + rn_now.errs);
            }
        }
        proof {
            let rn = sp_parse_program(toks, self.idx());
            assert(rn.stmts =~= Seq::<StatementV>::empty());
            assert(rn.errs =~= Seq::<Seq<char>>::empty());
            assert(program@ =~= sp_parse_program(toks, i0).stmts);
            assert(self.errs() =~= old(self).errs() + sp_parse_program(toks, i0).errs);
        }
        program
    }
}


// ===========================================================================
// LAWS OF THE PARSER
// ===========================================================================
/// Error accumulation without crash: a token that can start no expression
/// (standing where an expression is required) makes the parse of the program
/// yield no statement but exactly one recorded error — the parse still ends
/// normally with an (empty) program.
pub proof fn lemma_error_accumulation(tv: TokenV)
    requires
        !has_prefix_fn(tv.kind),
        tv.kind != TokenType::Let,
        tv.kind != TokenType::Return,
        tv.kind != TokenType::EOF,
    ensures
        sp_parse_program(seq![tv], 0).stmts =~= Seq::<StatementV>::empty(),
        sp_parse_program(seq![tv], 0).errs =~= seq![no_prefix_msg(tv.kind)],
{
    let toks = seq![tv];
    let r = sp_parse_expression(toks, 0, prec_val(Precedence::Lowest));
    assert(r.expr is None && r.next == 0 && r.errs =~= seq![no_prefix_msg(tv.kind)]);
    let rs = sp_parse_expression_statement(toks, 0);
    assert(tok_at(toks, 1) == eof_tv());
    assert(rs.stmt is None && rs.errs =~= seq![no_prefix_msg(tv.kind)]);
    assert(rs.next == 0);
    let rp = sp_parse_program(toks, 0);
    assert(clamp_pos(toks, 0, 0) == 0);
    assert(tok_at(toks, adv(toks, 0)).kind == TokenType::EOF);
    assert(sp_parse_program(toks, 1).stmts =~= Seq::<StatementV>::empty());
    assert(rp.stmts =~= Seq::<StatementV>::empty());
    assert(rp.errs =~= seq![no_prefix_msg(tv.kind)]);
}

/// The infix node an operator builds from its two operands.
pub open spec fn infix_of(l: ExpressionV, op: TokenV, r: ExpressionV) -> ExpressionV {
    ExpressionV::Infix(
        InfixExpressionV {
            token: op,
            left: Box::new(l),
            operator: op.literal,
            right: Box::new(r),
        },
    )
}

/// The expression node an identifier token parses to.
pub open spec fn ident_of(t: TokenV) -> ExpressionV {
    ExpressionV::Identifier(IdentifierV { token: t, value: t.literal })
}

/// Precedence correctness, stated over the grammar: parsing `a op1 b op2 c`
/// (identifiers `a b c`, infix operators `op1 op2`) groups left when the
/// upcoming operator binds no tighter — equal precedence binds left — and
/// groups right exactly when the upcoming operator binds strictly tighter.
pub proof fn lemma_precedence_grouping(a: TokenV, op1: TokenV, b: TokenV, op2: TokenV, c: TokenV)
    requires
        a.kind == TokenType::Ident,
        b.kind == TokenType::Ident,
        c.kind == TokenType::Ident,
        has_infix_fn(op1.kind),
        has_infix_fn(op2.kind),
    ensures
        ({
            let toks = seq![a, op1, b, op2, c];
            let r = sp_parse_expression(toks, 0, prec_val(Precedence::Lowest));
            let p1 = prec_val(spec_precedences(op1.kind));
            let p2 = prec_val(spec_precedences(op2.kind));
            &&& r.errs =~= Seq::<Seq<char>>::empty()
            &&& p2 <= p1 ==> r.expr == Some(
                infix_of(infix_of(ident_of(a), op1, ident_of(b)), op2, ident_of(c)),
            )
            &&& p2 > p1 ==> r.expr == Some(
                infix_of(ident_of(a), op1, infix_of(ident_of(b), op2, ident_of(c))),
            )
        }),
{
    let toks = seq![a, op1, b, op2, c];
    let p1 = prec_val(spec_precedences(op1.kind));
    let p2 = prec_val(spec_precedences(op2.kind));
    assert(tok_at(toks, 0) == a && tok_at(toks, 1) == op1 && tok_at(toks, 2) == b && tok_at(
        toks,
        3,
    ) == op2 && tok_at(toks, 4) == c && tok_at(toks, 5) == eof_tv());
    assert(2 <= p1 <= 5 && 2 <= p2 <= 5);

    // The right operand of op2 is just `c`: past it the stream ends.
    let rc = sp_parse_expression(toks, 4, p2);
    assert(sp_infix_loop(toks, 4, ident_of(c), p2).expr == Some(ident_of(c)));
    assert(rc.expr == Some(ident_of(c)) && rc.next == 4 && rc.errs =~= Seq::<Seq<char>>::empty());

    if p2 <= p1 {
        // op2 does not bind tighter: the operand of op1 stops at `b`, and the
        // loop at the bottom level absorbs op2 with (a op1 b) as its left.
        let rb = sp_parse_expression(toks, 2, p1);
        assert(sp_infix_loop(toks, 2, ident_of(b), p1).expr == Some(ident_of(b)));
        assert(rb.expr == Some(ident_of(b)) && rb.next == 2);
        let r1 = sp_parse_infix(toks, 1, ident_of(a));
        assert(r1.expr == Some(infix_of(ident_of(a), op1, ident_of(b))) && r1.next == 2);
        let l1 = infix_of(ident_of(a), op1, ident_of(b));
        let r2 = sp_parse_infix(toks, 3, l1);
        assert(r2.expr == Some(infix_of(l1, op2, ident_of(c))) && r2.next == 4);
        assert(sp_infix_loop(toks, 4, infix_of(l1, op2, ident_of(c)), prec_val(
            Precedence::Lowest,
        )).expr == Some(infix_of(l1, op2, ident_of(c))));
        assert(clamp_pos(toks, 2, r1.next) == 2);
        assert(clamp_pos(toks, 4, r2.next) == 4);
        assert(sp_infix_loop(toks, 2, l1, prec_val(Precedence::Lowest)).expr == Some(
            infix_of(l1, op2, ident_of(c)),
        ));
        assert(sp_infix_loop(toks, 0, ident_of(a), prec_val(Precedence::Lowest)).expr == Some(
            infix_of(l1, op2, ident_of(c)),
        ));
        assert(sp_parse_expression(toks, 0, prec_val(Precedence::Lowest)).errs
            =~= Seq::<Seq<char>>::empty());
    } else {
        // op2 binds strictly tighter: it is absorbed into op1's right operand.
        let r3 = sp_parse_infix(toks, 3, ident_of(b));
        assert(r3.expr == Some(infix_of(ident_of(b), op2, ident_of(c))) && r3.next == 4);
        let rb = sp_parse_expression(toks, 2, p1);
        assert(clamp_pos(toks, 4, r3.next) == 4);
        assert(sp_infix_loop(toks, 4, infix_of(ident_of(b), op2, ident_of(c)), p1).expr == Some(
            infix_of(ident_of(b), op2, ident_of(c)),
        ));
        assert(sp_infix_loop(toks, 2, ident_of(b), p1).expr == Some(
            infix_of(ident_of(b), op2, ident_of(c)),
        ));
        assert(rb.expr == Some(infix_of(ident_of(b), op2, ident_of(c))) && rb.next == 4);
        let r1 = sp_parse_infix(toks, 1, ident_of(a));
        let full = infix_of(ident_of(a), op1, infix_of(ident_of(b), op2, ident_of(c)));
        assert(r1.expr == Some(full) && r1.next == 4);
        assert(clamp_pos(toks, 2, r1.next) == 4);
        assert(sp_infix_loop(toks, 4, full, prec_val(Precedence::Lowest)).expr == Some(full));
        assert(sp_infix_loop(toks, 0, ident_of(a), prec_val(Precedence::Lowest)).expr == Some(
            full,
        ));
        assert(sp_parse_expression(toks, 0, prec_val(Precedence::Lowest)).errs
            =~= Seq::<Seq<char>>::empty());
    }
}

/// A prefix operator binds tighter than any infix operator: parsing
/// `m a op b` (a prefix operator `m`, identifiers `a b`, an infix operator
/// `op`) applies `m` to `a` alone.
pub proof fn lemma_prefix_binds_tighter(m: TokenV, a: TokenV, op: TokenV, b: TokenV)
    requires
        m.kind == TokenType::Bang || m.kind == TokenType::Minus,
        a.kind == TokenType::Ident,
        b.kind == TokenType::Ident,
        has_infix_fn(op.kind),
    ensures
        ({
            let toks = seq![m, a, op, b];
            let r = sp_parse_expression(toks, 0, prec_val(Precedence::Lowest));
            let pref = ExpressionV::Prefix(
                PrefixExpressionV {
                    token: m,
                    operator: m.literal,
                    right: Box::new(ident_of(a)),
                },
            );
            &&& r.errs =~= Seq::<Seq<char>>::empty()
            &&& r.expr == Some(infix_of(pref, op, ident_of(b)))
        }),
{
    let toks = seq![m, a, op, b];
    let p = prec_val(spec_precedences(op.kind));
    assert(tok_at(toks, 0) == m && tok_at(toks, 1) == a && tok_at(toks, 2) == op && tok_at(
        toks,
        3,
    ) == b && tok_at(toks, 4) == eof_tv());
    assert(2 <= p <= 5);

    // The operand of the prefix operator is `a` alone: the upcoming infix
    // operator does not bind tighter than Prefix.
    let ra = sp_parse_expression(toks, 1, prec_val(Precedence::Prefix));
    assert(sp_infix_loop(toks, 1, ident_of(a), prec_val(Precedence::Prefix)).expr == Some(
        ident_of(a),
    ));
    assert(ra.expr == Some(ident_of(a)) && ra.next == 1);
    let pref = ExpressionV::Prefix(
        PrefixExpressionV { token: m, operator: m.literal, right: Box::new(ident_of(a)) },
    );
    let r0 = sp_parse_prefix(toks, 0);
    assert(r0.expr == Some(pref) && r0.next == 1);

    // The loop then absorbs the infix operator with the prefix node as left.
    let rb = sp_parse_expression(toks, 3, p);
    assert(sp_infix_loop(toks, 3, ident_of(b), p).expr == Some(ident_of(b)));
    assert(rb.expr == Some(ident_of(b)) && rb.next == 3);
    let r1 = sp_parse_infix(toks, 2, pref);
    assert(r1.expr == Some(infix_of(pref, op, ident_of(b))) && r1.next == 3);
    assert(clamp_pos(toks, 1, r0.next) == 1);
    assert(clamp_pos(toks, 3, r1.next) == 3);
    assert(sp_infix_loop(toks, 3, infix_of(pref, op, ident_of(b)), prec_val(
        Precedence::Lowest,
    )).expr == Some(infix_of(pref, op, ident_of(b))));
    assert(sp_infix_loop(toks, 1, pref, prec_val(Precedence::Lowest)).expr == Some(
        infix_of(pref, op, ident_of(b)),
    ));
    assert(sp_parse_expression(toks, 0, prec_val(Precedence::Lowest)).errs
        =~= Seq::<Seq<char>>::empty());
}


/// A well-formed let statement `let <name> = <int> ;` parses to exactly one
/// `LetStatement` binding that name to that integer literal, with no errors,
/// and consumes the whole stream.
pub proof fn lemma_parse_let_form(lt: TokenV, name: TokenV, assign: TokenV, val: TokenV, semi: TokenV)
    requires
        lt.kind == TokenType::Let,
        name.kind == TokenType::Ident,
        assign.kind == TokenType::Assign,
        val.kind == TokenType::Int,
        int_literal_ok(val.literal),
        semi.kind == TokenType::Semicolon,
    ensures
        ({
            let toks = seq![lt, name, assign, val, semi];
            let r = sp_parse_program(toks, 0);
            &&& r.errs =~= Seq::<Seq<char>>::empty()
            &&& r.stmts =~= seq![
                StatementV::Let(
                    LetStatementV {
                        token: lt,
                        name: IdentifierV { token: name, value: name.literal },
                        value: ExpressionV::IntegerLiteral(
                            IntegerLiteralV {
                                token: val,
                                value: digits_val(val.literal) as int,
                            },
                        ),
                    },
                ),
            ]
        }),
{
    let toks = seq![lt, name, assign, val, semi];
    assert(tok_at(toks, 0) == lt && tok_at(toks, 1) == name && tok_at(toks, 2) == assign && tok_at(
        toks,
        3,
    ) == val && tok_at(toks, 4) == semi && tok_at(toks, 5) == eof_tv());

    // The value expression is the integer literal alone: the `;` stops the
    // precedence-climbing loop.
    let rv = sp_parse_expression(toks, 3, prec_val(Precedence::Lowest));
    let vv = ExpressionV::IntegerLiteral(
        IntegerLiteralV { token: val, value: digits_val(val.literal) as int },
    );
    assert(sp_infix_loop(toks, 3, vv, prec_val(Precedence::Lowest)).expr == Some(vv));
    assert(rv.expr == Some(vv) && rv.next == 3 && rv.errs =~= Seq::<Seq<char>>::empty());

    // The skip-to-semicolon policy lands on the `;`.
    assert(clamp_pos(toks, 0, 3) == 3);
    assert(sp_skip_to_semicolon(toks, 4) == 4);
    assert(sp_skip_to_semicolon(toks, 3) == 4);

    let rs = sp_parse_let(toks, 0);
    assert(rs.stmt is Some && rs.next == 4 && rs.errs =~= Seq::<Seq<char>>::empty());

    let rp = sp_parse_program(toks, 0);
    assert(clamp_pos(toks, 0, 4) == 4);
    assert(tok_at(toks, adv(toks, 4)).kind == TokenType::EOF);
    assert(sp_parse_program(toks, 5).stmts =~= Seq::<StatementV>::empty());
    assert(rp.stmts =~= seq![rs.stmt->Some_0]);
    assert(rp.errs =~= Seq::<Seq<char>>::empty());
}


/// A well-formed return statement `return <int> ;` parses to exactly one
/// `ReturnStatement` returning that integer literal, with no errors, and
/// consumes the whole stream.
pub proof fn lemma_parse_return_form(rt: TokenV, val: TokenV, semi: TokenV)
    requires
        rt.kind == TokenType::Return,
        val.kind == TokenType::Int,
        int_literal_ok(val.literal),
        semi.kind == TokenType::Semicolon,
    ensures
        ({
            let toks = seq![rt, val, semi];
            let r = sp_parse_program(toks, 0);
            &&& r.errs =~= Seq::<Seq<char>>::empty()
            &&& r.stmts =~= seq![
                StatementV::Return(
                    ReturnStatementV {
                        token: rt,
                        return_value: ExpressionV::IntegerLiteral(
                            IntegerLiteralV {
                                token: val,
                                value: digits_val(val.literal) as int,
                            },
                        ),
                    },
                ),
            ]
        }),
{
    let toks = seq![rt, val, semi];
    assert(tok_at(toks, 0) == rt && tok_at(toks, 1) == val && tok_at(toks, 2) == semi && tok_at(
        toks,
        3,
    ) == eof_tv());

    let vv = ExpressionV::IntegerLiteral(
        IntegerLiteralV { token: val, value: digits_val(val.literal) as int },
    );
    let rv = sp_parse_expression(toks, 1, prec_val(Precedence::Lowest));
    assert(sp_infix_loop(toks, 1, vv, prec_val(Precedence::Lowest)).expr == Some(vv));
    assert(rv.expr == Some(vv) && rv.next == 1 && rv.errs =~= Seq::<Seq<char>>::empty());

    assert(clamp_pos(toks, 0, 1) == 1);
    assert(sp_skip_to_semicolon(toks, 2) == 2);
    assert(sp_skip_to_semicolon(toks, 1) == 2);

    let rs = sp_parse_return(toks, 0);
    assert(rs.stmt is Some && rs.next == 2 && rs.errs =~= Seq::<Seq<char>>::empty());

    let rp = sp_parse_program(toks, 0);
    assert(clamp_pos(toks, 0, 2) == 2);
    assert(tok_at(toks, adv(toks, 2)).kind == TokenType::EOF);
    assert(sp_parse_program(toks, 3).stmts =~= Seq::<StatementV>::empty());
    assert(rp.stmts =~= seq![rs.stmt->Some_0]);
    assert(rp.errs =~= Seq::<Seq<char>>::empty());
}

// ===========================================================================
// RE-RENDERING WHOLE PROGRAMS
// ===========================================================================
/// A canonical let statement form: a bound name and an integer literal.
pub struct LetForm {
    pub name: Seq<char>,
    pub lit: Seq<char>,
}

/// A form the grammar covers: the name is a nonempty alphabetic run that is
/// no keyword, and the literal is a digit run whose value fits in an `i64`.
pub open spec fn let_form_wf(f: LetForm) -> bool {
    plain_ident(f.name) && int_literal_ok(f.lit)
}

/// The canonical source text of one let statement form.
pub open spec fn let_src(f: LetForm) -> Seq<char> {
    "let"@ + seq![' '] + f.name + seq![' ', '=', ' '] + f.lit + seq![';']
}

/// The five tokens of one let statement form.
pub open spec fn let_toks(f: LetForm) -> Seq<TokenV> {
    seq![
        TokenV { kind: TokenType::Let, literal: "let"@ },
        TokenV { kind: TokenType::Ident, literal: f.name },
        TokenV { kind: TokenType::Assign, literal: seq!['='] },
        TokenV { kind: TokenType::Int, literal: f.lit },
        TokenV { kind: TokenType::Semicolon, literal: seq![';'] },
    ]
}

/// The statement one let statement form parses to.
pub open spec fn let_stmt_v(f: LetForm) -> StatementV {
    StatementV::Let(
        LetStatementV {
            token: TokenV { kind: TokenType::Let, literal: "let"@ },
            name: IdentifierV {
                token: TokenV { kind: TokenType::Ident, literal: f.name },
                value: f.name,
            },
            value: ExpressionV::IntegerLiteral(
                IntegerLiteralV {
                    token: TokenV { kind: TokenType::Int, literal: f.lit },
                    value: digits_val(f.lit) as int,
                },
            ),
        },
    )
}

/// Rendering a program from its second statement on renders the dropped-head
/// sequence from its start.
proof fn lemma_render_from_shift(ss: Seq<StatementV>, k: int)
    requires
        0 <= k < ss.len(),
    ensures
        crate::ast::render_program_from(ss, k + 1) =~= crate::ast::render_program_from(
            ss.drop_first(),
            k,
        ),
    decreases ss.len() - k,
{
    if k + 1 < ss.len() {
        lemma_render_from_shift(ss, k + 1);
        assert(ss.drop_first()[k] == ss[k + 1]);
    }
}

/// A statement form the rendering grammar covers its own output on: a let
/// statement binding a name to an integer literal or to an identifier, a
/// return statement returning an integer literal, or an expression statement
/// that is a lone identifier or integer literal.
pub enum StmtForm {
    Let(LetForm),
    LetIdent { name: Seq<char>, value: Seq<char> },
    Return { lit: Seq<char> },
    ExprIdent { name: Seq<char> },
    ExprInt { lit: Seq<char> },
}

/// An expression-statement form; it renders without a trailing `;`, so it can
/// stand only as the last statement of a covered program.
pub open spec fn is_expr_form(f: StmtForm) -> bool {
    f is ExprIdent || f is ExprInt
}

/// A nonempty alphabetic run that is no keyword.
pub open spec fn plain_ident(name: Seq<char>) -> bool {
    &&& name.len() > 0
    &&& (forall|j: int| 0 <= j < name.len() ==> crate::lexer::is_letter_char(#[trigger] name[j]))
    &&& keyword_kind(name) == TokenType::Ident
}

pub open spec fn stmt_form_wf(f: StmtForm) -> bool {
    match f {
        StmtForm::Let(l) => let_form_wf(l),
        StmtForm::LetIdent { name, value } => plain_ident(name) && plain_ident(value),
        StmtForm::Return { lit } => int_literal_ok(lit),
        StmtForm::ExprIdent { name } => plain_ident(name),
        StmtForm::ExprInt { lit } => int_literal_ok(lit),
    }
}

pub open spec fn forms_wf(fs: Seq<StmtForm>) -> bool {
    forall|k: int| 0 <= k < fs.len() ==> stmt_form_wf(#[trigger] fs[k])
}

/// A covered program: every form is well formed, and an expression statement
/// stands only in the last position (its rendering carries no `;`, so a
/// statement after it would merge with it when the rendering is re-parsed).
pub open spec fn forms_covered(fs: Seq<StmtForm>) -> bool {
    &&& forms_wf(fs)
    &&& (forall|k: int|
        0 <= k < fs.len() && is_expr_form(#[trigger] fs[k]) ==> k == fs.len() - 1)
}

/// The canonical source text of one statement form.
pub open spec fn form_src(f: StmtForm) -> Seq<char> {
    match f {
        StmtForm::Let(l) => let_src(l),
        StmtForm::LetIdent { name, value } => "let"@ + seq![' '] + name + seq![' ', '=', ' ']
            + value + seq![';'],
        StmtForm::Return { lit } => "return"@ + seq![' '] + lit + seq![';'],
        StmtForm::ExprIdent { name } => name,
        StmtForm::ExprInt { lit } => lit,
    }
}

pub open spec fn forms_src(fs: Seq<StmtForm>) -> Seq<char>
    decreases fs.len(),
{
    if fs.len() == 0 {
        Seq::empty()
    } else {
        form_src(fs[0]) + forms_src(fs.drop_first())
    }
}

/// The tokens of one statement form.
pub open spec fn form_toks(f: StmtForm) -> Seq<TokenV> {
    match f {
        StmtForm::Let(l) => let_toks(l),
        StmtForm::LetIdent { name, value } => seq![
            TokenV { kind: TokenType::Let, literal: "let"@ },
            TokenV { kind: TokenType::Ident, literal: name },
            TokenV { kind: TokenType::Assign, literal: seq!['='] },
            TokenV { kind: TokenType::Ident, literal: value },
            TokenV { kind: TokenType::Semicolon, literal: seq![';'] },
        ],
        StmtForm::Return { lit } => seq![
            TokenV { kind: TokenType::Return, literal: "return"@ },
            TokenV { kind: TokenType::Int, literal: lit },
            TokenV { kind: TokenType::Semicolon, literal: seq![';'] },
        ],
        StmtForm::ExprIdent { name } => seq![TokenV { kind: TokenType::Ident, literal: name }],
        StmtForm::ExprInt { lit } => seq![TokenV { kind: TokenType::Int, literal: lit }],
    }
}

pub open spec fn forms_toks(fs: Seq<StmtForm>) -> Seq<TokenV>
    decreases fs.len(),
{
    if fs.len() == 0 {
        Seq::empty()
    } else {
        form_toks(fs[0]) + forms_toks(fs.drop_first())
    }
}

/// The statement one statement form parses to.
pub open spec fn form_stmt(f: StmtForm) -> StatementV {
    match f {
        StmtForm::Let(l) => let_stmt_v(l),
        StmtForm::LetIdent { name, value } => StatementV::Let(
            LetStatementV {
                token: TokenV { kind: TokenType::Let, literal: "let"@ },
                name: IdentifierV {
                    token: TokenV { kind: TokenType::Ident, literal: name },
                    value: name,
                },
                value: ExpressionV::Identifier(
                    IdentifierV {
                        token: TokenV { kind: TokenType::Ident, literal: value },
                        value: value,
                    },
                ),
            },
        ),
        StmtForm::Return { lit } => StatementV::Return(
            ReturnStatementV {
                token: TokenV { kind: TokenType::Return, literal: "return"@ },
                return_value: ExpressionV::IntegerLiteral(
                    IntegerLiteralV {
                        token: TokenV { kind: TokenType::Int, literal: lit },
                        value: digits_val(lit) as int,
                    },
                ),
            },
        ),
        StmtForm::ExprIdent { name } => StatementV::Expression(
            ExpressionStatementV {
                token: TokenV { kind: TokenType::Ident, literal: name },
                expression: ExpressionV::Identifier(
                    IdentifierV {
                        token: TokenV { kind: TokenType::Ident, literal: name },
                        value: name,
                    },
                ),
            },
        ),
        StmtForm::ExprInt { lit } => StatementV::Expression(
            ExpressionStatementV {
                token: TokenV { kind: TokenType::Int, literal: lit },
                expression: ExpressionV::IntegerLiteral(
                    IntegerLiteralV {
                        token: TokenV { kind: TokenType::Int, literal: lit },
                        value: digits_val(lit) as int,
                    },
                ),
            },
        ),
    }
}

pub open spec fn forms_stmts(fs: Seq<StmtForm>) -> Seq<StatementV>
    decreases fs.len(),
{
    if fs.len() == 0 {
        Seq::empty()
    } else {
        seq![form_stmt(fs[0])] + forms_stmts(fs.drop_first())
    }
}

/// Tokenizing the canonical source of a sequence of statement forms, from
/// where that source starts, yields exactly their tokens.
#[verifier::rlimit(50)]
#[verifier::spinoff_prover]
proof fn lemma_tokenize_forms(s: Seq<char>, i: int, fs: Seq<StmtForm>)
    requires
        0 <= i <= s.len(),
        forms_covered(fs),
        s.subrange(i, s.len() as int) == forms_src(fs),
    ensures
        spec_tokens(s, i) =~= forms_toks(fs),
    decreases fs.len(),
{
    reveal_strlit("let");
    reveal_strlit("return");
    if fs.len() == 0 {
        assert(s.len() - i == forms_src(fs).len());
        assert(i == s.len());
        assert(crate::lexer::ws_end(s, i) == i);
        assert(spec_tokens(s, i) =~= Seq::<TokenV>::empty());
    } else {
        let f = fs[0];
        assert(stmt_form_wf(f));
        let w = form_src(f);
        let rest = fs.drop_first();
        assert(forms_covered(rest)) by {
            assert forall|k: int| 0 <= k < rest.len() implies stmt_form_wf(#[trigger] rest[k]) by {
                assert(rest[k] == fs[k + 1]);
            }
            assert forall|k: int|
                0 <= k < rest.len() && is_expr_form(#[trigger] rest[k]) implies k == rest.len()
                - 1 by {
                assert(rest[k] == fs[k + 1]);
            }
        }
        assert(forms_src(fs) == w + forms_src(rest));
        assert(s.subrange(i, s.len() as int).len() == s.len() - i);
        assert(s.len() - i == w.len() + forms_src(rest).len());
        let e = i + w.len() as int;
        assert forall|q: int| 0 <= q < w.len() implies s.subrange(i, e)[q] == w[q] by {
            assert(s.subrange(i, s.len() as int)[q] == s[i + q]);
            assert(s.subrange(i, e)[q] == s[i + q]);
            assert((w + forms_src(rest))[q] == w[q]);
        }
        assert(s.subrange(i, e) =~= w);
        assert forall|q: int| 0 <= q < s.len() - e implies s.subrange(e, s.len() as int)[q]
            == forms_src(rest)[q] by {
            assert(s.subrange(i, s.len() as int)[w.len() + q] == s[e + q]);
            assert(s.subrange(e, s.len() as int)[q] == s[e + q]);
            assert((w + forms_src(rest))[w.len() + q] == forms_src(rest)[q]);
        }
        assert(s.subrange(e, s.len() as int) =~= forms_src(rest));
        lemma_tokenize_forms(s, e, rest);
        match f {
            StmtForm::Let(l) => {
                let n = l.name.len() as int;
                let m = l.lit.len() as int;
                assert(w.len() == n + m + 8);
                crate::lexer::lemma_tokenize_let_at(s, i, l.name, l.lit);
                assert(spec_tokens(s, i + 7 + n + m) =~= seq![
                    TokenV { kind: TokenType::Semicolon, literal: seq![';'] },
                ] + forms_toks(rest));
                assert(spec_tokens(s, i + 6 + n) =~= seq![
                    TokenV { kind: TokenType::Int, literal: l.lit },
                    TokenV { kind: TokenType::Semicolon, literal: seq![';'] },
                ] + forms_toks(rest));
                assert(spec_tokens(s, i + 4 + n) =~= seq![
                    TokenV { kind: TokenType::Assign, literal: seq!['='] },
                    TokenV { kind: TokenType::Int, literal: l.lit },
                    TokenV { kind: TokenType::Semicolon, literal: seq![';'] },
                ] + forms_toks(rest));
                assert(spec_tokens(s, i + 3) =~= seq![
                    TokenV { kind: TokenType::Ident, literal: l.name },
                    TokenV { kind: TokenType::Assign, literal: seq!['='] },
                    TokenV { kind: TokenType::Int, literal: l.lit },
                    TokenV { kind: TokenType::Semicolon, literal: seq![';'] },
                ] + forms_toks(rest));
                assert(spec_tokens(s, i) =~= form_toks(f) + forms_toks(rest));
            },
            StmtForm::LetIdent { name, value } => {
                let n = name.len() as int;
                let m = value.len() as int;
                assert(w.len() == n + m + 8);
                crate::lexer::lemma_tokenize_let_ident_at(s, i, name, value);
                assert(spec_tokens(s, i + 7 + n + m) =~= seq![
                    TokenV { kind: TokenType::Semicolon, literal: seq![';'] },
                ] + forms_toks(rest));
                assert(spec_tokens(s, i + 6 + n) =~= seq![
                    TokenV { kind: TokenType::Ident, literal: value },
                    TokenV { kind: TokenType::Semicolon, literal: seq![';'] },
                ] + forms_toks(rest));
                assert(spec_tokens(s, i + 4 + n) =~= seq![
                    TokenV { kind: TokenType::Assign, literal: seq!['='] },
                    TokenV { kind: TokenType::Ident, literal: value },
                    TokenV { kind: TokenType::Semicolon, literal: seq![';'] },
                ] + forms_toks(rest));
                assert(spec_tokens(s, i + 3) =~= seq![
                    TokenV { kind: TokenType::Ident, literal: name },
                    TokenV { kind: TokenType::Assign, literal: seq!['='] },
                    TokenV { kind: TokenType::Ident, literal: value },
                    TokenV { kind: TokenType::Semicolon, literal: seq![';'] },
                ] + forms_toks(rest));
                assert(spec_tokens(s, i) =~= form_toks(f) + forms_toks(rest));
            },
            StmtForm::Return { lit } => {
                let m = lit.len() as int;
                assert(w.len() == m + 8);
                crate::lexer::lemma_tokenize_return_at(s, i, lit);
                assert(spec_tokens(s, i + 7 + m) =~= seq![
                    TokenV { kind: TokenType::Semicolon, literal: seq![';'] },
                ] + forms_toks(rest));
                assert(spec_tokens(s, i + 6) =~= seq![
                    TokenV { kind: TokenType::Int, literal: lit },
                    TokenV { kind: TokenType::Semicolon, literal: seq![';'] },
                ] + forms_toks(rest));
                assert(spec_tokens(s, i) =~= form_toks(f) + forms_toks(rest));
            },
            StmtForm::ExprIdent { name } => {
                // An expression statement stands last, so its run extends to
                // the end of the input.
                let n = name.len() as int;
                assert(w.len() == n);
                assert(rest.len() == 0);
                assert(forms_src(rest) =~= Seq::<char>::empty());
                assert(e == s.len());
                assert forall|k: int| i <= k < i + n implies s[k] == name[k - i] by {
                    assert(s.subrange(i, e)[k - i] == s[k]);
                }
                assert forall|k: int|
                    i <= k < i + n implies crate::lexer::is_letter_char(s[k]) by {
                    assert(s[k] == name[k - i]);
                    assert(crate::lexer::is_letter_char(name[k - i]));
                }
                assert(crate::lexer::is_letter_char(s[i]));
                assert(crate::lexer::ws_end(s, i) == i);
                crate::lexer::lemma_alpha_end_run(s, i, i + n);
                assert(crate::lexer::token_end(s, i) == i + n);
                assert(s.subrange(i, i + n) =~= name);
                assert(spec_token(s, i) == Some(
                    TokenV { kind: TokenType::Ident, literal: name },
                ));
                assert(spec_token_pos(s, i) == i + n);
                assert(crate::lexer::ws_end(s, i + n) == i + n);
                assert(spec_tokens(s, i + n) =~= Seq::<TokenV>::empty());
                assert(spec_tokens(s, i) =~= form_toks(f) + forms_toks(rest));
            },
            StmtForm::ExprInt { lit } => {
                let m = lit.len() as int;
                assert(w.len() == m);
                assert(rest.len() == 0);
                assert(forms_src(rest) =~= Seq::<char>::empty());
                assert(e == s.len());
                assert forall|k: int| i <= k < i + m implies s[k] == lit[k - i] by {
                    assert(s.subrange(i, e)[k - i] == s[k]);
                }
                assert forall|k: int|
                    i <= k < i + m implies crate::lexer::is_digit_char(s[k]) by {
                    assert(s[k] == lit[k - i]);
                    assert(crate::lexer::is_digit_char(lit[k - i]));
                }
                assert(crate::lexer::is_digit_char(s[i]));
                assert(crate::lexer::ws_end(s, i) == i);
                crate::lexer::lemma_digit_end_run(s, i, i + m);
                assert(crate::lexer::token_end(s, i) == i + m);
                assert(s.subrange(i, i + m) =~= lit);
                assert(spec_token(s, i) == Some(TokenV { kind: TokenType::Int, literal: lit }));
                assert(spec_token_pos(s, i) == i + m);
                assert(crate::lexer::ws_end(s, i + m) == i + m);
                assert(spec_tokens(s, i + m) =~= Seq::<TokenV>::empty());
                assert(spec_tokens(s, i) =~= form_toks(f) + forms_toks(rest));
            },
        }
    }
}

/// Parsing the tokens of a sequence of statement forms, from where those
/// tokens start, yields exactly their statements and no errors.
#[verifier::rlimit(50)]
#[verifier::spinoff_prover]
proof fn lemma_parse_forms(toks: Seq<TokenV>, i: int, fs: Seq<StmtForm>)
    requires
        0 <= i <= toks.len(),
        forms_covered(fs),
        toks.subrange(i, toks.len() as int) == forms_toks(fs),
    ensures
        sp_parse_program(toks, i).stmts =~= forms_stmts(fs),
        sp_parse_program(toks, i).errs =~= Seq::<Seq<char>>::empty(),
    decreases fs.len(),
{
    if fs.len() == 0 {
        assert(toks.len() - i == forms_toks(fs).len());
        assert(i == toks.len());
        assert(tok_at(toks, i).kind == TokenType::EOF);
    } else {
        let f = fs[0];
        assert(stmt_form_wf(f));
        let ft = form_toks(f);
        let rest = fs.drop_first();
        assert(forms_covered(rest)) by {
            assert forall|k: int| 0 <= k < rest.len() implies stmt_form_wf(#[trigger] rest[k]) by {
                assert(rest[k] == fs[k + 1]);
            }
            assert forall|k: int|
                0 <= k < rest.len() && is_expr_form(#[trigger] rest[k]) implies k == rest.len()
                - 1 by {
                assert(rest[k] == fs[k + 1]);
            }
        }
        assert(forms_toks(fs) == ft + forms_toks(rest));
        assert(toks.subrange(i, toks.len() as int).len() == toks.len() - i);
        assert(toks.len() - i == ft.len() + forms_toks(rest).len());
        let e = i + ft.len() as int;
        assert forall|q: int| 0 <= q < ft.len() implies tok_at(toks, i + q) == ft[q] by {
            assert(toks.subrange(i, toks.len() as int)[q] == toks[i + q]);
            assert((ft + forms_toks(rest))[q] == ft[q]);
        }
        assert forall|q: int| 0 <= q < toks.len() - e implies toks.subrange(
            e,
            toks.len() as int,
        )[q] == forms_toks(rest)[q] by {
            assert(toks.subrange(i, toks.len() as int)[ft.len() + q] == toks[e + q]);
            assert(toks.subrange(e, toks.len() as int)[q] == toks[e + q]);
            assert((ft + forms_toks(rest))[ft.len() + q] == forms_toks(rest)[q]);
        }
        assert(toks.subrange(e, toks.len() as int) =~= forms_toks(rest));
        lemma_parse_forms(toks, e, rest);
        match f {
            StmtForm::Let(l) => {
                assert(ft.len() == 5);
                assert(tok_at(toks, i) == (TokenV { kind: TokenType::Let, literal: "let"@ }));
                assert(tok_at(toks, i + 1) == (TokenV {
                    kind: TokenType::Ident,
                    literal: l.name,
                }));
                assert(tok_at(toks, i + 2) == (TokenV {
                    kind: TokenType::Assign,
                    literal: seq!['='],
                }));
                assert(tok_at(toks, i + 3) == (TokenV { kind: TokenType::Int, literal: l.lit }));
                assert(tok_at(toks, i + 4) == (TokenV {
                    kind: TokenType::Semicolon,
                    literal: seq![';'],
                }));
                let vv = ExpressionV::IntegerLiteral(
                    IntegerLiteralV {
                        token: TokenV { kind: TokenType::Int, literal: l.lit },
                        value: digits_val(l.lit) as int,
                    },
                );
                let rv = sp_parse_expression(toks, i + 3, prec_val(Precedence::Lowest));
                assert(sp_infix_loop(toks, i + 3, vv, prec_val(Precedence::Lowest)).expr == Some(
                    vv,
                ));
                assert(rv.expr == Some(vv) && rv.next == i + 3 && rv.errs
                    =~= Seq::<Seq<char>>::empty());
                assert(clamp_pos(toks, 0, i + 3) == i + 3);
                assert(sp_skip_to_semicolon(toks, i + 4) == i + 4);
                assert(sp_skip_to_semicolon(toks, i + 3) == i + 4);
                let rs = sp_parse_let(toks, i);
                assert(rs.stmt == Some(form_stmt(f)) && rs.next == i + 4 && rs.errs
                    =~= Seq::<Seq<char>>::empty());
                assert(tok_at(toks, i).kind != TokenType::EOF);
                assert(clamp_pos(toks, i, i + 4) == i + 4);
                assert(adv(toks, i + 4) == i + 5);
                assert(sp_parse_program(toks, i).stmts =~= seq![form_stmt(f)] + forms_stmts(
                    rest,
                ));
                assert(sp_parse_program(toks, i).errs =~= Seq::<Seq<char>>::empty());
            },
            StmtForm::LetIdent { name, value } => {
                assert(ft.len() == 5);
                assert(tok_at(toks, i) == (TokenV { kind: TokenType::Let, literal: "let"@ }));
                assert(tok_at(toks, i + 1) == (TokenV { kind: TokenType::Ident, literal: name }));
                assert(tok_at(toks, i + 2) == (TokenV {
                    kind: TokenType::Assign,
                    literal: seq!['='],
                }));
                assert(tok_at(toks, i + 3) == (TokenV { kind: TokenType::Ident, literal: value }));
                assert(tok_at(toks, i + 4) == (TokenV {
                    kind: TokenType::Semicolon,
                    literal: seq![';'],
                }));
                let vv = ExpressionV::Identifier(
                    IdentifierV {
                        token: TokenV { kind: TokenType::Ident, literal: value },
                        value: value,
                    },
                );
                let rv = sp_parse_expression(toks, i + 3, prec_val(Precedence::Lowest));
                assert(sp_infix_loop(toks, i + 3, vv, prec_val(Precedence::Lowest)).expr == Some(
                    vv,
                ));
                assert(rv.expr == Some(vv) && rv.next == i + 3 && rv.errs
                    =~= Seq::<Seq<char>>::empty());
                assert(clamp_pos(toks, 0, i + 3) == i + 3);
                assert(sp_skip_to_semicolon(toks, i + 4) == i + 4);
                assert(sp_skip_to_semicolon(toks, i + 3) == i + 4);
                let rs = sp_parse_let(toks, i);
                assert(rs.stmt == Some(form_stmt(f)) && rs.next == i + 4 && rs.errs
                    =~= Seq::<Seq<char>>::empty());
                assert(tok_at(toks, i).kind != TokenType::EOF);
                assert(clamp_pos(toks, i, i + 4) == i + 4);
                assert(adv(toks, i + 4) == i + 5);
                assert(sp_parse_program(toks, i).stmts =~= seq![form_stmt(f)] + forms_stmts(
                    rest,
                ));
                assert(sp_parse_program(toks, i).errs =~= Seq::<Seq<char>>::empty());
            },
            StmtForm::Return { lit } => {
                assert(ft.len() == 3);
                assert(tok_at(toks, i) == (TokenV {
                    kind: TokenType::Return,
                    literal: "return"@,
                }));
                assert(tok_at(toks, i + 1) == (TokenV { kind: TokenType::Int, literal: lit }));
                assert(tok_at(toks, i + 2) == (TokenV {
                    kind: TokenType::Semicolon,
                    literal: seq![';'],
                }));
                let vv = ExpressionV::IntegerLiteral(
                    IntegerLiteralV {
                        token: TokenV { kind: TokenType::Int, literal: lit },
                        value: digits_val(lit) as int,
                    },
                );
                let rv = sp_parse_expression(toks, i + 1, prec_val(Precedence::Lowest));
                assert(sp_infix_loop(toks, i + 1, vv, prec_val(Precedence::Lowest)).expr == Some(
                    vv,
                ));
                assert(rv.expr == Some(vv) && rv.next == i + 1 && rv.errs
                    =~= Seq::<Seq<char>>::empty());
                assert(clamp_pos(toks, 0, i + 1) == i + 1);
                assert(sp_skip_to_semicolon(toks, i + 2) == i + 2);
                assert(sp_skip_to_semicolon(toks, i + 1) == i + 2);
                let rs = sp_parse_return(toks, i);
                assert(rs.stmt == Some(form_stmt(f)) && rs.next == i + 2 && rs.errs
                    =~= Seq::<Seq<char>>::empty());
                assert(tok_at(toks, i).kind != TokenType::EOF);
                assert(clamp_pos(toks, i, i + 2) == i + 2);
                assert(adv(toks, i + 2) == i + 3);
                assert(sp_parse_program(toks, i).stmts =~= seq![form_stmt(f)] + forms_stmts(
                    rest,
                ));
                assert(sp_parse_program(toks, i).errs =~= Seq::<Seq<char>>::empty());
            },
            StmtForm::ExprIdent { name } => {
                // An expression statement stands last, so nothing follows it.
                assert(ft.len() == 1);
                assert(rest.len() == 0);
                assert(forms_toks(rest) =~= Seq::<TokenV>::empty());
                assert(e == toks.len());
                assert(toks.subrange(i, toks.len() as int)[0] == toks[i]);
                assert((ft + forms_toks(rest))[0] == ft[0]);
                assert(tok_at(toks, i) == (TokenV { kind: TokenType::Ident, literal: name }));
                assert(tok_at(toks, i + 1) == eof_tv());
                let vv = ExpressionV::Identifier(
                    IdentifierV {
                        token: TokenV { kind: TokenType::Ident, literal: name },
                        value: name,
                    },
                );
                let rv = sp_parse_expression(toks, i, prec_val(Precedence::Lowest));
                assert(sp_infix_loop(toks, i, vv, prec_val(Precedence::Lowest)).expr == Some(vv));
                assert(rv.expr == Some(vv) && rv.next == i && rv.errs
                    =~= Seq::<Seq<char>>::empty());
                let rs = sp_parse_expression_statement(toks, i);
                assert(rs.stmt == Some(form_stmt(f)) && rs.next == i && rs.errs
                    =~= Seq::<Seq<char>>::empty());
                assert(tok_at(toks, i).kind != TokenType::EOF);
                assert(clamp_pos(toks, i, i) == i);
                assert(adv(toks, i) == i + 1);
                assert(sp_parse_program(toks, i).stmts =~= seq![form_stmt(f)] + forms_stmts(
                    rest,
                ));
                assert(sp_parse_program(toks, i).errs =~= Seq::<Seq<char>>::empty());
            },
            StmtForm::ExprInt { lit } => {
                assert(ft.len() == 1);
                assert(rest.len() == 0);
                assert(forms_toks(rest) =~= Seq::<TokenV>::empty());
                assert(e == toks.len());
                assert(toks.subrange(i, toks.len() as int)[0] == toks[i]);
                assert((ft + forms_toks(rest))[0] == ft[0]);
                assert(tok_at(toks, i) == (TokenV { kind: TokenType::Int, literal: lit }));
                assert(tok_at(toks, i + 1) == eof_tv());
                let vv = ExpressionV::IntegerLiteral(
                    IntegerLiteralV {
                        token: TokenV { kind: TokenType::Int, literal: lit },
                        value: digits_val(lit) as int,
                    },
                );
                let rv = sp_parse_expression(toks, i, prec_val(Precedence::Lowest));
                assert(sp_infix_loop(toks, i, vv, prec_val(Precedence::Lowest)).expr == Some(vv));
                assert(rv.expr == Some(vv) && rv.next == i && rv.errs
                    =~= Seq::<Seq<char>>::empty());
                let rs = sp_parse_expression_statement(toks, i);
                assert(rs.stmt == Some(form_stmt(f)) && rs.next == i && rs.errs
                    =~= Seq::<Seq<char>>::empty());
                assert(tok_at(toks, i).kind != TokenType::EOF);
                assert(clamp_pos(toks, i, i) == i);
                assert(adv(toks, i) == i + 1);
                assert(sp_parse_program(toks, i).stmts =~= seq![form_stmt(f)] + forms_stmts(
                    rest,
                ));
                assert(sp_parse_program(toks, i).errs =~= Seq::<Seq<char>>::empty());
            },
        }
    }
}

/// Rendering the statements of a sequence of statement forms gives back
/// exactly their canonical source.
proof fn lemma_render_forms(fs: Seq<StmtForm>)
    ensures
        crate::ast::render_program(forms_stmts(fs)) =~= forms_src(fs),
    decreases fs.len(),
{
    if fs.len() > 0 {
        let rest = fs.drop_first();
        lemma_render_forms(rest);
        let ss = forms_stmts(fs);
        assert(ss[0] == form_stmt(fs[0]));
        lemma_render_from_shift(ss, 0);
        assert(ss.drop_first() =~= forms_stmts(rest));
        assert(crate::ast::render_stmt(form_stmt(fs[0])) =~= form_src(fs[0]));
    }
}

/// Idempotent re-render: for any program of the covered grammar — let and
/// return statements followed by at most one trailing expression statement —
/// the canonical rendering of the parsed program is exactly the source again,
/// so re-parsing that rendering yields a program whose rendering is identical:
/// the rendering is a fixed point of parse-then-render. (Renderings that
/// contain parentheses lie outside the grammar, which has no rule for `(`;
/// a non-final expression statement renders without `;` and would merge with
/// its successor: such programs are excluded by `forms_covered`.)
pub proof fn lemma_rerender_program(fs: Seq<StmtForm>)
    requires
        forms_covered(fs),
    ensures
        ({
            let s = forms_src(fs);
            let p1 = sp_parse_program(spec_tokens(s, 0), 0);
            let p2 = sp_parse_program(spec_tokens(crate::ast::render_program(p1.stmts), 0), 0);
            &&& p1.errs =~= Seq::<Seq<char>>::empty()
            &&& crate::ast::render_program(p1.stmts) == s
            &&& crate::ast::render_program(p2.stmts) == crate::ast::render_program(p1.stmts)
        }),
{
    let s = forms_src(fs);
    assert(s.subrange(0, s.len() as int) =~= s);
    lemma_tokenize_forms(s, 0, fs);
    let toks = forms_toks(fs);
    assert(toks.subrange(0, toks.len() as int) =~= toks);
    lemma_parse_forms(toks, 0, fs);
    assert(spec_tokens(s, 0) == toks);
    lemma_render_forms(fs);
}

} // verus!
