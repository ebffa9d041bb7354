use redhowler::ast::Expression;
use redhowler::ast::Identifier;
use redhowler::ast::LetStatementBuilder;
use redhowler::ast::Program;
use redhowler::ast::Statement;
use redhowler::token::Token;
use redhowler::token::TokenType;

#[test]
fn ast_tests_test_let_statement() {
    let mut p = Program::new();

    // Build LetStatement
    let mut builder = LetStatementBuilder::new(&Token::new(TokenType::Let, "let"));

    // Add name
    builder.name(Identifier::new(&Token::new(TokenType::Ident, "myVar")));

    // Add value
    let id_token = Token::new(TokenType::Ident, "anotherVar");
    let id = Identifier::new(&id_token);
    builder.value(Some(Expression::Identifier(id)));
    let stmt = builder.build();
    p.push(Statement::Let(stmt));

    assert_eq!(p.string(), "let myVar = anotherVar;");
}

#[test]
fn ast_test_program_token_literal() {
    // An empty program renders and reports literals as the empty string.
    let p = Program::new();
    assert_eq!(p.token_literal(), "");
    assert_eq!(p.string(), "");

    let mut p = Program::new();
    let mut builder = LetStatementBuilder::new(&Token::new(TokenType::Let, "let"));
    builder.name(Identifier::new(&Token::new(TokenType::Ident, "x")));
    builder.value(Some(Expression::Identifier(Identifier::new(&Token::new(
        TokenType::Ident,
        "y",
    )))));
    p.push(Statement::Let(builder.build()));
    assert_eq!(p.token_literal(), "let");
}

#[test]
fn ast_test_single_char_literal_identity() {
    // Round-trip literal identity: a one-character operator token carries the
    // consumed source character as its literal.
    for (ch, kind) in [
        ("=", TokenType::Assign),
        ("+", TokenType::Plus),
        ("-", TokenType::Minus),
        ("!", TokenType::Bang),
        ("*", TokenType::Asterisk),
        ("/", TokenType::Slash),
        ("<", TokenType::LT),
        (">", TokenType::GT),
    ] {
        let mut l = redhowler::lexer::Lexer::new(ch);
        let tok = l.next_token();
        assert_eq!(tok.token_type, kind);
        assert_eq!(tok.literal(), ch);
    }
}
