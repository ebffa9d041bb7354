use redhowler::lexer::Lexer;
use redhowler::token::Token;
use redhowler::token::TokenType;

#[test]
fn lexer_test_whitespace() {
    // Expected whitespace characters
    assert!('\n'.is_whitespace());
    assert!('\t'.is_whitespace());
    assert!(' '.is_whitespace());
    assert!('\r'.is_whitespace());

    // Expected not whitespace characters
    assert!(!'a'.is_whitespace());
    assert!(!'\0'.is_whitespace());
}

#[test]
fn lexer_test_next_token() {
    let input = "=+(){},;";

    let tests = vec![
        Token::new(TokenType::Assign, "="),
        Token::new(TokenType::Plus, "+"),
        Token::new(TokenType::LParen, "("),
        Token::new(TokenType::RParen, ")"),
        Token::new(TokenType::LBrace, "{"),
        Token::new(TokenType::RBrace, "}"),
        Token::new(TokenType::Comma, ","),
        Token::new(TokenType::Semicolon, ";"),
        Token::new(TokenType::EOF, ""),
    ];

    let mut l = Lexer::new(input);

    for tt in tests {
        let tok = l.next_token();
        assert_eq!(tok.token_type, tt.token_type);
        assert_eq!(tok.literal, tt.literal);
    }
}

#[test]
fn lexer_test_next_token_source() {
    let input = "
            let five = 5;
            let ten = 10;

            let add = fn(x, y) {
                x + y;
            };

            let result = add(five, ten);
            !-/*5;
            5 < 10 > 5;

            if (5 < 10) {
                return true;
            } else {
                return false;
            }

            10 == 10;
            10 != 9;
            ";
    let tests = vec![
        Token::new(TokenType::Let, "let"),
        Token::new(TokenType::Ident, "five"),
        Token::new(TokenType::Assign, "="),
        Token::new(TokenType::Int, "5"),
        Token::new(TokenType::Semicolon, ";"),
        Token::new(TokenType::Let, "let"),
        Token::new(TokenType::Ident, "ten"),
        Token::new(TokenType::Assign, "="),
        Token::new(TokenType::Int, "10"),
        Token::new(TokenType::Semicolon, ";"),
        Token::new(TokenType::Let, "let"),
        Token::new(TokenType::Ident, "add"),
        Token::new(TokenType::Assign, "="),
        Token::new(TokenType::Function, "fn"),
        Token::new(TokenType::LParen, "("),
        Token::new(TokenType::Ident, "x"),
        Token::new(TokenType::Comma, ","),
        Token::new(TokenType::Ident, "y"),
        Token::new(TokenType::RParen, ")"),
        Token::new(TokenType::LBrace, "{"),
        Token::new(TokenType::Ident, "x"),
        Token::new(TokenType::Plus, "+"),
        Token::new(TokenType::Ident, "y"),
        Token::new(TokenType::Semicolon, ";"),
        Token::new(TokenType::RBrace, "}"),
        Token::new(TokenType::Semicolon, ";"),
        Token::new(TokenType::Let, "let"),
        Token::new(TokenType::Ident, "result"),
        Token::new(TokenType::Assign, "="),
        Token::new(TokenType::Ident, "add"),
        Token::new(TokenType::LParen, "("),
        Token::new(TokenType::Ident, "five"),
        Token::new(TokenType::Comma, ","),
        Token::new(TokenType::Ident, "ten"),
        Token::new(TokenType::RParen, ")"),
        Token::new(TokenType::Semicolon, ";"),
        Token::new(TokenType::Bang, "!"),
        Token::new(TokenType::Minus, "-"),
        Token::new(TokenType::Slash, "/"),
        Token::new(TokenType::Asterisk, "*"),
        Token::new(TokenType::Int, "5"),
        Token::new(TokenType::Semicolon, ";"),
        Token::new(TokenType::Int, "5"),
        Token::new(TokenType::LT, "<"),
        Token::new(TokenType::Int, "10"),
        Token::new(TokenType::GT, ">"),
        Token::new(TokenType::Int, "5"),
        Token::new(TokenType::Semicolon, ";"),
        Token::new(TokenType::If, "if"),
        Token::new(TokenType::LParen, "("),
        Token::new(TokenType::Int, "5"),
        Token::new(TokenType::LT, "<"),
        Token::new(TokenType::Int, "10"),
        Token::new(TokenType::RParen, ")"),
        Token::new(TokenType::LBrace, "{"),
        Token::new(TokenType::Return, "return"),
        Token::new(TokenType::True, "true"),
        Token::new(TokenType::Semicolon, ";"),
        Token::new(TokenType::RBrace, "}"),
        Token::new(TokenType::Else, "else"),
        Token::new(TokenType::LBrace, "{"),
        Token::new(TokenType::Return, "return"),
        Token::new(TokenType::False, "false"),
        Token::new(TokenType::Semicolon, ";"),
        Token::new(TokenType::RBrace, "}"),
        Token::new(TokenType::Int, "10"),
        Token::new(TokenType::Equal, "=="),
        Token::new(TokenType::Int, "10"),
        Token::new(TokenType::Semicolon, ";"),
        Token::new(TokenType::Int, "10"),
        Token::new(TokenType::NotEqual, "!="),
        Token::new(TokenType::Int, "9"),
        Token::new(TokenType::Semicolon, ";"),
        Token::new(TokenType::EOF, ""),
    ];

    let mut l = Lexer::new(input);
    for tt in tests {
        let tok = l.next_token();
        assert_eq!(tok.literal, tt.literal);
        assert_eq!(tok.token_type, tt.token_type);
    }
}

#[test]
fn lexer_tests_test_whitespace() {
    // Expected whitespace characters
    assert!('\n'.is_whitespace());
    assert!('\t'.is_whitespace());
    assert!(' '.is_whitespace());
    assert!('\r'.is_whitespace());

    // Expected not whitespace characters
    assert!(!'a'.is_whitespace());
    assert!(!'\0'.is_whitespace());
}

#[test]
fn lexer_tests_test_next_token() {
    let input = "=+(){},;";

    let expected = vec![
        Token::new(TokenType::Assign, "="),
        Token::new(TokenType::Plus, "+"),
        Token::new(TokenType::LParen, "("),
        Token::new(TokenType::RParen, ")"),
        Token::new(TokenType::LBrace, "{"),
        Token::new(TokenType::RBrace, "}"),
        Token::new(TokenType::Comma, ","),
        Token::new(TokenType::Semicolon, ";"),
    ];

    let tokens: Vec<_> = Lexer::new(input).tokens();
    assert_eq!(tokens, expected);
}

#[test]
fn lexer_tests_test_next_token_source() {
    let input = "
            let five = 5;
            let ten = 10;

            let add = fn(x, y) {
                x + y;
            };

            let result = add(five, ten);
            !-/*5;
            5 < 10 > 5;

            if (5 < 10) {
                return true;
            } else {
                return false;
            }

            10 == 10;
            10 != 9;
            ";
    let expected = vec![
        Token::new(TokenType::Let, "let"),
        Token::new(TokenType::Ident, "five"),
        Token::new(TokenType::Assign, "="),
        Token::new(TokenType::Int, "5"),
        Token::new(TokenType::Semicolon, ";"),
        Token::new(TokenType::Let, "let"),
        Token::new(TokenType::Ident, "ten"),
        Token::new(TokenType::Assign, "="),
        Token::new(TokenType::Int, "10"),
        Token::new(TokenType::Semicolon, ";"),
        Token::new(TokenType::Let, "let"),
        Token::new(TokenType::Ident, "add"),
        Token::new(TokenType::Assign, "="),
        Token::new(TokenType::Function, "fn"),
        Token::new(TokenType::LParen, "("),
        Token::new(TokenType::Ident, "x"),
        Token::new(TokenType::Comma, ","),
        Token::new(TokenType::Ident, "y"),
        Token::new(TokenType::RParen, ")"),
        Token::new(TokenType::LBrace, "{"),
        Token::new(TokenType::Ident, "x"),
        Token::new(TokenType::Plus, "+"),
        Token::new(TokenType::Ident, "y"),
        Token::new(TokenType::Semicolon, ";"),
        Token::new(TokenType::RBrace, "}"),
        Token::new(TokenType::Semicolon, ";"),
        Token::new(TokenType::Let, "let"),
        Token::new(TokenType::Ident, "result"),
        Token::new(TokenType::Assign, "="),
        Token::new(TokenType::Ident, "add"),
        Token::new(TokenType::LParen, "("),
        Token::new(TokenType::Ident, "five"),
        Token::new(TokenType::Comma, ","),
        Token::new(TokenType::Ident, "ten"),
        Token::new(TokenType::RParen, ")"),
        Token::new(TokenType::Semicolon, ";"),
        Token::new(TokenType::Bang, "!"),
        Token::new(TokenType::Minus, "-"),
        Token::new(TokenType::Slash, "/"),
        Token::new(TokenType::Asterisk, "*"),
        Token::new(TokenType::Int, "5"),
        Token::new(TokenType::Semicolon, ";"),
        Token::new(TokenType::Int, "5"),
        Token::new(TokenType::LT, "<"),
        Token::new(TokenType::Int, "10"),
        Token::new(TokenType::GT, ">"),
        Token::new(TokenType::Int, "5"),
        Token::new(TokenType::Semicolon, ";"),
        Token::new(TokenType::If, "if"),
        Token::new(TokenType::LParen, "("),
        Token::new(TokenType::Int, "5"),
        Token::new(TokenType::LT, "<"),
        Token::new(TokenType::Int, "10"),
        Token::new(TokenType::RParen, ")"),
        Token::new(TokenType::LBrace, "{"),
        Token::new(TokenType::Return, "return"),
        Token::new(TokenType::True, "true"),
        Token::new(TokenType::Semicolon, ";"),
        Token::new(TokenType::RBrace, "}"),
        Token::new(TokenType::Else, "else"),
        Token::new(TokenType::LBrace, "{"),
        Token::new(TokenType::Return, "return"),
        Token::new(TokenType::False, "false"),
        Token::new(TokenType::Semicolon, ";"),
        Token::new(TokenType::RBrace, "}"),
        Token::new(TokenType::Int, "10"),
        Token::new(TokenType::Equal, "=="),
        Token::new(TokenType::Int, "10"),
        Token::new(TokenType::Semicolon, ";"),
        Token::new(TokenType::Int, "10"),
        Token::new(TokenType::NotEqual, "!="),
        Token::new(TokenType::Int, "9"),
        Token::new(TokenType::Semicolon, ";"),
    ];

    let tokens: Vec<_> = Lexer::new(input).tokens();
    assert_eq!(tokens, expected);
}

#[test]
fn lexer_test_lookahead() {
    // A two-character operator is one token, not two one-character ones.
    let mut l = Lexer::new("==");
    let toks = l.tokens();
    assert_eq!(toks, vec![Token::new(TokenType::Equal, "==")]);

    let mut l = Lexer::new("!=");
    let toks = l.tokens();
    assert_eq!(toks, vec![Token::new(TokenType::NotEqual, "!=")]);

    // An `=` followed by anything else stays Assign, and scanning continues
    // at the very next character.
    let mut l = Lexer::new("=a");
    let toks = l.tokens();
    assert_eq!(
        toks,
        vec![Token::new(TokenType::Assign, "="), Token::new(TokenType::Ident, "a")]
    );
}

#[test]
fn lexer_test_keywords() {
    let mut l = Lexer::new("fn let true false if else return foobar");
    let toks = l.tokens();
    assert_eq!(
        toks,
        vec![
            Token::new(TokenType::Function, "fn"),
            Token::new(TokenType::Let, "let"),
            Token::new(TokenType::True, "true"),
            Token::new(TokenType::False, "false"),
            Token::new(TokenType::If, "if"),
            Token::new(TokenType::Else, "else"),
            Token::new(TokenType::Return, "return"),
            Token::new(TokenType::Ident, "foobar"),
        ]
    );
}

#[test]
fn lexer_test_illegal_character() {
    let mut l = Lexer::new("@");
    let toks = l.tokens();
    assert_eq!(toks, vec![Token::new(TokenType::Illegal, "@")]);
}

#[test]
fn lexer_test_empty_input() {
    let mut l = Lexer::new("");
    assert_eq!(l.tokens(), Vec::<Token>::new());

    // The terminal state is stable: calling past the end yields no further
    // tokens, and next_token reports the empty-literal EOF token each time.
    let mut l = Lexer::new("   ");
    assert_eq!(l.next_token(), Token::new(TokenType::EOF, ""));
    assert_eq!(l.next_token(), Token::new(TokenType::EOF, ""));
}

#[test]
fn lexer_test_nul_is_illegal() {
    // A NUL character inside the input is just another unrecognized byte: it
    // surfaces as an Illegal token; only the end of the input ends the stream.
    let mut l = Lexer::new("a\u{0}b");
    assert_eq!(
        l.tokens(),
        vec![
            Token::new(TokenType::Ident, "a"),
            Token::new(TokenType::Illegal, "\u{0}"),
            Token::new(TokenType::Ident, "b"),
        ]
    );
}

#[test]
fn lexer_test_all_whitespace_forms() {
    let mut l = Lexer::new(" \t\n\r\u{b}\u{c}5");
    assert_eq!(l.tokens(), vec![Token::new(TokenType::Int, "5")]);
}
