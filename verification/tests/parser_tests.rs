use redhowler::ast::Expression;
use redhowler::ast::Statement;
use redhowler::lexer::Lexer;
use redhowler::parser::Parser;

#[test]
fn test_operator_precedence_parsing() {
    struct OperatorPrecedenceTest {
        input: &'static str,
        expected: &'static str,
    }

    let tests = vec![
        OperatorPrecedenceTest { input: "-a * b", expected: "((-a) * b)" },
        OperatorPrecedenceTest { input: "!-a", expected: "(!(-a))" },
        OperatorPrecedenceTest { input: "a + b + c", expected: "((a + b) + c)" },
        OperatorPrecedenceTest { input: "a + b - c", expected: "((a + b) - c)" },
        OperatorPrecedenceTest { input: "a * b * c", expected: "((a * b) * c)" },
        OperatorPrecedenceTest { input: "a * b / c", expected: "((a * b) / c)" },
        OperatorPrecedenceTest { input: "a + b / c", expected: "(a + (b / c))" },
        OperatorPrecedenceTest {
            input: "a + b * c + d / e - f",
            expected: "(((a + (b * c)) + (d / e)) - f)",
        },
        OperatorPrecedenceTest { input: "3 + 4; -5 * 5", expected: "(3 + 4)((-5) * 5)" },
        OperatorPrecedenceTest { input: "5 > 4 == 3 < 4", expected: "((5 > 4) == (3 < 4))" },
        OperatorPrecedenceTest { input: "5 < 4 != 3 > 4", expected: "((5 < 4) != (3 > 4))" },
        OperatorPrecedenceTest {
            input: "3 + 4 * 5 == 3 * 1 + 4 * 5",
            expected: "((3 + (4 * 5)) == ((3 * 1) + (4 * 5)))",
        },
    ];

    for tt in tests.iter() {
        let l = Lexer::new(tt.input);
        let mut p = Parser::from_lexer(l);

        let program = p.parse_program();

        // Check that parser didn't encounter any errors but before print
        // them if any.
        p.errors.iter().for_each(|e| println!("{}", e));
        assert!(p.errors.is_empty());

        assert_eq!(program.string(), tt.expected);
    }
}

#[test]
fn test_parsing_infix_expressions() {
    struct InfixTest {
        input: &'static str,
        left_value: i64,
        operator: &'static str,
        right_value: i64,
    }

    let infix_tests = vec![
        InfixTest { input: "5 + 5;", left_value: 5, operator: "+", right_value: 5 },
        InfixTest { input: "5 - 5;", left_value: 5, operator: "-", right_value: 5 },
        InfixTest { input: "5 * 5;", left_value: 5, operator: "*", right_value: 5 },
        InfixTest { input: "5 / 5;", left_value: 5, operator: "/", right_value: 5 },
        InfixTest { input: "5 > 5;", left_value: 5, operator: ">", right_value: 5 },
        InfixTest { input: "5 < 5;", left_value: 5, operator: "<", right_value: 5 },
        InfixTest { input: "5 == 5;", left_value: 5, operator: "==", right_value: 5 },
        InfixTest { input: "5 != 5;", left_value: 5, operator: "!=", right_value: 5 },
    ];

    for tt in infix_tests.iter() {
        let l = Lexer::new(tt.input);
        let mut p = Parser::from_lexer(l);

        let program = p.parse_program();

        // Check that parser didn't encounter any errors but before print
        // them if any.
        p.errors.iter().for_each(|e| println!("{}", e));
        assert!(p.errors.is_empty());

        assert_eq!(program.statements.len(), 1);

        let stmt = program.statements.get(0).unwrap();
        if let Statement::Expression(expr_stmt) = stmt {
            if let Expression::Infix(infix_expr) = &expr_stmt.expression {
                assert_eq!(infix_expr.operator, tt.operator);
                if let Expression::IntegerLiteral(left) = &infix_expr.left {
                    assert_eq!(left.value(), tt.left_value);
                } else {
                    panic!("Expected IntegerLiteral");
                }
                if let Expression::IntegerLiteral(right) = &infix_expr.right {
                    assert_eq!(right.value(), tt.right_value);
                } else {
                    panic!("Expected IntegerLiteral");
                }
            } else {
                panic!("Expected InfixExpression");
            }
        } else {
            panic!("Expected ExpressionStatement");
        }
    }
}

#[test]
fn parser_test_parsing_prefix_expressions() {
    struct PrefixTest {
        input: &'static str,
        operator: &'static str,
    }

    let prefix_tests = vec![
        PrefixTest { input: "!5;", operator: "!" },
        PrefixTest { input: "-15;", operator: "-" },
    ];

    prefix_tests.iter().for_each(|tt| {
        let l = Lexer::new(tt.input);
        let mut p = Parser::new(l);

        let program = p.parse_program();

        // Check that parser didn't encounter any errors but before print
        // them if any.
        p.errors.iter().for_each(|e| println!("{}", e));
        assert!(p.errors.is_empty());

        assert_eq!(program.statements.len(), 1);

        let stmt = program.statements.get(0).unwrap();
        if let Statement::Expression(expr_stmt) = stmt {
            if let Expression::Prefix(prefix_expr) = &expr_stmt.expression {
                assert_eq!(prefix_expr.operator, tt.operator);
            } else {
                panic!("Expected PrefixExpression");
            }
        } else {
            panic!("Expected ExpressionStatement");
        }
    });
}

#[test]
fn parser_test_integer_literal() {
    let input = "5;";

    let l = Lexer::new(input);
    let mut p = Parser::new(l);

    let program = p.parse_program();

    // Check that parser didn't encounter any errors but before print them
    // if any.
    p.errors.iter().for_each(|e| println!("{}", e));
    assert!(p.errors.is_empty());

    assert_eq!(program.statements.len(), 1);

    let stmt = program.statements.get(0).unwrap();
    assert_eq!(stmt.token_literal(), "5");
}

#[test]
fn parser_test_identifier_expression() {
    let input = "foobar;";

    let l = Lexer::new(input);
    let mut p = Parser::new(l);

    let program = p.parse_program();

    // Check that parser didn't encounter any errors but before print them
    // if any.
    p.errors.iter().for_each(|e| println!("{}", e));
    assert!(p.errors.is_empty());

    assert_eq!(program.statements.len(), 1);

    let stmt = program.statements.get(0).unwrap();
    assert_eq!(stmt.token_literal(), "foobar");
}

#[test]
fn parser_test_return_statements() {
    let input = "
            return 5;
            return 10;
            return 993322;
        ";

    let l = Lexer::new(input);
    let mut p = Parser::new(l);

    let program = p.parse_program();

    // Check that parser didn't encounter any errors but before print them
    // if any.
    p.errors.iter().for_each(|e| println!("{}", e));
    assert!(p.errors.is_empty());

    assert_eq!(program.statements.len(), 3);
}

#[test]
fn parser_test_let_statements() {
    let input = "
            let x = 5;
            let y = 10;
            let foobar = 838383;
        ";

    let l = Lexer::new(input);
    let mut p = Parser::new(l);

    let program = p.parse_program();

    // Check that parser didn't encounter any errors but before print them
    // if any.
    p.errors.iter().for_each(|e| println!("{}", e));
    assert!(p.errors.is_empty());

    assert_eq!(program.statements.len(), 3);

    let expected_identifiers = vec!["x", "y", "foobar"];
    program.statements.iter().zip(expected_identifiers.iter()).for_each(
        |(stmt, expected_ident)| {
            assert_eq!(stmt.token_literal(), "let");
            if let Statement::Let(let_stmt) = stmt {
                assert_eq!(let_stmt.name(), *expected_ident);
            } else {
                panic!("Expected LetStatement");
            }
        },
    );
}

#[test]
fn parser_tests_test_parsing_prefix_expressions() {
    struct PrefixTest {
        input: &'static str,
        operator: &'static str,
    }

    let prefix_tests = vec![
        PrefixTest { input: "!5;", operator: "!" },
        PrefixTest { input: "-15;", operator: "-" },
    ];

    prefix_tests.iter().for_each(|tt| {
        let l = Lexer::new(tt.input);
        let mut p = Parser::from_lexer(l);

        let program = p.parse_program();

        p.errors.iter().for_each(|e| println!("{}", e));
        assert!(p.errors.is_empty());

        assert_eq!(program.statements.len(), 1);

        let stmt = program.statements.get(0).unwrap();
        if let Statement::Expression(expr_stmt) = stmt {
            if let Expression::Prefix(prefix_expr) = &expr_stmt.expression {
                assert_eq!(prefix_expr.operator, tt.operator);
            } else {
                panic!("Expected PrefixExpression");
            }
        } else {
            panic!("Expected ExpressionStatement");
        }
    });
}

#[test]
fn parser_tests_test_integer_literal() {
    let input = "5;";

    let l = Lexer::new(input);
    let mut p = Parser::from_lexer(l);

    let program = p.parse_program();

    p.errors.iter().for_each(|e| println!("{}", e));
    assert!(p.errors.is_empty());

    assert_eq!(program.statements.len(), 1);

    let stmt = program.statements.get(0).unwrap();
    assert_eq!(stmt.token_literal(), "5");
}

#[test]
fn parser_tests_test_identifier_expression() {
    let input = "foobar;";

    let l = Lexer::new(input);
    let mut p = Parser::from_lexer(l);

    let program = p.parse_program();

    p.errors.iter().for_each(|e| println!("{}", e));
    assert!(p.errors.is_empty());

    assert_eq!(program.statements.len(), 1);

    let stmt = program.statements.get(0).unwrap();
    assert_eq!(stmt.token_literal(), "foobar");
}

#[test]
fn parser_tests_test_return_statements() {
    let input = "
            return 5;
            return 10;
            return 993322;
        ";

    let l = Lexer::new(input);
    let mut p = Parser::from_lexer(l);

    let program = p.parse_program();

    p.errors.iter().for_each(|e| println!("{}", e));
    assert!(p.errors.is_empty());

    assert_eq!(program.statements.len(), 3);
}

#[test]
fn parser_tests_test_let_statements() {
    let input = "
            let x = 5;
            let y = 10;
            let foobar = 838383;
        ";

    let l = Lexer::new(input);
    let mut p = Parser::from_lexer(l);

    let program = p.parse_program();

    p.errors.iter().for_each(|e| println!("{}", e));
    assert!(p.errors.is_empty());

    assert_eq!(program.statements.len(), 3);

    let expected_identifiers = vec!["x", "y", "foobar"];
    program.statements.iter().zip(expected_identifiers.iter()).for_each(
        |(stmt, expected_ident)| {
            assert_eq!(stmt.token_literal(), "let");
            if let Statement::Let(let_stmt) = stmt {
                assert_eq!(let_stmt.name(), *expected_ident);
            } else {
                panic!("Expected LetStatement");
            }
        },
    );
}

#[test]
fn parser_test_error_accumulation() {
    // A bare `;` stands where an expression would have to start: the parser
    // records an error but still returns a program.
    let l = Lexer::new(";");
    let mut p = Parser::from_lexer(l);

    let program = p.parse_program();

    assert!(!p.errors.is_empty());
    assert_eq!(
        p.errors[0],
        "No prefix parse function found for Semicolon"
    );
    assert_eq!(program.statements.len(), 0);
}

#[test]
fn parser_test_expected_token_errors() {
    // A missing name and a missing `=` abandon the let statement with an
    // error; parsing resumes at the next token, which still parses as an
    // expression statement on a best-effort basis.
    let l = Lexer::new("let = 5;");
    let mut p = Parser::from_lexer(l);
    let program = p.parse_program();
    assert_eq!(program.statements.len(), 1);
    assert_eq!(
        p.errors[0],
        "Expected next token to be Ident, got Assign instead"
    );

    let l = Lexer::new("let x 5;");
    let mut p = Parser::from_lexer(l);
    let program = p.parse_program();
    assert_eq!(program.statements.len(), 1);
    assert_eq!(
        p.errors[0],
        "Expected next token to be Assign, got Int instead"
    );
}

#[test]
fn parser_test_integer_bounds() {
    // The largest value that fits parses; one past it is a recorded error.
    let l = Lexer::new("9223372036854775807");
    let mut p = Parser::from_lexer(l);
    let program = p.parse_program();
    assert!(p.errors.is_empty());
    assert_eq!(program.statements.len(), 1);
    if let Statement::Expression(es) = &program.statements[0] {
        if let Expression::IntegerLiteral(il) = &es.expression {
            assert_eq!(il.value(), 9223372036854775807i64);
        } else {
            panic!("Expected IntegerLiteral");
        }
    } else {
        panic!("Expected ExpressionStatement");
    }

    let l = Lexer::new("9223372036854775808");
    let mut p = Parser::from_lexer(l);
    let program = p.parse_program();
    assert_eq!(program.statements.len(), 0);
    assert_eq!(
        p.errors[0],
        "Could not parse 9223372036854775808 as integer"
    );
}

#[test]
fn parser_test_rerender_is_identity() {
    // Re-parsing a rendering: where the grammar covers the rendered text, the
    // rendering is a fixed point.
    let inputs = vec![
        "foobar",
        "5",
        "let x = 5;let y = foobar;",
        "return 42;",
        "let x = 5;return x;let y = 10;return 993322;",
        "let x = 5;foobar",
        "return 7;42",
    ];
    for input in inputs {
        let mut p = Parser::from_lexer(Lexer::new(input));
        let program = p.parse_program();
        assert!(p.errors.is_empty());
        let rendered = program.string();

        let mut p2 = Parser::from_lexer(Lexer::new(rendered.as_str()));
        let program2 = p2.parse_program();
        assert!(p2.errors.is_empty());
        assert_eq!(program2.string(), rendered);
    }
}
