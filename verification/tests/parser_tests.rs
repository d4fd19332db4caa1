use kingcobra::ast::{Expression, Statement};
use kingcobra::lexer::Lexer;
use kingcobra::host::HostReply;
use kingcobra::parser::{module_reply, Parser};
use kingcobra::token::Token;

#[test]
fn parser_test_let_statements() {
    let input = r#"
let x = 5
let y = 10
let my_var = 838383
"#;
    let lexer = Lexer::new(input);
    let mut parser = Parser::new(lexer);

    let program = parser.parse_program();

    assert_eq!(parser.errors.len(), 0, "Parser had errors: {:?}", parser.errors);
    assert_eq!(program.statements.len(), 3);

    let expected_identifiers = vec!["x", "y", "my_var"];

    for (i, stmt) in program.statements.iter().enumerate() {
        match stmt {
            Statement::Let { name, .. } => {
                if let Expression::Identifier(id) = name {
                    assert_eq!(id, expected_identifiers[i]);
                } else {
                    panic!("Expected LetStatement name to be Identifier, got {:?}", name);
                }
            }
            _ => panic!("Expected LetStatement, got {:?}", stmt),
        }
    }
}

#[test]
fn parser_test_return_statements() {
    let input = r#"
return 5
return 10
return 993322
"#;
    let lexer = Lexer::new(input);
    let mut parser = Parser::new(lexer);

    let program = parser.parse_program();

    assert_eq!(parser.errors.len(), 0, "Parser had errors: {:?}", parser.errors);
    assert_eq!(program.statements.len(), 3);

    for stmt in program.statements {
        match stmt {
            Statement::Return(_) => {}
            _ => panic!("Expected ReturnStatement, got {:?}", stmt),
        }
    }
}

#[test]
fn test_operator_precedence_parsing() {
    // These tests check if the parser understands that multiplication happens before addition,
    // and that parentheses group things together correctly.
    let tests = vec![
        "-a * b",
        "a + b + c",
        "a + b - c",
        "a * b * c",
        "a * b / c",
        "a + b * c + d / e - f",
        "3 + 4 * 5 == 3 * 1 + 4 * 5",
        "true",
        "false",
        "3 > 5 == false",
        "3 < 5 == true",
        "1 + (2 + 3) + 4",
        "(5 + 5) * 2",
        "2 / (5 + 5)",
        "-(5 + 5)",
        "a + add(b * c) + d",
        "add(a, b, 1, 2 * 3, 4 + 5, add(6, 7 * 8))",
    ];

    for input in tests {
        let lexer = Lexer::new(input);
        let mut parser = Parser::new(lexer);
        let program = parser.parse_program();

        assert_eq!(parser.errors.len(), 0, "Parser had errors for input '{}': {:?}", input, parser.errors);
        assert_eq!(program.statements.len(), 1, "Expected 1 statement for {}", input);
    }
}

#[test]
fn test_if_expression() {
    let input = "when x < y: return x otherwise: return y done";
    let lexer = Lexer::new(input);
    let mut parser = Parser::new(lexer);
    let program = parser.parse_program();

    assert_eq!(parser.errors.len(), 0, "Parser had errors: {:?}", parser.errors);
    assert_eq!(program.statements.len(), 1);

    match &program.statements[0] {
        Statement::Expression(Expression::If { .. }) => {
            // Successfully parsed as an If Expression
        }
        _ => panic!("Expected If expression, got {:?}", program.statements[0]),
    }
}

#[test]
fn test_function_literal_parsing() {
    let input = "fn(x, y): return x + y done";
    let lexer = Lexer::new(input);
    let mut parser = Parser::new(lexer);
    let program = parser.parse_program();

    assert_eq!(parser.errors.len(), 0, "Parser had errors: {:?}", parser.errors);
    assert_eq!(program.statements.len(), 1);

    match &program.statements[0] {
        Statement::Expression(Expression::Function { parameters, .. }) => {
            assert_eq!(parameters.len(), 2);
            assert_eq!(parameters[0], "x");
            assert_eq!(parameters[1], "y");
        }
        _ => panic!("Expected Function literal, got {:?}", program.statements[0]),
    }
}

fn parse(input: &str) -> (Vec<Statement>, Vec<String>, bool) {
    let mut parser = Parser::new(Lexer::new(input));
    let program = parser.parse_program();
    let failed = parser.failed();
    assert_eq!(parser.error_messages(), &parser.errors);
    (program.statements, parser.errors, failed)
}

#[test]
fn multiplication_binds_tighter_than_addition() {
    let (stmts, errors, _) = parse("1 + 2 * 3");
    assert!(errors.is_empty());
    let expected = Statement::Expression(Expression::Infix {
        left: Box::new(Expression::Integer(1)),
        operator: Token::Plus,
        right: Box::new(Expression::Infix {
            left: Box::new(Expression::Integer(2)),
            operator: Token::Asterisk,
            right: Box::new(Expression::Integer(3)),
        }),
    });
    assert_eq!(stmts, vec![expected]);
}

#[test]
fn subtraction_associates_to_the_left() {
    let (stmts, _, _) = parse("a - b - c");
    let expected = Statement::Expression(Expression::Infix {
        left: Box::new(Expression::Infix {
            left: Box::new(Expression::Identifier("a".to_string())),
            operator: Token::Minus,
            right: Box::new(Expression::Identifier("b".to_string())),
        }),
        operator: Token::Minus,
        right: Box::new(Expression::Identifier("c".to_string())),
    });
    assert_eq!(stmts, vec![expected]);
}

#[test]
fn missing_assign_in_let_is_reported() {
    let (stmts, errors, failed) = parse("let x 5");
    assert!(!failed);
    assert_eq!(errors.len(), 1);
    assert_eq!(errors[0], "Error at line 1, col 7: Expected '=', got Int(5)");
    // the parser moves on and reads `5` as a statement of its own
    assert_eq!(stmts, vec![Statement::Expression(Expression::Integer(5))]);
}

#[test]
fn token_without_prefix_rule_is_reported() {
    let (_, errors, failed) = parse(")");
    assert!(!failed);
    assert_eq!(errors, vec!["Error at line 1, col 1: No prefix parse function for RParen".to_string()]);
}

#[test]
fn missing_operand_before_infix_operator_fails() {
    let (_, _, failed) = parse(") + 1");
    assert!(failed);
}

#[test]
fn class_member_and_while_parse() {
    let (stmts, errors, failed) = parse("class P: let self.hp = 10 done while x < 3: let x = x + 1 done p.hp import \"m.kc\" new P()");
    assert!(!failed);
    assert!(errors.is_empty(), "{:?}", errors);
    assert_eq!(stmts.len(), 5);
    match &stmts[0] {
        Statement::ClassStatement { name, body } => {
            assert_eq!(name, "P");
            match body.as_ref() {
                Statement::Block(inner) => assert_eq!(inner.len(), 1),
                other => panic!("unexpected class body {:?}", other),
            }
        }
        other => panic!("unexpected statement {:?}", other),
    }
    assert!(matches!(&stmts[1], Statement::Expression(Expression::WhileExpression { .. })));
    assert_eq!(
        stmts[2],
        Statement::Expression(Expression::MemberExpression {
            left: Box::new(Expression::Identifier("p".to_string())),
            property: "hp".to_string(),
        })
    );
    assert_eq!(
        stmts[3],
        Statement::Expression(Expression::ImportExpression(Box::new(Expression::String("m.kc".to_string()))))
    );
    assert!(matches!(&stmts[4], Statement::Expression(Expression::Prefix { operator: Token::New, .. })));
}

#[test]
fn class_without_name_is_reported() {
    let (stmts, errors, _) = parse("class 5");
    assert_eq!(errors.len(), 1);
    assert_eq!(stmts, vec![Statement::Expression(Expression::Integer(5))]);
    assert!(errors[0].contains("Expected identifier after class, got Int(5)"), "{:?}", errors);
}

#[test]
fn hash_and_index_literals_parse() {
    let (stmts, errors, _) = parse("{1: 2, \"a\": true}[1]");
    assert!(errors.is_empty());
    match &stmts[0] {
        Statement::Expression(Expression::IndexExpression { left, index }) => {
            assert_eq!(**index, Expression::Integer(1));
            match left.as_ref() {
                Expression::HashLiteral(pairs) => assert_eq!(pairs.len(), 2),
                other => panic!("unexpected {:?}", other),
            }
        }
        other => panic!("unexpected {:?}", other),
    }
}

#[test]
fn module_reply_from_text() {
    match module_reply("let a = 1 a") {
        Some(HostReply::Module(p)) => assert_eq!(p.statements.len(), 2),
        other => panic!("unexpected {:?}", other),
    }
    assert_eq!(
        module_reply("let x 5"),
        Some(HostReply::ModuleErrors(vec!["Error at line 1, col 7: Expected '=', got Int(5)".to_string()]))
    );
    assert_eq!(module_reply(") + 1"), None);
}

#[test]
fn statements_fit_in_the_tokens() {
    // three tokens before the end, at most three statements
    let (stmts, _, _) = parse("1 2 3");
    assert_eq!(stmts.len(), 3);
    let (stmts, _, _) = parse("1 + 2");
    assert_eq!(stmts.len(), 1);
}

#[test]
fn nul_character_ends_the_tokens_but_not_the_parse() {
    // the lexer reads a NUL as the end; a `when` whose block ends there lets parsing go on
    // after it, so the program has more statements than there are tokens before the end
    let mut lexer = Lexer::new("when 1: \0 1 2 3 4 5 6");
    assert_eq!(lexer.next_token(), Token::When);
    assert_eq!(lexer.next_token(), Token::Int(1));
    assert_eq!(lexer.next_token(), Token::Colon);
    assert_eq!(lexer.next_token(), Token::Eof);
    let (stmts, errors, failed) = parse("when 1: \0 1 2 3 4 5 6");
    assert!(!failed);
    assert!(errors.is_empty());
    assert_eq!(stmts.len(), 7);
    // still no more statements than characters
    assert!(stmts.len() <= "when 1: \0 1 2 3 4 5 6".chars().count());
}
