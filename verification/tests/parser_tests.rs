use script_front::ast::Expression;
use script_front::ast::Program;
use script_front::ast::Statement;
use script_front::lexer::Lexer;
use script_front::parser::Parser;
use script_front::parser::ParserError;
use script_front::precedences::Precedence;
use script_front::precedences::get_precedence;
use script_front::precedences::int_precedence;
use script_front::token::TokenType;

fn parse(source: &str) -> (Program, Option<ParserError>, usize) {
    let mut lexer = Lexer::new(source);
    let tokens = lexer.lex();
    let lex_error_count = lexer.errors().len();
    let mut parser = Parser::new(tokens);
    let (program, diagnostic) = parser.parseProgram();
    (program, diagnostic, lex_error_count)
}

fn expect_integer(e: &Expression, value: usize) {
    match e {
        Expression::IntegerLiteral { token } => {
            assert_eq!(token.kind, TokenType::Integer(value));
        },
        other => panic!("expected integer literal, got {:?}", other),
    }
}

#[test]
fn empty_input_gives_empty_program_and_no_diagnostics() {
    let (program, diagnostic, lex_errors) = parse("");
    assert_eq!(program.statements.len(), 0);
    assert!(diagnostic.is_none());
    assert_eq!(lex_errors, 0);
}

#[test]
fn value_statement_with_float_literal() {
    let (program, diagnostic, lex_errors) = parse("value x = 3.2444;");
    assert!(diagnostic.is_none());
    assert_eq!(lex_errors, 0);
    assert_eq!(program.statements.len(), 1);
    match &program.statements[0] {
        Statement::ValueStatement { token, name, value } => {
            assert_eq!(token.kind, TokenType::Value);
            assert_eq!(name.kind, TokenType::Identifier(String::from("x")));
            match &**value {
                Expression::FloatLiteral { token } => {
                    assert_eq!(token.kind, TokenType::Float(String::from("3.2444")));
                },
                other => panic!("expected float literal, got {:?}", other),
            }
        },
        other => panic!("expected value statement, got {:?}", other),
    }
}

#[test]
fn multiplication_binds_tighter_than_addition() {
    let (program, diagnostic, lex_errors) = parse("1 + 2 * 3");
    assert!(diagnostic.is_none());
    assert_eq!(lex_errors, 0);
    assert_eq!(program.statements.len(), 1);
    match &program.statements[0] {
        Statement::ExpressionStatement { expression, .. } => match &**expression {
            Expression::InfixExpression { token, left, right } => {
                assert_eq!(token.kind, TokenType::Plus);
                expect_integer(left, 1);
                match &**right {
                    Expression::InfixExpression { token, left, right } => {
                        assert_eq!(token.kind, TokenType::Asterisk);
                        expect_integer(left, 2);
                        expect_integer(right, 3);
                    },
                    other => panic!("expected infix right operand, got {:?}", other),
                }
            },
            other => panic!("expected infix expression, got {:?}", other),
        },
        other => panic!("expected expression statement, got {:?}", other),
    }
}

#[test]
fn same_precedence_chain_is_left_associative() {
    let (program, diagnostic, lex_errors) = parse("1 + 2 + 3");
    assert!(diagnostic.is_none());
    assert_eq!(lex_errors, 0);
    assert_eq!(program.statements.len(), 1);
    match &program.statements[0] {
        Statement::ExpressionStatement { expression, .. } => match &**expression {
            Expression::InfixExpression { token, left, right } => {
                assert_eq!(token.kind, TokenType::Plus);
                expect_integer(right, 3);
                match &**left {
                    Expression::InfixExpression { token, left, right } => {
                        assert_eq!(token.kind, TokenType::Plus);
                        expect_integer(left, 1);
                        expect_integer(right, 2);
                    },
                    other => panic!("expected left-nested infix, got {:?}", other),
                }
            },
            other => panic!("expected infix expression, got {:?}", other),
        },
        other => panic!("expected expression statement, got {:?}", other),
    }
}

#[test]
fn return_statement() {
    let (program, diagnostic, _) = parse("return 5;");
    assert!(diagnostic.is_none());
    assert_eq!(program.statements.len(), 1);
    match &program.statements[0] {
        Statement::ReturnStatement { token, value } => {
            assert_eq!(token.kind, TokenType::Return);
            expect_integer(value, 5);
        },
        other => panic!("expected return statement, got {:?}", other),
    }
}

#[test]
fn update_statement_without_semicolon() {
    let (program, diagnostic, _) = parse("update x = 2");
    assert!(diagnostic.is_none());
    assert_eq!(program.statements.len(), 1);
    match &program.statements[0] {
        Statement::UpdateStatement { token, name, value } => {
            assert_eq!(token.kind, TokenType::Update);
            assert_eq!(name.kind, TokenType::Identifier(String::from("x")));
            expect_integer(value, 2);
        },
        other => panic!("expected update statement, got {:?}", other),
    }
}

#[test]
fn prefix_minus_expression() {
    let (program, diagnostic, lex_errors) = parse("- 5");
    assert!(diagnostic.is_none());
    assert_eq!(lex_errors, 0);
    match &program.statements[0] {
        Statement::ExpressionStatement { expression, .. } => match &**expression {
            Expression::PrefixExpression { token, right } => {
                assert_eq!(token.kind, TokenType::Minus);
                expect_integer(right, 5);
            },
            other => panic!("expected prefix expression, got {:?}", other),
        },
        other => panic!("expected expression statement, got {:?}", other),
    }
}

#[test]
fn prefix_bang_expression() {
    let (program, diagnostic, _) = parse("! true");
    assert!(diagnostic.is_none());
    match &program.statements[0] {
        Statement::ExpressionStatement { expression, .. } => match &**expression {
            Expression::PrefixExpression { token, right } => {
                assert_eq!(token.kind, TokenType::Bang);
                match &**right {
                    Expression::BooleanLiteral { token } => {
                        assert_eq!(token.kind, TokenType::Boolean(true));
                    },
                    other => panic!("expected boolean literal, got {:?}", other),
                }
            },
            other => panic!("expected prefix expression, got {:?}", other),
        },
        other => panic!("expected expression statement, got {:?}", other),
    }
}

#[test]
fn comparison_expression() {
    let (program, diagnostic, _) = parse("1 < 2");
    assert!(diagnostic.is_none());
    match &program.statements[0] {
        Statement::ExpressionStatement { expression, .. } => match &**expression {
            Expression::InfixExpression { token, left, right } => {
                assert_eq!(token.kind, TokenType::LT);
                expect_integer(left, 1);
                expect_integer(right, 2);
            },
            other => panic!("expected infix expression, got {:?}", other),
        },
        other => panic!("expected expression statement, got {:?}", other),
    }
}

#[test]
fn no_prefix_handler_is_a_diagnostic() {
    let (program, diagnostic, _) = parse("+ +");
    assert_eq!(program.statements.len(), 0);
    match diagnostic {
        Some(ParserError::NoPrefixHandler { kind, .. }) => {
            assert_eq!(kind, TokenType::Plus);
        },
        other => panic!("expected a missing-prefix diagnostic, got {:?}", other),
    }
}

#[test]
fn binding_to_non_identifier_is_a_diagnostic() {
    let (program, diagnostic, _) = parse("value 1 = 2");
    assert_eq!(program.statements.len(), 0);
    match diagnostic {
        Some(ParserError::UnexpectedToken { expected, actual, .. }) => {
            assert_eq!(expected, TokenType::Identifier(String::new()));
            assert_eq!(actual, TokenType::Integer(1));
        },
        other => panic!("expected an unexpected-token diagnostic, got {:?}", other),
    }
}

#[test]
fn truncated_binding_is_a_diagnostic() {
    let (program, diagnostic, _) = parse("value x");
    assert_eq!(program.statements.len(), 0);
    assert!(matches!(diagnostic, Some(ParserError::UnexpectedEnd)));
}

#[test]
fn statements_before_an_error_are_kept() {
    let (program, diagnostic, _) = parse("value x = 1; value 2 = 3");
    assert_eq!(program.statements.len(), 1);
    assert!(matches!(diagnostic, Some(ParserError::UnexpectedToken { .. })));
}

#[test]
fn multiple_statements_in_order() {
    let (program, diagnostic, _) = parse("value x = 1; return x; 1 + 2;");
    assert!(diagnostic.is_none());
    assert_eq!(program.statements.len(), 3);
    assert!(matches!(program.statements[0], Statement::ValueStatement { .. }));
    assert!(matches!(program.statements[1], Statement::ReturnStatement { .. }));
    assert!(matches!(program.statements[2], Statement::ExpressionStatement { .. }));
}

#[test]
fn precedence_table_levels() {
    assert_eq!(int_precedence(Precedence::LOWEST), 0);
    assert_eq!(int_precedence(Precedence::AND), 1);
    assert_eq!(int_precedence(Precedence::OR), 2);
    assert_eq!(int_precedence(Precedence::EQUALS), 3);
    assert_eq!(int_precedence(Precedence::LESSGREATER), 4);
    assert_eq!(int_precedence(Precedence::SUM), 5);
    assert_eq!(int_precedence(Precedence::PRODUCT), 6);
    assert_eq!(int_precedence(Precedence::PREFIX), 7);
    assert_eq!(int_precedence(Precedence::CALL), 8);
    assert_eq!(int_precedence(Precedence::INDEX), 9);
}

#[test]
fn precedence_table_entries() {
    assert_eq!(get_precedence(TokenType::Plus), Some(Precedence::SUM));
    assert_eq!(get_precedence(TokenType::Asterisk), Some(Precedence::PRODUCT));
    assert_eq!(get_precedence(TokenType::Equal), Some(Precedence::EQUALS));
    assert_eq!(get_precedence(TokenType::LT), Some(Precedence::LESSGREATER));
    assert_eq!(get_precedence(TokenType::And), Some(Precedence::AND));
    assert_eq!(get_precedence(TokenType::Or), Some(Precedence::OR));
    assert_eq!(get_precedence(TokenType::LParen), Some(Precedence::CALL));
    assert_eq!(get_precedence(TokenType::LBracket), Some(Precedence::INDEX));
    assert_eq!(get_precedence(TokenType::Semicolon), None);
}

#[test]
fn cursor_operations() {
    let mut lexer = Lexer::new("1 + 2;");
    let tokens = lexer.lex();
    let mut parser = Parser::new(tokens);
    assert!(parser.current_token_is(&TokenType::Integer(1)));
    assert!(parser.peek_token_is(&TokenType::Plus));
    assert_eq!(int_precedence(parser.peek_precedence()), 5);
    assert!(parser.expect_peek(&TokenType::Plus));
    assert!(!parser.expect_peek(&TokenType::Semicolon));
    parser.consume_token();
    assert!(parser.current_token_is(&TokenType::Integer(2)));
}
