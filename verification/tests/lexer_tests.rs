use script_front::lexer::Lexer;
use script_front::token::LexerError;
use script_front::token::Position;
use script_front::token::Token;
use script_front::token::TokenType;
use script_front::token::lookup_ident;
use script_front::token::variant_eq;

fn lex(source: &str) -> (Vec<Token>, Vec<LexerError>) {
    let mut lexer = Lexer::new(source);
    let tokens = lexer.lex();
    let errors = lexer.errors();
    (tokens, errors)
}

fn single_kind(source: &str) -> TokenType {
    let (mut tokens, errors) = lex(source);
    assert_eq!(tokens.len(), 1, "expected one token for {:?}", source);
    assert!(errors.is_empty(), "expected no diagnostics for {:?}", source);
    tokens.remove(0).kind
}

#[test]
fn compound_and() {
    assert_eq!(single_kind("&&"), TokenType::And);
}

#[test]
fn compound_or() {
    assert_eq!(single_kind("||"), TokenType::Or);
}

#[test]
fn compound_equal() {
    assert_eq!(single_kind("=="), TokenType::Equal);
}

#[test]
fn compound_not_equal() {
    assert_eq!(single_kind("!="), TokenType::NotEqual);
}

#[test]
fn compound_less_equal() {
    assert_eq!(single_kind("<="), TokenType::LTEq);
}

#[test]
fn compound_greater_equal() {
    assert_eq!(single_kind(">="), TokenType::GTEq);
}

#[test]
fn compound_open_block() {
    assert_eq!(single_kind("->"), TokenType::OpenBlock);
}

#[test]
fn compound_double_plus() {
    assert_eq!(single_kind("++"), TokenType::DoublePlus);
}

#[test]
fn compound_double_minus() {
    assert_eq!(single_kind("--"), TokenType::DoubleMinus);
}

#[test]
fn integer_literal() {
    let (tokens, errors) = lex("123");
    assert_eq!(tokens.len(), 1);
    assert_eq!(tokens[0].kind, TokenType::Integer(123));
    assert!(errors.is_empty());
}

#[test]
fn float_literal() {
    let (tokens, errors) = lex("1.5");
    assert_eq!(tokens.len(), 1);
    assert_eq!(tokens[0].kind, TokenType::Float(String::from("1.5")));
    assert!(errors.is_empty());
}

#[test]
fn dot_not_followed_by_digit_is_not_consumed() {
    // "12.a": the dot joins the number only when a digit follows it, so the
    // number ends at "12"; the dot is tokenized on its own (no rule accepts
    // it, so it becomes a diagnostic) and "a" lexes separately.
    let (tokens, errors) = lex("12.a");
    assert_eq!(tokens.len(), 2);
    assert_eq!(tokens[0].kind, TokenType::Integer(12));
    assert_eq!(tokens[1].kind, TokenType::Identifier(String::from("a")));
    assert_eq!(errors.len(), 1);
    assert_eq!(
        errors[0],
        LexerError::UnrecognizedCharacter(Position { column: 2, line: 1 })
    );
}

#[test]
fn keyword_recognition_is_exact_match_only() {
    let (tokens, errors) = lex("truely");
    assert_eq!(tokens.len(), 1);
    assert_eq!(tokens[0].kind, TokenType::Identifier(String::from("truely")));
    assert!(errors.is_empty());
}

#[test]
fn keywords() {
    assert_eq!(single_kind("true"), TokenType::Boolean(true));
    assert_eq!(single_kind("false"), TokenType::Boolean(false));
    assert_eq!(single_kind("value"), TokenType::Value);
    assert_eq!(single_kind("update"), TokenType::Update);
    assert_eq!(single_kind("constant"), TokenType::Constant);
    assert_eq!(single_kind("return"), TokenType::Return);
    assert_eq!(single_kind("if"), TokenType::If);
    assert_eq!(single_kind("else"), TokenType::Else);
    assert_eq!(single_kind("f"), TokenType::Function);
    assert_eq!(single_kind("end"), TokenType::EndBlock);
}

#[test]
fn newline_in_string_is_retained_and_tracked() {
    let (tokens, errors) = lex("\"a\nb\" x");
    assert!(errors.is_empty());
    assert_eq!(tokens.len(), 2);
    assert_eq!(tokens[0].kind, TokenType::String(String::from("a\nb")));
    assert_eq!(tokens[0].position, Position { column: 0, line: 1 });
    assert_eq!(tokens[1].kind, TokenType::Identifier(String::from("x")));
    // The newline inside the string advanced the line counter and reset the
    // column; "b", the closing quote, and the space then moved it to 3.
    assert_eq!(tokens[1].position, Position { column: 3, line: 2 });
}

#[test]
fn plain_operator_forms() {
    let (tokens, errors) = lex("+ - * / = ! > < & | ");
    assert!(errors.is_empty());
    let kinds: Vec<TokenType> = tokens.into_iter().map(|t| t.kind).collect();
    assert_eq!(
        kinds,
        vec![
            TokenType::Plus,
            TokenType::Minus,
            TokenType::Asterisk,
            TokenType::Slash,
            TokenType::Assign,
            TokenType::Bang,
            TokenType::GT,
            TokenType::LT,
            TokenType::Ampersand,
            TokenType::Bar,
        ]
    );
}

#[test]
fn single_character_tokens() {
    let (tokens, errors) = lex("()[]{};");
    assert!(errors.is_empty());
    let kinds: Vec<TokenType> = tokens.into_iter().map(|t| t.kind).collect();
    assert_eq!(
        kinds,
        vec![
            TokenType::LParen,
            TokenType::RParen,
            TokenType::LBracket,
            TokenType::RBracket,
            TokenType::LBrace,
            TokenType::RBrace,
            TokenType::Semicolon,
        ]
    );
}

#[test]
fn unterminated_string_still_yields_a_token() {
    let (tokens, errors) = lex("\"abc");
    assert_eq!(tokens.len(), 1);
    assert_eq!(tokens[0].kind, TokenType::String(String::from("abc")));
    assert!(errors.is_empty());
}

#[test]
fn integer_overflow_is_malformed() {
    let (tokens, errors) = lex("99999999999999999999999999999999");
    assert!(tokens.is_empty());
    assert_eq!(errors.len(), 1);
    assert!(matches!(errors[0], LexerError::MalformedNumericLiteral(_)));
}

#[test]
fn two_decimal_points_are_malformed() {
    let (tokens, errors) = lex("1.2.3");
    assert!(tokens.is_empty());
    assert_eq!(errors.len(), 1);
    assert_eq!(
        errors[0],
        LexerError::MalformedNumericLiteral(Position { column: 0, line: 1 })
    );
}

#[test]
fn unrecognized_character_is_skipped() {
    let (tokens, errors) = lex("# 1");
    assert_eq!(tokens.len(), 1);
    assert_eq!(tokens[0].kind, TokenType::Integer(1));
    assert_eq!(
        errors,
        vec![LexerError::UnrecognizedCharacter(Position { column: 0, line: 1 })]
    );
}

#[test]
fn operator_with_bad_follower_is_a_lexical_error() {
    let (tokens, errors) = lex("+a");
    assert_eq!(tokens.len(), 1);
    assert_eq!(tokens[0].kind, TokenType::Identifier(String::from("a")));
    assert_eq!(
        errors,
        vec![LexerError::UnrecognizedCharacter(Position { column: 0, line: 1 })]
    );
}

#[test]
fn newline_resets_column_for_positions() {
    let (tokens, errors) = lex("(\n)");
    assert!(errors.is_empty());
    assert_eq!(tokens.len(), 2);
    assert_eq!(tokens[0].position, Position { column: 0, line: 1 });
    assert_eq!(tokens[1].position, Position { column: 0, line: 2 });
}

#[test]
fn empty_input_gives_no_tokens_and_no_diagnostics() {
    let (tokens, errors) = lex("");
    assert!(tokens.is_empty());
    assert!(errors.is_empty());
}

#[test]
fn next_returns_none_at_exhaustion() {
    let mut lexer = Lexer::new("1");
    assert!(lexer.next().is_some());
    assert!(lexer.next().is_none());
    assert!(lexer.next().is_none());
}

#[test]
fn lookup_ident_finds_keywords_only() {
    assert_eq!(lookup_ident("value"), Some(TokenType::Value));
    assert_eq!(lookup_ident("values"), None);
    assert_eq!(lookup_ident("f"), Some(TokenType::Function));
    assert_eq!(lookup_ident(""), None);
}

#[test]
fn variant_eq_ignores_payload() {
    assert!(variant_eq(
        &TokenType::Identifier(String::from("x")),
        &TokenType::Identifier(String::new())
    ));
    assert!(variant_eq(&TokenType::Integer(1), &TokenType::Integer(2)));
    assert!(!variant_eq(&TokenType::Plus, &TokenType::Minus));
}
