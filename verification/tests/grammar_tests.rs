use monkey_front::ast::{clone_arguments, clone_names, Expression, Identifier, Program, Statement};
use monkey_front::grammar::{CALL, EQUALS, LESS_GREATER, LOWEST, PREFIX, PRODUCT, SUM};
use monkey_front::parser::{expected_text, infix_level};
use monkey_front::token::{self, Token};

#[test]
fn precedence_levels_are_ordered() {
    assert!(LOWEST < EQUALS);
    assert!(EQUALS < LESS_GREATER);
    assert!(LESS_GREATER < SUM);
    assert!(SUM < PRODUCT);
    assert!(PRODUCT < PREFIX);
    assert!(PREFIX < CALL);
}

#[test]
fn every_operator_has_one_level() {
    let level = |kind: &str| infix_level(&Token::new(kind, kind));
    assert_eq!(level(token::EQ), Some(EQUALS));
    assert_eq!(level(token::NOT_EQ), Some(EQUALS));
    assert_eq!(level(token::LT), Some(LESS_GREATER));
    assert_eq!(level(token::GT), Some(LESS_GREATER));
    assert_eq!(level(token::PLUS), Some(SUM));
    assert_eq!(level(token::MINUS), Some(SUM));
    assert_eq!(level(token::ASTERISK), Some(PRODUCT));
    assert_eq!(level(token::SLASH), Some(PRODUCT));
    assert_eq!(level(token::LPAREN), Some(CALL));
    assert_eq!(level(token::BANG), None);
    assert_eq!(level(token::SEMICOLON), None);
    assert_eq!(level(token::EOF), None);
    assert_eq!(infix_level(&Token::new(token::IDENT, "+")), None);
}

#[test]
fn diagnostic_wording() {
    assert_eq!(
        expected_text(token::IDENT, token::INT),
        "expected next token to be IDENT, got INT instead"
    );
    assert_eq!(
        expected_text(token::RPAREN, token::EOF),
        "expected next token to be ), got EOF instead"
    );
}

#[test]
fn copies_of_lists_are_equal_to_them() {
    let names = vec![
        Identifier::new(Token::new(token::IDENT, "a"), "a"),
        Identifier::new(Token::new(token::IDENT, "b"), "b"),
    ];
    assert_eq!(clone_names(&names), names);
    let arguments = vec![
        Expression::Integer(Token::new(token::INT, "1")),
        Expression::Identifier(Token::new(token::IDENT, "x")),
    ];
    assert_eq!(clone_arguments(&arguments), arguments);
    assert!(clone_names(&[].to_vec()).is_empty());
}

#[test]
fn programs_grow_by_appending() {
    let mut program = Program::new();
    assert!(program.statements.is_empty());
    program.push(Statement::Return(Expression::Integer(Token::new(token::INT, "1"))));
    program.push(Statement::Return(Expression::Integer(Token::new(token::INT, "2"))));
    assert_eq!(
        program.statements,
        vec![
            Statement::Return(Expression::Integer(Token::new(token::INT, "1"))),
            Statement::Return(Expression::Integer(Token::new(token::INT, "2"))),
        ]
    );
}

#[test]
fn tokens_and_identifiers_keep_their_parts() {
    let token = Token::new(token::IDENT, "foobar");
    assert_eq!(token.token_type, "IDENT");
    assert_eq!(token.literal, "foobar");
    assert_eq!(token.clone(), token);
    let name = Identifier::new(token.clone(), "foobar");
    assert_eq!(name.token, token);
    assert_eq!(name.value, "foobar");
    assert_eq!(name.clone(), name);
}
