use monkey_front::ast;
use monkey_front::grammar::ParseError;
use monkey_front::lexer;
use monkey_front::parser::Parser;
use monkey_front::token;

fn verify_no_parser_errors(parser: Parser) -> bool {
    if parser.errors.len() == 0 {
        return true;
    }

    for err in parser.errors {
        println!("{}", err);
    }

    return false;
}

fn create_expected_let_statement(id_name: &str, exp_val: &str) -> ast::Statement {
    let expected_token = token::Token::new(token::IDENT, id_name);
    let expected_ident = ast::Identifier::new(expected_token, id_name);
    let expected_expression = ast::Expression::Integer(token::Token::new(token::INT, exp_val));
    let expected_statement = ast::Statement::Let(expected_ident, expected_expression);
    return expected_statement;
}

fn integer(text: &str) -> ast::Expression {
    ast::Expression::Integer(token::Token::new(token::INT, text))
}

fn name(text: &str) -> ast::Expression {
    ast::Expression::Identifier(token::Token::new(token::IDENT, text))
}

fn infix(operator: &str, left: ast::Expression, right: ast::Expression) -> ast::Expression {
    ast::Expression::Infix(
        token::Token::new(operator, operator),
        Box::new(left),
        Box::new(right),
    )
}

fn prefix(operator: &str, operand: ast::Expression) -> ast::Expression {
    ast::Expression::Prefix(token::Token::new(operator, operator), Box::new(operand))
}

fn parse_one_expression(input: &str) -> ast::Expression {
    let mut parser = Parser::new(lexer::Lexer::new(input)).unwrap();
    let expression = parser.parse_expression(1).unwrap();
    assert!(parser.errors.is_empty());
    expression
}

#[test]
fn test_let_statements() {
    let input = r#"
        let x = 5;
        let y = 10;
        let foobar = 838383;
        "#;

    let lexer = lexer::Lexer::new(input);
    let mut parser = Parser::new(lexer).unwrap();
    let program = parser.parse_program().unwrap();

    assert_eq!(3, program.statements.len());
    assert_eq!(
        program.statements.get(0).unwrap(),
        &create_expected_let_statement("x", "5")
    );
    assert_eq!(
        program.statements.get(1).unwrap(),
        &create_expected_let_statement("y", "10")
    );
    assert_eq!(
        program.statements.get(2).unwrap(),
        &create_expected_let_statement("foobar", "838383")
    );
    assert_eq!(true, verify_no_parser_errors(parser));
    println!("{:?}", program);
}

#[test]
fn test_let_statements_error() {
    let input = r#"
        let x = 5;
        let y = 10;
        let 838383;
        "#;

    let lexer = lexer::Lexer::new(input);
    let mut parser = Parser::new(lexer).unwrap();
    let _ = parser.parse_program().unwrap_err();

    assert_eq!(false, verify_no_parser_errors(parser));
}

#[test]
fn test_return_statements() {
    let input = r#"
        return 5;
        return 10;
        return 993322;
        "#;

    let lexer = lexer::Lexer::new(input);
    let mut parser = Parser::new(lexer).unwrap();
    let program = parser.parse_program().unwrap();

    assert_eq!(3, program.statements.len());
    assert!(verify_no_parser_errors(parser));
    assert!(matches!(
        program.statements.get(0).unwrap(),
        ast::Statement::Return { .. }
    ));
    assert!(matches!(
        program.statements.get(1).unwrap(),
        ast::Statement::Return { .. }
    ));
    assert!(matches!(
        program.statements.get(2).unwrap(),
        ast::Statement::Return { .. }
    ));

    println!("{:?}", program);
}

#[test]
fn return_statements_keep_their_values() {
    let mut parser = Parser::new(lexer::Lexer::new("return 5; return x;")).unwrap();
    let program = parser.parse_program().unwrap();
    assert_eq!(
        program.statements,
        vec![
            ast::Statement::Return(integer("5")),
            ast::Statement::Return(name("x")),
        ]
    );
}

#[test]
fn product_binds_tighter_than_sum() {
    assert_eq!(
        parse_one_expression("1 + 2 * 3"),
        infix("+", integer("1"), infix("*", integer("2"), integer("3")))
    );
    assert_ne!(
        parse_one_expression("1 + 2 * 3"),
        infix("*", infix("+", integer("1"), integer("2")), integer("3"))
    );
}

#[test]
fn equal_precedence_groups_to_the_left() {
    assert_eq!(
        parse_one_expression("1 - 2 + 3"),
        infix("+", infix("-", integer("1"), integer("2")), integer("3"))
    );
    assert_eq!(
        parse_one_expression("a * b / c"),
        infix("/", infix("*", name("a"), name("b")), name("c"))
    );
}

#[test]
fn comparison_and_equality_levels() {
    assert_eq!(
        parse_one_expression("a < b == c > d"),
        infix(
            "==",
            infix("<", name("a"), name("b")),
            infix(">", name("c"), name("d"))
        )
    );
    assert_eq!(
        parse_one_expression("1 + 2 != 3"),
        infix("!=", infix("+", integer("1"), integer("2")), integer("3"))
    );
}

#[test]
fn prefix_operators_bind_tightest() {
    assert_eq!(
        parse_one_expression("-a * b"),
        infix("*", prefix("-", name("a")), name("b"))
    );
    assert_eq!(
        parse_one_expression("!-a"),
        prefix("!", prefix("-", name("a")))
    );
}

#[test]
fn groups_override_precedence() {
    assert_eq!(
        parse_one_expression("(1 + 2) * 3"),
        infix("*", infix("+", integer("1"), integer("2")), integer("3"))
    );
    assert_eq!(
        parse_one_expression("-(5 + 5)"),
        prefix("-", infix("+", integer("5"), integer("5")))
    );
}

#[test]
fn booleans_are_operands() {
    assert_eq!(
        parse_one_expression("true"),
        ast::Expression::Boolean(token::Token::new(token::TRUE, "true"))
    );
    assert_eq!(
        parse_one_expression("!false"),
        prefix(
            "!",
            ast::Expression::Boolean(token::Token::new(token::FALSE, "false"))
        )
    );
}

#[test]
fn let_statement_happy_path() {
    let mut parser = Parser::new(lexer::Lexer::new("let x = 5;")).unwrap();
    let program = parser.parse_program().unwrap();
    assert_eq!(
        program.statements,
        vec![create_expected_let_statement("x", "5")]
    );
    assert!(parser.errors.is_empty());
}

#[test]
fn let_statement_with_an_expression() {
    let mut parser = Parser::new(lexer::Lexer::new("let y = 1 + 2 * x;")).unwrap();
    let program = parser.parse_program().unwrap();
    let expected_ident = ast::Identifier::new(token::Token::new(token::IDENT, "y"), "y");
    assert_eq!(
        program.statements,
        vec![ast::Statement::Let(
            expected_ident,
            infix("+", integer("1"), infix("*", integer("2"), name("x")))
        )]
    );
}

#[test]
fn let_without_identifier_gives_one_diagnostic() {
    let mut parser = Parser::new(lexer::Lexer::new("let 5;")).unwrap();
    let error = parser.parse_program().unwrap_err();
    assert_eq!(error, ParseError::UnexpectedToken);
    assert_eq!(
        parser.errors,
        vec!["expected next token to be IDENT, got INT instead".to_string()]
    );
}

#[test]
fn let_without_assign_gives_one_diagnostic() {
    let mut parser = Parser::new(lexer::Lexer::new("let x 5;")).unwrap();
    let error = parser.parse_program().unwrap_err();
    assert_eq!(error, ParseError::UnexpectedToken);
    assert_eq!(
        parser.errors,
        vec!["expected next token to be =, got INT instead".to_string()]
    );
}

#[test]
fn missing_closing_parenthesis_is_reported() {
    let mut parser = Parser::new(lexer::Lexer::new("(1 + 2;")).unwrap();
    let error = parser.parse_program().unwrap_err();
    assert_eq!(error, ParseError::UnexpectedToken);
    assert_eq!(
        parser.errors,
        vec!["expected next token to be ), got ; instead".to_string()]
    );
}

#[test]
fn token_without_prefix_rule_is_reported() {
    let mut parser = Parser::new(lexer::Lexer::new("let x = ;")).unwrap();
    let error = parser.parse_program().unwrap_err();
    assert_eq!(error, ParseError::NoPrefixRule);
    assert_eq!(
        parser.errors,
        vec!["no prefix parse function for ; found".to_string()]
    );
}

#[test]
fn illegal_character_has_no_prefix_rule() {
    let mut parser = Parser::new(lexer::Lexer::new("@")).unwrap();
    let error = parser.parse_program().unwrap_err();
    assert_eq!(error, ParseError::NoPrefixRule);
    assert_eq!(
        parser.errors,
        vec!["no prefix parse function for ILLEGAL found".to_string()]
    );
}

#[test]
fn expression_statements_need_no_semicolon() {
    let mut parser = Parser::new(lexer::Lexer::new("foo")).unwrap();
    let program = parser.parse_program().unwrap();
    assert_eq!(
        program.statements,
        vec![ast::Statement::Expression(
            token::Token::new(token::IDENT, "foo"),
            name("foo")
        )]
    );

    let mut parser = Parser::new(lexer::Lexer::new("a + b; c;")).unwrap();
    let program = parser.parse_program().unwrap();
    assert_eq!(
        program.statements,
        vec![
            ast::Statement::Expression(
                token::Token::new(token::IDENT, "a"),
                infix("+", name("a"), name("b"))
            ),
            ast::Statement::Expression(token::Token::new(token::IDENT, "c"), name("c")),
        ]
    );
}

#[test]
fn let_without_semicolon_ends_at_end_of_input() {
    let mut parser = Parser::new(lexer::Lexer::new("let x = 5")).unwrap();
    let program = parser.parse_program().unwrap();
    assert_eq!(
        program.statements,
        vec![create_expected_let_statement("x", "5")]
    );
}

#[test]
fn empty_input_is_an_empty_program() {
    let mut parser = Parser::new(lexer::Lexer::new("  \n ")).unwrap();
    let program = parser.parse_program().unwrap();
    assert!(program.statements.is_empty());
    assert!(parser.errors.is_empty());
}

#[test]
fn scan_failure_ends_the_parse() {
    let error = Parser::new(lexer::Lexer::new("99999999999 + 1")).err();
    assert_eq!(
        error,
        Some(ParseError::Scan(lexer::ScanError::IntegerOutOfRange))
    );

    let mut parser = Parser::new(lexer::Lexer::new("let x = 1 + 2147483648;")).unwrap();
    let error = parser.parse_program().unwrap_err();
    assert_eq!(error, ParseError::Scan(lexer::ScanError::IntegerOutOfRange));
    assert!(parser.errors.is_empty());
}

#[test]
fn next_token_shifts_the_lookahead() {
    let mut parser = Parser::new(lexer::Lexer::new("a b")).unwrap();
    assert_eq!(parser.diagnostics().len(), 0);
    assert_eq!(parser.next_token(), Ok(()));
    let statement = parser.parse_statement().unwrap();
    assert_eq!(
        statement,
        ast::Statement::Expression(token::Token::new(token::IDENT, "b"), name("b"))
    );
}

fn call(callee: ast::Expression, arguments: Vec<ast::Expression>) -> ast::Expression {
    ast::Expression::Call(token::Token::new(token::LPAREN, "("), Box::new(callee), arguments)
}

fn expression_statement(first_kind: &str, first: &str, value: ast::Expression) -> ast::Statement {
    ast::Statement::Expression(token::Token::new(first_kind, first), value)
}

fn parameter(text: &str) -> ast::Identifier {
    ast::Identifier::new(token::Token::new(token::IDENT, text), text)
}

#[test]
fn call_expressions_take_arguments() {
    assert_eq!(parse_one_expression("f()"), call(name("f"), vec![]));
    assert_eq!(
        parse_one_expression("add(1, 2 * 3, x)"),
        call(
            name("add"),
            vec![
                integer("1"),
                infix("*", integer("2"), integer("3")),
                name("x")
            ]
        )
    );
}

#[test]
fn calls_bind_tighter_than_operators() {
    assert_eq!(
        parse_one_expression("a + add(b * c) + d"),
        infix(
            "+",
            infix(
                "+",
                name("a"),
                call(name("add"), vec![infix("*", name("b"), name("c"))])
            ),
            name("d")
        )
    );
    assert_eq!(
        parse_one_expression("-f(x)(y)"),
        prefix("-", call(call(name("f"), vec![name("x")]), vec![name("y")]))
    );
}

#[test]
fn function_literals_have_parameters_and_a_body() {
    assert_eq!(
        parse_one_expression("fn(x, y) { x + y; }"),
        ast::Expression::Function(
            token::Token::new(token::FUNCTION, "fn"),
            vec![parameter("x"), parameter("y")],
            vec![expression_statement(
                token::IDENT,
                "x",
                infix("+", name("x"), name("y"))
            )]
        )
    );
    assert_eq!(
        parse_one_expression("fn() {}"),
        ast::Expression::Function(token::Token::new(token::FUNCTION, "fn"), vec![], vec![])
    );
}

#[test]
fn conditionals_have_a_consequence_and_an_alternative() {
    assert_eq!(
        parse_one_expression("if (x < y) { x }"),
        ast::Expression::If(
            token::Token::new(token::IF, "if"),
            Box::new(infix("<", name("x"), name("y"))),
            vec![expression_statement(token::IDENT, "x", name("x"))],
            None
        )
    );
    assert_eq!(
        parse_one_expression("if (x) { return 1; } else { let z = 2; z }"),
        ast::Expression::If(
            token::Token::new(token::IF, "if"),
            Box::new(name("x")),
            vec![ast::Statement::Return(integer("1"))],
            Some(vec![
                ast::Statement::Let(parameter("z"), integer("2")),
                expression_statement(token::IDENT, "z", name("z")),
            ])
        )
    );
}

#[test]
fn full_source_parses_to_two_statements() {
    let mut parser =
        Parser::new(lexer::Lexer::new("let add = fn(x, y) { x + y; }; add(1, 2);")).unwrap();
    let program = parser.parse_program().unwrap();
    assert!(parser.errors.is_empty());
    assert_eq!(
        program.statements,
        vec![
            ast::Statement::Let(
                parameter("add"),
                ast::Expression::Function(
                    token::Token::new(token::FUNCTION, "fn"),
                    vec![parameter("x"), parameter("y")],
                    vec![expression_statement(
                        token::IDENT,
                        "x",
                        infix("+", name("x"), name("y"))
                    )]
                )
            ),
            expression_statement(
                token::IDENT,
                "add",
                call(name("add"), vec![integer("1"), integer("2")])
            ),
        ]
    );
}

#[test]
fn unclosed_block_is_reported() {
    let mut parser = Parser::new(lexer::Lexer::new("fn(x) { x; ")).unwrap();
    let error = parser.parse_program().unwrap_err();
    assert_eq!(error, ParseError::UnexpectedToken);
    assert_eq!(
        parser.errors,
        vec!["expected next token to be }, got EOF instead".to_string()]
    );
}

#[test]
fn parameters_must_be_names() {
    let mut parser = Parser::new(lexer::Lexer::new("fn(1) {}")).unwrap();
    let error = parser.parse_program().unwrap_err();
    assert_eq!(error, ParseError::UnexpectedToken);
    assert_eq!(
        parser.errors,
        vec!["expected next token to be IDENT, got INT instead".to_string()]
    );

    let mut parser = Parser::new(lexer::Lexer::new("fn(a, ) {}")).unwrap();
    assert_eq!(parser.parse_program().unwrap_err(), ParseError::UnexpectedToken);
    assert_eq!(
        parser.errors,
        vec!["expected next token to be IDENT, got ) instead".to_string()]
    );
}

#[test]
fn conditionals_demand_their_punctuation() {
    let mut parser = Parser::new(lexer::Lexer::new("if x { y }")).unwrap();
    assert_eq!(parser.parse_program().unwrap_err(), ParseError::UnexpectedToken);
    assert_eq!(
        parser.errors,
        vec!["expected next token to be (, got IDENT instead".to_string()]
    );

    let mut parser = Parser::new(lexer::Lexer::new("if (x) y")).unwrap();
    assert_eq!(parser.parse_program().unwrap_err(), ParseError::UnexpectedToken);
    assert_eq!(
        parser.errors,
        vec!["expected next token to be {, got IDENT instead".to_string()]
    );
}

#[test]
fn unclosed_call_is_reported() {
    let mut parser = Parser::new(lexer::Lexer::new("add(1, 2;")).unwrap();
    assert_eq!(parser.parse_program().unwrap_err(), ParseError::UnexpectedToken);
    assert_eq!(
        parser.errors,
        vec!["expected next token to be ), got ; instead".to_string()]
    );
}

#[test]
fn syntax_trees_can_be_copied() {
    let mut parser = Parser::new(lexer::Lexer::new(
        "let f = fn(a, b) { if (a < b) { return a; } else { g(b, -a) } }; f(1, 2)",
    ))
    .unwrap();
    let program = parser.parse_program().unwrap();
    assert_eq!(program.statements.len(), 2);
    let copy: Vec<ast::Statement> = program.statements.iter().map(|s| s.clone()).collect();
    assert_eq!(copy, program.statements);
    assert_eq!(ast::clone_block(&program.statements), program.statements);
}
