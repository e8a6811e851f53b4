use monkey_front::lexer::{classify_char, Classified, Lexer};
use monkey_front::token;

#[test]
fn test_next_token() {
    let input = "=+(){},;";
    let mut lexer = Lexer::new(input);

    assert_eq!(
        token::Token::new(token::ASSIGN, "="),
        lexer.next_token().unwrap()
    );
    assert_eq!(
        token::Token::new(token::PLUS, "+"),
        lexer.next_token().unwrap()
    );
    assert_eq!(
        token::Token::new(token::LPAREN, "("),
        lexer.next_token().unwrap()
    );
    assert_eq!(
        token::Token::new(token::RPAREN, ")"),
        lexer.next_token().unwrap()
    );
    assert_eq!(
        token::Token::new(token::LBRACE, "{"),
        lexer.next_token().unwrap()
    );
    assert_eq!(
        token::Token::new(token::RBRACE, "}"),
        lexer.next_token().unwrap()
    );
    assert_eq!(
        token::Token::new(token::COMMA, ","),
        lexer.next_token().unwrap()
    );
    assert_eq!(
        token::Token::new(token::SEMICOLON, ";"),
        lexer.next_token().unwrap()
    );
    assert_eq!(
        token::Token::new(token::EOF, ""),
        lexer.next_token().unwrap()
    );
}

#[test]
fn test_next_token_easy_source_code() {
    let input = "let five = 5;";
    let mut lexer = Lexer::new(input);

    assert_eq!(
        token::Token::new(token::LET, "let"),
        lexer.next_token().unwrap()
    );
    assert_eq!(
        token::Token::new(token::IDENT, "five"),
        lexer.next_token().unwrap()
    );
    assert_eq!(
        token::Token::new(token::ASSIGN, "="),
        lexer.next_token().unwrap()
    );
    assert_eq!(
        token::Token::new(token::INT, "5"),
        lexer.next_token().unwrap()
    );
    assert_eq!(
        token::Token::new(token::SEMICOLON, ";"),
        lexer.next_token().unwrap()
    );
    assert_eq!(
        token::Token::new(token::EOF, ""),
        lexer.next_token().unwrap()
    );
}

#[test]
fn test_next_token_source_code() {
    let input = r#"
        let five = 5;
        let ten = 10;

        let add = fn(x, y) {
            x + y;
        };

        let result = add(five, ten);
        !-/*5;
        5 < 10 > 5;

        if (5 < 10)  {
            return true;
        } else {
            return false;
        }

        10 == 10;
        10 != 9;
    "#;

    let mut lexer = Lexer::new(input);

    assert_eq!(
        token::Token::new(token::LET, "let"),
        lexer.next_token().unwrap()
    );
    assert_eq!(
        token::Token::new(token::IDENT, "five"),
        lexer.next_token().unwrap()
    );
    assert_eq!(
        token::Token::new(token::ASSIGN, "="),
        lexer.next_token().unwrap()
    );
    assert_eq!(
        token::Token::new(token::INT, "5"),
        lexer.next_token().unwrap()
    );
    assert_eq!(
        token::Token::new(token::SEMICOLON, ";"),
        lexer.next_token().unwrap()
    );
    assert_eq!(
        token::Token::new(token::LET, "let"),
        lexer.next_token().unwrap()
    );
    assert_eq!(
        token::Token::new(token::IDENT, "ten"),
        lexer.next_token().unwrap()
    );
    assert_eq!(
        token::Token::new(token::ASSIGN, "="),
        lexer.next_token().unwrap()
    );
    assert_eq!(
        token::Token::new(token::INT, "10"),
        lexer.next_token().unwrap()
    );
    assert_eq!(
        token::Token::new(token::SEMICOLON, ";"),
        lexer.next_token().unwrap()
    );
    assert_eq!(
        token::Token::new(token::LET, "let"),
        lexer.next_token().unwrap()
    );
    assert_eq!(
        token::Token::new(token::IDENT, "add"),
        lexer.next_token().unwrap()
    );
    assert_eq!(
        token::Token::new(token::ASSIGN, "="),
        lexer.next_token().unwrap()
    );
    assert_eq!(
        token::Token::new(token::FUNCTION, "fn"),
        lexer.next_token().unwrap()
    );
    assert_eq!(
        token::Token::new(token::LPAREN, "("),
        lexer.next_token().unwrap()
    );
    assert_eq!(
        token::Token::new(token::IDENT, "x"),
        lexer.next_token().unwrap()
    );
    assert_eq!(
        token::Token::new(token::COMMA, ","),
        lexer.next_token().unwrap()
    );
    assert_eq!(
        token::Token::new(token::IDENT, "y"),
        lexer.next_token().unwrap()
    );
    assert_eq!(
        token::Token::new(token::RPAREN, ")"),
        lexer.next_token().unwrap()
    );
    assert_eq!(
        token::Token::new(token::LBRACE, "{"),
        lexer.next_token().unwrap()
    );
    assert_eq!(
        token::Token::new(token::IDENT, "x"),
        lexer.next_token().unwrap()
    );
    assert_eq!(
        token::Token::new(token::PLUS, "+"),
        lexer.next_token().unwrap()
    );
    assert_eq!(
        token::Token::new(token::IDENT, "y"),
        lexer.next_token().unwrap()
    );
    assert_eq!(
        token::Token::new(token::SEMICOLON, ";"),
        lexer.next_token().unwrap()
    );
    assert_eq!(
        token::Token::new(token::RBRACE, "}"),
        lexer.next_token().unwrap()
    );
    assert_eq!(
        token::Token::new(token::SEMICOLON, ";"),
        lexer.next_token().unwrap()
    );
    assert_eq!(
        token::Token::new(token::LET, "let"),
        lexer.next_token().unwrap()
    );
    assert_eq!(
        token::Token::new(token::IDENT, "result"),
        lexer.next_token().unwrap()
    );
    assert_eq!(
        token::Token::new(token::ASSIGN, "="),
        lexer.next_token().unwrap()
    );
    assert_eq!(
        token::Token::new(token::IDENT, "add"),
        lexer.next_token().unwrap()
    );
    assert_eq!(
        token::Token::new(token::LPAREN, "("),
        lexer.next_token().unwrap()
    );
    assert_eq!(
        token::Token::new(token::IDENT, "five"),
        lexer.next_token().unwrap()
    );
    assert_eq!(
        token::Token::new(token::COMMA, ","),
        lexer.next_token().unwrap()
    );
    assert_eq!(
        token::Token::new(token::IDENT, "ten"),
        lexer.next_token().unwrap()
    );
    assert_eq!(
        token::Token::new(token::RPAREN, ")"),
        lexer.next_token().unwrap()
    );
    assert_eq!(
        token::Token::new(token::SEMICOLON, ";"),
        lexer.next_token().unwrap()
    );
    assert_eq!(
        token::Token::new(token::BANG, "!"),
        lexer.next_token().unwrap()
    );
    assert_eq!(
        token::Token::new(token::MINUS, "-"),
        lexer.next_token().unwrap()
    );
    assert_eq!(
        token::Token::new(token::SLASH, "/"),
        lexer.next_token().unwrap()
    );
    assert_eq!(
        token::Token::new(token::ASTERISK, "*"),
        lexer.next_token().unwrap()
    );
    assert_eq!(
        token::Token::new(token::INT, "5"),
        lexer.next_token().unwrap()
    );
    assert_eq!(
        token::Token::new(token::SEMICOLON, ";"),
        lexer.next_token().unwrap()
    );
    assert_eq!(
        token::Token::new(token::INT, "5"),
        lexer.next_token().unwrap()
    );
    assert_eq!(
        token::Token::new(token::LT, "<"),
        lexer.next_token().unwrap()
    );
    assert_eq!(
        token::Token::new(token::INT, "10"),
        lexer.next_token().unwrap()
    );
    assert_eq!(
        token::Token::new(token::GT, ">"),
        lexer.next_token().unwrap()
    );
    assert_eq!(
        token::Token::new(token::INT, "5"),
        lexer.next_token().unwrap()
    );
    assert_eq!(
        token::Token::new(token::SEMICOLON, ";"),
        lexer.next_token().unwrap()
    );
    assert_eq!(
        token::Token::new(token::IF, "if"),
        lexer.next_token().unwrap()
    );
    assert_eq!(
        token::Token::new(token::LPAREN, "("),
        lexer.next_token().unwrap()
    );
    assert_eq!(
        token::Token::new(token::INT, "5"),
        lexer.next_token().unwrap()
    );
    assert_eq!(
        token::Token::new(token::LT, "<"),
        lexer.next_token().unwrap()
    );
    assert_eq!(
        token::Token::new(token::INT, "10"),
        lexer.next_token().unwrap()
    );
    assert_eq!(
        token::Token::new(token::RPAREN, ")"),
        lexer.next_token().unwrap()
    );
    assert_eq!(
        token::Token::new(token::LBRACE, "{"),
        lexer.next_token().unwrap()
    );
    assert_eq!(
        token::Token::new(token::RETURN, "return"),
        lexer.next_token().unwrap()
    );
    assert_eq!(
        token::Token::new(token::TRUE, "true"),
        lexer.next_token().unwrap()
    );
    assert_eq!(
        token::Token::new(token::SEMICOLON, ";"),
        lexer.next_token().unwrap()
    );
    assert_eq!(
        token::Token::new(token::RBRACE, "}"),
        lexer.next_token().unwrap()
    );
    assert_eq!(
        token::Token::new(token::ELSE, "else"),
        lexer.next_token().unwrap()
    );
    assert_eq!(
        token::Token::new(token::LBRACE, "{"),
        lexer.next_token().unwrap()
    );
    assert_eq!(
        token::Token::new(token::RETURN, "return"),
        lexer.next_token().unwrap()
    );
    assert_eq!(
        token::Token::new(token::FALSE, "false"),
        lexer.next_token().unwrap()
    );
    assert_eq!(
        token::Token::new(token::SEMICOLON, ";"),
        lexer.next_token().unwrap()
    );
    assert_eq!(
        token::Token::new(token::RBRACE, "}"),
        lexer.next_token().unwrap()
    );
    assert_eq!(
        token::Token::new(token::INT, "10"),
        lexer.next_token().unwrap()
    );
    assert_eq!(
        token::Token::new(token::EQ, "=="),
        lexer.next_token().unwrap()
    );
    assert_eq!(
        token::Token::new(token::INT, "10"),
        lexer.next_token().unwrap()
    );
    assert_eq!(
        token::Token::new(token::SEMICOLON, ";"),
        lexer.next_token().unwrap()
    );
    assert_eq!(
        token::Token::new(token::INT, "10"),
        lexer.next_token().unwrap()
    );
    assert_eq!(
        token::Token::new(token::NOT_EQ, "!="),
        lexer.next_token().unwrap()
    );
    assert_eq!(
        token::Token::new(token::INT, "9"),
        lexer.next_token().unwrap()
    );
    assert_eq!(
        token::Token::new(token::SEMICOLON, ";"),
        lexer.next_token().unwrap()
    );
    assert_eq!(
        token::Token::new(token::EOF, ""),
        lexer.next_token().unwrap()
    );
}

fn kinds(input: &str) -> Vec<String> {
    let mut lexer = Lexer::new(input);
    let mut out = Vec::new();
    loop {
        let token = lexer.next_token().unwrap();
        let done = token.token_type == token::EOF;
        out.push(token.token_type);
        if done {
            return out;
        }
    }
}

fn tokens(input: &str) -> Vec<token::Token> {
    let mut lexer = Lexer::new(input);
    let mut out = Vec::new();
    loop {
        let token = lexer.next_token().unwrap();
        let done = token.token_type == token::EOF;
        out.push(token);
        if done {
            return out;
        }
    }
}

#[test]
fn whitespace_only_is_end_of_input() {
    for input in ["", " ", "\t\n  \r\n", "\u{2003}\u{a0}"] {
        let mut lexer = Lexer::new(input);
        assert_eq!(token::Token::new(token::EOF, ""), lexer.next_token().unwrap());
    }
}

#[test]
fn end_of_input_repeats() {
    let mut lexer = Lexer::new("x");
    assert_eq!(token::Token::new(token::IDENT, "x"), lexer.next_token().unwrap());
    for _ in 0..5 {
        assert_eq!(token::Token::new(token::EOF, ""), lexer.next_token().unwrap());
    }
}

#[test]
fn punctuation_kinds() {
    assert_eq!(
        kinds("=+(){},;"),
        vec![
            token::ASSIGN,
            token::PLUS,
            token::LPAREN,
            token::RPAREN,
            token::LBRACE,
            token::RBRACE,
            token::COMMA,
            token::SEMICOLON,
            token::EOF
        ]
    );
}

#[test]
fn keyword_and_identifier_boundary() {
    assert_eq!(
        tokens("let"),
        vec![
            token::Token::new(token::LET, "let"),
            token::Token::new(token::EOF, "")
        ]
    );
    assert_eq!(
        tokens("letx"),
        vec![
            token::Token::new(token::IDENT, "letx"),
            token::Token::new(token::EOF, "")
        ]
    );
}

#[test]
fn two_character_operators() {
    assert_eq!(
        tokens("=="),
        vec![
            token::Token::new(token::EQ, "=="),
            token::Token::new(token::EOF, "")
        ]
    );
    assert_eq!(
        tokens("=a"),
        vec![
            token::Token::new(token::ASSIGN, "="),
            token::Token::new(token::IDENT, "a"),
            token::Token::new(token::EOF, "")
        ]
    );
    assert_eq!(
        tokens("!=!"),
        vec![
            token::Token::new(token::NOT_EQ, "!="),
            token::Token::new(token::BANG, "!"),
            token::Token::new(token::EOF, "")
        ]
    );
    assert_eq!(
        tokens("="),
        vec![
            token::Token::new(token::ASSIGN, "="),
            token::Token::new(token::EOF, "")
        ]
    );
}

#[test]
fn full_source_token_sequence() {
    let t = token::Token::new;
    assert_eq!(
        tokens("let add = fn(x, y) { x + y; }; add(1, 2);"),
        vec![
            t(token::LET, "let"),
            t(token::IDENT, "add"),
            t(token::ASSIGN, "="),
            t(token::FUNCTION, "fn"),
            t(token::LPAREN, "("),
            t(token::IDENT, "x"),
            t(token::COMMA, ","),
            t(token::IDENT, "y"),
            t(token::RPAREN, ")"),
            t(token::LBRACE, "{"),
            t(token::IDENT, "x"),
            t(token::PLUS, "+"),
            t(token::IDENT, "y"),
            t(token::SEMICOLON, ";"),
            t(token::RBRACE, "}"),
            t(token::SEMICOLON, ";"),
            t(token::IDENT, "add"),
            t(token::LPAREN, "("),
            t(token::INT, "1"),
            t(token::COMMA, ","),
            t(token::INT, "2"),
            t(token::RPAREN, ")"),
            t(token::SEMICOLON, ";"),
            t(token::EOF, ""),
        ]
    );
}

#[test]
fn illegal_character_is_carried_by_its_token() {
    assert_eq!(
        tokens("a @ b"),
        vec![
            token::Token::new(token::IDENT, "a"),
            token::Token::new(token::ILLEGAL, "@"),
            token::Token::new(token::IDENT, "b"),
            token::Token::new(token::EOF, "")
        ]
    );
    assert_eq!(
        tokens("#"),
        vec![
            token::Token::new(token::ILLEGAL, "#"),
            token::Token::new(token::EOF, "")
        ]
    );
}

#[test]
fn integer_literals_and_their_limit() {
    assert_eq!(
        tokens("2147483647 007"),
        vec![
            token::Token::new(token::INT, "2147483647"),
            token::Token::new(token::INT, "007"),
            token::Token::new(token::EOF, "")
        ]
    );
    let mut lexer = Lexer::new("2147483648;");
    assert_eq!(
        lexer.next_token(),
        Err(monkey_front::lexer::ScanError::IntegerOutOfRange)
    );
    assert_eq!(token::Token::new(token::SEMICOLON, ";"), lexer.next_token().unwrap());
}

#[test]
fn parse_integer_values() {
    let digits: Vec<char> = "2147483647".chars().collect();
    assert_eq!(monkey_front::lexer::parse_integer(&digits), Some(2147483647));
    let digits: Vec<char> = "2147483648".chars().collect();
    assert_eq!(monkey_front::lexer::parse_integer(&digits), None);
    let digits: Vec<char> = "0042".chars().collect();
    assert_eq!(monkey_front::lexer::parse_integer(&digits), Some(42));
    assert_eq!(monkey_front::lexer::parse_integer(&['0']), Some(0));
    assert_eq!(monkey_front::lexer::parse_integer(&[]), None);
    assert_eq!(monkey_front::lexer::parse_integer(&['1', 'a']), None);
    assert_eq!(monkey_front::lexer::parse_integer(&['-', '1']), None);
}

#[test]
fn digits_end_an_identifier_and_letters_end_a_number() {
    assert_eq!(
        tokens("ab12cd"),
        vec![
            token::Token::new(token::IDENT, "ab"),
            token::Token::new(token::INT, "12"),
            token::Token::new(token::IDENT, "cd"),
            token::Token::new(token::EOF, "")
        ]
    );
}

#[test]
fn unicode_letters_are_alphabetic() {
    assert_eq!(
        tokens("\u{e9}t\u{e9} = 1"),
        vec![
            token::Token::new(token::IDENT, "\u{e9}t\u{e9}"),
            token::Token::new(token::ASSIGN, "="),
            token::Token::new(token::INT, "1"),
            token::Token::new(token::EOF, "")
        ]
    );
}

#[test]
fn lookup_classifies_keywords_symbols_and_identifiers() {
    assert_eq!(token::Token::lookup("fn"), token::Token::new(token::FUNCTION, "fn"));
    assert_eq!(token::Token::lookup("return"), token::Token::new(token::RETURN, "return"));
    assert_eq!(token::Token::lookup("else"), token::Token::new(token::ELSE, "else"));
    assert_eq!(token::Token::lookup("if"), token::Token::new(token::IF, "if"));
    assert_eq!(token::Token::lookup("!="), token::Token::new(token::NOT_EQ, "!="));
    assert_eq!(token::Token::lookup("<"), token::Token::new(token::LT, "<"));
    assert_eq!(token::Token::lookup("Let"), token::Token::new(token::IDENT, "Let"));
    assert!(token::Token::lookup("true").is(token::TRUE));
    assert!(!token::Token::lookup("truth").is(token::TRUE));
}

#[test]
fn integer_tokens_spell_the_number_in_decimal() {
    assert_eq!(token::Token::from_integer(5), token::Token::new(token::INT, "5"));
    assert_eq!(token::Token::from_integer(0), token::Token::new(token::INT, "0"));
    assert_eq!(token::Token::from_integer(1200), token::Token::new(token::INT, "1200"));
    assert_eq!(
        token::Token::from_integer(i32::MAX),
        token::Token::new(token::INT, "2147483647")
    );
    assert_eq!(token::Token::from_integer(-17), token::Token::new(token::INT, "-17"));
    assert_eq!(
        token::Token::from_integer(i32::MIN),
        token::Token::new(token::INT, "-2147483648")
    );
}

#[test]
fn scanned_integers_match_integer_tokens() {
    let mut lexer = Lexer::new("838383");
    assert_eq!(lexer.next_token().unwrap(), token::Token::from_integer(838383));
}

#[test]
fn characters_are_classified_as_std_does() {
    assert_eq!(
        classify_char('a'),
        Classified { ch: 'a', whitespace: false, alphabetic: true }
    );
    assert_eq!(
        classify_char(' '),
        Classified { ch: ' ', whitespace: true, alphabetic: false }
    );
    assert_eq!(
        classify_char('\u{3000}'),
        Classified { ch: '\u{3000}', whitespace: true, alphabetic: false }
    );
    assert_eq!(
        classify_char('7'),
        Classified { ch: '7', whitespace: false, alphabetic: false }
    );
    assert_eq!(
        classify_char('_'),
        Classified { ch: '_', whitespace: false, alphabetic: false }
    );
}

#[test]
fn scanner_follows_the_classification_it_is_given() {
    let as_letter = |c: char| Classified { ch: c, whitespace: false, alphabetic: true };
    let mut lexer = Lexer::from_classified(vec![
        classify_char('a'),
        as_letter('_'),
        classify_char('b'),
        classify_char(' '),
        classify_char('='),
        classify_char('='),
    ]);
    assert_eq!(token::Token::new(token::IDENT, "a_b"), lexer.next_token().unwrap());
    assert_eq!(token::Token::new(token::EQ, "=="), lexer.next_token().unwrap());
    assert_eq!(token::Token::new(token::EOF, ""), lexer.next_token().unwrap());

    let mut lexer = Lexer::from_classified(vec![
        classify_char('a'),
        classify_char('_'),
        classify_char('b'),
    ]);
    assert_eq!(token::Token::new(token::IDENT, "a"), lexer.next_token().unwrap());
    assert_eq!(token::Token::new(token::ILLEGAL, "_"), lexer.next_token().unwrap());
    assert_eq!(token::Token::new(token::IDENT, "b"), lexer.next_token().unwrap());
    assert_eq!(token::Token::new(token::EOF, ""), lexer.next_token().unwrap());
}
