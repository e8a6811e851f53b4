//! The parser: it pulls tokens from a scanner, one ahead of the token it
//! interprets, and builds the syntax tree by operator precedence.
use crate::ast::{
    arguments_view, block_view, names_view, Expression, ExpressionView, Identifier,
    IdentifierView, Program, Statement, StatementView,
};
use crate::grammar::{
    advance, expect_peek_spec, expected_message, infix_precedence, lemma_advance,
    lemma_expect_peek, lemma_parse_arguments, lemma_parse_block, lemma_parse_expression,
    lemma_parse_parameters, lemma_parse_prefix, lemma_parse_statement, measure,
    more_arguments_spec, more_parameters_spec, name_of, parse_arguments_spec,
    parse_block_rest_spec, parse_block_spec, parse_expression_spec,
    parse_expression_statement_spec, parse_function_spec, parse_if_spec, parse_infix_spec,
    parse_let_statement_spec, parse_parameters_spec, parse_prefix_spec, parse_program_spec,
    parse_return_statement_spec, parse_statement_spec, skip_to_semicolon_spec, valid,
    with_error, ParseError, Parsed, ParserView, CALL, EQUALS, LESS_GREATER, LOWEST, PREFIX,
    PRODUCT, SUM,
};
use crate::lexer::{Classified, Lexer};
use crate::token::{
    lemma_kind_texts, Token, TokenView, ASSIGN, ASTERISK, BANG, COMMA, ELSE, EOF, EQ, FALSE,
    FUNCTION, GT, IDENT, IF, ILLEGAL, INT, LBRACE, LET, LPAREN, LT, MINUS, NOT_EQ, PLUS, RBRACE,
    RETURN, RPAREN, SEMICOLON, SLASH, TRUE,
};
use vstd::prelude::*;
use vstd::string::*;

verus! {

/// The parser. `errors` holds the diagnostics in the order in which they
/// were found.
pub struct Parser {
    lexer: Lexer,
    current_token: Token,
    peek_token: Token,
    pub errors: Vec<String>,
}

/// The diagnostics as character sequences.
pub open spec fn texts(errors: Seq<String>) -> Seq<Seq<char>> {
    Seq::new(errors.len(), |i: int| errors[i]@)
}

/// The state in which a new parser starts before it has read a token: both
/// tokens are placeholders.
pub open spec fn blank_state(input: Seq<Classified>, pos: int) -> ParserView {
    let blank = TokenView { kind: ILLEGAL@, literal: Seq::empty() };
    ParserView { input, pos, current: blank, peek: blank, errors: Seq::empty() }
}

/// A new parser reads two tokens, so that the current and the peek token are
/// the first two of the input.
pub open spec fn start_spec(input: Seq<Classified>, pos: int) -> Parsed<()> {
    let first = advance(blank_state(input, pos));
    match first.1 {
        Err(e) => first,
        Ok(_) => advance(first.0),
    }
}

pub open spec fn expression_result(r: Result<Expression, ParseError>) -> Result<
    ExpressionView,
    ParseError,
> {
    match r {
        Ok(e) => Ok(e@),
        Err(e) => Err(e),
    }
}

pub open spec fn statement_result(r: Result<Statement, ParseError>) -> Result<
    StatementView,
    ParseError,
> {
    match r {
        Ok(s) => Ok(s@),
        Err(e) => Err(e),
    }
}

pub open spec fn block_result(r: Result<Vec<Statement>, ParseError>) -> Result<
    Seq<StatementView>,
    ParseError,
> {
    match r {
        Ok(b) => Ok(block_view(b)),
        Err(e) => Err(e),
    }
}

pub open spec fn arguments_result(r: Result<Vec<Expression>, ParseError>) -> Result<
    Seq<ExpressionView>,
    ParseError,
> {
    match r {
        Ok(a) => Ok(arguments_view(a)),
        Err(e) => Err(e),
    }
}

pub open spec fn names_result(r: Result<Vec<Identifier>, ParseError>) -> Result<
    Seq<IdentifierView>,
    ParseError,
> {
    match r {
        Ok(n) => Ok(names_view(n@)),
        Err(e) => Err(e),
    }
}

pub open spec fn program_result(r: Result<Program, ParseError>) -> Result<
    Seq<StatementView>,
    ParseError,
> {
    match r {
        Ok(p) => Ok(p@),
        Err(e) => Err(e),
    }
}

impl View for Parser {
    type V = ParserView;

    closed spec fn view(&self) -> ParserView {
        ParserView {
            input: self.lexer@.input,
            pos: self.lexer@.pos,
            current: self.current_token@,
            peek: self.peek_token@,
            errors: texts(self.errors@),
        }
    }
}

/// The binding strength of a token that continues an expression, if it is
/// one.
pub fn infix_level(token: &Token) -> (r: Option<u8>)
    ensures
        r == infix_precedence(token@.kind),
{
    if token.is(EQ) || token.is(NOT_EQ) {
        Some(EQUALS)
    } else if token.is(LT) || token.is(GT) {
        Some(LESS_GREATER)
    } else if token.is(PLUS) || token.is(MINUS) {
        Some(SUM)
    } else if token.is(SLASH) || token.is(ASTERISK) {
        Some(PRODUCT)
    } else if token.is(LPAREN) {
        Some(CALL)
    } else {
        None
    }
}

/// The diagnostic for a token that is not the demanded one.
pub fn expected_text(expected: &str, actual: &str) -> (r: String)
    ensures
        r@ == expected_message(expected@, actual@),
{
    let mut message = String::from_str("expected next token to be ");
    message.append(expected);
    message.append(", got ");
    message.append(actual);
    message.append(" instead");
    message
}

impl Parser {
    /// The invariant of the parser: that of its scanner.
    pub closed spec fn wf(&self) -> bool {
        self.lexer.wf()
    }

    /// In the state of a parser the scanner's position lies within the input.
    pub proof fn lemma_view(&self)
        requires
            self.wf(),
        ensures
            valid(self@),
    {
        self.lexer.lemma_wf_bounds();
    }

    /// The diagnostics found so far, in the order in which they were found.
    pub fn diagnostics(&self) -> (r: &Vec<String>)
        ensures
            texts(r@) == self@.errors,
    {
        &self.errors
    }

    /// A parser on the rest of the scanner's input, with its first two
    /// tokens read. It fails where scanning one of them fails.
    pub fn new(lexer: Lexer) -> (r: Result<Self, ParseError>)
        requires
            lexer.wf(),
        ensures
            match r {
                Ok(me) => me.wf() && start_spec(lexer@.input, lexer@.pos) == (me@, Ok::<(), ParseError>(())),
                Err(e) => start_spec(lexer@.input, lexer@.pos).1 == Err::<(), ParseError>(e),
            },
    {
        proof {
            reveal_strlit("");
            assert(""@ =~= Seq::<char>::empty());
        }
        let mut me = Self {
            lexer,
            current_token: Token::new(ILLEGAL, ""),
            peek_token: Token::new(ILLEGAL, ""),
            errors: Vec::new(),
        };
        assert(me@ =~= blank_state(lexer@.input, lexer@.pos)) by {
            assert(texts(me.errors@) =~= Seq::<Seq<char>>::empty());
        }
        match me.next_token() {
            Err(e) => {
                return Err(e);
            },
            Ok(_) => {},
        }
        match me.next_token() {
            Err(e) => {
                return Err(e);
            },
            Ok(_) => {},
        }
        Ok(me)
    }

    /// Shifts the peek token into the current one and pulls a fresh peek
    /// token from the scanner.
    pub fn next_token(&mut self) -> (r: Result<(), ParseError>)
        requires
            old(self).wf(),
        ensures
            final(self).wf(),
            advance(old(self)@) == (final(self)@, r),
    {
        self.current_token = self.peek_token.clone();
        match self.lexer.next_token() {
            Ok(t) => {
                self.peek_token = t;
                Ok(())
            },
            Err(e) => Err(ParseError::Scan(e)),
        }
    }

    fn current_token_is(&self, token_type: &str) -> (r: bool)
        ensures
            r == (self@.current.kind == token_type@),
    {
        self.current_token.is(token_type)
    }

    fn peek_token_is(&self, token_type: &str) -> (r: bool)
        ensures
            r == (self@.peek.kind == token_type@),
    {
        self.peek_token.is(token_type)
    }

    /// Appends a diagnostic.
    fn report(&mut self, message: String)
        requires
            old(self).wf(),
        ensures
            final(self).wf(),
            final(self)@ == with_error(old(self)@, message@),
    {
        self.errors.push(message);
        assert(texts(self.errors@) =~= texts(old(self).errors@).push(message@));
    }

    /// Demands that the peek token is of the given kind. If it is, advances;
    /// if not, records a diagnostic and fails without advancing.
    fn expect_peek(&mut self, token_type: &str) -> (r: Result<(), ParseError>)
        requires
            old(self).wf(),
        ensures
            final(self).wf(),
            expect_peek_spec(old(self)@, token_type@) == (final(self)@, r),
    {
        if self.peek_token_is(token_type) {
            self.next_token()
        } else {
            let message = expected_text(token_type, self.peek_token.token_type.as_str());
            self.report(message);
            Err(ParseError::UnexpectedToken)
        }
    }

    /// Parses the operand that begins at the current token.
    fn parse_prefix(&mut self) -> (r: Result<Expression, ParseError>)
        requires
            old(self).wf(),
        ensures
            final(self).wf(),
            parse_prefix_spec(old(self)@) == (final(self)@, expression_result(r)),
        decreases measure(old(self)@), 2int,
    {
        proof {
            self.lemma_view();
            lemma_kind_texts();
            lemma_advance(self@);
        }
        if self.current_token_is(IDENT) {
            Ok(Expression::Identifier(self.current_token.clone()))
        } else if self.current_token_is(INT) {
            Ok(Expression::Integer(self.current_token.clone()))
        } else if self.current_token_is(TRUE) || self.current_token_is(FALSE) {
            Ok(Expression::Boolean(self.current_token.clone()))
        } else if self.current_token_is(BANG) || self.current_token_is(MINUS) {
            let operator = self.current_token.clone();
            match self.next_token() {
                Err(e) => {
                    return Err(e);
                },
                Ok(_) => {},
            }
            match self.parse_expression(PREFIX) {
                Err(e) => Err(e),
                Ok(operand) => Ok(Expression::Prefix(operator, Box::new(operand))),
            }
        } else if self.current_token_is(LPAREN) {
            match self.next_token() {
                Err(e) => {
                    return Err(e);
                },
                Ok(_) => {},
            }
            match self.parse_expression(LOWEST) {
                Err(e) => Err(e),
                Ok(group) => match self.expect_peek(RPAREN) {
                    Err(e) => Err(e),
                    Ok(_) => Ok(group),
                },
            }
        } else if self.current_token_is(IF) {
            self.parse_if()
        } else if self.current_token_is(FUNCTION) {
            self.parse_function()
        } else {
            let mut message = String::from_str("no prefix parse function for ");
            message.append(self.current_token.token_type.as_str());
            message.append(" found");
            self.report(message);
            Err(ParseError::NoPrefixRule)
        }
    }

    /// Parses a conditional; the current token is `if`.
    fn parse_if(&mut self) -> (r: Result<Expression, ParseError>)
        requires
            old(self).wf(),
            old(self)@.current.kind == IF@,
        ensures
            final(self).wf(),
            parse_if_spec(old(self)@) == (final(self)@, expression_result(r)),
        decreases measure(old(self)@), 1int,
    {
        proof {
            self.lemma_view();
            lemma_kind_texts();
            lemma_expect_peek(self@, LPAREN@);
        }
        let first = self.current_token.clone();
        match self.expect_peek(LPAREN) {
            Err(e) => {
                return Err(e);
            },
            Ok(_) => {},
        }
        proof {
            self.lemma_view();
            lemma_advance(self@);
        }
        match self.next_token() {
            Err(e) => {
                return Err(e);
            },
            Ok(_) => {},
        }
        proof {
            self.lemma_view();
            lemma_parse_expression(self@, LOWEST);
        }
        let condition = match self.parse_expression(LOWEST) {
            Err(e) => {
                return Err(e);
            },
            Ok(condition) => condition,
        };
        proof {
            self.lemma_view();
            lemma_expect_peek(self@, RPAREN@);
        }
        match self.expect_peek(RPAREN) {
            Err(e) => {
                return Err(e);
            },
            Ok(_) => {},
        }
        proof {
            self.lemma_view();
            lemma_parse_block(self@);
        }
        let consequence = match self.parse_block() {
            Err(e) => {
                return Err(e);
            },
            Ok(consequence) => consequence,
        };
        if self.peek_token_is(ELSE) {
            proof {
                self.lemma_view();
                lemma_advance(self@);
            }
            match self.next_token() {
                Err(e) => {
                    return Err(e);
                },
                Ok(_) => {},
            }
            match self.parse_block() {
                Err(e) => Err(e),
                Ok(alternative) => Ok(
                    Expression::If(first, Box::new(condition), consequence, Some(alternative)),
                ),
            }
        } else {
            Ok(Expression::If(first, Box::new(condition), consequence, None))
        }
    }

    /// Parses the names between the parentheses of a function literal; the
    /// current token is the opening parenthesis.
    fn parse_parameters(&mut self) -> (r: Result<Vec<Identifier>, ParseError>)
        requires
            old(self).wf(),
        ensures
            final(self).wf(),
            parse_parameters_spec(old(self)@) == (final(self)@, names_result(r)),
    {
        let mut names: Vec<Identifier> = Vec::new();
        if self.peek_token_is(RPAREN) {
            return match self.next_token() {
                Err(e) => Err(e),
                Ok(_) => {
                    assert(names_view(names@) =~= Seq::<IdentifierView>::empty());
                    Ok(names)
                },
            };
        }
        match self.expect_peek(IDENT) {
            Err(e) => {
                return Err(e);
            },
            Ok(_) => {},
        }
        names.push(Identifier::new(self.current_token.clone(), self.current_token.literal.as_str()));
        proof {
            self.lemma_view();
            assert(names_view(names@) =~= seq![name_of(self@.current)]);
        }
        while self.peek_token_is(COMMA)
            invariant
                self.wf(),
                valid(self@),
                more_parameters_spec(self@, names_view(names@)) == parse_parameters_spec(
                    old(self)@,
                ),
            decreases measure(self@),
        {
            proof {
                lemma_kind_texts();
                lemma_advance(self@);
                lemma_expect_peek(advance(self@).0, IDENT@);
            }
            match self.next_token() {
                Err(e) => {
                    return Err(e);
                },
                Ok(_) => {},
            }
            match self.expect_peek(IDENT) {
                Err(e) => {
                    return Err(e);
                },
                Ok(_) => {},
            }
            let ghost before = names_view(names@);
            names.push(
                Identifier::new(self.current_token.clone(), self.current_token.literal.as_str()),
            );
            proof {
                self.lemma_view();
                assert(names_view(names@) =~= before.push(name_of(self@.current)));
            }
        }
        match self.expect_peek(RPAREN) {
            Err(e) => Err(e),
            Ok(_) => Ok(names),
        }
    }

    /// Parses a function literal; the current token is `fn`.
    fn parse_function(&mut self) -> (r: Result<Expression, ParseError>)
        requires
            old(self).wf(),
            old(self)@.current.kind == FUNCTION@,
        ensures
            final(self).wf(),
            parse_function_spec(old(self)@) == (final(self)@, expression_result(r)),
        decreases measure(old(self)@), 1int,
    {
        proof {
            self.lemma_view();
            lemma_kind_texts();
            lemma_expect_peek(self@, LPAREN@);
        }
        let first = self.current_token.clone();
        match self.expect_peek(LPAREN) {
            Err(e) => {
                return Err(e);
            },
            Ok(_) => {},
        }
        proof {
            self.lemma_view();
            lemma_parse_parameters(self@);
        }
        let parameters = match self.parse_parameters() {
            Err(e) => {
                return Err(e);
            },
            Ok(parameters) => parameters,
        };
        match self.parse_block() {
            Err(e) => Err(e),
            Ok(body) => Ok(Expression::Function(first, parameters, body)),
        }
    }

    /// Parses the arguments of a call; the current token is the opening
    /// parenthesis.
    fn parse_arguments(&mut self) -> (r: Result<Vec<Expression>, ParseError>)
        requires
            old(self).wf(),
            old(self)@.current.kind == LPAREN@,
        ensures
            final(self).wf(),
            parse_arguments_spec(old(self)@) == (final(self)@, arguments_result(r)),
        decreases measure(old(self)@), 1int,
    {
        proof {
            self.lemma_view();
            lemma_kind_texts();
            lemma_advance(self@);
        }
        let mut arguments: Vec<Expression> = Vec::new();
        if self.peek_token_is(RPAREN) {
            return match self.next_token() {
                Err(e) => Err(e),
                Ok(_) => {
                    assert(arguments_view(arguments) =~= Seq::<ExpressionView>::empty());
                    Ok(arguments)
                },
            };
        }
        match self.next_token() {
            Err(e) => {
                return Err(e);
            },
            Ok(_) => {},
        }
        proof {
            self.lemma_view();
            lemma_parse_expression(self@, LOWEST);
        }
        let first = match self.parse_expression(LOWEST) {
            Err(e) => {
                return Err(e);
            },
            Ok(first) => first,
        };
        proof {
            assert(arguments_view(arguments).push(first@) =~= seq![first@]);
        }
        let ghost empty = arguments_view(arguments);
        arguments.push(first);
        proof {
            self.lemma_view();
            assert(arguments_view(arguments) =~= empty.push(first@));
        }
        while self.peek_token_is(COMMA)
            invariant
                self.wf(),
                valid(self@),
                measure(self@) < measure(old(self)@),
                more_arguments_spec(self@, arguments_view(arguments)) == parse_arguments_spec(
                    old(self)@,
                ),
            decreases measure(self@),
        {
            proof {
                lemma_kind_texts();
                lemma_advance(self@);
                lemma_advance(advance(self@).0);
            }
            match self.next_token() {
                Err(e) => {
                    return Err(e);
                },
                Ok(_) => {},
            }
            match self.next_token() {
                Err(e) => {
                    return Err(e);
                },
                Ok(_) => {},
            }
            proof {
                self.lemma_view();
                lemma_parse_expression(self@, LOWEST);
            }
            let next = match self.parse_expression(LOWEST) {
                Err(e) => {
                    return Err(e);
                },
                Ok(next) => next,
            };
            let ghost before = arguments_view(arguments);
            arguments.push(next);
            proof {
                self.lemma_view();
                assert(arguments_view(arguments) =~= before.push(next@));
            }
        }
        match self.expect_peek(RPAREN) {
            Err(e) => Err(e),
            Ok(_) => Ok(arguments),
        }
    }

    /// Parses a block: the peek token must be the opening brace; afterwards
    /// the current token is the closing one.
    fn parse_block(&mut self) -> (r: Result<Vec<Statement>, ParseError>)
        requires
            old(self).wf(),
        ensures
            final(self).wf(),
            parse_block_spec(old(self)@) == (final(self)@, block_result(r)),
        decreases measure(old(self)@), 7int,
    {
        proof {
            self.lemma_view();
            lemma_kind_texts();
            lemma_expect_peek(self@, LBRACE@);
        }
        match self.expect_peek(LBRACE) {
            Err(e) => {
                return Err(e);
            },
            Ok(_) => {},
        }
        proof {
            self.lemma_view();
            lemma_advance(self@);
        }
        match self.next_token() {
            Err(e) => {
                return Err(e);
            },
            Ok(_) => {},
        }
        let mut statements: Vec<Statement> = Vec::new();
        proof {
            self.lemma_view();
            assert(block_view(statements) =~= Seq::<StatementView>::empty());
        }
        while !self.current_token_is(RBRACE)
            invariant
                self.wf(),
                valid(self@),
                measure(self@) < measure(old(self)@),
                parse_block_rest_spec(self@, block_view(statements)) == parse_block_spec(
                    old(self)@,
                ),
            decreases measure(self@),
        {
            if self.current_token_is(EOF) {
                let message = expected_text(RBRACE, EOF);
                self.report(message);
                return Err(ParseError::UnexpectedToken);
            }
            proof {
                lemma_parse_statement(self@);
                lemma_advance(parse_statement_spec(self@).0);
            }
            let statement = match self.parse_statement() {
                Err(e) => {
                    return Err(e);
                },
                Ok(statement) => statement,
            };
            let ghost before = block_view(statements);
            statements.push(statement);
            proof {
                assert(block_view(statements) =~= before.push(statement@));
            }
            match self.next_token() {
                Err(e) => {
                    return Err(e);
                },
                Ok(_) => {},
            }
            proof {
                self.lemma_view();
            }
        }
        Ok(statements)
    }

    /// Parses the expression that begins at the current token, as far as
    /// what follows binds more tightly than `precedence`.
    pub fn parse_expression(&mut self, precedence: u8) -> (r: Result<Expression, ParseError>)
        requires
            old(self).wf(),
        ensures
            final(self).wf(),
            parse_expression_spec(old(self)@, precedence) == (final(self)@, expression_result(r)),
        decreases measure(old(self)@), 3int,
    {
        proof {
            self.lemma_view();
            lemma_parse_prefix(self@);
            lemma_kind_texts();
        }
        let mut left = match self.parse_prefix() {
            Err(e) => {
                return Err(e);
            },
            Ok(left) => left,
        };
        proof {
            self.lemma_view();
        }
        loop
            invariant
                self.wf(),
                valid(self@),
                measure(self@) <= measure(old(self)@),
                parse_infix_spec(self@, left@, precedence) == parse_expression_spec(
                    old(self)@,
                    precedence,
                ),
            ensures
                parse_expression_spec(old(self)@, precedence) == (self@, Ok::<
                    ExpressionView,
                    ParseError,
                >(left@)),
                self.wf(),
            decreases measure(self@),
        {
            let ghost before = self@;
            let level = match infix_level(&self.peek_token) {
                Some(level) => level,
                None => {
                    break ;
                },
            };
            if precedence >= level {
                break ;
            }
            proof {
                lemma_kind_texts();
                lemma_advance(before);
                lemma_advance(advance(before).0);
            }
            match self.next_token() {
                Err(e) => {
                    return Err(e);
                },
                Ok(_) => {},
            }
            let operator = self.current_token.clone();
            if self.current_token_is(LPAREN) {
                proof {
                    self.lemma_view();
                    lemma_parse_arguments(self@);
                }
                let arguments = match self.parse_arguments() {
                    Err(e) => {
                        return Err(e);
                    },
                    Ok(arguments) => arguments,
                };
                left = Expression::Call(operator, Box::new(left), arguments);
            } else {
                match self.next_token() {
                    Err(e) => {
                        return Err(e);
                    },
                    Ok(_) => {},
                }
                proof {
                    self.lemma_view();
                    lemma_parse_expression(self@, level);
                }
                let right = match self.parse_expression(level) {
                    Err(e) => {
                        return Err(e);
                    },
                    Ok(right) => right,
                };
                left = Expression::Infix(operator, Box::new(left), Box::new(right));
            }
            proof {
                self.lemma_view();
            }
        }
        Ok(left)
    }

    /// Moves on until the current token is a semicolon or the end of the
    /// input.
    fn skip_to_semicolon(&mut self) -> (r: Result<(), ParseError>)
        requires
            old(self).wf(),
        ensures
            final(self).wf(),
            skip_to_semicolon_spec(old(self)@) == (final(self)@, r),
    {
        proof {
            self.lemma_view();
        }
        while !self.current_token_is(SEMICOLON) && !self.current_token_is(EOF)
            invariant
                self.wf(),
                valid(self@),
                skip_to_semicolon_spec(self@) == skip_to_semicolon_spec(old(self)@),
            decreases measure(self@),
        {
            proof {
                lemma_advance(self@);
            }
            match self.next_token() {
                Err(e) => {
                    return Err(e);
                },
                Ok(_) => {},
            }
            proof {
                self.lemma_view();
            }
        }
        Ok(())
    }

    /// Parses a `let` statement; the current token is `let`.
    fn parse_let_statement(&mut self) -> (r: Result<Statement, ParseError>)
        requires
            old(self).wf(),
        ensures
            final(self).wf(),
            parse_let_statement_spec(old(self)@) == (final(self)@, statement_result(r)),
        decreases measure(old(self)@), 4int,
    {
        proof {
            self.lemma_view();
            lemma_kind_texts();
            lemma_expect_peek(self@, IDENT@);
            lemma_expect_peek(expect_peek_spec(self@, IDENT@).0, ASSIGN@);
            lemma_advance(expect_peek_spec(expect_peek_spec(self@, IDENT@).0, ASSIGN@).0);
        }
        match self.expect_peek(IDENT) {
            Err(e) => {
                return Err(e);
            },
            Ok(_) => {},
        }
        let name = Identifier::new(
            self.current_token.clone(),
            self.current_token.literal.as_str(),
        );
        match self.expect_peek(ASSIGN) {
            Err(e) => {
                return Err(e);
            },
            Ok(_) => {},
        }
        match self.next_token() {
            Err(e) => {
                return Err(e);
            },
            Ok(_) => {},
        }
        let value = match self.parse_expression(LOWEST) {
            Err(e) => {
                return Err(e);
            },
            Ok(value) => value,
        };
        match self.skip_to_semicolon() {
            Err(e) => Err(e),
            Ok(_) => Ok(Statement::Let(name, value)),
        }
    }

    /// Parses a `return` statement; the current token is `return`.
    fn parse_return_statement(&mut self) -> (r: Result<Statement, ParseError>)
        requires
            old(self).wf(),
        ensures
            final(self).wf(),
            parse_return_statement_spec(old(self)@) == (final(self)@, statement_result(r)),
        decreases measure(old(self)@), 4int,
    {
        proof {
            self.lemma_view();
            lemma_advance(self@);
        }
        match self.next_token() {
            Err(e) => {
                return Err(e);
            },
            Ok(_) => {},
        }
        let value = match self.parse_expression(LOWEST) {
            Err(e) => {
                return Err(e);
            },
            Ok(value) => value,
        };
        match self.skip_to_semicolon() {
            Err(e) => Err(e),
            Ok(_) => Ok(Statement::Return(value)),
        }
    }

    /// Parses an expression statement.
    fn parse_expression_statement(&mut self) -> (r: Result<Statement, ParseError>)
        requires
            old(self).wf(),
        ensures
            final(self).wf(),
            parse_expression_statement_spec(old(self)@) == (final(self)@, statement_result(r)),
        decreases measure(old(self)@), 4int,
    {
        proof {
            self.lemma_view();
        }
        let first = self.current_token.clone();
        let value = match self.parse_expression(LOWEST) {
            Err(e) => {
                return Err(e);
            },
            Ok(value) => value,
        };
        if self.peek_token_is(SEMICOLON) {
            match self.next_token() {
                Err(e) => {
                    return Err(e);
                },
                Ok(_) => {},
            }
        }
        Ok(Statement::Expression(first, value))
    }

    /// Parses the statement that begins at the current token.
    pub fn parse_statement(&mut self) -> (r: Result<Statement, ParseError>)
        requires
            old(self).wf(),
        ensures
            final(self).wf(),
            parse_statement_spec(old(self)@) == (final(self)@, statement_result(r)),
        decreases measure(old(self)@), 5int,
    {
        proof {
            self.lemma_view();
        }
        if self.current_token_is(LET) {
            self.parse_let_statement()
        } else if self.current_token_is(RETURN) {
            self.parse_return_statement()
        } else {
            self.parse_expression_statement()
        }
    }

    /// Parses statements until the end of the input. The first statement
    /// that fails ends the parse with its failure; the diagnostics stay in
    /// `errors`.
    pub fn parse_program(&mut self) -> (r: Result<Program, ParseError>)
        requires
            old(self).wf(),
        ensures
            final(self).wf(),
            parse_program_spec(old(self)@, Seq::empty()) == (final(self)@, program_result(r)),
    {
        let mut program = Program::new();
        proof {
            self.lemma_view();
        }
        while !self.current_token_is(EOF)
            invariant
                self.wf(),
                valid(self@),
                parse_program_spec(self@, program@) == parse_program_spec(
                    old(self)@,
                    Seq::empty(),
                ),
            decreases measure(self@),
        {
            proof {
                lemma_parse_statement(self@);
                lemma_advance(parse_statement_spec(self@).0);
            }
            let statement = match self.parse_statement() {
                Err(e) => {
                    return Err(e);
                },
                Ok(statement) => statement,
            };
            program.push(statement);
            match self.next_token() {
                Err(e) => {
                    return Err(e);
                },
                Ok(_) => {},
            }
            proof {
                self.lemma_view();
            }
        }
        Ok(program)
    }
}

} // verus!
