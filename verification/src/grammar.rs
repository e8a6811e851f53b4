//! The grammar as mathematics: what parsing does to the state of a parser,
//! stated over token and tree values, and the facts about it that make the
//! parser terminate.
use crate::ast::{ExpressionView, IdentifierView, StatementView};
use crate::lexer::{lemma_scan_progress, scan, Classified, ScanError};
use crate::token::{
    lemma_kind_texts, TokenView, ASSIGN, ASTERISK, BANG, COMMA, ELSE, EOF, EQ, FALSE, FUNCTION,
    GT, IDENT, IF, INT, LBRACE, LET, LPAREN, LT, MINUS, NOT_EQ, PLUS, RBRACE, RETURN, RPAREN,
    SEMICOLON, SLASH, TRUE,
};
use vstd::prelude::*;

verus! {

/// Why parsing stopped.
#[derive(Clone, Copy, Debug, PartialEq, Eq)]
pub enum ParseError {
    /// The scanner failed.
    Scan(ScanError),
    /// A token that the grammar demands was not the next one.
    UnexpectedToken,
    /// An expression cannot begin with the current token.
    NoPrefixRule,
}

/// The state of a parser: the input and the scanner's position in it, the
/// token being interpreted, the token after it, and the diagnostics so far.
pub struct ParserView {
    pub input: Seq<Classified>,
    pub pos: int,
    pub current: TokenView,
    pub peek: TokenView,
    pub errors: Seq<Seq<char>>,
}

/// The state that a parser result leaves, with the result.
pub type Parsed<T> = (ParserView, Result<T, ParseError>);

/// The precedence below every operator: that of a whole expression.
pub const LOWEST: u8 = 1;

/// The precedence of `==` and `!=`.
pub const EQUALS: u8 = 2;

/// The precedence of `<` and `>`.
pub const LESS_GREATER: u8 = 3;

/// The precedence of `+` and `-` between two operands.
pub const SUM: u8 = 4;

/// The precedence of `*` and `/`.
pub const PRODUCT: u8 = 5;

/// The precedence of the operand of a unary `!` or `-`.
pub const PREFIX: u8 = 6;

/// The precedence of the parenthesis that opens the arguments of a call.
pub const CALL: u8 = 7;

/// The binding strength of a token that continues an expression: a binary
/// operator, or the parenthesis that opens the arguments of a call. `None`
/// for every other kind of token.
pub open spec fn infix_precedence(kind: Seq<char>) -> Option<u8> {
    if kind == EQ@ || kind == NOT_EQ@ {
        Some(EQUALS)
    } else if kind == LT@ || kind == GT@ {
        Some(LESS_GREATER)
    } else if kind == PLUS@ || kind == MINUS@ {
        Some(SUM)
    } else if kind == SLASH@ || kind == ASTERISK@ {
        Some(PRODUCT)
    } else if kind == LPAREN@ {
        Some(CALL)
    } else {
        None
    }
}

/// The diagnostic for a token that is not the demanded one.
pub open spec fn expected_message(expected: Seq<char>, actual: Seq<char>) -> Seq<char> {
    "expected next token to be "@ + expected + ", got "@ + actual + " instead"@
}

/// The diagnostic for a token with which no expression can begin.
pub open spec fn no_prefix_message(kind: Seq<char>) -> Seq<char> {
    "no prefix parse function for "@ + kind + " found"@
}

/// The scanner's position lies within the input.
pub open spec fn valid(st: ParserView) -> bool {
    0 <= st.pos <= st.input.len()
}

/// What is left to parse: the characters not yet scanned and the tokens
/// held that are not the end of the input, the peek token counted before
/// the current one.
pub open spec fn measure(st: ParserView) -> int {
    2 * ((st.input.len() - st.pos) + (if st.peek.kind == EOF@ {
        0int
    } else {
        1int
    })) + (if st.current.kind == EOF@ {
        0int
    } else {
        1int
    })
}

/// The result `r` of parsing from `st`, given that it leaves no more to
/// parse than `st` did. The lemmas of this module show that every result
/// does; the definitions need it where they go on parsing after a result.
pub open spec fn within<T>(st: ParserView, r: Parsed<T>) -> Parsed<T> {
    if valid(r.0) && measure(r.0) <= measure(st) {
        r
    } else {
        (st, r.1)
    }
}

/// The name that an identifier token spells.
pub open spec fn name_of(token: TokenView) -> IdentifierView {
    IdentifierView { token, value: token.literal }
}

/// The state with one more diagnostic.
pub open spec fn with_error(st: ParserView, message: Seq<char>) -> ParserView {
    ParserView { errors: st.errors.push(message), ..st }
}

/// Shifts the peek token into the current one and scans a new peek token.
/// Where the scan fails the peek token stays.
pub open spec fn advance(st: ParserView) -> Parsed<()> {
    let sc = scan(st.input, st.pos);
    match sc.token {
        Ok(t) => (ParserView { pos: sc.pos, current: st.peek, peek: t, ..st }, Ok(())),
        Err(e) => (ParserView { pos: sc.pos, current: st.peek, ..st }, Err(ParseError::Scan(e))),
    }
}

/// Advances if the peek token is of the given kind; otherwise records a
/// diagnostic and fails without advancing.
pub open spec fn expect_peek_spec(st: ParserView, kind: Seq<char>) -> Parsed<()> {
    if st.peek.kind == kind {
        advance(st)
    } else {
        (
            with_error(st, expected_message(kind, st.peek.kind)),
            Err(ParseError::UnexpectedToken),
        )
    }
}

/// Whether a result, reached from `st`, holds the diagnostics it should:
/// those of `st`, and after them exactly one more where the parse failed on
/// a token. A success and a failure of the scanner add none.
#[verifier::opaque]
pub open spec fn diagnosed<T>(st: ParserView, r: Parsed<T>) -> bool {
    match r.1 {
        Ok(_) => r.0.errors == st.errors,
        Err(ParseError::Scan(_)) => r.0.errors == st.errors,
        Err(_) => r.0.errors.len() == st.errors.len() + 1 && r.0.errors.drop_last()
            == st.errors,
    }
}

/// Whether a result, reached from `st`, keeps the input, leaves no more to
/// parse than `st` did, and holds the diagnostics it should.
pub open spec fn settled<T>(st: ParserView, r: Parsed<T>) -> bool {
    &&& valid(r.0)
    &&& r.0.input == st.input
    &&& measure(r.0) <= measure(st)
    &&& diagnosed(st, r)
}

/// Advancing keeps the input and the diagnostics, fails only where the
/// scanner does, never leaves more to parse, and leaves less unless both
/// tokens are the end of the input.
pub proof fn lemma_advance(st: ParserView)
    requires
        valid(st),
    ensures
        settled(st, advance(st)),
        advance(st).0.errors == st.errors,
        advance(st).0.current == st.peek,
        !(advance(st).1 matches Err(e) && !(e is Scan)),
        st.current.kind != EOF@ || st.peek.kind != EOF@ ==> measure(advance(st).0) < measure(st),
{
    reveal(diagnosed);
    lemma_scan_progress(st.input, st.pos);
}

/// A demanded token that is there is consumed like any other.
pub proof fn lemma_expect_peek(st: ParserView, kind: Seq<char>)
    requires
        valid(st),
    ensures
        settled(st, expect_peek_spec(st, kind)),
        expect_peek_spec(st, kind).1 is Ok ==> expect_peek_spec(st, kind).0.current.kind == kind,
        expect_peek_spec(st, kind).1 is Ok && (st.current.kind != EOF@ || kind != EOF@)
            ==> measure(expect_peek_spec(st, kind).0) < measure(st),
{
    reveal(diagnosed);
    lemma_advance(st);
    if st.peek.kind != kind {
        assert(with_error(st, expected_message(kind, st.peek.kind)).errors.drop_last()
            =~= st.errors);
    }
}

/// The names between the parentheses of a function literal; the current
/// token is the opening parenthesis. Afterwards the current token is the
/// closing one.
pub open spec fn parse_parameters_spec(st: ParserView) -> Parsed<Seq<IdentifierView>> {
    if st.peek.kind == RPAREN@ {
        let a = advance(st);
        match a.1 {
            Err(e) => (a.0, Err(e)),
            Ok(_) => (a.0, Ok(Seq::empty())),
        }
    } else {
        let first = expect_peek_spec(st, IDENT@);
        match first.1 {
            Err(e) => (first.0, Err(e)),
            Ok(_) => more_parameters_spec(first.0, seq![name_of(first.0.current)]),
        }
    }
}

/// The names that follow those in `done`, each after a comma, up to the
/// closing parenthesis.
pub open spec fn more_parameters_spec(st: ParserView, done: Seq<IdentifierView>) -> Parsed<
    Seq<IdentifierView>,
>
    decreases measure(st),
    when valid(st)
{
    if st.peek.kind == COMMA@ {
        let a = advance(st);
        match a.1 {
            Err(e) => (a.0, Err(e)),
            Ok(_) => {
                let next = expect_peek_spec(a.0, IDENT@);
                match next.1 {
                    Err(e) => (next.0, Err(e)),
                    Ok(_) => {
                        proof {
                            lemma_kind_texts();
                            lemma_advance(st);
                            lemma_expect_peek(a.0, IDENT@);
                        }
                        more_parameters_spec(next.0, done.push(name_of(next.0.current)))
                    },
                }
            },
        }
    } else {
        let close = expect_peek_spec(st, RPAREN@);
        match close.1 {
            Err(e) => (close.0, Err(e)),
            Ok(_) => (close.0, Ok(done)),
        }
    }
}

/// A list of parameters keeps the input, never leaves more to parse, and
/// ends at a closing parenthesis.
pub proof fn lemma_more_parameters(st: ParserView, done: Seq<IdentifierView>)
    requires
        valid(st),
    ensures
        settled(st, more_parameters_spec(st, done)),
        more_parameters_spec(st, done).1 is Ok ==> more_parameters_spec(st, done).0.current.kind
            == RPAREN@,
    decreases measure(st),
{
    reveal(diagnosed);
    lemma_kind_texts();
    if st.peek.kind == COMMA@ {
        let a = advance(st);
        lemma_advance(st);
        if a.1 is Ok {
            let next = expect_peek_spec(a.0, IDENT@);
            lemma_expect_peek(a.0, IDENT@);
            if next.1 is Ok {
                lemma_more_parameters(next.0, done.push(name_of(next.0.current)));
            }
        }
    } else {
        lemma_expect_peek(st, RPAREN@);
    }
}

/// The same of the whole list.
pub proof fn lemma_parse_parameters(st: ParserView)
    requires
        valid(st),
    ensures
        settled(st, parse_parameters_spec(st)),
        parse_parameters_spec(st).1 is Ok ==> parse_parameters_spec(st).0.current.kind
            == RPAREN@,
{
    reveal(diagnosed);
    lemma_kind_texts();
    lemma_advance(st);
    if st.peek.kind != RPAREN@ {
        let first = expect_peek_spec(st, IDENT@);
        lemma_expect_peek(st, IDENT@);
        if first.1 is Ok {
            lemma_more_parameters(first.0, seq![name_of(first.0.current)]);
        }
    }
}

/// Moves on until the current token is a semicolon or the end of the input.
pub open spec fn skip_to_semicolon_spec(st: ParserView) -> Parsed<()>
    decreases measure(st),
    when valid(st)
{
    if st.current.kind == SEMICOLON@ || st.current.kind == EOF@ {
        (st, Ok(()))
    } else {
        let a = advance(st);
        match a.1 {
            Err(e) => (a.0, Err(e)),
            Ok(_) => {
                proof {
                    lemma_advance(st);
                }
                skip_to_semicolon_spec(a.0)
            },
        }
    }
}

/// Skipping to a semicolon keeps the input and never leaves more to parse.
pub proof fn lemma_skip_to_semicolon(st: ParserView)
    requires
        valid(st),
    ensures
        settled(st, skip_to_semicolon_spec(st)),
    decreases measure(st),
{
    reveal(diagnosed);
    if !(st.current.kind == SEMICOLON@ || st.current.kind == EOF@) {
        lemma_advance(st);
        if advance(st).1 is Ok {
            lemma_skip_to_semicolon(advance(st).0);
        }
    }
}

/// The expression that begins at the current token, as far as what follows
/// binds more tightly than `precedence`. Afterwards the current token is the
/// last token of the expression.
pub open spec fn parse_expression_spec(st: ParserView, precedence: u8) -> Parsed<ExpressionView>
    decreases measure(st), 3int,
    when valid(st)
{
    let p = within(st, parse_prefix_spec(st));
    match p.1 {
        Err(e) => (p.0, Err(e)),
        Ok(left) => parse_infix_spec(p.0, left, precedence),
    }
}

/// The operand that begins at the current token: a name, a number, a
/// boolean, a unary operator with its operand, a parenthesised expression, a
/// conditional or a function literal.
pub open spec fn parse_prefix_spec(st: ParserView) -> Parsed<ExpressionView>
    decreases measure(st), 2int,
    when valid(st)
{
    let kind = st.current.kind;
    if kind == IDENT@ {
        (st, Ok(ExpressionView::Identifier(st.current)))
    } else if kind == INT@ {
        (st, Ok(ExpressionView::Integer(st.current)))
    } else if kind == TRUE@ || kind == FALSE@ {
        (st, Ok(ExpressionView::Boolean(st.current)))
    } else if kind == BANG@ || kind == MINUS@ {
        let a = advance(st);
        match a.1 {
            Err(e) => (a.0, Err(e)),
            Ok(_) => {
                proof {
                    lemma_kind_texts();
                    lemma_advance(st);
                }
                let right = parse_expression_spec(a.0, PREFIX);
                match right.1 {
                    Err(e) => (right.0, Err(e)),
                    Ok(operand) => (
                        right.0,
                        Ok(ExpressionView::Prefix(st.current, Box::new(operand))),
                    ),
                }
            },
        }
    } else if kind == LPAREN@ {
        let a = advance(st);
        match a.1 {
            Err(e) => (a.0, Err(e)),
            Ok(_) => {
                proof {
                    lemma_kind_texts();
                    lemma_advance(st);
                }
                let inner = parse_expression_spec(a.0, LOWEST);
                match inner.1 {
                    Err(e) => (inner.0, Err(e)),
                    Ok(group) => {
                        let close = expect_peek_spec(inner.0, RPAREN@);
                        match close.1 {
                            Err(e) => (close.0, Err(e)),
                            Ok(_) => (close.0, Ok(group)),
                        }
                    },
                }
            },
        }
    } else if kind == IF@ {
        parse_if_spec(st)
    } else if kind == FUNCTION@ {
        parse_function_spec(st)
    } else {
        (with_error(st, no_prefix_message(kind)), Err(ParseError::NoPrefixRule))
    }
}

/// A conditional: `if`, the condition in parentheses, a block and, after
/// `else`, another block. The current token is `if`.
pub open spec fn parse_if_spec(st: ParserView) -> Parsed<ExpressionView>
    decreases measure(st), 1int,
    when valid(st) && st.current.kind == IF@
{
    let open = expect_peek_spec(st, LPAREN@);
    match open.1 {
        Err(e) => (open.0, Err(e)),
        Ok(_) => {
            let a = advance(open.0);
            match a.1 {
                Err(e) => (a.0, Err(e)),
                Ok(_) => {
                    proof {
                        lemma_kind_texts();
                        lemma_expect_peek(st, LPAREN@);
                        lemma_advance(open.0);
                    }
                    let cond = within(a.0, parse_expression_spec(a.0, LOWEST));
                    match cond.1 {
                        Err(e) => (cond.0, Err(e)),
                        Ok(condition) => {
                            let close = expect_peek_spec(cond.0, RPAREN@);
                            match close.1 {
                                Err(e) => (close.0, Err(e)),
                                Ok(_) => {
                                    proof {
                                        lemma_expect_peek(cond.0, RPAREN@);
                                    }
                                    let then = within(close.0, parse_block_spec(close.0));
                                    match then.1 {
                                        Err(e) => (then.0, Err(e)),
                                        Ok(consequence) => if then.0.peek.kind == ELSE@ {
                                            let skip = advance(then.0);
                                            match skip.1 {
                                                Err(e) => (skip.0, Err(e)),
                                                Ok(_) => {
                                                    proof {
                                                        lemma_advance(then.0);
                                                    }
                                                    let other = parse_block_spec(skip.0);
                                                    match other.1 {
                                                        Err(e) => (other.0, Err(e)),
                                                        Ok(alternative) => (
                                                            other.0,
                                                            Ok(
                                                                ExpressionView::If(
                                                                    st.current,
                                                                    Box::new(condition),
                                                                    consequence,
                                                                    Some(alternative),
                                                                ),
                                                            ),
                                                        ),
                                                    }
                                                },
                                            }
                                        } else {
                                            (
                                                then.0,
                                                Ok(
                                                    ExpressionView::If(
                                                        st.current,
                                                        Box::new(condition),
                                                        consequence,
                                                        None,
                                                    ),
                                                ),
                                            )
                                        },
                                    }
                                },
                            }
                        },
                    }
                },
            }
        },
    }
}

/// A function literal: `fn`, the parameters in parentheses, and the body.
/// The current token is `fn`.
pub open spec fn parse_function_spec(st: ParserView) -> Parsed<ExpressionView>
    decreases measure(st), 1int,
    when valid(st) && st.current.kind == FUNCTION@
{
    let open = expect_peek_spec(st, LPAREN@);
    match open.1 {
        Err(e) => (open.0, Err(e)),
        Ok(_) => {
            let params = parse_parameters_spec(open.0);
            match params.1 {
                Err(e) => (params.0, Err(e)),
                Ok(parameters) => {
                    proof {
                        lemma_kind_texts();
                        lemma_expect_peek(st, LPAREN@);
                        lemma_parse_parameters(open.0);
                    }
                    let body = parse_block_spec(params.0);
                    match body.1 {
                        Err(e) => (body.0, Err(e)),
                        Ok(statements) => (
                            body.0,
                            Ok(ExpressionView::Function(st.current, parameters, statements)),
                        ),
                    }
                },
            }
        },
    }
}

/// Extends `left` by what follows it and binds more tightly than
/// `precedence`: binary operators, each with its right operand, and the
/// arguments of calls. Operators of equal strength group to the left.
pub open spec fn parse_infix_spec(
    st: ParserView,
    left: ExpressionView,
    precedence: u8,
) -> Parsed<ExpressionView>
    decreases measure(st), 2int,
    when valid(st)
{
    match infix_precedence(st.peek.kind) {
        Some(level) => if precedence < level {
            let a = advance(st);
            match a.1 {
                Err(e) => (a.0, Err(e)),
                Ok(_) => {
                    proof {
                        lemma_kind_texts();
                        lemma_advance(st);
                    }
                    if a.0.current.kind == LPAREN@ {
                        let args = within(a.0, parse_arguments_spec(a.0));
                        match args.1 {
                            Err(e) => (args.0, Err(e)),
                            Ok(arguments) => parse_infix_spec(
                                args.0,
                                ExpressionView::Call(a.0.current, Box::new(left), arguments),
                                precedence,
                            ),
                        }
                    } else {
                        let b = advance(a.0);
                        match b.1 {
                            Err(e) => (b.0, Err(e)),
                            Ok(_) => {
                                proof {
                                    lemma_advance(a.0);
                                }
                                let right = within(b.0, parse_expression_spec(b.0, level));
                                match right.1 {
                                    Err(e) => (right.0, Err(e)),
                                    Ok(operand) => parse_infix_spec(
                                        right.0,
                                        ExpressionView::Infix(
                                            a.0.current,
                                            Box::new(left),
                                            Box::new(operand),
                                        ),
                                        precedence,
                                    ),
                                }
                            },
                        }
                    }
                },
            }
        } else {
            (st, Ok(left))
        },
        None => (st, Ok(left)),
    }
}

/// The arguments of a call, separated by commas; the current token is the
/// opening parenthesis. Afterwards the current token is the closing one.
pub open spec fn parse_arguments_spec(st: ParserView) -> Parsed<Seq<ExpressionView>>
    decreases measure(st), 1int,
    when valid(st) && st.current.kind == LPAREN@
{
    if st.peek.kind == RPAREN@ {
        let a = advance(st);
        match a.1 {
            Err(e) => (a.0, Err(e)),
            Ok(_) => (a.0, Ok(Seq::empty())),
        }
    } else {
        let a = advance(st);
        match a.1 {
            Err(e) => (a.0, Err(e)),
            Ok(_) => {
                proof {
                    lemma_kind_texts();
                    lemma_advance(st);
                }
                let first = within(a.0, parse_expression_spec(a.0, LOWEST));
                match first.1 {
                    Err(e) => (first.0, Err(e)),
                    Ok(argument) => more_arguments_spec(first.0, seq![argument]),
                }
            },
        }
    }
}

/// The arguments that follow those in `done`, each after a comma, up to the
/// closing parenthesis.
pub open spec fn more_arguments_spec(st: ParserView, done: Seq<ExpressionView>) -> Parsed<
    Seq<ExpressionView>,
>
    decreases measure(st), 0int,
    when valid(st)
{
    if st.peek.kind == COMMA@ {
        let a = advance(st);
        match a.1 {
            Err(e) => (a.0, Err(e)),
            Ok(_) => {
                let b = advance(a.0);
                match b.1 {
                    Err(e) => (b.0, Err(e)),
                    Ok(_) => {
                        proof {
                            lemma_kind_texts();
                            lemma_advance(st);
                            lemma_advance(a.0);
                        }
                        let next = within(b.0, parse_expression_spec(b.0, LOWEST));
                        match next.1 {
                            Err(e) => (next.0, Err(e)),
                            Ok(argument) => more_arguments_spec(next.0, done.push(argument)),
                        }
                    },
                }
            },
        }
    } else {
        let close = expect_peek_spec(st, RPAREN@);
        match close.1 {
            Err(e) => (close.0, Err(e)),
            Ok(_) => (close.0, Ok(done)),
        }
    }
}

/// A block: an opening brace, which must be the peek token, statements, and
/// the closing brace, which is the current token afterwards.
pub open spec fn parse_block_spec(st: ParserView) -> Parsed<Seq<StatementView>>
    decreases measure(st), 7int,
    when valid(st)
{
    let open = expect_peek_spec(st, LBRACE@);
    match open.1 {
        Err(e) => (open.0, Err(e)),
        Ok(_) => {
            let a = advance(open.0);
            match a.1 {
                Err(e) => (a.0, Err(e)),
                Ok(_) => {
                    proof {
                        lemma_kind_texts();
                        lemma_expect_peek(st, LBRACE@);
                        lemma_advance(open.0);
                    }
                    parse_block_rest_spec(a.0, Seq::empty())
                },
            }
        },
    }
}

/// The statements of a block after those in `done`, up to the closing brace.
/// A block that the end of the input cuts short is reported and fails. The
/// test on what is left to parse always holds, as `lemma_parse_statement`
/// shows; it is there for the definition to be seen to end.
pub open spec fn parse_block_rest_spec(st: ParserView, done: Seq<StatementView>) -> Parsed<
    Seq<StatementView>,
>
    decreases measure(st), 6int,
    when valid(st)
{
    if st.current.kind == RBRACE@ {
        (st, Ok(done))
    } else if st.current.kind == EOF@ {
        (with_error(st, expected_message(RBRACE@, EOF@)), Err(ParseError::UnexpectedToken))
    } else {
        let step = within(st, parse_statement_spec(st));
        match step.1 {
            Err(e) => (step.0, Err(e)),
            Ok(statement) => {
                let a = advance(step.0);
                match a.1 {
                    Err(e) => (a.0, Err(e)),
                    Ok(_) => if measure(a.0) < measure(st) && valid(a.0) {
                        parse_block_rest_spec(a.0, done.push(statement))
                    } else {
                        (a.0, Ok(done.push(statement)))
                    },
                }
            },
        }
    }
}

/// The statement that begins at the current token, chosen by the kind of
/// that token alone.
pub open spec fn parse_statement_spec(st: ParserView) -> Parsed<StatementView>
    decreases measure(st), 5int,
    when valid(st)
{
    if st.current.kind == LET@ {
        parse_let_statement_spec(st)
    } else if st.current.kind == RETURN@ {
        parse_return_statement_spec(st)
    } else {
        parse_expression_statement_spec(st)
    }
}

/// `let`, a name, `=`, an expression, and what follows up to the semicolon
/// that ends the statement. Afterwards the current token is that semicolon,
/// or the end of the input where there is none.
pub open spec fn parse_let_statement_spec(st: ParserView) -> Parsed<StatementView>
    decreases measure(st), 4int,
    when valid(st)
{
    let name_step = expect_peek_spec(st, IDENT@);
    match name_step.1 {
        Err(e) => (name_step.0, Err(e)),
        Ok(_) => {
            let name = name_of(name_step.0.current);
            let assign_step = expect_peek_spec(name_step.0, ASSIGN@);
            match assign_step.1 {
                Err(e) => (assign_step.0, Err(e)),
                Ok(_) => {
                    let a = advance(assign_step.0);
                    match a.1 {
                        Err(e) => (a.0, Err(e)),
                        Ok(_) => {
                            proof {
                                lemma_kind_texts();
                                lemma_expect_peek(st, IDENT@);
                                lemma_expect_peek(name_step.0, ASSIGN@);
                                lemma_advance(assign_step.0);
                            }
                            let value_step = parse_expression_spec(a.0, LOWEST);
                            match value_step.1 {
                                Err(e) => (value_step.0, Err(e)),
                                Ok(value) => {
                                    let end = skip_to_semicolon_spec(value_step.0);
                                    match end.1 {
                                        Err(e) => (end.0, Err(e)),
                                        Ok(_) => (end.0, Ok(StatementView::Let(name, value))),
                                    }
                                },
                            }
                        },
                    }
                },
            }
        },
    }
}

/// `return`, an expression, and what follows up to the semicolon that ends
/// the statement.
pub open spec fn parse_return_statement_spec(st: ParserView) -> Parsed<StatementView>
    decreases measure(st), 4int,
    when valid(st)
{
    let a = advance(st);
    match a.1 {
        Err(e) => (a.0, Err(e)),
        Ok(_) => {
            proof {
                lemma_advance(st);
            }
            let value_step = parse_expression_spec(a.0, LOWEST);
            match value_step.1 {
                Err(e) => (value_step.0, Err(e)),
                Ok(value) => {
                    let end = skip_to_semicolon_spec(value_step.0);
                    match end.1 {
                        Err(e) => (end.0, Err(e)),
                        Ok(_) => (end.0, Ok(StatementView::Return(value))),
                    }
                },
            }
        },
    }
}

/// An expression, with the token it began with. A semicolon after it is
/// consumed; none is needed.
pub open spec fn parse_expression_statement_spec(st: ParserView) -> Parsed<StatementView>
    decreases measure(st), 4int,
    when valid(st)
{
    let value_step = parse_expression_spec(st, LOWEST);
    match value_step.1 {
        Err(e) => (value_step.0, Err(e)),
        Ok(value) => {
            let statement = StatementView::Expression(st.current, value);
            if value_step.0.peek.kind == SEMICOLON@ {
                let a = advance(value_step.0);
                match a.1 {
                    Err(e) => (a.0, Err(e)),
                    Ok(_) => (a.0, Ok(statement)),
                }
            } else {
                (value_step.0, Ok(statement))
            }
        },
    }
}

/// The statements from the current token to the end of the input, after
/// those in `done`. The first statement that fails ends the parse with its
/// failure. The test on what is left to parse always holds, as
/// `lemma_parse_statement` shows; it is there for the definition to be seen
/// to end.
pub open spec fn parse_program_spec(st: ParserView, done: Seq<StatementView>) -> Parsed<
    Seq<StatementView>,
>
    decreases measure(st),
    when valid(st)
{
    if st.current.kind == EOF@ {
        (st, Ok(done))
    } else {
        let step = parse_statement_spec(st);
        match step.1 {
            Err(e) => (step.0, Err(e)),
            Ok(statement) => {
                let a = advance(step.0);
                match a.1 {
                    Err(e) => (a.0, Err(e)),
                    Ok(_) => if measure(a.0) < measure(st) && valid(a.0) {
                        parse_program_spec(a.0, done.push(statement))
                    } else {
                        (a.0, Ok(done.push(statement)))
                    },
                }
            },
        }
    }
}

/// Parsing an expression keeps the input and never leaves more to parse
/// than there was. After an expression the current token is its last
/// token, so it is not the end of the input.
pub proof fn lemma_parse_expression(st: ParserView, precedence: u8)
    requires
        valid(st),
    ensures
        settled(st, parse_expression_spec(st, precedence)),
        parse_expression_spec(st, precedence).1 is Ok ==> parse_expression_spec(
            st,
            precedence,
        ).0.current.kind != EOF@,
    decreases measure(st), 3int,
{
    reveal(diagnosed);
    lemma_parse_prefix(st);
    let p = parse_prefix_spec(st);
    if let Ok(left) = p.1 {
        lemma_parse_infix(p.0, left, precedence);
    }
}

/// The same of an operand.
pub proof fn lemma_parse_prefix(st: ParserView)
    requires
        valid(st),
    ensures
        settled(st, parse_prefix_spec(st)),
        parse_prefix_spec(st).1 is Ok ==> parse_prefix_spec(st).0.current.kind != EOF@,
    decreases measure(st), 2int,
{
    reveal(diagnosed);
    lemma_kind_texts();
    let kind = st.current.kind;
    if kind == IDENT@ || kind == INT@ || kind == TRUE@ || kind == FALSE@ {
    } else if kind == BANG@ || kind == MINUS@ {
        lemma_advance(st);
        if advance(st).1 is Ok {
            lemma_parse_expression(advance(st).0, PREFIX);
        }
    } else if kind == LPAREN@ {
        lemma_advance(st);
        if advance(st).1 is Ok {
            lemma_parse_expression(advance(st).0, LOWEST);
            let inner = parse_expression_spec(advance(st).0, LOWEST);
            if inner.1 is Ok {
                lemma_expect_peek(inner.0, RPAREN@);
            }
        }
    } else if kind == IF@ {
        lemma_parse_if(st);
    } else if kind == FUNCTION@ {
        lemma_parse_function(st);
    } else {
        assert(with_error(st, no_prefix_message(kind)).errors.drop_last() =~= st.errors);
    }
}

/// The same of a conditional.
pub proof fn lemma_parse_if(st: ParserView)
    requires
        valid(st),
        st.current.kind == IF@,
    ensures
        settled(st, parse_if_spec(st)),
        parse_if_spec(st).1 is Ok ==> parse_if_spec(st).0.current.kind == RBRACE@,
    decreases measure(st), 1int,
{
    reveal(diagnosed);
    lemma_kind_texts();
    let open = expect_peek_spec(st, LPAREN@);
    lemma_expect_peek(st, LPAREN@);
    if open.1 is Ok {
        let a = advance(open.0);
        lemma_advance(open.0);
        if a.1 is Ok {
            lemma_parse_expression(a.0, LOWEST);
            let cond = parse_expression_spec(a.0, LOWEST);
            if cond.1 is Ok {
                let close = expect_peek_spec(cond.0, RPAREN@);
                lemma_expect_peek(cond.0, RPAREN@);
                if close.1 is Ok {
                    lemma_parse_block(close.0);
                    let then = parse_block_spec(close.0);
                    if then.1 is Ok && then.0.peek.kind == ELSE@ {
                        let skip = advance(then.0);
                        lemma_advance(then.0);
                        if skip.1 is Ok {
                            lemma_parse_block(skip.0);
                        }
                    }
                }
            }
        }
    }
}

/// The same of a function literal.
pub proof fn lemma_parse_function(st: ParserView)
    requires
        valid(st),
        st.current.kind == FUNCTION@,
    ensures
        settled(st, parse_function_spec(st)),
        parse_function_spec(st).1 is Ok ==> parse_function_spec(st).0.current.kind == RBRACE@,
    decreases measure(st), 1int,
{
    reveal(diagnosed);
    lemma_kind_texts();
    let open = expect_peek_spec(st, LPAREN@);
    lemma_expect_peek(st, LPAREN@);
    if open.1 is Ok {
        let params = parse_parameters_spec(open.0);
        lemma_parse_parameters(open.0);
        if params.1 is Ok {
            lemma_parse_block(params.0);
        }
    }
}

/// The same of what extends an operand, where the current token is not the
/// end of the input to begin with.
pub proof fn lemma_parse_infix(st: ParserView, left: ExpressionView, precedence: u8)
    requires
        valid(st),
        st.current.kind != EOF@,
    ensures
        settled(st, parse_infix_spec(st, left, precedence)),
        parse_infix_spec(st, left, precedence).1 is Ok ==> parse_infix_spec(
            st,
            left,
            precedence,
        ).0.current.kind != EOF@,
    decreases measure(st), 2int,
{
    reveal(diagnosed);
    lemma_kind_texts();
    if let Some(level) = infix_precedence(st.peek.kind) {
        if precedence < level {
            let a = advance(st);
            lemma_advance(st);
            if a.1 is Ok {
                if a.0.current.kind == LPAREN@ {
                    lemma_parse_arguments(a.0);
                    let args = parse_arguments_spec(a.0);
                    if let Ok(arguments) = args.1 {
                        lemma_parse_infix(
                            args.0,
                            ExpressionView::Call(a.0.current, Box::new(left), arguments),
                            precedence,
                        );
                    }
                } else {
                    let b = advance(a.0);
                    lemma_advance(a.0);
                    if b.1 is Ok {
                        lemma_parse_expression(b.0, level);
                        let right = parse_expression_spec(b.0, level);
                        if let Ok(operand) = right.1 {
                            lemma_parse_infix(
                                right.0,
                                ExpressionView::Infix(
                                    a.0.current,
                                    Box::new(left),
                                    Box::new(operand),
                                ),
                                precedence,
                            );
                        }
                    }
                }
            }
        }
    }
}

/// The arguments of a call keep the input, never leave more to parse, and
/// end at a closing parenthesis.
pub proof fn lemma_parse_arguments(st: ParserView)
    requires
        valid(st),
        st.current.kind == LPAREN@,
    ensures
        settled(st, parse_arguments_spec(st)),
        parse_arguments_spec(st).1 is Ok ==> parse_arguments_spec(st).0.current.kind == RPAREN@,
    decreases measure(st), 1int,
{
    reveal(diagnosed);
    lemma_kind_texts();
    let a = advance(st);
    lemma_advance(st);
    if st.peek.kind != RPAREN@ && a.1 is Ok {
        lemma_parse_expression(a.0, LOWEST);
        let first = parse_expression_spec(a.0, LOWEST);
        if let Ok(argument) = first.1 {
            lemma_more_arguments(first.0, seq![argument]);
        }
    }
}

/// The same of the arguments after the first.
pub proof fn lemma_more_arguments(st: ParserView, done: Seq<ExpressionView>)
    requires
        valid(st),
    ensures
        settled(st, more_arguments_spec(st, done)),
        more_arguments_spec(st, done).1 is Ok ==> more_arguments_spec(st, done).0.current.kind
            == RPAREN@,
    decreases measure(st), 0int,
{
    reveal(diagnosed);
    lemma_kind_texts();
    if st.peek.kind == COMMA@ {
        let a = advance(st);
        lemma_advance(st);
        if a.1 is Ok {
            let b = advance(a.0);
            lemma_advance(a.0);
            if b.1 is Ok {
                lemma_parse_expression(b.0, LOWEST);
                let next = parse_expression_spec(b.0, LOWEST);
                if let Ok(argument) = next.1 {
                    lemma_more_arguments(next.0, done.push(argument));
                }
            }
        }
    } else {
        lemma_expect_peek(st, RPAREN@);
    }
}

/// A block keeps the input, never leaves more to parse, and ends at its
/// closing brace.
pub proof fn lemma_parse_block(st: ParserView)
    requires
        valid(st),
    ensures
        settled(st, parse_block_spec(st)),
        parse_block_spec(st).1 is Ok ==> parse_block_spec(st).0.current.kind == RBRACE@,
    decreases measure(st), 7int,
{
    reveal(diagnosed);
    lemma_kind_texts();
    let open = expect_peek_spec(st, LBRACE@);
    lemma_expect_peek(st, LBRACE@);
    if open.1 is Ok {
        let a = advance(open.0);
        lemma_advance(open.0);
        if a.1 is Ok {
            lemma_parse_block_rest(a.0, Seq::empty());
        }
    }
}

/// The same of the statements of a block after the first ones.
pub proof fn lemma_parse_block_rest(st: ParserView, done: Seq<StatementView>)
    requires
        valid(st),
    ensures
        settled(st, parse_block_rest_spec(st, done)),
        parse_block_rest_spec(st, done).1 is Ok ==> parse_block_rest_spec(
            st,
            done,
        ).0.current.kind == RBRACE@,
    decreases measure(st), 6int,
{
    reveal(diagnosed);
    if st.current.kind != RBRACE@ && st.current.kind != EOF@ {
        lemma_parse_statement(st);
        let step = parse_statement_spec(st);
        if let Ok(statement) = step.1 {
            let a = advance(step.0);
            lemma_advance(step.0);
            if a.1 is Ok {
                lemma_parse_block_rest(a.0, done.push(statement));
            }
        }
    } else if st.current.kind == EOF@ {
        assert(with_error(st, expected_message(RBRACE@, EOF@)).errors.drop_last() =~= st.errors);
    }
}

/// Whether the advance after a statement that began at `st`, before the
/// end of the input, leaves less to parse than there was at `st`.
pub open spec fn consumed(st: ParserView, r: Parsed<StatementView>) -> bool {
    st.current.kind != EOF@ && r.1 is Ok ==> measure(advance(r.0).0) < measure(st)
}

/// A statement keeps the input and never leaves more to parse. After a
/// statement that began before the end of the input, the advance to the
/// next statement leaves less to parse than there was before it: every
/// statement consumes at least the token that it began with.
pub proof fn lemma_parse_statement(st: ParserView)
    requires
        valid(st),
    ensures
        settled(st, parse_statement_spec(st)),
        consumed(st, parse_statement_spec(st)),
    decreases measure(st), 5int,
{
    reveal(diagnosed);
    if st.current.kind == LET@ {
        lemma_parse_let_statement(st);
    } else if st.current.kind == RETURN@ {
        lemma_parse_return_statement(st);
    } else {
        lemma_parse_expression_statement(st);
    }
}

/// The same of a `let` statement.
pub proof fn lemma_parse_let_statement(st: ParserView)
    requires
        valid(st),
        st.current.kind == LET@,
    ensures
        settled(st, parse_let_statement_spec(st)),
        consumed(st, parse_let_statement_spec(st)),
    decreases measure(st), 4int,
{
    reveal(diagnosed);
    lemma_kind_texts();
    let name_step = expect_peek_spec(st, IDENT@);
    lemma_expect_peek(st, IDENT@);
    if name_step.1 is Ok {
        let assign_step = expect_peek_spec(name_step.0, ASSIGN@);
        lemma_expect_peek(name_step.0, ASSIGN@);
        if assign_step.1 is Ok {
            let a = advance(assign_step.0);
            lemma_advance(assign_step.0);
            if a.1 is Ok {
                let value_step = parse_expression_spec(a.0, LOWEST);
                lemma_parse_expression(a.0, LOWEST);
                if value_step.1 is Ok {
                    lemma_skip_to_semicolon(value_step.0);
                    lemma_advance(skip_to_semicolon_spec(value_step.0).0);
                }
            }
        }
    }
}

/// The same of a `return` statement.
pub proof fn lemma_parse_return_statement(st: ParserView)
    requires
        valid(st),
        st.current.kind == RETURN@,
    ensures
        settled(st, parse_return_statement_spec(st)),
        consumed(st, parse_return_statement_spec(st)),
    decreases measure(st), 4int,
{
    reveal(diagnosed);
    lemma_kind_texts();
    let a = advance(st);
    lemma_advance(st);
    if a.1 is Ok {
        let value_step = parse_expression_spec(a.0, LOWEST);
        lemma_parse_expression(a.0, LOWEST);
        if value_step.1 is Ok {
            lemma_skip_to_semicolon(value_step.0);
            lemma_advance(skip_to_semicolon_spec(value_step.0).0);
        }
    }
}

/// The same of an expression statement.
pub proof fn lemma_parse_expression_statement(st: ParserView)
    requires
        valid(st),
    ensures
        settled(st, parse_expression_statement_spec(st)),
        consumed(st, parse_expression_statement_spec(st)),
    decreases measure(st), 4int,
{
    reveal(diagnosed);
    let value_step = parse_expression_spec(st, LOWEST);
    lemma_parse_expression(st, LOWEST);
    if value_step.1 is Ok {
        lemma_advance(value_step.0);
        if value_step.0.peek.kind == SEMICOLON@ {
            lemma_advance(advance(value_step.0).0);
        }
    }
}

/// Parsing a program keeps the input, a parse that succeeds ends at the end
/// of the input and adds no diagnostic, a parse that fails on a token adds
/// exactly one, and the statements parsed before stay first.
pub proof fn lemma_parse_program(st: ParserView, done: Seq<StatementView>)
    requires
        valid(st),
    ensures
        valid(parse_program_spec(st, done).0),
        parse_program_spec(st, done).0.input == st.input,
        diagnosed(st, parse_program_spec(st, done)),
        parse_program_spec(st, done).1 is Ok ==> parse_program_spec(st, done).0.current.kind
            == EOF@,
        parse_program_spec(st, done).1 matches Ok(all) ==> done.len() <= all.len() && all.take(
            done.len() as int,
        ) == done,
    decreases measure(st),
{
    reveal(diagnosed);
    if st.current.kind != EOF@ {
        let step = parse_statement_spec(st);
        lemma_parse_statement(st);
        if let Ok(statement) = step.1 {
            let a = advance(step.0);
            lemma_advance(step.0);
            if a.1 is Ok {
                lemma_parse_program(a.0, done.push(statement));
                if let Ok(all) = parse_program_spec(st, done).1 {
                    assert(all.take(done.len() as int) =~= all.take((done.len() + 1) as int).take(
                        done.len() as int,
                    ));
                    assert(done.push(statement).take(done.len() as int) =~= done);
                }
            }
        }
    } else {
        assert(done.take(done.len() as int) =~= done);
    }
}

/// The node of an operand that is a single name or number.
pub open spec fn leaf(token: TokenView) -> ExpressionView {
    if token.kind == IDENT@ {
        ExpressionView::Identifier(token)
    } else {
        ExpressionView::Integer(token)
    }
}

/// Whether a token is a binary operator of strength `level`.
pub open spec fn binary_operator(token: TokenView, level: u8) -> bool {
    infix_precedence(token.kind) == Some(level) && token.kind != LPAREN@
}

/// Precedence and grouping. Let the tokens from the current one on be an
/// operand `a`, a binary operator, an operand `b`, a second binary operator,
/// an operand `c`, and then a token that continues no expression, the
/// operands being names or numbers. If the second operator binds more
/// tightly than the first, it takes `b`: the tree is `a op (b op c)`.
/// Otherwise, and so for two operators of equal strength, the first takes
/// it: the tree is `(a op b) op c`.
pub proof fn lemma_precedence(
    st: ParserView,
    b: TokenView,
    second: TokenView,
    c: TokenView,
    end: TokenView,
    first_level: u8,
    second_level: u8,
)
    requires
        valid(st),
        st.current.kind == IDENT@ || st.current.kind == INT@,
        b.kind == IDENT@ || b.kind == INT@,
        c.kind == IDENT@ || c.kind == INT@,
        binary_operator(st.peek, first_level),
        binary_operator(second, second_level),
        infix_precedence(end.kind) is None,
        scan(st.input, st.pos).token == Ok::<TokenView, ScanError>(b),
        scan(st.input, scan(st.input, st.pos).pos).token == Ok::<TokenView, ScanError>(second),
        scan(st.input, advance(advance(st).0).0.pos).token == Ok::<TokenView, ScanError>(c),
        scan(st.input, advance(advance(advance(st).0).0).0.pos).token == Ok::<
            TokenView,
            ScanError,
        >(end),
    ensures
        parse_expression_spec(st, LOWEST).1 == Ok::<ExpressionView, ParseError>(
            if first_level < second_level {
                ExpressionView::Infix(
                    st.peek,
                    Box::new(leaf(st.current)),
                    Box::new(ExpressionView::Infix(second, Box::new(leaf(b)), Box::new(leaf(c)))),
                )
            } else {
                ExpressionView::Infix(
                    second,
                    Box::new(
                        ExpressionView::Infix(
                            st.peek,
                            Box::new(leaf(st.current)),
                            Box::new(leaf(b)),
                        ),
                    ),
                    Box::new(leaf(c)),
                )
            },
        ),
{
    lemma_kind_texts();
    let s1 = advance(st).0;
    let s2 = advance(s1).0;
    let s3 = advance(s2).0;
    let s4 = advance(s3).0;
    lemma_advance(st);
    lemma_advance(s1);
    lemma_advance(s2);
    lemma_advance(s3);
    assert(advance(st) == (s1, Ok::<(), ParseError>(())));
    assert(advance(s1) == (s2, Ok::<(), ParseError>(())));
    assert(advance(s2) == (s3, Ok::<(), ParseError>(())));
    assert(advance(s3) == (s4, Ok::<(), ParseError>(())));
    assert(s1.current == st.peek && s1.peek == b);
    assert(s2.current == b && s2.peek == second);
    assert(s3.current == second && s3.peek == c);
    assert(s4.current == c && s4.peek == end);
    let a_node = leaf(st.current);
    assert(parse_prefix_spec(st) == (st, Ok::<ExpressionView, ParseError>(a_node)));
    assert(parse_prefix_spec(s2) == (s2, Ok::<ExpressionView, ParseError>(leaf(b))));
    assert(parse_prefix_spec(s4) == (s4, Ok::<ExpressionView, ParseError>(leaf(c))));
    assert(forall|left: ExpressionView, level: u8|
        #[trigger] parse_infix_spec(s4, left, level) == (s4, Ok::<ExpressionView, ParseError>(
            left,
        )));
    assert(forall|level: u8|
        #[trigger] parse_expression_spec(s4, level) == (s4, Ok::<ExpressionView, ParseError>(
            leaf(c),
        )));
    assert(within(s4, parse_expression_spec(s4, second_level)) == parse_expression_spec(
        s4,
        second_level,
    ));
    if first_level < second_level {
        let inner = ExpressionView::Infix(second, Box::new(leaf(b)), Box::new(leaf(c)));
        assert(parse_infix_spec(s4, inner, first_level) == (s4, Ok::<ExpressionView, ParseError>(
            inner,
        )));
        assert(parse_infix_spec(s2, leaf(b), first_level) == (s4, Ok::<
            ExpressionView,
            ParseError,
        >(inner)));
        assert(parse_expression_spec(s2, first_level) == (s4, Ok::<ExpressionView, ParseError>(
            inner,
        )));
        let whole = ExpressionView::Infix(st.peek, Box::new(a_node), Box::new(inner));
        assert(within(s2, parse_expression_spec(s2, first_level)) == parse_expression_spec(
            s2,
            first_level,
        ));
        assert(parse_infix_spec(s4, whole, LOWEST) == (s4, Ok::<ExpressionView, ParseError>(
            whole,
        )));
        assert(parse_infix_spec(st, a_node, LOWEST) == (s4, Ok::<ExpressionView, ParseError>(
            whole,
        )));
    } else {
        let inner = ExpressionView::Infix(st.peek, Box::new(a_node), Box::new(leaf(b)));
        assert(parse_infix_spec(s2, leaf(b), first_level) == (s2, Ok::<
            ExpressionView,
            ParseError,
        >(leaf(b))));
        assert(parse_expression_spec(s2, first_level) == (s2, Ok::<ExpressionView, ParseError>(
            leaf(b),
        )));
        let whole = ExpressionView::Infix(second, Box::new(inner), Box::new(leaf(c)));
        assert(within(s2, parse_expression_spec(s2, first_level)) == parse_expression_spec(
            s2,
            first_level,
        ));
        assert(parse_infix_spec(s4, whole, LOWEST) == (s4, Ok::<ExpressionView, ParseError>(
            whole,
        )));
        assert(parse_infix_spec(s2, inner, LOWEST) == (s4, Ok::<ExpressionView, ParseError>(
            whole,
        )));
        assert(parse_infix_spec(st, a_node, LOWEST) == (s4, Ok::<ExpressionView, ParseError>(
            whole,
        )));
    }
}

} // verus!
