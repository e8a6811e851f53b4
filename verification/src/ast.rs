//! The syntax tree that the parser builds.
use crate::token::{Token, TokenView};
use vstd::prelude::*;
use vstd::string::*;

verus! {

/// A name: the identifier token and the name it spells.
#[derive(Default, Debug, PartialEq, Eq)]
pub struct Identifier {
    pub token: Token,
    pub value: String,
}

pub struct IdentifierView {
    pub token: TokenView,
    pub value: Seq<char>,
}

impl View for Identifier {
    type V = IdentifierView;

    open spec fn view(&self) -> IdentifierView {
        IdentifierView { token: self.token@, value: self.value@ }
    }
}

impl Clone for Identifier {
    fn clone(&self) -> (r: Self)
        ensures
            r == *self,
    {
        Identifier { token: self.token.clone(), value: self.value.clone() }
    }
}

impl Identifier {
    /// An identifier from its token and the name it spells.
    pub fn new(token: Token, value: &str) -> (r: Self)
        ensures
            r@.token == token@,
            r@.value == value@,
    {
        Self { token, value: String::from_str(value) }
    }
}

/// An expression. Operators, conditionals, function literals and calls keep
/// the token that introduces them; a parenthesised group leaves no node of
/// its own, only the shape of the tree.
#[derive(Debug, PartialEq, Eq)]
pub enum Expression {
    Identifier(Token),
    Integer(Token),
    Boolean(Token),
    /// A unary operator and its operand.
    Prefix(Token, Box<Expression>),
    /// A binary operator, its left and its right operand.
    Infix(Token, Box<Expression>, Box<Expression>),
    /// `if`, the condition, the consequence and, after `else`, the
    /// alternative.
    If(Token, Box<Expression>, Vec<Statement>, Option<Vec<Statement>>),
    /// `fn`, the parameters and the body.
    Function(Token, Vec<Identifier>, Vec<Statement>),
    /// The opening parenthesis, the callee and the arguments.
    Call(Token, Box<Expression>, Vec<Expression>),
}

pub enum ExpressionView {
    Identifier(TokenView),
    Integer(TokenView),
    Boolean(TokenView),
    Prefix(TokenView, Box<ExpressionView>),
    Infix(TokenView, Box<ExpressionView>, Box<ExpressionView>),
    If(TokenView, Box<ExpressionView>, Seq<StatementView>, Option<Seq<StatementView>>),
    Function(TokenView, Seq<IdentifierView>, Seq<StatementView>),
    Call(TokenView, Box<ExpressionView>, Seq<ExpressionView>),
}

/// A statement: a binding, a return, or an expression with the token it
/// began with.
#[derive(Debug, PartialEq, Eq)]
pub enum Statement {
    Let(Identifier, Expression),
    Return(Expression),
    Expression(Token, Expression),
}

pub enum StatementView {
    Let(IdentifierView, ExpressionView),
    Return(ExpressionView),
    Expression(TokenView, ExpressionView),
}

/// The value of an expression.
pub open spec fn expression_view(e: Expression) -> ExpressionView
    decreases e,
{
    match e {
        Expression::Identifier(t) => ExpressionView::Identifier(t@),
        Expression::Integer(t) => ExpressionView::Integer(t@),
        Expression::Boolean(t) => ExpressionView::Boolean(t@),
        Expression::Prefix(t, right) => ExpressionView::Prefix(
            t@,
            Box::new(expression_view(*right)),
        ),
        Expression::Infix(t, left, right) => ExpressionView::Infix(
            t@,
            Box::new(expression_view(*left)),
            Box::new(expression_view(*right)),
        ),
        Expression::If(t, condition, consequence, alternative) => ExpressionView::If(
            t@,
            Box::new(expression_view(*condition)),
            block_view(consequence),
            match alternative {
                Some(block) => Some(block_view(block)),
                None => None,
            },
        ),
        Expression::Function(t, parameters, body) => ExpressionView::Function(
            t@,
            names_view(parameters@),
            block_view(body),
        ),
        Expression::Call(t, callee, arguments) => ExpressionView::Call(
            t@,
            Box::new(expression_view(*callee)),
            arguments_view(arguments),
        ),
    }
}

/// The value of a statement.
pub open spec fn statement_view(s: Statement) -> StatementView
    decreases s,
{
    match s {
        Statement::Let(name, value) => StatementView::Let(name@, expression_view(value)),
        Statement::Return(value) => StatementView::Return(expression_view(value)),
        Statement::Expression(first, value) => StatementView::Expression(
            first@,
            expression_view(value),
        ),
    }
}

/// The values of the statements of a block, in their order.
pub open spec fn block_view(block: Vec<Statement>) -> Seq<StatementView>
    decreases block,
{
    Seq::new(
        block@.len(),
        |i: int|
            if 0 <= i < block@.len() {
                statement_view(block[i])
            } else {
                arbitrary()
            },
    )
}

/// The values of the arguments of a call, in their order.
pub open spec fn arguments_view(arguments: Vec<Expression>) -> Seq<ExpressionView>
    decreases arguments,
{
    Seq::new(
        arguments@.len(),
        |i: int|
            if 0 <= i < arguments@.len() {
                expression_view(arguments[i])
            } else {
                arbitrary()
            },
    )
}

/// The values of a list of names, in their order.
pub open spec fn names_view(names: Seq<Identifier>) -> Seq<IdentifierView> {
    Seq::new(names.len(), |i: int| names[i]@)
}

impl View for Expression {
    type V = ExpressionView;

    open spec fn view(&self) -> ExpressionView {
        expression_view(*self)
    }
}

impl View for Statement {
    type V = StatementView;

    open spec fn view(&self) -> StatementView {
        statement_view(*self)
    }
}

impl Clone for Expression {
    fn clone(&self) -> (r: Self)
        ensures
            r@ == self@,
        decreases self,
    {
        match self {
            Expression::Identifier(t) => Expression::Identifier(t.clone()),
            Expression::Integer(t) => Expression::Integer(t.clone()),
            Expression::Boolean(t) => Expression::Boolean(t.clone()),
            Expression::Prefix(t, right) => Expression::Prefix(
                t.clone(),
                Box::new((&**right).clone()),
            ),
            Expression::Infix(t, left, right) => Expression::Infix(
                t.clone(),
                Box::new((&**left).clone()),
                Box::new((&**right).clone()),
            ),
            Expression::If(t, condition, consequence, alternative) => Expression::If(
                t.clone(),
                Box::new((&**condition).clone()),
                clone_block(consequence),
                match alternative {
                    Some(block) => Some(clone_block(block)),
                    None => None,
                },
            ),
            Expression::Function(t, parameters, body) => Expression::Function(
                t.clone(),
                clone_names(parameters),
                clone_block(body),
            ),
            Expression::Call(t, callee, arguments) => Expression::Call(
                t.clone(),
                Box::new((&**callee).clone()),
                clone_arguments(arguments),
            ),
        }
    }
}

impl Clone for Statement {
    fn clone(&self) -> (r: Self)
        ensures
            r@ == self@,
        decreases self,
    {
        match self {
            Statement::Let(name, value) => Statement::Let(name.clone(), value.clone()),
            Statement::Return(value) => Statement::Return(value.clone()),
            Statement::Expression(first, value) => Statement::Expression(
                first.clone(),
                value.clone(),
            ),
        }
    }
}

/// A copy of a block, statement by statement.
pub fn clone_block(block: &Vec<Statement>) -> (r: Vec<Statement>)
    ensures
        block_view(r) == block_view(*block),
    decreases block,
{
    let mut out: Vec<Statement> = Vec::new();
    let mut i: usize = 0;
    while i < block.len()
        invariant
            i <= block.len(),
            out@.len() == i,
            forall|j: int| 0 <= j < i ==> statement_view(#[trigger] out@[j]) == statement_view(block@[j]),
        decreases block.len() - i,
    {
        let statement = block[i].clone();
        out.push(statement);
        i = i + 1;
    }
    assert(block_view(out) =~= block_view(*block));
    out
}

/// A copy of a list of arguments, expression by expression.
pub fn clone_arguments(arguments: &Vec<Expression>) -> (r: Vec<Expression>)
    ensures
        arguments_view(r) == arguments_view(*arguments),
    decreases arguments,
{
    let mut out: Vec<Expression> = Vec::new();
    let mut i: usize = 0;
    while i < arguments.len()
        invariant
            i <= arguments.len(),
            out@.len() == i,
            forall|j: int| 0 <= j < i ==> expression_view(#[trigger] out@[j]) == expression_view(arguments@[j]),
        decreases arguments.len() - i,
    {
        let argument = arguments[i].clone();
        out.push(argument);
        i = i + 1;
    }
    assert(arguments_view(out) =~= arguments_view(*arguments));
    out
}

/// A copy of a list of names.
pub fn clone_names(names: &Vec<Identifier>) -> (r: Vec<Identifier>)
    ensures
        names_view(r@) == names_view(names@),
{
    let mut out: Vec<Identifier> = Vec::new();
    let mut i: usize = 0;
    while i < names.len()
        invariant
            i <= names.len(),
            out@.len() == i,
            forall|j: int| 0 <= j < i ==> (#[trigger] out@[j])@ == names@[j]@,
        decreases names.len() - i,
    {
        let name = names[i].clone();
        out.push(name);
        i = i + 1;
    }
    assert(names_view(out@) =~= names_view(names@));
    out
}

/// A program: its statements in source order.
#[derive(Default, Debug)]
pub struct Program {
    pub statements: Vec<Statement>,
}

impl View for Program {
    type V = Seq<StatementView>;

    open spec fn view(&self) -> Seq<StatementView> {
        block_view(self.statements)
    }
}

impl Program {
    /// The program without statements.
    pub fn new() -> (r: Self)
        ensures
            r@ == Seq::<StatementView>::empty(),
    {
        let r = Program { statements: Vec::new() };
        assert(r@ =~= Seq::<StatementView>::empty());
        r
    }

    /// Appends a statement.
    pub fn push(&mut self, statement: Statement)
        ensures
            final(self)@ == old(self)@.push(statement@),
    {
        self.statements.push(statement);
        assert(self@ =~= old(self)@.push(statement@));
    }
}

} // verus!
