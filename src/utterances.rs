//! The abstract syntax tree, together with its mathematical model.
use vstd::prelude::*;

verus! {

/// Lexical category of a token.
#[derive(Clone, Copy, Debug, PartialEq, Eq, Structural)]
pub enum Kind {
    CommentLine,
    CommentBlock,
    KeywordLet,
    SystemCall,
    ParenthesisOpen,
    ParenthesisClose,
    BracketOpen,
    BracketClose,
    AliasSnakeCase,
    Number,
    Assign,
    Add,
    Sub,
    Mul,
    Div,
    SemiColon,
}

#[derive(Clone, Copy, Debug, PartialEq, Eq, Structural)]
pub enum ArithmeticOperator {
    Add,
    Sub,
    Mul,
    Div,
}

#[derive(Debug)]
pub enum Literal {
    U32(u32),
    Str(String),
    Boolean(bool),
}

#[derive(Debug)]
pub enum SysCall {
    Exit(Expression),
}

#[derive(Debug)]
pub enum Construct {
    Program(Vec<Statement>),
}

#[derive(Debug)]
pub enum Statement {
    Let(String, Expression),
    SystemCall(SysCall),
}

#[derive(Debug)]
pub enum Expression {
    BinaryOp(ArithmeticOperator, Box<Expression>, Box<Expression>),
    Term(Term),
}

#[derive(Debug)]
pub enum Term {
    Alias(String),
    Literal(Literal),
}

/// Model of a literal: strings are seen as their characters.
pub enum LiteralModel {
    U32(u32),
    Str(Seq<char>),
    Boolean(bool),
}

pub enum TermModel {
    Alias(Seq<char>),
    Literal(LiteralModel),
}

pub enum ExpressionModel {
    BinaryOp(ArithmeticOperator, Box<ExpressionModel>, Box<ExpressionModel>),
    Term(TermModel),
}

pub enum SysCallModel {
    Exit(ExpressionModel),
}

pub enum StatementModel {
    Let(Seq<char>, ExpressionModel),
    SystemCall(SysCallModel),
}

impl View for Literal {
    type V = LiteralModel;

    open spec fn view(&self) -> LiteralModel {
        match self {
            Literal::U32(v) => LiteralModel::U32(*v),
            Literal::Str(s) => LiteralModel::Str(s@),
            Literal::Boolean(b) => LiteralModel::Boolean(*b),
        }
    }
}

impl View for Term {
    type V = TermModel;

    open spec fn view(&self) -> TermModel {
        match self {
            Term::Alias(a) => TermModel::Alias(a@),
            Term::Literal(l) => TermModel::Literal(l@),
        }
    }
}

/// The model of an expression tree.
pub open spec fn expression_model(e: Expression) -> ExpressionModel
    decreases e,
{
    match e {
        Expression::BinaryOp(op, l, r) => ExpressionModel::BinaryOp(
            op,
            Box::new(expression_model(*l)),
            Box::new(expression_model(*r)),
        ),
        Expression::Term(t) => ExpressionModel::Term(t@),
    }
}

impl View for Expression {
    type V = ExpressionModel;

    open spec fn view(&self) -> ExpressionModel {
        expression_model(*self)
    }
}

impl View for SysCall {
    type V = SysCallModel;

    open spec fn view(&self) -> SysCallModel {
        match self {
            SysCall::Exit(e) => SysCallModel::Exit(e@),
        }
    }
}

impl View for Statement {
    type V = StatementModel;

    open spec fn view(&self) -> StatementModel {
        match self {
            Statement::Let(a, e) => StatementModel::Let(a@, e@),
            Statement::SystemCall(c) => StatementModel::SystemCall(c@),
        }
    }
}

impl Construct {
    /// The program has no statement.
    pub fn is_empty(&self) -> (r: bool)
        ensures
            r == (self@.len() == 0),
    {
        match self {
            Construct::Program(v) => v.len() == 0,
        }
    }
}

/// The statements of a program, in order.
pub open spec fn statements_model(v: Seq<Statement>) -> Seq<StatementModel> {
    v.map_values(|s: Statement| s@)
}

impl View for Construct {
    type V = Seq<StatementModel>;

    open spec fn view(&self) -> Seq<StatementModel> {
        match self {
            Construct::Program(v) => statements_model(v@),
        }
    }
}

} // verus!
