//! Syntax tree of a program: statements and expressions, each node owning its
//! children, together with the mathematical form of each node that the
//! contracts of the parser and the interpreter speak of.
use vstd::prelude::*;

verus! {

/// Operators of a binary expression.
#[derive(Clone, Copy, Debug, PartialEq, Eq, Structural)]
pub enum BinaryOperator {
    Add,
    Subtract,
    Multiply,
    Divide,
    Equals,
    GreaterThan,
    GreaterThanEquals,
    LessThan,
    LessThanEquals,
    And,
    Or,
}

#[derive(Debug)]
pub enum Expression {
    Identifier(String),
    Number(i64),
    String(String),
    BinaryOp { left: Box<Expression>, operator: BinaryOperator, right: Box<Expression> },
    FunctionCall { name: String, arguments: Vec<Expression> },
}

#[derive(Debug)]
pub enum Statement {
    Assignment { identifier: String, expression: Box<Expression> },
    /// A sequence of statements; `indentation` is the column width of the
    /// line that opened the block.
    Block { statements: Vec<Statement>, indentation: usize },
    While { condition: Box<Expression>, body: Box<Statement> },
    ForLoop {
        variable: String,
        start_value: Box<Expression>,
        end_value: Box<Expression>,
        body: Box<Statement>,
    },
    If {
        condition: Box<Expression>,
        then_branch: Box<Statement>,
        else_branch: Option<Box<Statement>>,
    },
    FunctionCall { name: String, arguments: Vec<Expression> },
}

#[derive(Debug)]
pub struct Program {
    pub statements: Vec<Statement>,
}

/// An expression as a mathematical value: names and texts are character
/// sequences.
pub ghost enum Expr {
    Identifier(Seq<char>),
    Number(i64),
    String(Seq<char>),
    BinaryOp(Box<Expr>, BinaryOperator, Box<Expr>),
    FunctionCall(Seq<char>, Seq<Expr>),
}

/// A statement as a mathematical value.
pub ghost enum Stmt {
    Assignment(Seq<char>, Expr),
    Block(Seq<Stmt>, usize),
    While(Expr, Box<Stmt>),
    ForLoop(Seq<char>, Expr, Expr, Box<Stmt>),
    If(Expr, Box<Stmt>, Option<Box<Stmt>>),
    FunctionCall(Seq<char>, Seq<Expr>),
}

pub open spec fn expr_view(e: Expression) -> Expr
    decreases e,
{
    match e {
        Expression::Identifier(s) => Expr::Identifier(s@),
        Expression::Number(n) => Expr::Number(n),
        Expression::String(s) => Expr::String(s@),
        Expression::BinaryOp { left, operator, right } => Expr::BinaryOp(
            Box::new(expr_view(*left)),
            operator,
            Box::new(expr_view(*right)),
        ),
        Expression::FunctionCall { name, arguments } => Expr::FunctionCall(
            name@,
            Seq::new(
                arguments.len() as nat,
                |i: int|
                    if 0 <= i < arguments.len() {
                        expr_view(arguments[i])
                    } else {
                        Expr::Number(0)
                    },
            ),
        ),
    }
}

pub open spec fn exprs_view(es: Seq<Expression>) -> Seq<Expr> {
    es.map_values(|e: Expression| expr_view(e))
}

pub open spec fn stmt_view(s: Statement) -> Stmt
    decreases s,
{
    match s {
        Statement::Assignment { identifier, expression } => Stmt::Assignment(
            identifier@,
            expr_view(*expression),
        ),
        Statement::Block { statements, indentation } => Stmt::Block(
            Seq::new(
                statements.len() as nat,
                |i: int|
                    if 0 <= i < statements.len() {
                        stmt_view(statements[i])
                    } else {
                        Stmt::Block(Seq::empty(), 0)
                    },
            ),
            indentation,
        ),
        Statement::While { condition, body } => Stmt::While(
            expr_view(*condition),
            Box::new(stmt_view(*body)),
        ),
        Statement::ForLoop { variable, start_value, end_value, body } => Stmt::ForLoop(
            variable@,
            expr_view(*start_value),
            expr_view(*end_value),
            Box::new(stmt_view(*body)),
        ),
        Statement::If { condition, then_branch, else_branch } => Stmt::If(
            expr_view(*condition),
            Box::new(stmt_view(*then_branch)),
            match else_branch {
                Some(b) => Some(Box::new(stmt_view(*b))),
                None => None,
            },
        ),
        Statement::FunctionCall { name, arguments } => Stmt::FunctionCall(
            name@,
            exprs_view(arguments@),
        ),
    }
}

pub open spec fn stmts_view(ss: Seq<Statement>) -> Seq<Stmt> {
    ss.map_values(|s: Statement| stmt_view(s))
}

impl View for Program {
    type V = Seq<Stmt>;

    open spec fn view(&self) -> Seq<Stmt> {
        stmts_view(self.statements@)
    }
}

} // verus!
