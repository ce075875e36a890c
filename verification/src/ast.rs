//! The abstract syntax tree produced by the parser and consumed by the
//! evaluation and execution engines, together with its ghost-level model.
//!
//! Executable trees ([`Expr`], [`Stmt`]) own their children and carry
//! [`String`] names; contracts speak about the corresponding ghost trees
//! ([`ExprModel`], [`StmtModel`]), in which every name is a `Seq<char>`.

use vstd::prelude::*;

verus! {

/// A binary operator of the expression grammar.
#[derive(Debug, Clone, Copy, PartialEq, Eq)]
pub enum Op {
    /// `+`
    Add,
    /// `-`
    Sub,
    /// `*`
    Mul,
    /// `/`
    Div,
    /// `<`
    LT,
    /// `>`
    GT,
}

/// An expression: a tree of numeric literals, variable references and
/// binary operators, reducible to a single `i64`.
#[derive(Debug, PartialEq)]
pub enum Expr {
    Num(i64),
    Var(String),
    BinOp { op: Op, left: Box<Expr>, right: Box<Expr> },
}

/// One parsed unit of executable syntax.
#[derive(Debug, PartialEq)]
pub enum Stmt {
    /// Registration of a raw text line under a numeric index.
    Line { index: i64, line: String },
    /// Binding of an evaluated expression to a variable name.
    Assign { name: String, value: Expr },
    /// A conditional with exactly one nested statement and no `else`.
    If { cond: Expr, iftrue: Box<Stmt> },
    /// Invocation of a registered command with positional arguments.
    Command { command_name: String, items: Vec<Expr> },
}

/// A statement together with the line index it was stored under, if any.
#[derive(Debug, PartialEq)]
pub struct Line {
    pub index: Option<i64>,
    pub stmt: Stmt,
}

/// Ghost model of an [`Expr`]: the same tree with names as `Seq<char>`.
pub ghost enum ExprModel {
    Num(i64),
    Var(Seq<char>),
    BinOp { op: Op, left: Box<ExprModel>, right: Box<ExprModel> },
}

/// Ghost model of a [`Stmt`].
pub ghost enum StmtModel {
    Line { index: i64, line: Seq<char> },
    Assign { name: Seq<char>, value: ExprModel },
    If { cond: ExprModel, iftrue: Box<StmtModel> },
    Command { command_name: Seq<char>, items: Seq<ExprModel> },
}

/// The ghost tree that a given executable expression stands for.
pub open spec fn expr_model(e: Expr) -> ExprModel
    decreases e,
{
    match e {
        Expr::Num(n) => ExprModel::Num(n),
        Expr::Var(s) => ExprModel::Var(s@),
        Expr::BinOp { op, left, right } => ExprModel::BinOp {
            op,
            left: Box::new(expr_model(*left)),
            right: Box::new(expr_model(*right)),
        },
    }
}

/// The ghost trees that a sequence of executable expressions stands for.
pub open spec fn expr_models(items: Seq<Expr>) -> Seq<ExprModel> {
    items.map_values(|e: Expr| expr_model(e))
}

/// The ghost tree that a given executable statement stands for.
pub open spec fn stmt_model(s: Stmt) -> StmtModel
    decreases s,
{
    match s {
        Stmt::Line { index, line } => StmtModel::Line { index, line: line@ },
        Stmt::Assign { name, value } => StmtModel::Assign { name: name@, value: expr_model(value) },
        Stmt::If { cond, iftrue } => StmtModel::If {
            cond: expr_model(cond),
            iftrue: Box::new(stmt_model(*iftrue)),
        },
        Stmt::Command { command_name, items } => StmtModel::Command {
            command_name: command_name@,
            items: expr_models(items@),
        },
    }
}

impl View for Expr {
    type V = ExprModel;

    open spec fn view(&self) -> ExprModel {
        expr_model(*self)
    }
}

impl View for Stmt {
    type V = StmtModel;

    open spec fn view(&self) -> StmtModel {
        stmt_model(*self)
    }
}

} // verus!
