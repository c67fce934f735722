use vstd::prelude::*;

use crate::interpret_variable::Variable;

verus! {

/// Arithmetic operators.
#[derive(PartialEq, Eq, Structural, Debug, Clone, Copy)]
pub enum BinaryNumOp {
    Add,
    Sub,
    Mul,
    Div,
    Mod,
}

/// Binary boolean operators.
#[derive(PartialEq, Eq, Structural, Debug, Clone, Copy)]
pub enum BinaryBoolOp {
    And,
    Or,
}

/// Unary boolean operators.
#[derive(PartialEq, Eq, Structural, Debug, Clone, Copy)]
pub enum UnaryBoolOp {
    Not,
}

/// Comparison operators on numbers.
#[derive(PartialEq, Eq, Structural, Debug, Clone, Copy)]
pub enum CmpBoolOp {
    Lt,
    Eq,
    Gt,
}


/// A numeric expression.
#[derive(Debug)]
pub enum Num {
    Literal(i32),
    Binary(Box<BinaryNumExpr>),
    /// A variable, a call or a conditional whose value must be a number.
    Dynamic(Box<Expr>),
}

#[derive(Debug)]
pub struct BinaryNumExpr {
    pub op: BinaryNumOp,
    pub left: Num,
    pub right: Num,
}

/// A boolean expression.
#[derive(Debug)]
pub enum Bool {
    Literal(bool),
    Binary(Box<BinaryBoolExpr>),
    Unary(Box<UnaryBoolExpr>),
    Cmp(Box<CmpBoolExpr>),
    /// A variable, a call or a conditional whose value must be a boolean.
    Dynamic(Box<Expr>),
}

#[derive(Debug)]
pub struct BinaryBoolExpr {
    pub op: BinaryBoolOp,
    pub left: Bool,
    pub right: Bool,
}

#[derive(Debug)]
pub struct UnaryBoolExpr {
    pub op: UnaryBoolOp,
    pub value: Bool,
}

#[derive(Debug)]
pub struct CmpBoolExpr {
    pub op: CmpBoolOp,
    pub left: Num,
    pub right: Num,
}

/// A multi-way conditional: its cases in order.
#[derive(Debug)]
pub struct Cond {
    pub cases: Vec<CondCase>,
}

#[derive(Debug)]
pub struct CondCase {
    pub condition: Bool,
    pub result: Expr,
}

/// A function definition.
#[derive(Debug)]
pub struct Function {
    pub name: String,
    pub parameter_names: Vec<String>,
    pub body: Box<Expr>,
}

/// A call of a named function.
#[derive(Debug)]
pub struct FunctionCall {
    pub name: String,
    pub arguments: Vec<Expr>,
}

/// An expression of the language.
#[derive(Debug)]
pub enum Expr {
    BoolExpr(Bool),
    NumExpr(Num),
    CondExpr(Cond),
    FunctionExpr(Function),
    VariableExpr(Variable),
    FunctionCallExpr(FunctionCall),
}

/// The mathematical form of a numeric expression.
pub enum NumModel {
    Literal(i32),
    Binary(BinaryNumOp, Box<NumModel>, Box<NumModel>),
    Dynamic(Box<ExprModel>),
}

/// The mathematical form of a boolean expression.
pub enum BoolModel {
    Literal(bool),
    Binary(BinaryBoolOp, Box<BoolModel>, Box<BoolModel>),
    Unary(UnaryBoolOp, Box<BoolModel>),
    Cmp(CmpBoolOp, Box<NumModel>, Box<NumModel>),
    Dynamic(Box<ExprModel>),
}

/// The mathematical form of an expression: names are character sequences, and
/// the cases of a conditional and the arguments of a call are sequences.
pub enum ExprModel {
    Num(NumModel),
    Bool(BoolModel),
    Cond(Seq<(BoolModel, ExprModel)>),
    Function(Seq<char>, Seq<Seq<char>>, Box<ExprModel>),
    Variable(Seq<char>),
    Call(Seq<char>, Seq<ExprModel>),
}

pub open spec fn names_model(ns: Seq<String>) -> Seq<Seq<char>> {
    ns.map_values(|n: String| n@)
}

pub open spec fn num_model(n: Num) -> NumModel
    decreases n, 0nat,
{
    match n {
        Num::Literal(v) => NumModel::Literal(v),
        Num::Binary(b) => NumModel::Binary(b.op, Box::new(num_model(b.left)), Box::new(num_model(b.right))),
        Num::Dynamic(e) => NumModel::Dynamic(Box::new(expr_model(*e))),
    }
}

pub open spec fn bool_model(b: Bool) -> BoolModel
    decreases b, 0nat,
{
    match b {
        Bool::Literal(v) => BoolModel::Literal(v),
        Bool::Binary(x) => BoolModel::Binary(x.op, Box::new(bool_model(x.left)), Box::new(bool_model(x.right))),
        Bool::Unary(x) => BoolModel::Unary(x.op, Box::new(bool_model(x.value))),
        Bool::Cmp(x) => BoolModel::Cmp(x.op, Box::new(num_model(x.left)), Box::new(num_model(x.right))),
        Bool::Dynamic(e) => BoolModel::Dynamic(Box::new(expr_model(*e))),
    }
}

/// The models of the first `n` cases.
pub open spec fn cases_model(cs: Seq<CondCase>, n: nat) -> Seq<(BoolModel, ExprModel)>
    decreases cs, n,
{
    if n == 0 || n > cs.len() {
        Seq::empty()
    } else {
        cases_model(cs, (n - 1) as nat).push((bool_model(cs[n - 1].condition), expr_model(cs[n - 1].result)))
    }
}

/// The models of the first `n` expressions.
pub open spec fn exprs_model(es: Seq<Expr>, n: nat) -> Seq<ExprModel>
    decreases es, n,
{
    if n == 0 || n > es.len() {
        Seq::empty()
    } else {
        exprs_model(es, (n - 1) as nat).push(expr_model(es[n - 1]))
    }
}

pub open spec fn expr_model(e: Expr) -> ExprModel
    decreases e, 0nat,
{
    match e {
        Expr::NumExpr(n) => ExprModel::Num(num_model(n)),
        Expr::BoolExpr(b) => ExprModel::Bool(bool_model(b)),
        Expr::CondExpr(c) => ExprModel::Cond(cases_model(c.cases@, c.cases@.len())),
        Expr::FunctionExpr(f) => ExprModel::Function(f.name@, names_model(f.parameter_names@), Box::new(expr_model(*f.body))),
        Expr::VariableExpr(v) => ExprModel::Variable(v.name@),
        Expr::FunctionCallExpr(c) => ExprModel::Call(c.name@, exprs_model(c.arguments@, c.arguments@.len())),
    }
}

} // verus!
