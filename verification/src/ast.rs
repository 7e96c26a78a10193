//! The abstract syntax tree of a program.  Names and literals carry the line
//! and column (from 1) where they are written.

use vstd::prelude::*;

verus! {

/// A program: its global variables, its declarations and its instructions,
/// each section optional.
#[derive(Debug)]
pub struct Program {
    pub global: Option<Vec<Declaration>>,
    pub decls: Option<Vec<Declaration>>,
    pub inst: Option<Vec<Instruction>>,
}

impl Program {
    pub fn new(
        global: Option<Vec<Declaration>>,
        decls: Option<Vec<Declaration>>,
        inst: Option<Vec<Instruction>>,
    ) -> (p: Self)
        ensures
            p == (Program { global, decls, inst }),
    {
        Program { global, decls, inst }
    }
}

/// One declaration statement: simple variables, arrays, or constants, all of
/// one type.
#[derive(Debug)]
pub enum Declaration {
    Variable(Type, Vec<Variable>),
    ADEC(Type, Vec<ArrayDecl>),
    Constant(Type, Vec<Assignment>),
}

/// The scalar types of the language.
#[derive(Debug, Clone, Copy, PartialEq, Eq, Structural)]
pub enum Type {
    Integer,
    Float,
    Char,
}

/// A declared variable, with or without an initial value.
#[derive(Debug)]
pub enum Variable {
    Simple((String, (usize, usize))),
    Initialized((String, (usize, usize)), Expr),
}

/// `var = expr` or `var[index] = expr`.
#[derive(Debug)]
pub struct Assignment {
    pub var: (String, (usize, usize)),
    pub index: Option<Expr>,
    pub expr: Expr,
}

impl Assignment {
    pub fn new(var: (String, (usize, usize)), index: Option<Expr>, expr: Expr) -> (a: Self)
        ensures
            a == (Assignment { var, index, expr }),
    {
        Assignment { var, index, expr }
    }
}

/// A declared array: `Name[size]`, `Name[size] = [e, ...]` or
/// `Name[size] = "text"` (the text kept with its quotes).
#[derive(Debug)]
pub enum ArrayDecl {
    Simple((String, (usize, usize)), Expr),
    Initialized((String, (usize, usize)), Expr, Vec<Expr>),
    InitializedString((String, (usize, usize)), Expr, (String, (usize, usize))),
}

/// An arithmetic expression.
#[derive(Debug)]
pub enum Expr {
    BinaryOp(Box<Expr>, BinOp, Box<Expr>),
    Variable((String, (usize, usize))),
    SUBS((String, (usize, usize)), Box<Expr>),
    Literal(TypeValue),
}

/// An arithmetic operator with the position of its symbol.
#[derive(Debug, Clone, Copy, PartialEq, Eq, Structural)]
pub enum BinOp {
    Add(usize, usize),
    Sub(usize, usize),
    Mul(usize, usize),
    Div(usize, usize),
}

impl Expr {
    /// A copy of this expression.
    pub fn copy(&self) -> (r: Expr)
        ensures
            crate::syntax::expr_v(r) == crate::syntax::expr_v(*self),
            crate::code_generator::expr_plain(r) == crate::code_generator::expr_plain(*self),
        decreases self,
    {
        match self {
            Expr::BinaryOp(l, op, r) => Expr::BinaryOp(Box::new((**l).copy()), *op, Box::new((**r).copy())),
            Expr::Variable((n, p)) => Expr::Variable((n.clone(), (p.0, p.1))),
            Expr::SUBS((n, p), i) => Expr::SUBS((n.clone(), (p.0, p.1)), Box::new((**i).copy())),
            Expr::Literal(v) => Expr::Literal(
                match v {
                    TypeValue::Integer((x, p)) => TypeValue::Integer((*x, (p.0, p.1))),
                    TypeValue::Float((f, p)) => TypeValue::Float((f.copy(), (p.0, p.1))),
                    TypeValue::Char((c, p)) => TypeValue::Char((*c, (p.0, p.1))),
                    TypeValue::Array(_) => TypeValue::Array(Vec::new()),
                },
            ),
        }
    }
}

impl BinOp {
    /// The operator's symbol: `+`, `-`, `*` or `/`.
    pub fn symbol(&self) -> (s: &'static str)
        ensures
            s@ == crate::quadruplets::bin_symbol(*self),
    {
        match self {
            BinOp::Add(..) => "+",
            BinOp::Sub(..) => "-",
            BinOp::Mul(..) => "*",
            BinOp::Div(..) => "/",
        }
    }
}

/// The value of a floating-point expression, kept as written: a literal's
/// text, or an operation on two such values.  This library does no
/// floating-point arithmetic; a value is turned into a number by whoever
/// needs one.
#[derive(Debug)]
pub enum FloatValue {
    Literal(String),
    Binary(Box<FloatValue>, BinOp, Box<FloatValue>),
}

/// A literal, or a value held by a variable.
#[derive(Debug)]
pub enum TypeValue {
    Integer((i16, (usize, usize))),
    Float((FloatValue, (usize, usize))),
    Char((char, (usize, usize))),
    Array(Vec<TypeValue>),
}

#[derive(Debug)]
pub enum Instruction {
    Assign(Assignment),
    If(IfStmt),
    For(ForStmt),
    Read(ReadStmt),
    Write(WriteStmt),
}

#[derive(Debug)]
pub struct IfStmt {
    pub condition: Condition,
    pub then_block: Vec<Instruction>,
    pub else_block: Option<Vec<Instruction>>,
}

impl IfStmt {
    pub fn new(condition: Condition, then_block: Vec<Instruction>, else_block: Option<Vec<Instruction>>) -> (s: Self)
        ensures
            s == (IfStmt { condition, then_block, else_block }),
    {
        IfStmt { condition, then_block, else_block }
    }
}

/// `FOR(var = start : step : end) { body }`: `init` holds `var = start`,
/// `condition` holds `end`.
#[derive(Debug)]
pub struct ForStmt {
    pub init: Assignment,
    pub step: Expr,
    pub condition: Expr,
    pub body: Vec<Instruction>,
}

impl ForStmt {
    pub fn new(init: Assignment, step: Expr, condition: Expr, body: Vec<Instruction>) -> (s: Self)
        ensures
            s == (ForStmt { init, step, condition, body }),
    {
        ForStmt { init, step, condition, body }
    }
}

/// `READ(var)` or `READ(var[index])`.
#[derive(Debug)]
pub struct ReadStmt {
    pub variable: (String, (usize, usize)),
    pub index: Option<Expr>,
}

impl ReadStmt {
    pub fn new(variable: (String, (usize, usize)), index: Option<Expr>) -> (s: Self)
        ensures
            s == (ReadStmt { variable, index }),
    {
        ReadStmt { variable, index }
    }
}

#[derive(Debug)]
pub struct WriteStmt {
    pub elements: Vec<WriteElement>,
}

impl WriteStmt {
    pub fn new(elements: Vec<WriteElement>) -> (s: Self)
        ensures
            s == (WriteStmt { elements }),
    {
        WriteStmt { elements }
    }
}

/// What `WRITE` prints: a string (without its quotes) or a variable.
#[derive(Debug)]
pub enum WriteElement {
    String((String, (usize, usize))),
    Variable((String, (usize, usize)), Option<Expr>),
}

#[derive(Debug)]
pub enum Condition {
    Not(Box<Condition>),
    Logic(Box<Condition>, LogOp, Box<Condition>),
    Basic(BasicCond),
}

#[derive(Debug)]
pub struct BasicCond {
    pub left: Expr,
    pub operator: RelOp,
    pub right: Expr,
}

impl BasicCond {
    pub fn new(left: Expr, operator: RelOp, right: Expr) -> (c: Self)
        ensures
            c == (BasicCond { left, operator, right }),
    {
        BasicCond { left, operator, right }
    }
}

#[derive(Debug, Clone, Copy, PartialEq, Eq, Structural)]
pub enum RelOp {
    Gt(usize, usize),
    Lt(usize, usize),
    Ge(usize, usize),
    Le(usize, usize),
    Eq(usize, usize),
    Ne(usize, usize),
}

#[derive(Debug, Clone, Copy, PartialEq, Eq, Structural)]
pub enum LogOp {
    And(usize, usize),
    Or(usize, usize),
}

/// A floating-point value as written, with its texts as character sequences.
pub enum FloatV {
    Lit(Seq<char>),
    Bin(Box<FloatV>, BinOp, Box<FloatV>),
}

/// What a value stands for, positions left aside.
pub enum ValV {
    Int(i16),
    Flt(FloatV),
    Chr(char),
    Arr,
}

pub open spec fn float_view(f: FloatValue) -> FloatV
    decreases f,
{
    match f {
        FloatValue::Literal(t) => FloatV::Lit(t@),
        FloatValue::Binary(a, op, b) => FloatV::Bin(
            Box::new(float_view(*a)),
            op,
            Box::new(float_view(*b)),
        ),
    }
}

pub open spec fn val_view(v: TypeValue) -> ValV {
    match v {
        TypeValue::Integer((i, _)) => ValV::Int(i),
        TypeValue::Float((f, _)) => ValV::Flt(float_view(f)),
        TypeValue::Char((c, _)) => ValV::Chr(c),
        TypeValue::Array(_) => ValV::Arr,
    }
}

impl FloatValue {
    /// A copy of this value.
    pub fn copy(&self) -> (r: FloatValue)
        ensures
            float_view(r) == float_view(*self),
        decreases self,
    {
        match self {
            FloatValue::Literal(t) => FloatValue::Literal(t.clone()),
            FloatValue::Binary(a, op, b) => FloatValue::Binary(
                Box::new((**a).copy()),
                *op,
                Box::new((**b).copy()),
            ),
        }
    }
}

impl TypeValue {
    /// A copy of this value (an array's elements are not copied).
    pub fn copy(&self) -> (r: TypeValue)
        ensures
            val_view(r) == val_view(*self),
    {
        match self {
            TypeValue::Integer((i, p)) => TypeValue::Integer((*i, (p.0, p.1))),
            TypeValue::Float((f, p)) => TypeValue::Float((f.copy(), (p.0, p.1))),
            TypeValue::Char((c, p)) => TypeValue::Char((*c, (p.0, p.1))),
            TypeValue::Array(_) => TypeValue::Array(Vec::new()),
        }
    }
}

} // verus!
