//! What a syntax tree says, with texts as character sequences: the terms in
//! which the grammar is stated.

use vstd::prelude::*;
use crate::ast::{
    ArrayDecl, Assignment, BinOp, Condition, Declaration, Expr, FloatValue, Instruction, LogOp,
    Program, RelOp, Type, TypeValue, Variable, WriteElement,
};

verus! {

pub enum LitV {
    Int(i16, (usize, usize)),
    Flt(Seq<char>, (usize, usize)),
    Chr(char, (usize, usize)),
    Other,
}

pub enum ExprV {
    Bin(Box<ExprV>, BinOp, Box<ExprV>),
    Var(Seq<char>, (usize, usize)),
    Subs(Seq<char>, (usize, usize), Box<ExprV>),
    Lit(LitV),
}

pub enum CondV {
    Not(Box<CondV>),
    Logic(Box<CondV>, LogOp, Box<CondV>),
    Basic(ExprV, RelOp, ExprV),
}

pub struct AssignV {
    pub var: (Seq<char>, (usize, usize)),
    pub index: Option<ExprV>,
    pub expr: ExprV,
}

pub enum WriteV {
    Str(Seq<char>, (usize, usize)),
    Var(Seq<char>, (usize, usize), Option<ExprV>),
}

pub enum InstV {
    Assign(AssignV),
    If(CondV, Seq<InstV>, Option<Seq<InstV>>),
    For(AssignV, ExprV, ExprV, Seq<InstV>),
    Read(Seq<char>, (usize, usize), Option<ExprV>),
    Write(Seq<WriteV>),
}

pub enum VarV {
    Simple(Seq<char>, (usize, usize)),
    Init(Seq<char>, (usize, usize), ExprV),
}

pub enum ArrV {
    Simple(Seq<char>, (usize, usize), ExprV),
    Init(Seq<char>, (usize, usize), ExprV, Seq<ExprV>),
    Str(Seq<char>, (usize, usize), ExprV, Seq<char>, (usize, usize)),
}

pub enum DeclV {
    Vars(Type, Seq<VarV>),
    Arrays(Type, Seq<ArrV>),
    Consts(Type, Seq<AssignV>),
}

pub struct ProgramV {
    pub global: Option<Seq<DeclV>>,
    pub decls: Option<Seq<DeclV>>,
    pub inst: Option<Seq<InstV>>,
}

pub open spec fn expr_v(e: Expr) -> ExprV
    decreases e,
{
    match e {
        Expr::BinaryOp(l, op, r) => ExprV::Bin(Box::new(expr_v(*l)), op, Box::new(expr_v(*r))),
        Expr::Variable((n, p)) => ExprV::Var(n@, p),
        Expr::SUBS((n, p), i) => ExprV::Subs(n@, p, Box::new(expr_v(*i))),
        Expr::Literal(v) => ExprV::Lit(
            match v {
                TypeValue::Integer((i, p)) => LitV::Int(i, p),
                TypeValue::Float((f, p)) => match f {
                    FloatValue::Literal(t) => LitV::Flt(t@, p),
                    _ => LitV::Other,
                },
                TypeValue::Char((c, p)) => LitV::Chr(c, p),
                TypeValue::Array(_) => LitV::Other,
            },
        ),
    }
}

pub open spec fn opt_expr_v(e: Option<Expr>) -> Option<ExprV> {
    match e {
        Some(x) => Some(expr_v(x)),
        None => None,
    }
}

pub open spec fn exprs_v(s: Seq<Expr>) -> Seq<ExprV>
    decreases s.len(),
{
    if s.len() == 0 {
        Seq::empty()
    } else {
        exprs_v(s.drop_last()).push(expr_v(s.last()))
    }
}

pub open spec fn cond_v(c: Condition) -> CondV
    decreases c,
{
    match c {
        Condition::Not(i) => CondV::Not(Box::new(cond_v(*i))),
        Condition::Logic(l, op, r) => CondV::Logic(Box::new(cond_v(*l)), op, Box::new(cond_v(*r))),
        Condition::Basic(b) => CondV::Basic(expr_v(b.left), b.operator, expr_v(b.right)),
    }
}

pub open spec fn assign_v(a: Assignment) -> AssignV {
    AssignV { var: (a.var.0@, a.var.1), index: opt_expr_v(a.index), expr: expr_v(a.expr) }
}

pub open spec fn write_v(w: WriteElement) -> WriteV {
    match w {
        WriteElement::String((s, p)) => WriteV::Str(s@, p),
        WriteElement::Variable((n, p), i) => WriteV::Var(n@, p, opt_expr_v(i)),
    }
}

pub open spec fn writes_v(s: Seq<WriteElement>) -> Seq<WriteV>
    decreases s.len(),
{
    if s.len() == 0 {
        Seq::empty()
    } else {
        writes_v(s.drop_last()).push(write_v(s.last()))
    }
}

pub open spec fn inst_v(i: Instruction) -> InstV
    decreases i, 1int,
{
    match i {
        Instruction::Assign(a) => InstV::Assign(assign_v(a)),
        Instruction::If(s) => InstV::If(
            cond_v(s.condition),
            insts_v(s.then_block@),
            match s.else_block {
                Some(b) => Some(insts_v(b@)),
                None => None,
            },
        ),
        Instruction::For(f) => InstV::For(
            assign_v(f.init),
            expr_v(f.step),
            expr_v(f.condition),
            insts_v(f.body@),
        ),
        Instruction::Read(r) => InstV::Read(r.variable.0@, r.variable.1, opt_expr_v(r.index)),
        Instruction::Write(w) => InstV::Write(writes_v(w.elements@)),
    }
}

pub open spec fn insts_v(s: Seq<Instruction>) -> Seq<InstV>
    decreases s, 0int,
{
    if s.len() == 0 {
        Seq::empty()
    } else {
        insts_v(s.drop_last()).push(inst_v(s.last()))
    }
}

pub open spec fn var_v(v: Variable) -> VarV {
    match v {
        Variable::Simple((n, p)) => VarV::Simple(n@, p),
        Variable::Initialized((n, p), e) => VarV::Init(n@, p, expr_v(e)),
    }
}

pub open spec fn vars_v(s: Seq<Variable>) -> Seq<VarV>
    decreases s.len(),
{
    if s.len() == 0 {
        Seq::empty()
    } else {
        vars_v(s.drop_last()).push(var_v(s.last()))
    }
}

pub open spec fn arr_v(a: ArrayDecl) -> ArrV {
    match a {
        ArrayDecl::Simple((n, p), e) => ArrV::Simple(n@, p, expr_v(e)),
        ArrayDecl::Initialized((n, p), e, vs) => ArrV::Init(n@, p, expr_v(e), exprs_v(vs@)),
        ArrayDecl::InitializedString((n, p), e, (t, q)) => ArrV::Str(n@, p, expr_v(e), t@, q),
    }
}

pub open spec fn arrs_v(s: Seq<ArrayDecl>) -> Seq<ArrV>
    decreases s.len(),
{
    if s.len() == 0 {
        Seq::empty()
    } else {
        arrs_v(s.drop_last()).push(arr_v(s.last()))
    }
}

pub open spec fn assigns_v(s: Seq<Assignment>) -> Seq<AssignV>
    decreases s.len(),
{
    if s.len() == 0 {
        Seq::empty()
    } else {
        assigns_v(s.drop_last()).push(assign_v(s.last()))
    }
}

pub open spec fn decl_v(d: Declaration) -> DeclV {
    match d {
        Declaration::Variable(t, vs) => DeclV::Vars(t, vars_v(vs@)),
        Declaration::ADEC(t, vs) => DeclV::Arrays(t, arrs_v(vs@)),
        Declaration::Constant(t, vs) => DeclV::Consts(t, assigns_v(vs@)),
    }
}

pub open spec fn decls_v(s: Seq<Declaration>) -> Seq<DeclV>
    decreases s.len(),
{
    if s.len() == 0 {
        Seq::empty()
    } else {
        decls_v(s.drop_last()).push(decl_v(s.last()))
    }
}

pub open spec fn program_v(p: Program) -> ProgramV {
    ProgramV {
        global: match p.global {
            Some(ds) => Some(decls_v(ds@)),
            None => None,
        },
        decls: match p.decls {
            Some(ds) => Some(decls_v(ds@)),
            None => None,
        },
        inst: match p.inst {
            Some(is) => Some(insts_v(is@)),
            None => None,
        },
    }
}

} // verus!
