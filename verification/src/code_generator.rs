//! Compiling a program to C source text.
//!
//! Each piece of the C text is stated as an `Out`: the text written and
//! whether writing went through.  Writing stops at the first expression that
//! has no C form (an array value used as a literal); what was written up to
//! there stays written.

use vstd::prelude::*;
use crate::ast::{
    ArrayDecl, Assignment, Condition, Declaration, Expr, FloatValue, ForStmt, IfStmt, Instruction,
    LogOp, Program, ReadStmt, RelOp, Type, TypeValue, Variable, WriteElement, WriteStmt, float_view,
};
use crate::quadruplets::{bin_symbol, float_text, push_bin_symbol, push_float};
use crate::text::{append_str, int_text, push_char, push_int};

verus! {

/// What a piece of the C text says, and whether writing it went through.
pub struct Out {
    pub text: Seq<char>,
    pub ok: bool,
}

pub open spec fn done(t: Seq<char>) -> Out {
    Out { text: t, ok: true }
}

/// `a`, then `b` if `a` went through.
pub open spec fn then(a: Out, b: Out) -> Out {
    if a.ok {
        Out { text: a.text + b.text, ok: b.ok }
    } else {
        a
    }
}

/// Each piece in turn, stopping at the first that does not go through.
pub open spec fn seq_out(os: Seq<Out>) -> Out
    decreases os.len(),
{
    if os.len() == 0 {
        done(Seq::empty())
    } else {
        then(seq_out(os.drop_last()), os.last())
    }
}

pub proof fn lemma_seq_out_step(os: Seq<Out>, k: int)
    requires
        0 <= k < os.len(),
    ensures
        seq_out(os.take(k + 1)) == then(seq_out(os.take(k)), os[k]),
{
    assert(os.take(k + 1).drop_last() =~= os.take(k));
}

/// Once a piece fails, nothing after it is written.
pub proof fn lemma_seq_out_stops(os: Seq<Out>, k: int)
    requires
        0 <= k <= os.len(),
        !seq_out(os.take(k)).ok,
    ensures
        seq_out(os) == seq_out(os.take(k)),
    decreases os.len() - k,
{
    if k < os.len() {
        lemma_seq_out_step(os, k);
        lemma_seq_out_stops(os, k + 1);
    } else {
        assert(os.take(k) =~= os);
    }
}

pub open spec fn array_literal_msg() -> Seq<char> {
    "Cannot generate code for array literal"@
}

/// Four spaces per level.
pub open spec fn indent_text(lv: nat) -> Seq<char>
    decreases lv,
{
    if lv == 0 {
        Seq::empty()
    } else {
        indent_text((lv - 1) as nat) + "    "@
    }
}

pub open spec fn c_type(t: Type) -> Seq<char> {
    match t {
        Type::Integer => "int"@,
        Type::Float => "float"@,
        Type::Char => "char"@,
    }
}

pub open spec fn c_literal(v: TypeValue) -> Out {
    match v {
        TypeValue::Integer((i, _)) => done(int_text(i as int)),
        TypeValue::Float((f, _)) => done(float_text(float_view(f))),
        TypeValue::Char((c, _)) => done("'"@ + seq![c] + "'"@),
        TypeValue::Array(_) => Out { text: Seq::empty(), ok: false },
    }
}

/// An expression in C; every operation is parenthesized.
pub open spec fn c_expr(e: Expr) -> Out
    decreases e,
{
    match e {
        Expr::Literal(v) => c_literal(v),
        Expr::Variable((n, _)) => done(n@),
        Expr::SUBS((n, _), i) => then(then(done(n@ + "["@), c_expr(*i)), done("]"@)),
        Expr::BinaryOp(l, op, r) => then(
            then(then(then(done("("@), c_expr(*l)), done(" "@ + bin_symbol(op) + " "@)), c_expr(*r)),
            done(")"@),
        ),
    }
}

pub open spec fn rel_text(op: RelOp) -> Seq<char> {
    match op {
        RelOp::Gt(..) => " > "@,
        RelOp::Lt(..) => " < "@,
        RelOp::Ge(..) => " >= "@,
        RelOp::Le(..) => " <= "@,
        RelOp::Eq(..) => " == "@,
        RelOp::Ne(..) => " != "@,
    }
}

pub open spec fn log_text(op: LogOp) -> Seq<char> {
    match op {
        LogOp::And(..) => " && "@,
        LogOp::Or(..) => " || "@,
    }
}

pub open spec fn c_cond(c: Condition) -> Out
    decreases c,
{
    match c {
        Condition::Not(x) => then(then(done("!("@), c_cond(*x)), done(")"@)),
        Condition::Logic(l, op, r) => then(
            then(then(then(done("("@), c_cond(*l)), done(log_text(op))), c_cond(*r)),
            done(")"@),
        ),
        Condition::Basic(b) => then(then(c_expr(b.left), done(rel_text(b.operator))), c_expr(b.right)),
    }
}

/// The values of an initializer list, separated by `, `.
pub open spec fn list_outs(vs: Seq<Expr>) -> Seq<Out> {
    Seq::new(
        vs.len(),
        |j: int| then(c_expr(vs[j]), done(if j < vs.len() - 1 { ", "@ } else { Seq::empty() })),
    )
}

pub open spec fn c_var(lv: nat, t: Type, v: Variable) -> Out {
    match v {
        Variable::Simple((n, _)) => done(indent_text(lv) + c_type(t) + " "@ + n@ + ";\n"@),
        Variable::Initialized((n, _), e) => then(
            then(done(indent_text(lv) + c_type(t) + " "@ + n@ + " = "@), c_expr(e)),
            done(";\n"@),
        ),
    }
}

pub open spec fn c_array(lv: nat, t: Type, a: ArrayDecl) -> Out {
    match a {
        ArrayDecl::Simple((n, _), size) => then(
            then(done(indent_text(lv) + c_type(t) + " "@ + n@ + "["@), c_expr(size)),
            done("];\n"@),
        ),
        ArrayDecl::Initialized((n, _), _, vals) => then(
            then(done(indent_text(lv) + c_type(t) + " "@ + n@ + " = {"@), seq_out(list_outs(vals@))),
            done("};\n"@),
        ),
        ArrayDecl::InitializedString((n, _), _, (v, _)) => done(
            indent_text(lv) + c_type(t) + " "@ + n@ + "[] = "@ + v@ + ";\n"@,
        ),
    }
}

pub open spec fn c_const(t: Type, a: Assignment) -> Out {
    then(then(done("const "@ + c_type(t) + " "@ + a.var.0@ + " = "@), c_expr(a.expr)), done(";\n"@))
}

pub open spec fn var_outs(lv: nat, t: Type, vs: Seq<Variable>) -> Seq<Out> {
    Seq::new(vs.len(), |j: int| c_var(lv, t, vs[j]))
}

pub open spec fn array_outs(lv: nat, t: Type, vs: Seq<ArrayDecl>) -> Seq<Out> {
    Seq::new(vs.len(), |j: int| c_array(lv, t, vs[j]))
}

pub open spec fn const_outs(t: Type, vs: Seq<Assignment>) -> Seq<Out> {
    Seq::new(vs.len(), |j: int| c_const(t, vs[j]))
}

pub open spec fn c_decl(lv: nat, d: Declaration) -> Out {
    match d {
        Declaration::Variable(t, vs) => seq_out(var_outs(lv, t, vs@)),
        Declaration::ADEC(t, vs) => seq_out(array_outs(lv, t, vs@)),
        Declaration::Constant(t, vs) => seq_out(const_outs(t, vs@)),
    }
}

pub open spec fn decl_outs(lv: nat, ds: Seq<Declaration>) -> Seq<Out> {
    Seq::new(ds.len(), |j: int| c_decl(lv, ds[j]))
}

pub open spec fn c_assign(a: Assignment) -> Out {
    let head = match a.index {
        Some(ix) => then(then(done(a.var.0@ + "["@), c_expr(ix)), done("] = "@)),
        None => done(a.var.0@ + " = "@),
    };
    then(head, c_expr(a.expr))
}

/// The format of a `printf` for the elements of a WRITE: each string as it
/// is, `%d ` for each variable.
pub open spec fn write_format(es: Seq<WriteElement>) -> Seq<char>
    decreases es.len(),
{
    if es.len() == 0 {
        Seq::empty()
    } else {
        write_format(es.drop_last()) + match es.last() {
            WriteElement::String((s, _)) => s@,
            WriteElement::Variable(_, _) => "%d "@,
        }
    }
}

/// The names of the variables among the elements of a WRITE.
pub open spec fn write_args(es: Seq<WriteElement>) -> Seq<Seq<char>>
    decreases es.len(),
{
    if es.len() == 0 {
        Seq::empty()
    } else {
        match es.last() {
            WriteElement::String(_) => write_args(es.drop_last()),
            WriteElement::Variable((n, _), _) => write_args(es.drop_last()).push(n@),
        }
    }
}

/// Names separated by `, `.
pub open spec fn join_names(ns: Seq<Seq<char>>) -> Seq<char>
    decreases ns.len(),
{
    if ns.len() == 0 {
        Seq::empty()
    } else if ns.len() == 1 {
        ns[0]
    } else {
        join_names(ns.drop_last()) + ", "@ + ns.last()
    }
}

pub open spec fn c_write(es: Seq<WriteElement>) -> Seq<char> {
    if write_args(es).len() > 0 {
        "printf(\""@ + write_format(es) + "\", "@ + join_names(write_args(es)) + ")"@
    } else {
        "printf(\""@ + write_format(es) + "\")"@
    }
}

pub open spec fn c_inst(lv: nat, i: Instruction) -> Out
    decreases i, 1int,
{
    match i {
        Instruction::Assign(a) => then(then(done(indent_text(lv)), c_assign(a)), done(";\n"@)),
        Instruction::If(s) => then(
            then(
                then(
                    then(then(done(indent_text(lv) + "if ("@), c_cond(s.condition)), done(") {\n"@)),
                    c_insts(lv + 1, s.then_block@),
                ),
                done(indent_text(lv) + "}\n"@),
            ),
            match s.else_block {
                Some(b) => then(
                    then(done(indent_text(lv) + "else {\n"@), c_insts(lv + 1, b@)),
                    done(indent_text(lv) + "}\n"@),
                ),
                None => done(Seq::empty()),
            },
        ),
        Instruction::For(f) => {
            let v = f.init.var.0@;
            then(
                then(
                    then(
                        then(
                            then(
                                then(
                                    then(done(indent_text(lv) + "for ("@ + v + " = "@), c_expr(f.init.expr)),
                                    done("; "@ + v + " < "@),
                                ),
                                c_expr(f.condition),
                            ),
                            done("; "@ + v + " += "@),
                        ),
                        c_expr(f.step),
                    ),
                    then(done(") {\n"@), c_insts(lv + 1, f.body@)),
                ),
                done(indent_text(lv) + "}\n"@),
            )
        },
        Instruction::Read(r) => done(
            indent_text(lv) + "scanf(\"%d\", &"@ + r.variable.0@ + ");"@ + ";\n"@,
        ),
        Instruction::Write(w) => done(indent_text(lv) + c_write(w.elements@) + ";\n"@),
    }
}

pub open spec fn c_insts(lv: nat, s: Seq<Instruction>) -> Out
    decreases s, 0int,
{
    if s.len() == 0 {
        done(Seq::empty())
    } else {
        then(c_insts(lv, s.drop_last()), c_inst(lv, s.last()))
    }
}

pub proof fn lemma_c_insts_step(lv: nat, s: Seq<Instruction>, k: int)
    requires
        0 <= k < s.len(),
    ensures
        c_insts(lv, s.take(k + 1)) == then(c_insts(lv, s.take(k)), c_inst(lv, s[k])),
{
    assert(s.take(k + 1).drop_last() =~= s.take(k));
}

pub proof fn lemma_c_insts_stops(lv: nat, s: Seq<Instruction>, k: int)
    requires
        0 <= k <= s.len(),
        !c_insts(lv, s.take(k)).ok,
    ensures
        c_insts(lv, s) == c_insts(lv, s.take(k)),
    decreases s.len() - k,
{
    if k < s.len() {
        lemma_c_insts_step(lv, s, k);
        lemma_c_insts_stops(lv, s, k + 1);
    } else {
        assert(s.take(k) =~= s);
    }
}

/// How deep IF and FOR blocks nest.
pub open spec fn inst_depth(i: Instruction) -> nat
    decreases i, 1int,
{
    match i {
        Instruction::If(s) => 1 + {
            let a = insts_depth(s.then_block@);
            let b = match s.else_block {
                Some(e) => insts_depth(e@),
                None => 0,
            };
            if a >= b { a } else { b }
        },
        Instruction::For(f) => 1 + insts_depth(f.body@),
        _ => 0,
    }
}

pub open spec fn insts_depth(s: Seq<Instruction>) -> nat
    decreases s, 0int,
{
    if s.len() == 0 {
        0
    } else {
        let a = insts_depth(s.drop_last());
        let b = inst_depth(s.last());
        if a >= b { a } else { b }
    }
}

pub open spec fn program_header() -> Seq<char> {
    "#include <stdio.h>\n#include <stdbool.h>\n\n"@
}

/// A whole program: the headers, the global variables and the declarations,
/// then `main` with the instructions one level in.
pub open spec fn c_program(lv: nat, p: Program) -> Out {
    let globals = match p.global {
        Some(ds) => seq_out(decl_outs(lv, ds@)),
        None => done(Seq::empty()),
    };
    let decls = match p.decls {
        Some(ds) => seq_out(decl_outs(lv, ds@)),
        None => done(Seq::empty()),
    };
    let body = match p.inst {
        Some(is) => c_insts(lv + 1, is@),
        None => done(Seq::empty()),
    };
    then(
        then(then(then(done(program_header()), globals), decls), then(done("int main() {\n"@), body)),
        done("    return 0;\n}\n"@),
    )
}

pub open spec fn program_depth(p: Program) -> nat {
    match p.inst {
        Some(is) => insts_depth(is@),
        None => 0,
    }
}

/// No array value is written as a literal in `e`.
pub open spec fn expr_plain(e: Expr) -> bool
    decreases e,
{
    match e {
        Expr::Literal(v) => !(v is Array),
        Expr::Variable(_) => true,
        Expr::SUBS(_, i) => expr_plain(*i),
        Expr::BinaryOp(l, _, r) => expr_plain(*l) && expr_plain(*r),
    }
}

pub open spec fn cond_plain(c: Condition) -> bool
    decreases c,
{
    match c {
        Condition::Not(x) => cond_plain(*x),
        Condition::Logic(l, _, r) => cond_plain(*l) && cond_plain(*r),
        Condition::Basic(b) => expr_plain(b.left) && expr_plain(b.right),
    }
}

pub open spec fn assign_plain(a: Assignment) -> bool {
    &&& (a.index matches Some(ix) ==> expr_plain(ix))
    &&& expr_plain(a.expr)
}

pub open spec fn inst_plain(i: Instruction) -> bool
    decreases i, 1int,
{
    match i {
        Instruction::Assign(a) => assign_plain(a),
        Instruction::If(s) => {
            &&& cond_plain(s.condition)
            &&& insts_plain(s.then_block@)
            &&& (s.else_block matches Some(b) ==> insts_plain(b@))
        },
        Instruction::For(f) => {
            &&& assign_plain(f.init)
            &&& expr_plain(f.step)
            &&& expr_plain(f.condition)
            &&& insts_plain(f.body@)
        },
        Instruction::Read(_) => true,
        Instruction::Write(_) => true,
    }
}

pub open spec fn insts_plain(s: Seq<Instruction>) -> bool
    decreases s, 0int,
{
    if s.len() == 0 {
        true
    } else {
        insts_plain(s.drop_last()) && inst_plain(s.last())
    }
}

pub open spec fn var_plain(v: Variable) -> bool {
    v matches Variable::Initialized(_, e) ==> expr_plain(e)
}

pub open spec fn array_plain(a: ArrayDecl) -> bool {
    match a {
        ArrayDecl::Simple(_, e) => expr_plain(e),
        ArrayDecl::Initialized(_, e, vals) => expr_plain(e) && forall|k: int|
            0 <= k < vals@.len() ==> #[trigger] expr_plain(vals@[k]),
        ArrayDecl::InitializedString(_, e, _) => expr_plain(e),
    }
}

pub open spec fn decl_plain(d: Declaration) -> bool {
    match d {
        Declaration::Variable(_, vs) => forall|k: int| 0 <= k < vs@.len() ==> #[trigger] var_plain(vs@[k]),
        Declaration::ADEC(_, vs) => forall|k: int| 0 <= k < vs@.len() ==> #[trigger] array_plain(vs@[k]),
        Declaration::Constant(_, vs) => forall|k: int|
            0 <= k < vs@.len() ==> #[trigger] expr_plain(vs@[k].expr),
    }
}

pub open spec fn decls_plain(ds: Seq<Declaration>) -> bool {
    forall|k: int| 0 <= k < ds.len() ==> #[trigger] decl_plain(ds[k])
}

/// No array value is written as a literal anywhere in the program.
pub open spec fn program_plain(p: Program) -> bool {
    &&& (p.global matches Some(ds) ==> decls_plain(ds@))
    &&& (p.decls matches Some(ds) ==> decls_plain(ds@))
    &&& (p.inst matches Some(is) ==> insts_plain(is@))
}

proof fn lemma_seq_out_all_ok(os: Seq<Out>)
    requires
        forall|k: int| 0 <= k < os.len() ==> #[trigger] os[k].ok,
    ensures
        seq_out(os).ok,
    decreases os.len(),
{
    if os.len() > 0 {
        assert(os.last() == os[os.len() - 1]);
        lemma_seq_out_all_ok(os.drop_last());
    }
}

proof fn lemma_expr_compiles(e: Expr)
    requires
        expr_plain(e),
    ensures
        c_expr(e).ok,
    decreases e,
{
    match e {
        Expr::SUBS(_, i) => lemma_expr_compiles(*i),
        Expr::BinaryOp(l, _, r) => {
            lemma_expr_compiles(*l);
            lemma_expr_compiles(*r);
        },
        _ => {},
    }
}

proof fn lemma_cond_compiles(c: Condition)
    requires
        cond_plain(c),
    ensures
        c_cond(c).ok,
    decreases c,
{
    match c {
        Condition::Not(x) => lemma_cond_compiles(*x),
        Condition::Logic(l, _, r) => {
            lemma_cond_compiles(*l);
            lemma_cond_compiles(*r);
        },
        Condition::Basic(b) => {
            lemma_expr_compiles(b.left);
            lemma_expr_compiles(b.right);
        },
    }
}

proof fn lemma_assign_compiles(a: Assignment)
    requires
        assign_plain(a),
    ensures
        c_assign(a).ok,
{
    if let Some(ix) = a.index {
        lemma_expr_compiles(ix);
    }
    lemma_expr_compiles(a.expr);
}

proof fn lemma_inst_compiles(lv: nat, i: Instruction)
    requires
        inst_plain(i),
    ensures
        c_inst(lv, i).ok,
    decreases i, 1int,
{
    match i {
        Instruction::Assign(a) => lemma_assign_compiles(a),
        Instruction::If(s) => {
            lemma_cond_compiles(s.condition);
            lemma_insts_compile(lv + 1, s.then_block@);
            if let Some(b) = s.else_block {
                lemma_insts_compile(lv + 1, b@);
            }
        },
        Instruction::For(f) => {
            lemma_assign_compiles(f.init);
            lemma_expr_compiles(f.step);
            lemma_expr_compiles(f.condition);
            lemma_insts_compile(lv + 1, f.body@);
        },
        _ => {},
    }
}

proof fn lemma_insts_compile(lv: nat, s: Seq<Instruction>)
    requires
        insts_plain(s),
    ensures
        c_insts(lv, s).ok,
    decreases s, 0int,
{
    if s.len() > 0 {
        lemma_insts_compile(lv, s.drop_last());
        lemma_inst_compiles(lv, s.last());
    }
}

proof fn lemma_decl_compiles(lv: nat, d: Declaration)
    requires
        decl_plain(d),
    ensures
        c_decl(lv, d).ok,
{
    match d {
        Declaration::Variable(t, vs) => {
            let os = var_outs(lv, t, vs@);
            assert forall|k: int| 0 <= k < os.len() implies #[trigger] os[k].ok by {
                assert(var_plain(vs@[k]));
                if let Variable::Initialized(_, e) = vs@[k] {
                    lemma_expr_compiles(e);
                }
            }
            lemma_seq_out_all_ok(os);
        },
        Declaration::ADEC(t, vs) => {
            let os = array_outs(lv, t, vs@);
            assert forall|k: int| 0 <= k < os.len() implies #[trigger] os[k].ok by {
                let a = vs@[k];
                assert(array_plain(a));
                match a {
                    ArrayDecl::Simple(_, e) => lemma_expr_compiles(e),
                    ArrayDecl::Initialized(_, _, vals) => {
                        let ls = list_outs(vals@);
                        assert forall|j: int| 0 <= j < ls.len() implies #[trigger] ls[j].ok by {
                            lemma_expr_compiles(vals@[j]);
                        }
                        lemma_seq_out_all_ok(ls);
                    },
                    _ => {},
                }
            }
            lemma_seq_out_all_ok(os);
        },
        Declaration::Constant(t, vs) => {
            let os = const_outs(t, vs@);
            assert forall|k: int| 0 <= k < os.len() implies #[trigger] os[k].ok by {
                lemma_expr_compiles(vs@[k].expr);
            }
            lemma_seq_out_all_ok(os);
        },
    }
}

proof fn lemma_decls_compile(lv: nat, ds: Seq<Declaration>)
    requires
        decls_plain(ds),
    ensures
        seq_out(decl_outs(lv, ds)).ok,
{
    let os = decl_outs(lv, ds);
    assert forall|k: int| 0 <= k < os.len() implies #[trigger] os[k].ok by {
        lemma_decl_compiles(lv, ds[k]);
    }
    lemma_seq_out_all_ok(os);
}

/// A program in which no array value is written as a literal (every program
/// the parser accepts) is compiled to C without error, at any level.
pub proof fn lemma_plain_program_compiles(lv: nat, p: Program)
    requires
        program_plain(p),
    ensures
        c_program(lv, p).ok,
{
    if let Some(ds) = p.global {
        lemma_decls_compile(lv, ds@);
    }
    if let Some(ds) = p.decls {
        lemma_decls_compile(lv, ds@);
    }
    if let Some(is) = p.inst {
        lemma_insts_compile(lv + 1, is@);
    }
}

/// `after` is `before` followed by what `o` writes, and `r` says whether
/// `o` went through.
pub open spec fn wrote(before: Seq<char>, after: Seq<char>, r: Result<(), String>, o: Out) -> bool {
    &&& after == before + o.text
    &&& (r is Ok <==> o.ok)
    &&& (r matches Err(m) ==> m@ == array_literal_msg())
}

fn array_literal_error() -> (m: String)
    ensures
        m@ == array_literal_msg(),
{
    let mut m = String::new();
    append_str(&mut m, "Cannot generate code for array literal");
    m
}

/// Writes C source text for a program.
pub struct CodeGenerator {
    output: String,
    indent_level: usize,
}

impl CodeGenerator {
    /// Everything written so far.
    pub closed spec fn text(&self) -> Seq<char> {
        self.output@
    }

    /// The current indentation level.
    pub closed spec fn level(&self) -> nat {
        self.indent_level as nat
    }

    pub fn new() -> (g: Self)
        ensures
            g.text() == Seq::<char>::empty(),
            g.level() == 0,
    {
        CodeGenerator { output: String::new(), indent_level: 0 }
    }

    fn push(&mut self, s: &str)
        ensures
            final(self).output@ == old(self).output@ + s@,
            final(self).indent_level == old(self).indent_level,
    {
        append_str(&mut self.output, s);
    }

    fn write_indent(&mut self)
        ensures
            final(self).output@ == old(self).output@ + indent_text(old(self).indent_level as nat),
            final(self).indent_level == old(self).indent_level,
    {
        let mut k: usize = 0;
        let ghost s0 = self.output@;
        assert(indent_text(0) =~= Seq::<char>::empty());
        while k < self.indent_level
            invariant
                k <= self.indent_level,
                self.indent_level == old(self).indent_level,
                self.output@ == s0 + indent_text(k as nat),
                s0 == old(self).output@,
            decreases self.indent_level - k,
        {
            self.push("    ");
            k = k + 1;
            assert(self.output@ =~= s0 + indent_text(k as nat));
        }
    }

    fn generate_type(&mut self, t: &Type)
        ensures
            final(self).output@ == old(self).output@ + c_type(*t),
            final(self).indent_level == old(self).indent_level,
    {
        match t {
            Type::Integer => self.push("int"),
            Type::Float => self.push("float"),
            Type::Char => self.push("char"),
        }
    }

    fn generate_expression(&mut self, expr: &Expr) -> (r: Result<(), String>)
        ensures
            wrote(old(self).output@, final(self).output@, r, c_expr(*expr)),
            final(self).indent_level == old(self).indent_level,
        decreases expr,
    {
        let ghost s0 = self.output@;
        match expr {
            Expr::Literal(lit) => match lit {
                TypeValue::Integer((i, _)) => {
                    push_int(&mut self.output, *i);
                    Ok(())
                },
                TypeValue::Float((f, _)) => {
                    push_float(&mut self.output, f);
                    Ok(())
                },
                TypeValue::Char((c, _)) => {
                    self.push("'");
                    push_char(&mut self.output, *c);
                    self.push("'");
                    assert(self.output@ =~= s0 + c_expr(*expr).text);
                    Ok(())
                },
                TypeValue::Array(_) => {
                    assert(self.output@ =~= s0 + c_expr(*expr).text);
                    Err(array_literal_error())
                },
            },
            Expr::Variable((n, _)) => {
                self.push(n.as_str());
                Ok(())
            },
            Expr::SUBS((n, _), index) => {
                self.push(n.as_str());
                self.push("[");
                match self.generate_expression(index) {
                    Ok(()) => {},
                    Err(m) => {
                        assert(self.output@ =~= s0 + c_expr(*expr).text);
                        return Err(m);
                    },
                }
                self.push("]");
                assert(self.output@ =~= s0 + c_expr(*expr).text);
                Ok(())
            },
            Expr::BinaryOp(left, op, right) => {
                self.push("(");
                match self.generate_expression(left) {
                    Ok(()) => {},
                    Err(m) => {
                        assert(self.output@ =~= s0 + c_expr(*expr).text);
                        return Err(m);
                    },
                }
                self.push(" ");
                push_bin_symbol(&mut self.output, op);
                self.push(" ");
                match self.generate_expression(right) {
                    Ok(()) => {},
                    Err(m) => {
                        assert(self.output@ =~= s0 + c_expr(*expr).text);
                        return Err(m);
                    },
                }
                self.push(")");
                assert(self.output@ =~= s0 + c_expr(*expr).text);
                Ok(())
            },
        }
    }

    fn generate_condition(&mut self, condition: &Condition) -> (r: Result<(), String>)
        ensures
            wrote(old(self).output@, final(self).output@, r, c_cond(*condition)),
            final(self).indent_level == old(self).indent_level,
        decreases condition,
    {
        let ghost s0 = self.output@;
        match condition {
            Condition::Not(inner) => {
                self.push("!(");
                match self.generate_condition(inner) {
                    Ok(()) => {},
                    Err(m) => {
                        assert(self.output@ =~= s0 + c_cond(*condition).text);
                        return Err(m);
                    },
                }
                self.push(")");
            },
            Condition::Logic(left, op, right) => {
                self.push("(");
                match self.generate_condition(left) {
                    Ok(()) => {},
                    Err(m) => {
                        assert(self.output@ =~= s0 + c_cond(*condition).text);
                        return Err(m);
                    },
                }
                match op {
                    LogOp::And(..) => self.push(" && "),
                    LogOp::Or(..) => self.push(" || "),
                }
                match self.generate_condition(right) {
                    Ok(()) => {},
                    Err(m) => {
                        assert(self.output@ =~= s0 + c_cond(*condition).text);
                        return Err(m);
                    },
                }
                self.push(")");
            },
            Condition::Basic(b) => {
                match self.generate_expression(&b.left) {
                    Ok(()) => {},
                    Err(m) => {
                        assert(self.output@ =~= s0 + c_cond(*condition).text);
                        return Err(m);
                    },
                }
                match b.operator {
                    RelOp::Gt(..) => self.push(" > "),
                    RelOp::Lt(..) => self.push(" < "),
                    RelOp::Ge(..) => self.push(" >= "),
                    RelOp::Le(..) => self.push(" <= "),
                    RelOp::Eq(..) => self.push(" == "),
                    RelOp::Ne(..) => self.push(" != "),
                }
                match self.generate_expression(&b.right) {
                    Ok(()) => {},
                    Err(m) => {
                        assert(self.output@ =~= s0 + c_cond(*condition).text);
                        return Err(m);
                    },
                }
            },
        }
        assert(self.output@ =~= s0 + c_cond(*condition).text);
        Ok(())
    }

    fn generate_list(&mut self, values: &Vec<Expr>) -> (r: Result<(), String>)
        ensures
            wrote(old(self).output@, final(self).output@, r, seq_out(list_outs(values@))),
            final(self).indent_level == old(self).indent_level,
    {
        let ghost s0 = self.output@;
        let ghost os = list_outs(values@);
        let n = values.len();
        let mut i: usize = 0;
        assert(os.take(0) =~= Seq::<Out>::empty());
        while i < n
            invariant
                n == values@.len(),
                os == list_outs(values@),
                i <= n,
                self.output@ == s0 + seq_out(os.take(i as int)).text,
                seq_out(os.take(i as int)).ok,
                self.indent_level == old(self).indent_level,
                s0 == old(self).output@,
            decreases n - i,
        {
            proof {
                lemma_seq_out_step(os, i as int);
            }
            let ghost s1 = self.output@;
            match self.generate_expression(&values[i]) {
                Ok(()) => {},
                Err(m) => {
                    proof {
                        lemma_seq_out_stops(os, i + 1);
                    }
                    assert(self.output@ =~= s0 + seq_out(os).text);
                    return Err(m);
                },
            }
            if i < n - 1 {
                self.push(", ");
            }
            assert(self.output@ =~= s0 + seq_out(os.take(i + 1)).text);
            i = i + 1;
        }
        assert(os.take(n as int) =~= os);
        Ok(())
    }

    fn generate_variable(&mut self, t: &Type, v: &Variable) -> (r: Result<(), String>)
        ensures
            wrote(old(self).output@, final(self).output@, r, c_var(old(self).indent_level as nat, *t, *v)),
            final(self).indent_level == old(self).indent_level,
    {
        let ghost s0 = self.output@;
        self.write_indent();
        self.generate_type(t);
        self.push(" ");
        match v {
            Variable::Simple((n, _)) => {
                self.push(n.as_str());
                self.push(";\n");
            },
            Variable::Initialized((n, _), e) => {
                self.push(n.as_str());
                self.push(" = ");
                match self.generate_expression(e) {
                    Ok(()) => {},
                    Err(m) => {
                        assert(self.output@ =~= s0 + c_var(old(self).indent_level as nat, *t, *v).text);
                        return Err(m);
                    },
                }
                self.push(";\n");
            },
        }
        assert(self.output@ =~= s0 + c_var(old(self).indent_level as nat, *t, *v).text);
        Ok(())
    }

    fn generate_array(&mut self, t: &Type, a: &ArrayDecl) -> (r: Result<(), String>)
        ensures
            wrote(old(self).output@, final(self).output@, r, c_array(old(self).indent_level as nat, *t, *a)),
            final(self).indent_level == old(self).indent_level,
    {
        let ghost s0 = self.output@;
        let ghost o = c_array(old(self).indent_level as nat, *t, *a);
        self.write_indent();
        self.generate_type(t);
        self.push(" ");
        match a {
            ArrayDecl::Simple((n, _), size) => {
                self.push(n.as_str());
                self.push("[");
                match self.generate_expression(size) {
                    Ok(()) => {},
                    Err(m) => {
                        assert(self.output@ =~= s0 + o.text);
                        return Err(m);
                    },
                }
                self.push("];\n");
            },
            ArrayDecl::Initialized((n, _), _, values) => {
                self.push(n.as_str());
                self.push(" = {");
                match self.generate_list(values) {
                    Ok(()) => {},
                    Err(m) => {
                        assert(self.output@ =~= s0 + o.text);
                        return Err(m);
                    },
                }
                self.push("};\n");
            },
            ArrayDecl::InitializedString((n, _), _, (value, _)) => {
                self.push(n.as_str());
                self.push("[] = ");
                self.push(value.as_str());
                self.push(";\n");
            },
        }
        assert(self.output@ =~= s0 + o.text);
        Ok(())
    }

    fn generate_constant(&mut self, t: &Type, c: &Assignment) -> (r: Result<(), String>)
        ensures
            wrote(old(self).output@, final(self).output@, r, c_const(*t, *c)),
            final(self).indent_level == old(self).indent_level,
    {
        let ghost s0 = self.output@;
        self.push("const ");
        self.generate_type(t);
        self.push(" ");
        self.push(c.var.0.as_str());
        self.push(" = ");
        match self.generate_expression(&c.expr) {
            Ok(()) => {},
            Err(m) => {
                assert(self.output@ =~= s0 + c_const(*t, *c).text);
                return Err(m);
            },
        }
        self.push(";\n");
        assert(self.output@ =~= s0 + c_const(*t, *c).text);
        Ok(())
    }

    fn generate_declaration(&mut self, d: &Declaration) -> (r: Result<(), String>)
        ensures
            wrote(old(self).output@, final(self).output@, r, c_decl(old(self).indent_level as nat, *d)),
            final(self).indent_level == old(self).indent_level,
    {
        let ghost s0 = self.output@;
        let ghost lv = self.indent_level as nat;
        match d {
            Declaration::Variable(t, vars) => {
                let ghost os = var_outs(lv, *t, vars@);
                let n = vars.len();
                let mut i: usize = 0;
                assert(os.take(0) =~= Seq::<Out>::empty());
                while i < n
                    invariant
                        n == vars@.len(),
                        os == var_outs(lv, *t, vars@),
                        c_decl(lv, *d) == seq_out(os),
                        i <= n,
                        self.output@ == s0 + seq_out(os.take(i as int)).text,
                        seq_out(os.take(i as int)).ok,
                        self.indent_level == lv,
                        lv == old(self).indent_level as nat,
                        s0 == old(self).output@,
                    decreases n - i,
                {
                    proof {
                        lemma_seq_out_step(os, i as int);
                    }
                    assert(os[i as int] == c_var(lv, *t, vars@[i as int]));
                    match self.generate_variable(t, &vars[i]) {
                        Ok(()) => {},
                        Err(m) => {
                            proof {
                                lemma_seq_out_stops(os, i + 1);
                            }
                            assert(self.output@ =~= s0 + seq_out(os).text);
                            return Err(m);
                        },
                    }
                    i = i + 1;
                }
                assert(os.take(n as int) =~= os);
                Ok(())
            },
            Declaration::ADEC(t, arrays) => {
                let ghost os = array_outs(lv, *t, arrays@);
                let n = arrays.len();
                let mut i: usize = 0;
                assert(os.take(0) =~= Seq::<Out>::empty());
                while i < n
                    invariant
                        n == arrays@.len(),
                        os == array_outs(lv, *t, arrays@),
                        c_decl(lv, *d) == seq_out(os),
                        i <= n,
                        self.output@ == s0 + seq_out(os.take(i as int)).text,
                        seq_out(os.take(i as int)).ok,
                        self.indent_level == lv,
                        lv == old(self).indent_level as nat,
                        s0 == old(self).output@,
                    decreases n - i,
                {
                    proof {
                        lemma_seq_out_step(os, i as int);
                    }
                    assert(os[i as int] == c_array(lv, *t, arrays@[i as int]));
                    match self.generate_array(t, &arrays[i]) {
                        Ok(()) => {},
                        Err(m) => {
                            proof {
                                lemma_seq_out_stops(os, i + 1);
                            }
                            assert(self.output@ =~= s0 + seq_out(os).text);
                            return Err(m);
                        },
                    }
                    i = i + 1;
                }
                assert(os.take(n as int) =~= os);
                Ok(())
            },
            Declaration::Constant(t, consts) => {
                let ghost os = const_outs(*t, consts@);
                let n = consts.len();
                let mut i: usize = 0;
                assert(os.take(0) =~= Seq::<Out>::empty());
                while i < n
                    invariant
                        n == consts@.len(),
                        os == const_outs(*t, consts@),
                        c_decl(lv, *d) == seq_out(os),
                        i <= n,
                        self.output@ == s0 + seq_out(os.take(i as int)).text,
                        seq_out(os.take(i as int)).ok,
                        self.indent_level == lv,
                        lv == old(self).indent_level as nat,
                        s0 == old(self).output@,
                    decreases n - i,
                {
                    proof {
                        lemma_seq_out_step(os, i as int);
                    }
                    assert(os[i as int] == c_const(*t, consts@[i as int]));
                    match self.generate_constant(t, &consts[i]) {
                        Ok(()) => {},
                        Err(m) => {
                            proof {
                                lemma_seq_out_stops(os, i + 1);
                            }
                            assert(self.output@ =~= s0 + seq_out(os).text);
                            return Err(m);
                        },
                    }
                    i = i + 1;
                }
                assert(os.take(n as int) =~= os);
                Ok(())
            },
        }
    }

    fn generate_declarations(&mut self, declarations: &Vec<Declaration>) -> (r: Result<(), String>)
        ensures
            wrote(old(self).output@, final(self).output@, r, seq_out(decl_outs(old(self).indent_level as nat, declarations@))),
            final(self).indent_level == old(self).indent_level,
    {
        let ghost s0 = self.output@;
        let ghost lv = self.indent_level as nat;
        let ghost os = decl_outs(lv, declarations@);
        let n = declarations.len();
        let mut i: usize = 0;
        assert(os.take(0) =~= Seq::<Out>::empty());
        while i < n
            invariant
                n == declarations@.len(),
                os == decl_outs(lv, declarations@),
                i <= n,
                self.output@ == s0 + seq_out(os.take(i as int)).text,
                seq_out(os.take(i as int)).ok,
                self.indent_level == lv,
                lv == old(self).indent_level as nat,
                s0 == old(self).output@,
            decreases n - i,
        {
            proof {
                lemma_seq_out_step(os, i as int);
            }
            assert(os[i as int] == c_decl(lv, declarations@[i as int]));
            match self.generate_declaration(&declarations[i]) {
                Ok(()) => {},
                Err(m) => {
                    proof {
                        lemma_seq_out_stops(os, i + 1);
                    }
                    assert(self.output@ =~= s0 + seq_out(os).text);
                    return Err(m);
                },
            }
            i = i + 1;
        }
        assert(os.take(n as int) =~= os);
        Ok(())
    }

    fn generate_assignment(&mut self, a: &Assignment) -> (r: Result<(), String>)
        ensures
            wrote(old(self).output@, final(self).output@, r, c_assign(*a)),
            final(self).indent_level == old(self).indent_level,
    {
        let ghost s0 = self.output@;
        self.push(a.var.0.as_str());
        match &a.index {
            Some(index) => {
                self.push("[");
                match self.generate_expression(index) {
                    Ok(()) => {},
                    Err(m) => {
                        assert(self.output@ =~= s0 + c_assign(*a).text);
                        return Err(m);
                    },
                }
                self.push("] = ");
            },
            None => {
                self.push(" = ");
            },
        }
        match self.generate_expression(&a.expr) {
            Ok(()) => {},
            Err(m) => {
                assert(self.output@ =~= s0 + c_assign(*a).text);
                return Err(m);
            },
        }
        assert(self.output@ =~= s0 + c_assign(*a).text);
        Ok(())
    }

    fn generate_read(&mut self, read: &ReadStmt)
        ensures
            final(self).output@ == old(self).output@ + "scanf(\"%d\", &"@ + read.variable.0@ + ");"@,
            final(self).indent_level == old(self).indent_level,
    {
        let ghost s0 = self.output@;
        self.push("scanf(\"%d\", &");
        self.push(read.variable.0.as_str());
        self.push(");");
        assert(self.output@ =~= s0 + "scanf(\"%d\", &"@ + read.variable.0@ + ");"@);
    }

    fn generate_write(&mut self, w: &WriteStmt)
        ensures
            final(self).output@ == old(self).output@ + c_write(w.elements@),
            final(self).indent_level == old(self).indent_level,
    {
        let ghost s0 = self.output@;
        let ghost es = w.elements@;
        let mut format = String::new();
        let mut args: Vec<String> = Vec::new();
        let n = w.elements.len();
        let mut i: usize = 0;
        assert(es.take(0) =~= Seq::<WriteElement>::empty());
        assert(args@.map_values(|a: String| a@) =~= Seq::<Seq<char>>::empty());
        while i < n
            invariant
                n == es.len(),
                es == w.elements@,
                i <= n,
                format@ == write_format(es.take(i as int)),
                args@.map_values(|a: String| a@) == write_args(es.take(i as int)),
            decreases n - i,
        {
            let ghost before = args@;
            match &w.elements[i] {
                WriteElement::String((t, _)) => {
                    append_str(&mut format, t.as_str());
                },
                WriteElement::Variable((name, _), _) => {
                    append_str(&mut format, "%d ");
                    args.push(name.clone());
                },
            }
            assert(es.take(i + 1).drop_last() =~= es.take(i as int));
            assert(args@.map_values(|a: String| a@) =~= write_args(es.take(i + 1)));
            i = i + 1;
        }
        assert(es.take(n as int) =~= es);
        let ghost names = args@.map_values(|a: String| a@);
        self.push("printf(\"");
        self.push(format.as_str());
        if args.len() > 0 {
            self.push("\", ");
            let ghost s1 = self.output@;
            let mut k: usize = 0;
            assert(names.take(0) =~= Seq::<Seq<char>>::empty());
            while k < args.len()
                invariant
                    k <= args@.len(),
                    names == args@.map_values(|a: String| a@),
                    self.output@ == s1 + join_names(names.take(k as int)),
                    self.indent_level == old(self).indent_level,
                decreases args@.len() - k,
            {
                if k > 0 {
                    self.push(", ");
                }
                self.push(args[k].as_str());
                proof {
                    let t = names.take(k + 1);
                    assert(t.drop_last() =~= names.take(k as int));
                    if k == 0 {
                        assert(join_names(t) == t[0]);
                    }
                }
                assert(self.output@ =~= s1 + join_names(names.take(k + 1)));
                k = k + 1;
            }
            assert(names.take(k as int) =~= names);
            self.push(")");
        } else {
            self.push("\")");
        }
        assert(self.output@ =~= s0 + c_write(w.elements@));
    }

    #[verifier::rlimit(40)]
    fn generate_if_statement(&mut self, s: &IfStmt) -> (r: Result<(), String>)
        requires
            old(self).indent_level + inst_depth(Instruction::If(*s)) <= usize::MAX,
        ensures
            wrote(old(self).output@, final(self).output@, r, c_inst(old(self).indent_level as nat, Instruction::If(*s))),
            final(self).indent_level == old(self).indent_level,
        decreases s, 1int,
    {
        let ghost s0 = self.output@;
        let ghost lv = self.indent_level as nat;
        let ghost o = c_inst(lv, Instruction::If(*s));
        let ghost else_part = match &s.else_block {
            Some(b) => then(
                then(done(indent_text(lv) + "else {\n"@), c_insts(lv + 1, b@)),
                done(indent_text(lv) + "}\n"@),
            ),
            None => done(Seq::empty()),
        };
        let ghost mut acc = done(indent_text(lv) + "if ("@);
        self.write_indent();
        self.push("if (");
        assert(self.output@ =~= s0 + acc.text);
        let r = self.generate_condition(&s.condition);
        proof {
            acc = then(acc, c_cond(s.condition));
        }
        assert(self.output@ =~= s0 + acc.text);
        if let Err(m) = r {
            return Err(m);
        }
        self.push(") {\n");
        proof {
            acc = then(acc, done(") {\n"@));
        }
        assert(self.output@ =~= s0 + acc.text);
        self.indent_level = self.indent_level + 1;
        let r = self.generate_instructions(&s.then_block);
        self.indent_level = self.indent_level - 1;
        proof {
            acc = then(acc, c_insts(lv + 1, s.then_block@));
        }
        assert(self.output@ =~= s0 + acc.text);
        if let Err(m) = r {
            return Err(m);
        }
        self.write_indent();
        self.push("}\n");
        proof {
            acc = then(acc, done(indent_text(lv) + "}\n"@));
        }
        assert(self.output@ =~= s0 + acc.text);
        assert(o == then(acc, else_part));
        match &s.else_block {
            Some(else_block) => {
                let ghost s1 = self.output@;
                let ghost mut e = done(indent_text(lv) + "else {\n"@);
                self.write_indent();
                self.push("else {\n");
                assert(self.output@ =~= s1 + e.text);
                self.indent_level = self.indent_level + 1;
                let r = self.generate_instructions(else_block);
                self.indent_level = self.indent_level - 1;
                proof {
                    e = then(e, c_insts(lv + 1, else_block@));
                }
                assert(self.output@ =~= s1 + e.text);
                if let Err(m) = r {
                    assert(self.output@ =~= s0 + o.text);
                    return Err(m);
                }
                self.write_indent();
                self.push("}\n");
                proof {
                    e = then(e, done(indent_text(lv) + "}\n"@));
                }
                assert(e == else_part);
                assert(self.output@ =~= s0 + o.text);
            },
            None => {
                assert(self.output@ =~= s0 + o.text);
            },
        }
        Ok(())
    }

    #[verifier::rlimit(40)]
    fn generate_for_loop(&mut self, f: &ForStmt) -> (r: Result<(), String>)
        requires
            old(self).indent_level + inst_depth(Instruction::For(*f)) <= usize::MAX,
        ensures
            wrote(old(self).output@, final(self).output@, r, c_inst(old(self).indent_level as nat, Instruction::For(*f))),
            final(self).indent_level == old(self).indent_level,
        decreases f, 1int,
    {
        let ghost s0 = self.output@;
        let ghost lv = self.indent_level as nat;
        let ghost o = c_inst(lv, Instruction::For(*f));
        let v = f.init.var.0.as_str();
        let ghost vn = f.init.var.0@;
        let ghost mut acc = done(indent_text(lv) + "for ("@ + vn + " = "@);
        self.write_indent();
        self.push("for (");
        self.push(v);
        self.push(" = ");
        assert(self.output@ =~= s0 + acc.text);
        let r = self.generate_expression(&f.init.expr);
        proof {
            acc = then(acc, c_expr(f.init.expr));
        }
        assert(self.output@ =~= s0 + acc.text);
        if let Err(m) = r {
            return Err(m);
        }
        self.push("; ");
        self.push(v);
        self.push(" < ");
        proof {
            acc = then(acc, done("; "@ + vn + " < "@));
        }
        assert(self.output@ =~= s0 + acc.text);
        let r = self.generate_expression(&f.condition);
        proof {
            acc = then(acc, c_expr(f.condition));
        }
        assert(self.output@ =~= s0 + acc.text);
        if let Err(m) = r {
            return Err(m);
        }
        self.push("; ");
        self.push(v);
        self.push(" += ");
        proof {
            acc = then(acc, done("; "@ + vn + " += "@));
        }
        assert(self.output@ =~= s0 + acc.text);
        let r = self.generate_expression(&f.step);
        proof {
            acc = then(acc, c_expr(f.step));
        }
        assert(self.output@ =~= s0 + acc.text);
        if let Err(m) = r {
            return Err(m);
        }
        let ghost s1 = self.output@;
        self.push(") {\n");
        self.indent_level = self.indent_level + 1;
        let r = self.generate_instructions(&f.body);
        self.indent_level = self.indent_level - 1;
        let ghost body = then(done(") {\n"@), c_insts(lv + 1, f.body@));
        assert(self.output@ =~= s1 + body.text);
        proof {
            acc = then(acc, body);
        }
        assert(self.output@ =~= s0 + acc.text);
        if let Err(m) = r {
            return Err(m);
        }
        self.write_indent();
        self.push("}\n");
        proof {
            acc = then(acc, done(indent_text(lv) + "}\n"@));
        }
        assert(self.output@ =~= s0 + acc.text);
        assert(acc == o);
        Ok(())
    }

    fn generate_instruction(&mut self, inst: &Instruction) -> (r: Result<(), String>)
        requires
            old(self).indent_level + inst_depth(*inst) <= usize::MAX,
        ensures
            wrote(old(self).output@, final(self).output@, r, c_inst(old(self).indent_level as nat, *inst)),
            final(self).indent_level == old(self).indent_level,
        decreases inst, 2int,
    {
        let ghost s0 = self.output@;
        let ghost o = c_inst(old(self).indent_level as nat, *inst);
        match inst {
            Instruction::Assign(a) => {
                self.write_indent();
                match self.generate_assignment(a) {
                    Ok(()) => {},
                    Err(m) => {
                        assert(self.output@ =~= s0 + o.text);
                        return Err(m);
                    },
                }
                self.push(";\n");
                assert(self.output@ =~= s0 + o.text);
                Ok(())
            },
            Instruction::If(s) => self.generate_if_statement(s),
            Instruction::For(f) => self.generate_for_loop(f),
            Instruction::Read(rd) => {
                self.write_indent();
                self.generate_read(rd);
                self.push(";\n");
                assert(self.output@ =~= s0 + o.text);
                Ok(())
            },
            Instruction::Write(w) => {
                self.write_indent();
                self.generate_write(w);
                self.push(";\n");
                assert(self.output@ =~= s0 + o.text);
                Ok(())
            },
        }
    }

    fn generate_instructions(&mut self, instructions: &Vec<Instruction>) -> (r: Result<(), String>)
        requires
            old(self).indent_level + insts_depth(instructions@) <= usize::MAX,
        ensures
            wrote(old(self).output@, final(self).output@, r, c_insts(old(self).indent_level as nat, instructions@)),
            final(self).indent_level == old(self).indent_level,
        decreases instructions@, 0int,
    {
        let ghost s0 = self.output@;
        let ghost lv = self.indent_level as nat;
        let ghost is = instructions@;
        let n = instructions.len();
        let mut i: usize = 0;
        assert(is.take(0) =~= Seq::<Instruction>::empty());
        while i < n
            invariant
                n == is.len(),
                is == instructions@,
                i <= n,
                self.output@ == s0 + c_insts(lv, is.take(i as int)).text,
                c_insts(lv, is.take(i as int)).ok,
                self.indent_level == lv,
                lv == old(self).indent_level as nat,
                s0 == old(self).output@,
                lv + insts_depth(is) <= usize::MAX,
            decreases n - i,
        {
            proof {
                lemma_c_insts_step(lv, is, i as int);
                lemma_insts_depth_bound(is, i as int);
            }
            match self.generate_instruction(&instructions[i]) {
                Ok(()) => {},
                Err(m) => {
                    proof {
                        lemma_c_insts_stops(lv, is, i + 1);
                    }
                    assert(self.output@ =~= s0 + c_insts(lv, is).text);
                    return Err(m);
                },
            }
            assert(self.output@ =~= s0 + c_insts(lv, is.take(i + 1)).text);
            i = i + 1;
        }
        assert(is.take(n as int) =~= is);
        Ok(())
    }

    /// Translates a program into C and returns everything written so far.
    ///
    /// Writing stops at the first array value used as a literal, with the
    /// error `Cannot generate code for array literal`.
    #[verifier::rlimit(40)]
    pub fn generate(&mut self, program: &Program) -> (r: Result<String, String>)
        requires
            old(self).level() + program_depth(*program) + 1 <= usize::MAX,
        ensures
            final(self).text() == old(self).text() + c_program(old(self).level(), *program).text,
            final(self).level() == old(self).level(),
            match r {
                Ok(s) => c_program(old(self).level(), *program).ok && s@ == final(self).text(),
                Err(m) => !c_program(old(self).level(), *program).ok && m@ == array_literal_msg(),
            },
    {
        let ghost s0 = self.output@;
        let ghost lv = self.indent_level as nat;
        let ghost o = c_program(lv, *program);
        let ghost mut acc = done(program_header());
        self.push("#include <stdio.h>\n#include <stdbool.h>\n\n");
        assert(self.output@ =~= s0 + acc.text);
        if let Some(global_vars) = &program.global {
            let r = self.generate_declarations(global_vars);
            proof {
                acc = then(acc, seq_out(decl_outs(lv, global_vars@)));
            }
            assert(self.output@ =~= s0 + acc.text);
            if let Err(m) = r {
                return Err(m);
            }
        } else {
            proof {
                acc = then(acc, done(Seq::empty()));
            }
            assert(self.output@ =~= s0 + acc.text);
        }
        if let Some(decls) = &program.decls {
            let r = self.generate_declarations(decls);
            proof {
                acc = then(acc, seq_out(decl_outs(lv, decls@)));
            }
            assert(self.output@ =~= s0 + acc.text);
            if let Err(m) = r {
                return Err(m);
            }
        } else {
            proof {
                acc = then(acc, done(Seq::empty()));
            }
            assert(self.output@ =~= s0 + acc.text);
        }
        let ghost s1 = self.output@;
        self.push("int main() {\n");
        self.indent_level = self.indent_level + 1;
        let ghost body = match &program.inst {
            Some(is) => c_insts(lv + 1, is@),
            None => done(Seq::empty()),
        };
        if let Some(instructions) = &program.inst {
            let r = self.generate_instructions(instructions);
            self.indent_level = self.indent_level - 1;
            assert(self.output@ =~= s1 + then(done("int main() {\n"@), body).text);
            proof {
                acc = then(acc, then(done("int main() {\n"@), body));
            }
            assert(self.output@ =~= s0 + acc.text);
            if let Err(m) = r {
                return Err(m);
            }
        } else {
            self.indent_level = self.indent_level - 1;
            assert(self.output@ =~= s1 + then(done("int main() {\n"@), body).text);
            proof {
                acc = then(acc, then(done("int main() {\n"@), body));
            }
            assert(self.output@ =~= s0 + acc.text);
        }
        self.push("    return 0;\n}\n");
        proof {
            acc = then(acc, done("    return 0;\n}\n"@));
        }
        assert(self.output@ =~= s0 + acc.text);
        assert(acc == o);
        Ok(self.output.clone())
    }
}

proof fn lemma_insts_depth_bound(s: Seq<Instruction>, i: int)
    requires
        0 <= i < s.len(),
    ensures
        inst_depth(s[i]) <= insts_depth(s),
    decreases s.len(),
{
    if i < s.len() - 1 {
        assert(s.drop_last()[i] == s[i]);
        lemma_insts_depth_bound(s.drop_last(), i);
    }
}

} // verus!

verus! {

/// The C operator that has the meaning of a logical operator: `&&` for a
/// conjunction, `||` for a disjunction.
pub open spec fn c_logical(op: LogOp) -> Seq<char> {
    match op {
        LogOp::And(..) => seq!['&', '&'],
        LogOp::Or(..) => seq!['|', '|'],
    }
}

/// The C operator that has the meaning of a comparison.
pub open spec fn c_relational(op: RelOp) -> Seq<char> {
    match op {
        RelOp::Gt(..) => seq!['>'],
        RelOp::Lt(..) => seq!['<'],
        RelOp::Ge(..) => seq!['>', '='],
        RelOp::Le(..) => seq!['<', '='],
        RelOp::Eq(..) => seq!['=', '='],
        RelOp::Ne(..) => seq!['!', '='],
    }
}

/// The C operator that has the meaning of an arithmetic operator.
pub open spec fn c_arithmetic(op: crate::ast::BinOp) -> Seq<char> {
    match op {
        crate::ast::BinOp::Add(..) => seq!['+'],
        crate::ast::BinOp::Sub(..) => seq!['-'],
        crate::ast::BinOp::Mul(..) => seq!['*'],
        crate::ast::BinOp::Div(..) => seq!['/'],
    }
}

/// A condition is written in C with operators of the same meaning: a
/// logical operation as `(l && r)` or `(l || r)` after its operator, a
/// comparison as `l op r` with the C comparison of the same meaning, a
/// negation as `!(c)`; the operands keep their order.
pub proof fn lemma_condition_text(c: Condition)
    ensures
        c matches Condition::Logic(l, op, r) ==> (c_cond(*l).ok && c_cond(*r).ok ==> c_cond(c) == done(
            "("@ + c_cond(*l).text + " "@ + c_logical(op) + " "@ + c_cond(*r).text + ")"@,
        )),
        c matches Condition::Basic(b) ==> (c_expr(b.left).ok && c_expr(b.right).ok ==> c_cond(c) == done(
            c_expr(b.left).text + " "@ + c_relational(b.operator) + " "@ + c_expr(b.right).text,
        )),
        c matches Condition::Not(x) ==> (c_cond(*x).ok ==> c_cond(c) == done("!("@ + c_cond(*x).text + ")"@)),
{
    reveal_strlit(" ");
    reveal_strlit(" && ");
    reveal_strlit(" || ");
    reveal_strlit(" > ");
    reveal_strlit(" < ");
    reveal_strlit(" >= ");
    reveal_strlit(" <= ");
    reveal_strlit(" == ");
    reveal_strlit(" != ");
    match c {
        Condition::Logic(l, op, r) => {
            assert(log_text(op) =~= " "@ + c_logical(op) + " "@);
            assert("("@ + c_cond(*l).text + log_text(op) + c_cond(*r).text + ")"@ =~= "("@ + c_cond(*l).text + " "@
                + c_logical(op) + " "@ + c_cond(*r).text + ")"@);
        },
        Condition::Basic(b) => {
            assert(rel_text(b.operator) =~= " "@ + c_relational(b.operator) + " "@);
            assert(c_expr(b.left).text + rel_text(b.operator) + c_expr(b.right).text =~= c_expr(b.left).text
                + " "@ + c_relational(b.operator) + " "@ + c_expr(b.right).text);
        },
        Condition::Not(_) => {},
    }
}

/// An arithmetic operation is written in C as `(l op r)` with the C
/// operator of the same meaning, the operands in their order.
pub proof fn lemma_operation_text(l: Expr, op: crate::ast::BinOp, r: Expr)
    requires
        c_expr(l).ok,
        c_expr(r).ok,
    ensures
        c_expr(Expr::BinaryOp(Box::new(l), op, Box::new(r))) == done(
            "("@ + c_expr(l).text + " "@ + c_arithmetic(op) + " "@ + c_expr(r).text + ")"@,
        ),
{
    reveal_strlit(" ");
    reveal_strlit("+");
    reveal_strlit("-");
    reveal_strlit("*");
    reveal_strlit("/");
    assert(bin_symbol(op) =~= c_arithmetic(op));
    assert("("@ + c_expr(l).text + (" "@ + bin_symbol(op) + " "@) + c_expr(r).text + ")"@ =~= "("@ + c_expr(l).text
        + " "@ + c_arithmetic(op) + " "@ + c_expr(r).text + ")"@);
}

} // verus!
