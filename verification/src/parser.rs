//! A recursive-descent parser that reads a program from its tokens, exactly as
//! the grammar in `productions` says.

use vstd::prelude::*;
use crate::ast::{
    ArrayDecl, Assignment, BasicCond, BinOp, Condition, Declaration, Expr, FloatValue, ForStmt,
    IfStmt, Instruction, LogOp, Program, ReadStmt, RelOp, Type, TypeValue, Variable, WriteElement,
    WriteStmt,
};
use crate::error::CustomError;
use crate::lexer::{lex_fails, lexes, tokenize, Dialect};
use crate::productions::{
    Toks,
    add_op, added, advanced, assign_inst, at, basic, block, cond, cond_rest, conj, conj_rest, expr,
    expr_rest, factor, for_inst, ident, if_inst, index_opt, inst, insts, mul_op, neg, pos, read_inst,
    rel_op, string_at, term, term_rest, write_elem, write_elems, write_inst, type_at, var_item,
    var_items, expr_list, arr_item, arr_items, const_item, const_items, decl, decls, decl_section,
    inst_section, program,
};
use crate::code_generator::{
    array_plain, assign_plain, cond_plain, decl_plain, decls_plain, expr_plain, inst_plain,
    insts_plain, program_plain, var_plain,
};
use crate::semantics::{
    array_decl_wf, declaration_wf, declarations_wf, program_wf, quoted, unquoted,
};
use crate::text::{chars_of, string_of};
use crate::syntax::{
    cond_v, expr_v, inst_v, insts_v, opt_expr_v, write_v, writes_v, CondV, ExprV, InstV, WriteV,
    var_v, vars_v, arr_v, arrs_v, exprs_v, assign_v, assigns_v, decl_v, decls_v, program_v, VarV,
    ArrV, AssignV, DeclV, ProgramV,
};
use crate::token::{SpannedToken, Token};

verus! {

/// What a parse result reads as, in the terms of the grammar.
pub open spec fn expr_res(r: Result<(Expr, usize), usize>) -> Result<(ExprV, int), int> {
    match r {
        Ok((e, j)) => Ok((expr_v(e), j as int)),
        Err(k) => Err(k as int),
    }
}

fn position(toks: &Vec<SpannedToken>, i: usize) -> (p: (usize, usize))
    requires
        i < toks@.len(),
    ensures
        p == pos(toks@, i as int),
{
    (toks[i].line, toks[i].column)
}

/// A token that carries nothing: a keyword or a punctuation mark.
pub open spec fn plain(k: Token) -> bool {
    !(k is Integer || k is Float || k is Identifier || k is Char || k is StringLiteral)
}

fn same_plain(a: &Token, k: &Token) -> (b: bool)
    requires
        plain(*k),
    ensures
        b == (*a == *k),
{
    match k {
        Token::VarGlobal => matches!(a, Token::VarGlobal),
        Token::Declaration => matches!(a, Token::Declaration),
        Token::Instruction => matches!(a, Token::Instruction),
        Token::Const => matches!(a, Token::Const),
        Token::Read => matches!(a, Token::Read),
        Token::Write => matches!(a, Token::Write),
        Token::If => matches!(a, Token::If),
        Token::Else => matches!(a, Token::Else),
        Token::For => matches!(a, Token::For),
        Token::IntegerType => matches!(a, Token::IntegerType),
        Token::FloatType => matches!(a, Token::FloatType),
        Token::CharType => matches!(a, Token::CharType),
        Token::Plus => matches!(a, Token::Plus),
        Token::Minus => matches!(a, Token::Minus),
        Token::Multiply => matches!(a, Token::Multiply),
        Token::Divide => matches!(a, Token::Divide),
        Token::And => matches!(a, Token::And),
        Token::Or => matches!(a, Token::Or),
        Token::Not => matches!(a, Token::Not),
        Token::GreaterThan => matches!(a, Token::GreaterThan),
        Token::LessThan => matches!(a, Token::LessThan),
        Token::GreaterEqual => matches!(a, Token::GreaterEqual),
        Token::LessEqual => matches!(a, Token::LessEqual),
        Token::Equal => matches!(a, Token::Equal),
        Token::NotEqual => matches!(a, Token::NotEqual),
        Token::Assign => matches!(a, Token::Assign),
        Token::Semicolon => matches!(a, Token::Semicolon),
        Token::OpenBrace => matches!(a, Token::OpenBrace),
        Token::CloseBrace => matches!(a, Token::CloseBrace),
        Token::OpenParen => matches!(a, Token::OpenParen),
        Token::CloseParen => matches!(a, Token::CloseParen),
        Token::Comma => matches!(a, Token::Comma),
        Token::Colon => matches!(a, Token::Colon),
        Token::OpenBracket => matches!(a, Token::OpenBracket),
        Token::CloseBracket => matches!(a, Token::CloseBracket),
        _ => false,
    }
}

/// Whether the token at `i` exists and is `k`.
fn at_tok(toks: &Vec<SpannedToken>, i: usize, k: &Token) -> (b: bool)
    requires
        plain(*k),
    ensures
        b == at(toks@, i as int, *k),
{
    i < toks.len() && same_plain(&toks[i].token, k)
}

fn parse_factor(toks: &Vec<SpannedToken>, i: usize) -> (r: Result<(Expr, usize), usize>)
    ensures
        r matches Ok((e, _)) ==> expr_plain(e),
        expr_res(r) == factor(toks@, i as int),
    decreases toks@.len() - i, 0int,
{
    if i >= toks.len() {
        return Err(i);
    }
    let p = position(toks, i);
    match &toks[i].token {
        Token::Integer(v) => Ok((Expr::Literal(TypeValue::Integer((*v, p))), i + 1)),
        Token::Float(s) => Ok((Expr::Literal(TypeValue::Float((FloatValue::Literal(s.clone()), p))), i + 1)),
        Token::Char(c) => Ok((Expr::Literal(TypeValue::Char((*c, p))), i + 1)),
        Token::Identifier(n) => {
            if at_tok(toks, i + 1, &Token::OpenBracket) {
                match parse_expr(toks, i + 2) {
                    Err(k) => Err(k),
                    Ok((e, j)) => {
                        if at_tok(toks, j, &Token::CloseBracket) {
                            Ok((Expr::SUBS((n.clone(), p), Box::new(e)), j + 1))
                        } else {
                            Err(j)
                        }
                    },
                }
            } else {
                Ok((Expr::Variable((n.clone(), p)), i + 1))
            }
        },
        Token::OpenParen => match parse_expr(toks, i + 1) {
            Err(k) => Err(k),
            Ok((e, j)) => {
                if at_tok(toks, j, &Token::CloseParen) {
                    Ok((e, j + 1))
                } else {
                    Err(j)
                }
            },
        },
        _ => Err(i),
    }
}

fn mul_op_at(toks: &Vec<SpannedToken>, i: usize) -> (r: Option<BinOp>)
    ensures
        r == mul_op(toks@, i as int),
        r is Some ==> i < toks@.len(),
{
    if i < toks.len() {
        let p = position(toks, i);
        match &toks[i].token {
            Token::Multiply => Some(BinOp::Mul(p.0, p.1)),
            Token::Divide => Some(BinOp::Div(p.0, p.1)),
            _ => None,
        }
    } else {
        None
    }
}

fn add_op_at(toks: &Vec<SpannedToken>, i: usize) -> (r: Option<BinOp>)
    ensures
        r == add_op(toks@, i as int),
        r is Some ==> i < toks@.len(),
{
    if i < toks.len() {
        let p = position(toks, i);
        match &toks[i].token {
            Token::Plus => Some(BinOp::Add(p.0, p.1)),
            Token::Minus => Some(BinOp::Sub(p.0, p.1)),
            _ => None,
        }
    } else {
        None
    }
}

fn parse_term_rest(toks: &Vec<SpannedToken>, i: usize, acc: Expr) -> (r: Result<(Expr, usize), usize>)
    requires
        expr_plain(acc),
    ensures
        r matches Ok((e, _)) ==> expr_plain(e),
        expr_res(r) == term_rest(toks@, i as int, expr_v(acc)),
    decreases toks@.len() - i, 1int,
{
    let n = toks.len();
    match mul_op_at(toks, i) {
        None => Ok((acc, i)),
        Some(op) => match parse_factor(toks, i + 1) {
            Err(k) => Err(k),
            Ok((f, j)) => {
                if i + 1 < j && j <= toks.len() {
                    parse_term_rest(toks, j, Expr::BinaryOp(Box::new(acc), op, Box::new(f)))
                } else {
                    Err(j)
                }
            },
        },
    }
}

fn parse_term(toks: &Vec<SpannedToken>, i: usize) -> (r: Result<(Expr, usize), usize>)
    ensures
        r matches Ok((e, _)) ==> expr_plain(e),
        expr_res(r) == term(toks@, i as int),
    decreases toks@.len() - i, 2int,
{
    match parse_factor(toks, i) {
        Err(k) => Err(k),
        Ok((f, j)) => {
            if i < j && j <= toks.len() {
                parse_term_rest(toks, j, f)
            } else {
                Err(j)
            }
        },
    }
}

fn parse_expr_rest(toks: &Vec<SpannedToken>, i: usize, acc: Expr) -> (r: Result<(Expr, usize), usize>)
    requires
        expr_plain(acc),
    ensures
        r matches Ok((e, _)) ==> expr_plain(e),
        expr_res(r) == expr_rest(toks@, i as int, expr_v(acc)),
    decreases toks@.len() - i, 3int,
{
    let n = toks.len();
    match add_op_at(toks, i) {
        None => Ok((acc, i)),
        Some(op) => match parse_term(toks, i + 1) {
            Err(k) => Err(k),
            Ok((f, j)) => {
                if i + 1 < j && j <= toks.len() {
                    parse_expr_rest(toks, j, Expr::BinaryOp(Box::new(acc), op, Box::new(f)))
                } else {
                    Err(j)
                }
            },
        },
    }
}

/// Reads an expression from `i`.
pub fn parse_expr(toks: &Vec<SpannedToken>, i: usize) -> (r: Result<(Expr, usize), usize>)
    ensures
        r matches Ok((e, _)) ==> expr_plain(e),
        expr_res(r) == expr(toks@, i as int),
    decreases toks@.len() - i, 4int,
{
    if i > toks.len() {
        return Err(i);
    }
    match parse_term(toks, i) {
        Err(k) => Err(k),
        Ok((f, j)) => {
            if i < j && j <= toks.len() {
                parse_expr_rest(toks, j, f)
            } else {
                Err(j)
            }
        },
    }
}

pub open spec fn cond_res(r: Result<(Condition, usize), usize>) -> Result<(CondV, int), int> {
    match r {
        Ok((c, j)) => Ok((cond_v(c), j as int)),
        Err(k) => Err(k as int),
    }
}

fn rel_op_at(toks: &Vec<SpannedToken>, i: usize) -> (r: Option<RelOp>)
    ensures
        r == rel_op(toks@, i as int),
        r is Some ==> i < toks@.len(),
{
    if i < toks.len() {
        let p = position(toks, i);
        match &toks[i].token {
            Token::GreaterThan => Some(RelOp::Gt(p.0, p.1)),
            Token::LessThan => Some(RelOp::Lt(p.0, p.1)),
            Token::GreaterEqual => Some(RelOp::Ge(p.0, p.1)),
            Token::LessEqual => Some(RelOp::Le(p.0, p.1)),
            Token::Equal => Some(RelOp::Eq(p.0, p.1)),
            Token::NotEqual => Some(RelOp::Ne(p.0, p.1)),
            _ => None,
        }
    } else {
        None
    }
}

fn parse_basic(toks: &Vec<SpannedToken>, i: usize) -> (r: Result<(Condition, usize), usize>)
    ensures
        r matches Ok((c, _)) ==> cond_plain(c),
        cond_res(r) == basic(toks@, i as int),
{
    let n = toks.len();
    match parse_expr(toks, i) {
        Err(k) => Err(k),
        Ok((l, j)) => match rel_op_at(toks, j) {
            None => Err(j),
            Some(op) => match parse_expr(toks, j + 1) {
                Err(k) => Err(k),
                Ok((r, k)) => Ok((Condition::Basic(BasicCond::new(l, op, r)), k)),
            },
        },
    }
}

fn parse_neg(toks: &Vec<SpannedToken>, i: usize) -> (r: Result<(Condition, usize), usize>)
    ensures
        r matches Ok((c, _)) ==> cond_plain(c),
        cond_res(r) == neg(toks@, i as int),
    decreases toks@.len() - i, 0int,
{
    let n = toks.len();
    if at_tok(toks, i, &Token::Not) {
        match parse_neg(toks, i + 1) {
            Err(k) => Err(k),
            Ok((c, j)) => Ok((Condition::Not(Box::new(c)), j)),
        }
    } else {
        match parse_basic(toks, i) {
            Ok(r) => Ok(r),
            Err(k) => {
                if at_tok(toks, i, &Token::OpenParen) {
                    match parse_cond(toks, i + 1) {
                        Err(k2) => Err(k2),
                        Ok((c, j)) => {
                            if at_tok(toks, j, &Token::CloseParen) {
                                Ok((c, j + 1))
                            } else {
                                Err(j)
                            }
                        },
                    }
                } else {
                    Err(k)
                }
            },
        }
    }
}

fn parse_conj_rest(toks: &Vec<SpannedToken>, i: usize, acc: Condition) -> (r: Result<(Condition, usize), usize>)
    requires
        cond_plain(acc),
    ensures
        r matches Ok((c, _)) ==> cond_plain(c),
        cond_res(r) == conj_rest(toks@, i as int, cond_v(acc)),
    decreases toks@.len() - i, 1int,
{
    let n = toks.len();
    if at_tok(toks, i, &Token::And) {
        let p = position(toks, i);
        match parse_neg(toks, i + 1) {
            Err(k) => Err(k),
            Ok((c, j)) => {
                if i + 1 < j && j <= n {
                    parse_conj_rest(toks, j, Condition::Logic(Box::new(acc), LogOp::And(p.0, p.1), Box::new(c)))
                } else {
                    Err(j)
                }
            },
        }
    } else {
        Ok((acc, i))
    }
}

fn parse_conj(toks: &Vec<SpannedToken>, i: usize) -> (r: Result<(Condition, usize), usize>)
    ensures
        r matches Ok((c, _)) ==> cond_plain(c),
        cond_res(r) == conj(toks@, i as int),
    decreases toks@.len() - i, 2int,
{
    match parse_neg(toks, i) {
        Err(k) => Err(k),
        Ok((c, j)) => {
            if i < j && j <= toks.len() {
                parse_conj_rest(toks, j, c)
            } else {
                Err(j)
            }
        },
    }
}

fn parse_cond_rest(toks: &Vec<SpannedToken>, i: usize, acc: Condition) -> (r: Result<(Condition, usize), usize>)
    requires
        cond_plain(acc),
    ensures
        r matches Ok((c, _)) ==> cond_plain(c),
        cond_res(r) == cond_rest(toks@, i as int, cond_v(acc)),
    decreases toks@.len() - i, 3int,
{
    let n = toks.len();
    if at_tok(toks, i, &Token::Or) {
        let p = position(toks, i);
        match parse_conj(toks, i + 1) {
            Err(k) => Err(k),
            Ok((c, j)) => {
                if i + 1 < j && j <= n {
                    parse_cond_rest(toks, j, Condition::Logic(Box::new(acc), LogOp::Or(p.0, p.1), Box::new(c)))
                } else {
                    Err(j)
                }
            },
        }
    } else {
        Ok((acc, i))
    }
}

/// Reads a condition from `i`.
pub fn parse_cond(toks: &Vec<SpannedToken>, i: usize) -> (r: Result<(Condition, usize), usize>)
    ensures
        r matches Ok((c, _)) ==> cond_plain(c),
        cond_res(r) == cond(toks@, i as int),
    decreases toks@.len() - i, 4int,
{
    if i > toks.len() {
        return Err(i);
    }
    match parse_conj(toks, i) {
        Err(k) => Err(k),
        Ok((c, j)) => {
            if i < j && j <= toks.len() {
                parse_cond_rest(toks, j, c)
            } else {
                Err(j)
            }
        },
    }
}

/// The identifier at `i`, with its position.
fn ident_at(toks: &Vec<SpannedToken>, i: usize) -> (r: Option<(String, (usize, usize))>)
    ensures
        match r {
            Some((n, p)) => ident(toks@, i as int) == Some((n@, p)) && i < toks@.len(),
            None => ident(toks@, i as int) is None,
        },
{
    if i < toks.len() {
        match &toks[i].token {
            Token::Identifier(n) => Some((n.clone(), position(toks, i))),
            _ => None,
        }
    } else {
        None
    }
}

/// The string literal at `i`, with its position.
fn string_lit_at(toks: &Vec<SpannedToken>, i: usize) -> (r: Option<(String, (usize, usize))>)
    ensures
        match r {
            Some((s, p)) => string_at(toks@, i as int) == Some((s@, p)) && i < toks@.len(),
            None => string_at(toks@, i as int) is None,
        },
{
    if i < toks.len() {
        match &toks[i].token {
            Token::StringLiteral(s) => Some((s.clone(), position(toks, i))),
            _ => None,
        }
    } else {
        None
    }
}

/// Whether `s` starts and ends with a double quote (two distinct ones).
pub fn is_quoted(s: &String) -> (b: bool)
    ensures
        b == quoted(s@),
{
    let cs = chars_of(s.as_str());
    let n = cs.len();
    n >= 2 && cs[0] == '"' && cs[n - 1] == '"'
}

/// `s` without its first and last characters.
pub fn unquote(s: &String) -> (r: String)
    requires
        quoted(s@),
    ensures
        r@ == unquoted(s@),
{
    let cs = chars_of(s.as_str());
    string_of(&cs, 1, cs.len() - 1)
}

pub open spec fn index_res(r: Result<(Option<Expr>, usize), usize>) -> Result<(Option<ExprV>, int), int> {
    match r {
        Ok((e, j)) => Ok((opt_expr_v(e), j as int)),
        Err(k) => Err(k as int),
    }
}

fn parse_index_opt(toks: &Vec<SpannedToken>, i: usize) -> (r: Result<(Option<Expr>, usize), usize>)
    ensures
        r matches Ok((Some(e), _)) ==> expr_plain(e),
        index_res(r) == index_opt(toks@, i as int),
{
    let n = toks.len();
    if at_tok(toks, i, &Token::OpenBracket) {
        match parse_expr(toks, i + 1) {
            Err(k) => Err(k),
            Ok((e, j)) => {
                if at_tok(toks, j, &Token::CloseBracket) {
                    Ok((Some(e), j + 1))
                } else {
                    Err(j)
                }
            },
        }
    } else {
        Ok((None, i))
    }
}

pub open spec fn inst_res(r: Result<(Instruction, usize), usize>) -> Result<(InstV, int), int> {
    match r {
        Ok((s, j)) => Ok((inst_v(s), j as int)),
        Err(k) => Err(k as int),
    }
}

pub open spec fn insts_res(r: Result<(Vec<Instruction>, usize), usize>) -> Result<(Seq<InstV>, int), int> {
    match r {
        Ok((v, j)) => Ok((insts_v(v@), j as int)),
        Err(k) => Err(k as int),
    }
}

fn parse_assign_inst(toks: &Vec<SpannedToken>, i: usize) -> (r: Result<(Instruction, usize), usize>)
    ensures
        r matches Ok((s, _)) ==> inst_plain(s),
        inst_res(r) == assign_inst(toks@, i as int),
{
    let n = toks.len();
    match ident_at(toks, i) {
        None => Err(i),
        Some(v) => match parse_index_opt(toks, i + 1) {
            Err(k) => Err(k),
            Ok((ix, j)) => {
                if at_tok(toks, j, &Token::Plus) && j + 1 < n && at_tok(toks, j + 1, &Token::Assign) {
                    let p = position(toks, j);
                    match parse_expr(toks, j + 2) {
                        Err(k) => Err(k),
                        Ok((e, k)) => {
                            if at_tok(toks, k, &Token::Semicolon) {
                                let target = match &ix {
                                    Some(x) => Expr::SUBS((v.0.clone(), (v.1.0, v.1.1)), Box::new(x.copy())),
                                    None => Expr::Variable((v.0.clone(), (v.1.0, v.1.1))),
                                };
                                let ghost tv = expr_v(target);
                                assert(tv == match opt_expr_v(ix) {
                                    Some(x) => ExprV::Subs(v.0@, v.1, Box::new(x)),
                                    None => ExprV::Var(v.0@, v.1),
                                });
                                let sum = Expr::BinaryOp(Box::new(target), BinOp::Add(p.0, p.1), Box::new(e));
                                assert(expr_v(sum) == added((v.0@, v.1), opt_expr_v(ix), p, expr_v(e)));
                                assert(expr_plain(target) == (ix matches Some(x) ==> expr_plain(x)));
                                Ok((Instruction::Assign(Assignment::new(v, ix, sum)), k + 1))
                            } else {
                                Err(k)
                            }
                        },
                    }
                } else if !at_tok(toks, j, &Token::Assign) {
                    Err(j)
                } else {
                    match parse_expr(toks, j + 1) {
                        Err(k) => Err(k),
                        Ok((e, k)) => {
                            if at_tok(toks, k, &Token::Semicolon) {
                                Ok((Instruction::Assign(Assignment::new(v, ix, e)), k + 1))
                            } else {
                                Err(k)
                            }
                        },
                    }
                }
            },
        },
    }
}

fn parse_read_inst(toks: &Vec<SpannedToken>, i: usize) -> (r: Result<(Instruction, usize), usize>)
    requires
        i < toks@.len(),
    ensures
        r matches Ok((s, _)) ==> inst_plain(s),
        inst_res(r) == read_inst(toks@, i as int),
{
    let n = toks.len();
    if !at_tok(toks, i + 1, &Token::OpenParen) {
        return Err(i + 1);
    }
    match ident_at(toks, i + 2) {
        None => Err(i + 2),
        Some(v) => match parse_index_opt(toks, i + 3) {
            Err(k) => Err(k),
            Ok((ix, j)) => {
                if !at_tok(toks, j, &Token::CloseParen) {
                    Err(j)
                } else if !at_tok(toks, j + 1, &Token::Semicolon) {
                    Err(j + 1)
                } else {
                    Ok((Instruction::Read(ReadStmt::new(v, ix)), j + 2))
                }
            },
        },
    }
}

pub open spec fn elem_res(r: Result<(WriteElement, usize), usize>) -> Result<(WriteV, int), int> {
    match r {
        Ok((e, j)) => Ok((write_v(e), j as int)),
        Err(k) => Err(k as int),
    }
}

pub open spec fn elems_res(r: Result<(Vec<WriteElement>, usize), usize>) -> Result<(Seq<WriteV>, int), int> {
    match r {
        Ok((v, j)) => Ok((writes_v(v@), j as int)),
        Err(k) => Err(k as int),
    }
}

fn parse_write_elem(toks: &Vec<SpannedToken>, i: usize) -> (r: Result<(WriteElement, usize), usize>)
    ensures
        elem_res(r) == write_elem(toks@, i as int),
{
    let n = toks.len();
    match string_lit_at(toks, i) {
        Some((s, p)) => {
            if is_quoted(&s) {
                Ok((WriteElement::String((unquote(&s), p)), i + 1))
            } else {
                Err(i)
            }
        },
        None => match ident_at(toks, i) {
            None => Err(i),
            Some(v) => match parse_index_opt(toks, i + 1) {
                Err(k) => Err(k),
                Ok((ix, j)) => Ok((WriteElement::Variable(v, ix), j)),
            },
        },
    }
}

fn parse_write_elems(toks: &Vec<SpannedToken>, i: usize, acc: Vec<WriteElement>) -> (r: Result<(Vec<WriteElement>, usize), usize>)
    ensures
        elems_res(r) == write_elems(toks@, i as int, writes_v(acc@)),
    decreases toks@.len() - i,
{
    let n = toks.len();
    match parse_write_elem(toks, i) {
        Err(k) => Err(k),
        Ok((e, j)) => {
            if !(i < j && j <= n) {
                Err(j)
            } else if at_tok(toks, j, &Token::Comma) {
                let ghost before = acc@;
                let mut acc = acc;
                acc.push(e);
                assert(acc@.drop_last() =~= before);
                parse_write_elems(toks, j + 1, acc)
            } else if at_tok(toks, j, &Token::CloseParen) {
                let ghost before = acc@;
                let mut acc = acc;
                acc.push(e);
                assert(acc@.drop_last() =~= before);
                Ok((acc, j + 1))
            } else {
                Err(j)
            }
        },
    }
}

fn parse_write_inst(toks: &Vec<SpannedToken>, i: usize) -> (r: Result<(Instruction, usize), usize>)
    requires
        i < toks@.len(),
    ensures
        r matches Ok((s, _)) ==> inst_plain(s),
        inst_res(r) == write_inst(toks@, i as int),
{
    let n = toks.len();
    if !at_tok(toks, i + 1, &Token::OpenParen) {
        return Err(i + 1);
    }
    let start: Vec<WriteElement> = Vec::new();
    assert(writes_v(start@) =~= Seq::<WriteV>::empty());
    match parse_write_elems(toks, i + 2, start) {
        Err(k) => Err(k),
        Ok((es, j)) => {
            if at_tok(toks, j, &Token::Semicolon) {
                Ok((Instruction::Write(WriteStmt::new(es)), j + 1))
            } else {
                Err(j)
            }
        },
    }
}

fn parse_block(toks: &Vec<SpannedToken>, i: usize) -> (r: Result<(Vec<Instruction>, usize), usize>)
    ensures
        r matches Ok((v, _)) ==> insts_plain(v@),
        insts_res(r) == block(toks@, i as int),
    decreases toks@.len() - i, 0int,
{
    let n = toks.len();
    if !at_tok(toks, i, &Token::OpenBrace) {
        return Err(i);
    }
    match parse_insts(toks, i + 1) {
        Err(k) => Err(k),
        Ok((b, j)) => Ok((b, j + 1)),
    }
}

fn parse_if_inst(toks: &Vec<SpannedToken>, i: usize) -> (r: Result<(Instruction, usize), usize>)
    requires
        i < toks@.len(),
    ensures
        r matches Ok((s, _)) ==> inst_plain(s),
        inst_res(r) == if_inst(toks@, i as int),
    decreases toks@.len() - i, 1int,
{
    let n = toks.len();
    if !at_tok(toks, i + 1, &Token::OpenParen) {
        return Err(i + 1);
    }
    match parse_cond(toks, i + 2) {
        Err(k) => Err(k),
        Ok((c, j)) => {
            if !at_tok(toks, j, &Token::CloseParen) || j <= i {
                return Err(j);
            }
            match parse_block(toks, j + 1) {
                Err(k) => Err(k),
                Ok((tb, k)) => {
                    if !at_tok(toks, k, &Token::Else) {
                        Ok((Instruction::If(IfStmt::new(c, tb, None)), k))
                    } else if k <= i {
                        Err(k)
                    } else {
                        match parse_block(toks, k + 1) {
                            Err(m) => Err(m),
                            Ok((eb, m)) => Ok((Instruction::If(IfStmt::new(c, tb, Some(eb))), m)),
                        }
                    }
                },
            }
        },
    }
}

fn parse_for_inst(toks: &Vec<SpannedToken>, i: usize) -> (r: Result<(Instruction, usize), usize>)
    requires
        i < toks@.len(),
    ensures
        r matches Ok((s, _)) ==> inst_plain(s),
        inst_res(r) == for_inst(toks@, i as int),
    decreases toks@.len() - i, 1int,
{
    let n = toks.len();
    if !at_tok(toks, i + 1, &Token::OpenParen) {
        return Err(i + 1);
    }
    let v = match ident_at(toks, i + 2) {
        None => return Err(i + 2),
        Some(v) => v,
    };
    if !at_tok(toks, i + 3, &Token::Assign) {
        return Err(i + 3);
    }
    let (start, j) = match parse_expr(toks, i + 4) {
        Err(k) => return Err(k),
        Ok(x) => x,
    };
    if !at_tok(toks, j, &Token::Colon) {
        return Err(j);
    }
    let (step, k) = match parse_expr(toks, j + 1) {
        Err(k) => return Err(k),
        Ok(x) => x,
    };
    if !at_tok(toks, k, &Token::Colon) {
        return Err(k);
    }
    let (bound, m) = match parse_expr(toks, k + 1) {
        Err(m) => return Err(m),
        Ok(x) => x,
    };
    if !at_tok(toks, m, &Token::CloseParen) || m <= i {
        return Err(m);
    }
    match parse_block(toks, m + 1) {
        Err(q) => Err(q),
        Ok((body, q)) => Ok((
            Instruction::For(ForStmt::new(Assignment::new(v, None, start), step, bound, body)),
            q,
        )),
    }
}

fn parse_inst(toks: &Vec<SpannedToken>, i: usize) -> (r: Result<(Instruction, usize), usize>)
    ensures
        r matches Ok((s, _)) ==> inst_plain(s),
        inst_res(r) == inst(toks@, i as int),
    decreases toks@.len() - i, 2int,
{
    if i >= toks.len() {
        return Err(i);
    }
    match &toks[i].token {
        Token::If => parse_if_inst(toks, i),
        Token::For => parse_for_inst(toks, i),
        Token::Read => parse_read_inst(toks, i),
        Token::Write => parse_write_inst(toks, i),
        Token::Identifier(_) => parse_assign_inst(toks, i),
        _ => Err(i),
    }
}

/// Reads instructions from `i0` up to a closing brace, which is where the
/// result ends.
fn parse_insts(toks: &Vec<SpannedToken>, i0: usize) -> (r: Result<(Vec<Instruction>, usize), usize>)
    ensures
        r matches Ok((v, _)) ==> insts_plain(v@),
        insts_res(r) == insts(toks@, i0 as int, Seq::empty()),
        r matches Ok((_, j)) ==> j < toks@.len(),
    decreases toks@.len() - i0, 3int,
{
    let n = toks.len();
    let mut acc: Vec<Instruction> = Vec::new();
    let mut i = i0;
    assert(insts_v(acc@) =~= Seq::<InstV>::empty());
    loop
        invariant
            n == toks@.len(),
            i0 <= i,
            insts(toks@, i0 as int, Seq::empty()) == insts(toks@, i as int, insts_v(acc@)),
            insts_plain(acc@),
        decreases n - i,
    {
        if i >= n {
            return Err(i);
        }
        if at_tok(toks, i, &Token::CloseBrace) {
            return Ok((acc, i));
        }
        match parse_inst(toks, i) {
            Err(k) => {
                return Err(k);
            },
            Ok((s, j)) => {
                if !(i < j && j <= n) {
                    return Err(j);
                }
                let ghost before = acc@;
                acc.push(s);
                assert(acc@.drop_last() =~= before);
                i = j;
            },
        }
    }
}

fn type_at_tok(toks: &Vec<SpannedToken>, i: usize) -> (r: Option<Type>)
    ensures
        r == type_at(toks@, i as int),
        r is Some ==> i < toks@.len(),
{
    if i < toks.len() {
        match &toks[i].token {
            Token::IntegerType => Some(Type::Integer),
            Token::FloatType => Some(Type::Float),
            Token::CharType => Some(Type::Char),
            _ => None,
        }
    } else {
        None
    }
}

pub open spec fn var_res(r: Result<(Variable, usize), usize>) -> Result<(VarV, int), int> {
    match r {
        Ok((v, j)) => Ok((var_v(v), j as int)),
        Err(k) => Err(k as int),
    }
}

pub open spec fn vars_res(r: Result<(Vec<Variable>, usize), usize>) -> Result<(Seq<VarV>, int), int> {
    match r {
        Ok((v, j)) => Ok((vars_v(v@), j as int)),
        Err(k) => Err(k as int),
    }
}

fn parse_var_item(toks: &Vec<SpannedToken>, i: usize) -> (r: Result<(Variable, usize), usize>)
    ensures
        r matches Ok((v, _)) ==> var_plain(v),
        var_res(r) == var_item(toks@, i as int),
{
    let n = toks.len();
    match ident_at(toks, i) {
        None => Err(i),
        Some(v) => {
            if at_tok(toks, i + 1, &Token::Assign) {
                match parse_expr(toks, i + 2) {
                    Err(k) => Err(k),
                    Ok((e, j)) => Ok((Variable::Initialized(v, e), j)),
                }
            } else {
                Ok((Variable::Simple(v), i + 1))
            }
        },
    }
}

fn parse_var_items(toks: &Vec<SpannedToken>, i: usize, acc: Vec<Variable>) -> (r: Result<(Vec<Variable>, usize), usize>)
    requires
        forall|k: int| 0 <= k < acc@.len() ==> #[trigger] var_plain(acc@[k]),
    ensures
        r matches Ok((v, _)) ==> forall|k: int| 0 <= k < v@.len() ==> #[trigger] var_plain(v@[k]),
        vars_res(r) == var_items(toks@, i as int, vars_v(acc@)),
    decreases toks@.len() - i,
{
    let n = toks.len();
    match parse_var_item(toks, i) {
        Err(k) => Err(k),
        Ok((v, j)) => {
            if !(i < j && j <= n) {
                Err(j)
            } else if at_tok(toks, j, &Token::Comma) {
                let ghost before = acc@;
                let mut acc = acc;
                acc.push(v);
                assert(acc@.drop_last() =~= before);
                parse_var_items(toks, j + 1, acc)
            } else if at_tok(toks, j, &Token::Semicolon) {
                let ghost before = acc@;
                let mut acc = acc;
                acc.push(v);
                assert(acc@.drop_last() =~= before);
                Ok((acc, j + 1))
            } else {
                Err(j)
            }
        },
    }
}

pub open spec fn exprs_res(r: Result<(Vec<Expr>, usize), usize>) -> Result<(Seq<ExprV>, int), int> {
    match r {
        Ok((v, j)) => Ok((exprs_v(v@), j as int)),
        Err(k) => Err(k as int),
    }
}

fn parse_expr_list(toks: &Vec<SpannedToken>, i: usize, acc: Vec<Expr>) -> (r: Result<(Vec<Expr>, usize), usize>)
    requires
        forall|k: int| 0 <= k < acc@.len() ==> #[trigger] expr_plain(acc@[k]),
    ensures
        r matches Ok((v, _)) ==> forall|k: int| 0 <= k < v@.len() ==> #[trigger] expr_plain(v@[k]),
        exprs_res(r) == expr_list(toks@, i as int, exprs_v(acc@)),
        r matches Ok((v, _)) ==> v@.len() > 0,
    decreases toks@.len() - i,
{
    let n = toks.len();
    match parse_expr(toks, i) {
        Err(k) => Err(k),
        Ok((e, j)) => {
            if !(i < j && j <= n) {
                Err(j)
            } else if at_tok(toks, j, &Token::Comma) {
                let ghost before = acc@;
                let mut acc = acc;
                acc.push(e);
                assert(acc@.drop_last() =~= before);
                parse_expr_list(toks, j + 1, acc)
            } else if at_tok(toks, j, &Token::CloseBracket) {
                let ghost before = acc@;
                let mut acc = acc;
                acc.push(e);
                assert(acc@.drop_last() =~= before);
                Ok((acc, j + 1))
            } else {
                Err(j)
            }
        },
    }
}

pub open spec fn arr_res(r: Result<(ArrayDecl, usize), usize>) -> Result<(ArrV, int), int> {
    match r {
        Ok((v, j)) => Ok((arr_v(v), j as int)),
        Err(k) => Err(k as int),
    }
}

pub open spec fn arrs_res(r: Result<(Vec<ArrayDecl>, usize), usize>) -> Result<(Seq<ArrV>, int), int> {
    match r {
        Ok((v, j)) => Ok((arrs_v(v@), j as int)),
        Err(k) => Err(k as int),
    }
}

fn parse_arr_item(toks: &Vec<SpannedToken>, i: usize) -> (r: Result<(ArrayDecl, usize), usize>)
    ensures
        r matches Ok((a, _)) ==> array_plain(a),
        arr_res(r) == arr_item(toks@, i as int),
        r matches Ok((a, _)) ==> array_decl_wf(a),
{
    let n = toks.len();
    let v = match ident_at(toks, i) {
        None => return Err(i),
        Some(v) => v,
    };
    if !at_tok(toks, i + 1, &Token::OpenBracket) {
        return Err(i + 1);
    }
    let (size, j) = match parse_expr(toks, i + 2) {
        Err(k) => return Err(k),
        Ok(x) => x,
    };
    if !at_tok(toks, j, &Token::CloseBracket) {
        Err(j)
    } else if !at_tok(toks, j + 1, &Token::Assign) {
        Ok((ArrayDecl::Simple(v, size), j + 1))
    } else if at_tok(toks, j + 2, &Token::OpenBracket) {
        let start: Vec<Expr> = Vec::new();
        assert(exprs_v(start@) =~= Seq::<ExprV>::empty());
        match parse_expr_list(toks, j + 3, start) {
            Err(k) => Err(k),
            Ok((vs, k)) => Ok((ArrayDecl::Initialized(v, size, vs), k)),
        }
    } else {
        match string_lit_at(toks, j + 2) {
            Some((s, q)) => {
                if is_quoted(&s) {
                    Ok((ArrayDecl::InitializedString(v, size, (s, q)), j + 3))
                } else {
                    Err(j + 2)
                }
            },
            None => Err(j + 2),
        }
    }
}

fn parse_arr_items(toks: &Vec<SpannedToken>, i: usize, acc: Vec<ArrayDecl>) -> (r: Result<(Vec<ArrayDecl>, usize), usize>)
    requires
        forall|k: int| 0 <= k < acc@.len() ==> #[trigger] array_plain(acc@[k]),
        forall|k: int| 0 <= k < acc@.len() ==> #[trigger] array_decl_wf(acc@[k]),
    ensures
        r matches Ok((v, _)) ==> forall|k: int| 0 <= k < v@.len() ==> #[trigger] array_plain(v@[k]),
        arrs_res(r) == arr_items(toks@, i as int, arrs_v(acc@)),
        r matches Ok((v, _)) ==> forall|k: int| 0 <= k < v@.len() ==> #[trigger] array_decl_wf(v@[k]),
    decreases toks@.len() - i,
{
    let n = toks.len();
    match parse_arr_item(toks, i) {
        Err(k) => Err(k),
        Ok((v, j)) => {
            if !(i < j && j <= n) {
                Err(j)
            } else if at_tok(toks, j, &Token::Comma) {
                let ghost before = acc@;
                let mut acc = acc;
                acc.push(v);
                assert(acc@.drop_last() =~= before);
                parse_arr_items(toks, j + 1, acc)
            } else if at_tok(toks, j, &Token::Semicolon) {
                let ghost before = acc@;
                let mut acc = acc;
                acc.push(v);
                assert(acc@.drop_last() =~= before);
                Ok((acc, j + 1))
            } else {
                Err(j)
            }
        },
    }
}

pub open spec fn const_res(r: Result<(Assignment, usize), usize>) -> Result<(AssignV, int), int> {
    match r {
        Ok((v, j)) => Ok((assign_v(v), j as int)),
        Err(k) => Err(k as int),
    }
}

pub open spec fn consts_res(r: Result<(Vec<Assignment>, usize), usize>) -> Result<(Seq<AssignV>, int), int> {
    match r {
        Ok((v, j)) => Ok((assigns_v(v@), j as int)),
        Err(k) => Err(k as int),
    }
}

fn parse_const_item(toks: &Vec<SpannedToken>, i: usize) -> (r: Result<(Assignment, usize), usize>)
    ensures
        r matches Ok((a, _)) ==> expr_plain(a.expr),
        const_res(r) == const_item(toks@, i as int),
{
    let n = toks.len();
    match ident_at(toks, i) {
        None => Err(i),
        Some(v) => {
            if !at_tok(toks, i + 1, &Token::Assign) {
                Err(i + 1)
            } else {
                match parse_expr(toks, i + 2) {
                    Err(k) => Err(k),
                    Ok((e, j)) => Ok((Assignment::new(v, None, e), j)),
                }
            }
        },
    }
}

fn parse_const_items(toks: &Vec<SpannedToken>, i: usize, acc: Vec<Assignment>) -> (r: Result<(Vec<Assignment>, usize), usize>)
    requires
        forall|k: int| 0 <= k < acc@.len() ==> #[trigger] expr_plain(acc@[k].expr),
    ensures
        r matches Ok((v, _)) ==> forall|k: int| 0 <= k < v@.len() ==> #[trigger] expr_plain(v@[k].expr),
        consts_res(r) == const_items(toks@, i as int, assigns_v(acc@)),
    decreases toks@.len() - i,
{
    let n = toks.len();
    match parse_const_item(toks, i) {
        Err(k) => Err(k),
        Ok((v, j)) => {
            if !(i < j && j <= n) {
                Err(j)
            } else if at_tok(toks, j, &Token::Comma) {
                let ghost before = acc@;
                let mut acc = acc;
                acc.push(v);
                assert(acc@.drop_last() =~= before);
                parse_const_items(toks, j + 1, acc)
            } else if at_tok(toks, j, &Token::Semicolon) {
                let ghost before = acc@;
                let mut acc = acc;
                acc.push(v);
                assert(acc@.drop_last() =~= before);
                Ok((acc, j + 1))
            } else {
                Err(j)
            }
        },
    }
}

pub open spec fn decl_res(r: Result<(Declaration, usize), usize>) -> Result<(DeclV, int), int> {
    match r {
        Ok((d, j)) => Ok((decl_v(d), j as int)),
        Err(k) => Err(k as int),
    }
}

pub open spec fn decls_res(r: Result<(Vec<Declaration>, usize), usize>) -> Result<(Seq<DeclV>, int), int> {
    match r {
        Ok((v, j)) => Ok((decls_v(v@), j as int)),
        Err(k) => Err(k as int),
    }
}

fn parse_decl(toks: &Vec<SpannedToken>, i: usize) -> (r: Result<(Declaration, usize), usize>)
    ensures
        r matches Ok((d, _)) ==> decl_plain(d),
        decl_res(r) == decl(toks@, i as int),
        r matches Ok((d, _)) ==> declaration_wf(d),
{
    let n = toks.len();
    if at_tok(toks, i, &Token::Const) {
        match type_at_tok(toks, i + 1) {
            None => Err(i + 1),
            Some(ty) => {
                let start: Vec<Assignment> = Vec::new();
                assert(assigns_v(start@) =~= Seq::<AssignV>::empty());
                match parse_const_items(toks, i + 2, start) {
                    Err(k) => Err(k),
                    Ok((cs, j)) => Ok((Declaration::Constant(ty, cs), j)),
                }
            },
        }
    } else {
        match type_at_tok(toks, i) {
            None => Err(i),
            Some(ty) => {
                if i + 1 < n && at_tok(toks, i + 2, &Token::OpenBracket) {
                    let start: Vec<ArrayDecl> = Vec::new();
                    assert(arrs_v(start@) =~= Seq::<ArrV>::empty());
                    match parse_arr_items(toks, i + 1, start) {
                        Err(k) => Err(k),
                        Ok((vs, j)) => Ok((Declaration::ADEC(ty, vs), j)),
                    }
                } else {
                    let start: Vec<Variable> = Vec::new();
                    assert(vars_v(start@) =~= Seq::<VarV>::empty());
                    match parse_var_items(toks, i + 1, start) {
                        Err(k) => Err(k),
                        Ok((vs, j)) => Ok((Declaration::Variable(ty, vs), j)),
                    }
                }
            },
        }
    }
}

/// Reads declarations from `i0` up to a closing brace, which is where the
/// result ends.
fn parse_decls(toks: &Vec<SpannedToken>, i0: usize) -> (r: Result<(Vec<Declaration>, usize), usize>)
    ensures
        r matches Ok((v, _)) ==> decls_plain(v@),
        decls_res(r) == decls(toks@, i0 as int, Seq::empty()),
        r matches Ok((v, j)) ==> j < toks@.len() && declarations_wf(v@),
{
    let n = toks.len();
    let mut acc: Vec<Declaration> = Vec::new();
    let mut i = i0;
    assert(decls_v(acc@) =~= Seq::<DeclV>::empty());
    loop
        invariant
            n == toks@.len(),
            i0 <= i,
            decls(toks@, i0 as int, Seq::empty()) == decls(toks@, i as int, decls_v(acc@)),
            decls_plain(acc@),
            declarations_wf(acc@),
        decreases n - i,
    {
        if i >= n {
            return Err(i);
        }
        if at_tok(toks, i, &Token::CloseBrace) {
            return Ok((acc, i));
        }
        match parse_decl(toks, i) {
            Err(k) => {
                return Err(k);
            },
            Ok((d, j)) => {
                if !(i < j && j <= n) {
                    return Err(j);
                }
                let ghost before = acc@;
                acc.push(d);
                assert(acc@.drop_last() =~= before);
                i = j;
            },
        }
    }
}

pub open spec fn section_res(r: Result<(Option<Vec<Declaration>>, usize), usize>) -> Result<(Option<Seq<DeclV>>, int), int> {
    match r {
        Ok((Some(v), j)) => Ok((Some(decls_v(v@)), j as int)),
        Ok((None, j)) => Ok((None, j as int)),
        Err(k) => Err(k as int),
    }
}

fn parse_decl_section(toks: &Vec<SpannedToken>, i: usize, kw: &Token) -> (r: Result<(Option<Vec<Declaration>>, usize), usize>)
    requires
        plain(*kw),
    ensures
        r matches Ok((Some(v), _)) ==> decls_plain(v@),
        section_res(r) == decl_section(toks@, i as int, *kw),
        r matches Ok((Some(v), _)) ==> declarations_wf(v@),
{
    let n = toks.len();
    if !at_tok(toks, i, kw) {
        Ok((None, i))
    } else if !at_tok(toks, i + 1, &Token::OpenBrace) {
        Err(i + 1)
    } else {
        match parse_decls(toks, i + 2) {
            Err(k) => Err(k),
            Ok((ds, j)) => Ok((Some(ds), j + 1)),
        }
    }
}

pub open spec fn inst_section_res(r: Result<(Option<Vec<Instruction>>, usize), usize>) -> Result<(Option<Seq<InstV>>, int), int> {
    match r {
        Ok((Some(v), j)) => Ok((Some(insts_v(v@)), j as int)),
        Ok((None, j)) => Ok((None, j as int)),
        Err(k) => Err(k as int),
    }
}

fn parse_inst_section(toks: &Vec<SpannedToken>, i: usize) -> (r: Result<(Option<Vec<Instruction>>, usize), usize>)
    ensures
        r matches Ok((Some(v), _)) ==> insts_plain(v@),
        inst_section_res(r) == inst_section(toks@, i as int),
{
    let n = toks.len();
    if !at_tok(toks, i, &Token::Instruction) {
        Ok((None, i))
    } else {
        match parse_block(toks, i + 1) {
            Err(k) => Err(k),
            Ok((is, j)) => Ok((Some(is), j)),
        }
    }
}

/// Why a program could not be read.
#[derive(Debug, PartialEq)]
pub enum ParseError {
    /// The source text could not be split into tokens.
    Lexical(CustomError),
    /// The token at `index` (counted from 0), which starts at `line` and
    /// `column`, cannot stand where it is.
    UnexpectedToken { index: usize, line: usize, column: usize },
    /// The input ends where more was expected.
    UnexpectedEnd,
}

/// The error reported when reading fails at token `k`.
pub open spec fn syntax_error(t: Toks, k: int) -> ParseError {
    if 0 <= k < t.len() {
        ParseError::UnexpectedToken { index: k as usize, line: t[k].line, column: t[k].column }
    } else {
        ParseError::UnexpectedEnd
    }
}

/// `r` is what reading the tokens `t` as a program gives.
pub open spec fn parsed(t: Toks, r: Result<Program, ParseError>) -> bool {
    match r {
        Ok(p) => program(t) == Ok::<ProgramV, int>(program_v(p)) && program_wf(p) && program_plain(p),
        Err(e) => program(t) matches Err(k) && e == syntax_error(t, k),
    }
}

/// Reads whole programs.
pub struct ProgramParser {}

impl ProgramParser {
    pub fn new() -> (p: ProgramParser)
        ensures
            p == (ProgramParser {}),
    {
        ProgramParser {}
    }

    /// Reads a program from its tokens.
    pub fn parse_tokens(&self, toks: &Vec<SpannedToken>) -> (r: Result<Program, ParseError>)
        ensures
            parsed(toks@, r),
    {
        let n = toks.len();
        let (global, i) = match parse_decl_section(toks, 0, &Token::VarGlobal) {
            Err(k) => return Err(self.error_at(toks, k)),
            Ok(x) => x,
        };
        let (decls, j) = match parse_decl_section(toks, i, &Token::Declaration) {
            Err(k) => return Err(self.error_at(toks, k)),
            Ok(x) => x,
        };
        let (inst, k) = match parse_inst_section(toks, j) {
            Err(k) => return Err(self.error_at(toks, k)),
            Ok(x) => x,
        };
        if k != n {
            return Err(self.error_at(toks, k));
        }
        let p = Program::new(global, decls, inst);
        Ok(p)
    }

    fn error_at(&self, toks: &Vec<SpannedToken>, k: usize) -> (e: ParseError)
        ensures
            e == syntax_error(toks@, k as int),
    {
        if k < toks.len() {
            ParseError::UnexpectedToken { index: k, line: toks[k].line, column: toks[k].column }
        } else {
            ParseError::UnexpectedEnd
        }
    }

    /// Reads a program from its source text: splits it into tokens, then
    /// reads them.
    pub fn parse(&self, input: &str) -> (r: Result<Program, ParseError>)
        requires
            input@.len() < usize::MAX,
        ensures
            match r {
                Err(ParseError::Lexical(e)) => lex_fails(Dialect::Standard, input@, 0, e),
                _ => exists|t: Toks| lexes(Dialect::Standard, input@, 0, t) && parsed(t, r),
            },
    {
        match tokenize(Dialect::Standard, input) {
            Err(e) => Err(ParseError::Lexical(e)),
            Ok(toks) => {
                let r = self.parse_tokens(&toks);
                assert(lexes(Dialect::Standard, input@, 0, toks@) && parsed(toks@, r));
                r
            },
        }
    }
}

} // verus!
