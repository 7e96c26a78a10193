//! The grammar of the language, as functions from a token sequence and a
//! starting index to what is read there and the index just after it, or to
//! the index of the token where reading fails (the length of the sequence
//! when input ends too early).
//!
//! ```text
//! program  := [VAR_GLOBAL block_d] [DECLARATION block_d] [INSTRUCTION block_i] end
//! block_d  := '{' decl* '}'
//! decl     := CONST type Ident '=' expr (',' Ident '=' expr)* ';'
//!           | type var (',' var)* ';'
//!           | type arr (',' arr)* ';'
//! var      := Ident ['=' expr]
//! arr      := Ident '[' expr ']' ['=' ('[' expr (',' expr)* ']' | String)]
//! block_i  := '{' inst* '}'
//! inst     := Ident ['[' expr ']'] ['+'] '=' expr ';'
//!           | IF '(' cond ')' block_i [ELSE block_i]
//!           | FOR '(' Ident '=' expr ':' expr ':' expr ')' block_i
//!           | READ '(' Ident ['[' expr ']'] ')' ';'
//!           | WRITE '(' elem (',' elem)* ')' ';'
//! elem     := String | Ident ['[' expr ']']
//! cond     := conj ('||' conj)*
//! conj     := neg ('&&' neg)*
//! neg      := '!' neg | basic | '(' cond ')'
//! basic    := expr relop expr
//! expr     := term (('+' | '-') term)*
//! term     := factor (('*' | '/') factor)*
//! factor   := Integer | Float | Char | Ident ['[' expr ']'] | '(' expr ')'
//! ```
//!
//! Where `neg` can be read both as `basic` and as `'(' cond ')'`, it is read
//! as `basic`.  A string that initializes an array keeps its quotes; a string
//! written by WRITE loses them.  `x += e` reads as `x = x + e` (and
//! `x[i] += e` as `x[i] = x[i] + e`), the `+` placed where it is written.

use vstd::prelude::*;
use crate::ast::{BinOp, LogOp, RelOp, Type};
use crate::semantics::{quoted, unquoted};
use crate::syntax::{
    ArrV, AssignV, CondV, DeclV, ExprV, InstV, LitV, ProgramV, VarV, WriteV,
};
use crate::token::{SpannedToken, Token};

verus! {

pub type Toks = Seq<SpannedToken>;

/// Where the token at `i` starts.
pub open spec fn pos(t: Toks, i: int) -> (usize, usize) {
    (t[i].line, t[i].column)
}

/// The token at `i` exists and is `k`.
pub open spec fn at(t: Toks, i: int, k: Token) -> bool {
    0 <= i < t.len() && t[i].token == k
}

/// Reading from `i` ended at `j`, past `i` and within the input.
pub open spec fn advanced(t: Toks, i: int, j: int) -> bool {
    i < j <= t.len()
}

// ---------------------------------------------------------------- expressions

pub open spec fn factor(t: Toks, i: int) -> Result<(ExprV, int), int>
    decreases t.len() - i, 0int,
{
    if i < 0 || i >= t.len() {
        Err(i)
    } else {
        let p = pos(t, i);
        match t[i].token {
            Token::Integer(v) => Ok((ExprV::Lit(LitV::Int(v, p)), i + 1)),
            Token::Float(s) => Ok((ExprV::Lit(LitV::Flt(s@, p)), i + 1)),
            Token::Char(c) => Ok((ExprV::Lit(LitV::Chr(c, p)), i + 1)),
            Token::Identifier(n) => if at(t, i + 1, Token::OpenBracket) {
                match expr(t, i + 2) {
                    Err(k) => Err(k),
                    Ok((e, j)) => if at(t, j, Token::CloseBracket) {
                        Ok((ExprV::Subs(n@, p, Box::new(e)), j + 1))
                    } else {
                        Err(j)
                    },
                }
            } else {
                Ok((ExprV::Var(n@, p), i + 1))
            },
            Token::OpenParen => match expr(t, i + 1) {
                Err(k) => Err(k),
                Ok((e, j)) => if at(t, j, Token::CloseParen) {
                    Ok((e, j + 1))
                } else {
                    Err(j)
                },
            },
            _ => Err(i),
        }
    }
}

/// The multiplicative operator at `i`, if there is one.
pub open spec fn mul_op(t: Toks, i: int) -> Option<BinOp> {
    if 0 <= i < t.len() {
        let p = pos(t, i);
        match t[i].token {
            Token::Multiply => Some(BinOp::Mul(p.0, p.1)),
            Token::Divide => Some(BinOp::Div(p.0, p.1)),
            _ => None,
        }
    } else {
        None
    }
}

/// The additive operator at `i`, if there is one.
pub open spec fn add_op(t: Toks, i: int) -> Option<BinOp> {
    if 0 <= i < t.len() {
        let p = pos(t, i);
        match t[i].token {
            Token::Plus => Some(BinOp::Add(p.0, p.1)),
            Token::Minus => Some(BinOp::Sub(p.0, p.1)),
            _ => None,
        }
    } else {
        None
    }
}

/// The factors that follow `acc` from `i` on, each joined to what came
/// before it (operators associate to the left).
pub open spec fn term_rest(t: Toks, i: int, acc: ExprV) -> Result<(ExprV, int), int>
    decreases t.len() - i, 1int,
{
    match mul_op(t, i) {
        None => Ok((acc, i)),
        Some(op) => match factor(t, i + 1) {
            Err(k) => Err(k),
            Ok((f, j)) => if advanced(t, i + 1, j) {
                term_rest(t, j, ExprV::Bin(Box::new(acc), op, Box::new(f)))
            } else {
                Err(j)
            },
        },
    }
}

pub open spec fn term(t: Toks, i: int) -> Result<(ExprV, int), int>
    decreases t.len() - i, 2int,
{
    match factor(t, i) {
        Err(k) => Err(k),
        Ok((f, j)) => if advanced(t, i, j) {
            term_rest(t, j, f)
        } else {
            Err(j)
        },
    }
}

pub open spec fn expr_rest(t: Toks, i: int, acc: ExprV) -> Result<(ExprV, int), int>
    decreases t.len() - i, 3int,
{
    match add_op(t, i) {
        None => Ok((acc, i)),
        Some(op) => match term(t, i + 1) {
            Err(k) => Err(k),
            Ok((f, j)) => if advanced(t, i + 1, j) {
                expr_rest(t, j, ExprV::Bin(Box::new(acc), op, Box::new(f)))
            } else {
                Err(j)
            },
        },
    }
}

pub open spec fn expr(t: Toks, i: int) -> Result<(ExprV, int), int>
    decreases t.len() - i, 4int,
{
    if i < 0 || i > t.len() {
        Err(i)
    } else {
        match term(t, i) {
            Err(k) => Err(k),
            Ok((f, j)) => if advanced(t, i, j) {
                expr_rest(t, j, f)
            } else {
                Err(j)
            },
        }
    }
}

// ----------------------------------------------------------------- conditions

pub open spec fn rel_op(t: Toks, i: int) -> Option<RelOp> {
    if 0 <= i < t.len() {
        let p = pos(t, i);
        match t[i].token {
            Token::GreaterThan => Some(RelOp::Gt(p.0, p.1)),
            Token::LessThan => Some(RelOp::Lt(p.0, p.1)),
            Token::GreaterEqual => Some(RelOp::Ge(p.0, p.1)),
            Token::LessEqual => Some(RelOp::Le(p.0, p.1)),
            Token::Equal => Some(RelOp::Eq(p.0, p.1)),
            Token::NotEqual => Some(RelOp::Ne(p.0, p.1)),
            _ => None,
        }
    } else {
        None
    }
}

/// `expr relop expr`.
pub open spec fn basic(t: Toks, i: int) -> Result<(CondV, int), int> {
    match expr(t, i) {
        Err(k) => Err(k),
        Ok((l, j)) => match rel_op(t, j) {
            None => Err(j),
            Some(op) => match expr(t, j + 1) {
                Err(k) => Err(k),
                Ok((r, k)) => Ok((CondV::Basic(l, op, r), k)),
            },
        },
    }
}

pub open spec fn neg(t: Toks, i: int) -> Result<(CondV, int), int>
    decreases t.len() - i, 0int,
{
    if at(t, i, Token::Not) {
        match neg(t, i + 1) {
            Err(k) => Err(k),
            Ok((c, j)) => Ok((CondV::Not(Box::new(c)), j)),
        }
    } else {
        match basic(t, i) {
            Ok(r) => Ok(r),
            Err(k) => if at(t, i, Token::OpenParen) {
                match cond(t, i + 1) {
                    Err(k2) => Err(k2),
                    Ok((c, j)) => if at(t, j, Token::CloseParen) {
                        Ok((c, j + 1))
                    } else {
                        Err(j)
                    },
                }
            } else {
                Err(k)
            },
        }
    }
}

pub open spec fn conj_rest(t: Toks, i: int, acc: CondV) -> Result<(CondV, int), int>
    decreases t.len() - i, 1int,
{
    if at(t, i, Token::And) {
        let p = pos(t, i);
        match neg(t, i + 1) {
            Err(k) => Err(k),
            Ok((c, j)) => if advanced(t, i + 1, j) {
                conj_rest(t, j, CondV::Logic(Box::new(acc), LogOp::And(p.0, p.1), Box::new(c)))
            } else {
                Err(j)
            },
        }
    } else {
        Ok((acc, i))
    }
}

pub open spec fn conj(t: Toks, i: int) -> Result<(CondV, int), int>
    decreases t.len() - i, 2int,
{
    match neg(t, i) {
        Err(k) => Err(k),
        Ok((c, j)) => if advanced(t, i, j) {
            conj_rest(t, j, c)
        } else {
            Err(j)
        },
    }
}

pub open spec fn cond_rest(t: Toks, i: int, acc: CondV) -> Result<(CondV, int), int>
    decreases t.len() - i, 3int,
{
    if at(t, i, Token::Or) {
        let p = pos(t, i);
        match conj(t, i + 1) {
            Err(k) => Err(k),
            Ok((c, j)) => if advanced(t, i + 1, j) {
                cond_rest(t, j, CondV::Logic(Box::new(acc), LogOp::Or(p.0, p.1), Box::new(c)))
            } else {
                Err(j)
            },
        }
    } else {
        Ok((acc, i))
    }
}

pub open spec fn cond(t: Toks, i: int) -> Result<(CondV, int), int>
    decreases t.len() - i, 4int,
{
    if i < 0 || i > t.len() {
        Err(i)
    } else {
        match conj(t, i) {
            Err(k) => Err(k),
            Ok((c, j)) => if advanced(t, i, j) {
                cond_rest(t, j, c)
            } else {
                Err(j)
            },
        }
    }
}

// --------------------------------------------------------------- instructions

/// The identifier at `i`, with its position.
pub open spec fn ident(t: Toks, i: int) -> Option<(Seq<char>, (usize, usize))> {
    if 0 <= i < t.len() {
        match t[i].token {
            Token::Identifier(n) => Some((n@, pos(t, i))),
            _ => None,
        }
    } else {
        None
    }
}

/// An optional `'[' expr ']'`.
pub open spec fn index_opt(t: Toks, i: int) -> Result<(Option<ExprV>, int), int> {
    if at(t, i, Token::OpenBracket) {
        match expr(t, i + 1) {
            Err(k) => Err(k),
            Ok((e, j)) => if at(t, j, Token::CloseBracket) {
                Ok((Some(e), j + 1))
            } else {
                Err(j)
            },
        }
    } else {
        Ok((None, i))
    }
}

/// What `x += e` (or `x[i] += e`) assigns: the target plus `e`.
pub open spec fn added(v: (Seq<char>, (usize, usize)), ix: Option<ExprV>, p: (usize, usize), e: ExprV) -> ExprV {
    let target = match ix {
        Some(x) => ExprV::Subs(v.0, v.1, Box::new(x)),
        None => ExprV::Var(v.0, v.1),
    };
    ExprV::Bin(Box::new(target), BinOp::Add(p.0, p.1), Box::new(e))
}

pub open spec fn assign_inst(t: Toks, i: int) -> Result<(InstV, int), int> {
    match ident(t, i) {
        None => Err(i),
        Some(v) => match index_opt(t, i + 1) {
            Err(k) => Err(k),
            Ok((ix, j)) => if at(t, j, Token::Plus) && at(t, j + 1, Token::Assign) {
                match expr(t, j + 2) {
                    Err(k) => Err(k),
                    Ok((e, k)) => if at(t, k, Token::Semicolon) {
                        Ok((InstV::Assign(AssignV { var: v, index: ix, expr: added(v, ix, pos(t, j), e) }), k + 1))
                    } else {
                        Err(k)
                    },
                }
            } else if !at(t, j, Token::Assign) {
                Err(j)
            } else {
                match expr(t, j + 1) {
                    Err(k) => Err(k),
                    Ok((e, k)) => if at(t, k, Token::Semicolon) {
                        Ok((InstV::Assign(AssignV { var: v, index: ix, expr: e }), k + 1))
                    } else {
                        Err(k)
                    },
                }
            },
        },
    }
}

/// `READ '(' Ident ['[' expr ']'] ')' ';'`, with READ at `i`.
pub open spec fn read_inst(t: Toks, i: int) -> Result<(InstV, int), int> {
    if !at(t, i + 1, Token::OpenParen) {
        Err(i + 1)
    } else {
        match ident(t, i + 2) {
            None => Err(i + 2),
            Some((n, p)) => match index_opt(t, i + 3) {
                Err(k) => Err(k),
                Ok((ix, j)) => if !at(t, j, Token::CloseParen) {
                    Err(j)
                } else if !at(t, j + 1, Token::Semicolon) {
                    Err(j + 1)
                } else {
                    Ok((InstV::Read(n, p, ix), j + 2))
                },
            },
        }
    }
}

/// The string literal at `i`, with its position.
pub open spec fn string_at(t: Toks, i: int) -> Option<(Seq<char>, (usize, usize))> {
    if 0 <= i < t.len() {
        match t[i].token {
            Token::StringLiteral(s) => Some((s@, pos(t, i))),
            _ => None,
        }
    } else {
        None
    }
}

pub open spec fn write_elem(t: Toks, i: int) -> Result<(WriteV, int), int> {
    match string_at(t, i) {
        Some((s, p)) => if quoted(s) {
            Ok((WriteV::Str(unquoted(s), p), i + 1))
        } else {
            Err(i)
        },
        None => match ident(t, i) {
            None => Err(i),
            Some((n, p)) => match index_opt(t, i + 1) {
                Err(k) => Err(k),
                Ok((ix, j)) => Ok((WriteV::Var(n, p, ix), j)),
            },
        },
    }
}

/// The elements of a WRITE from `i` to its closing parenthesis.
pub open spec fn write_elems(t: Toks, i: int, acc: Seq<WriteV>) -> Result<(Seq<WriteV>, int), int>
    decreases t.len() - i,
{
    match write_elem(t, i) {
        Err(k) => Err(k),
        Ok((e, j)) => if !advanced(t, i, j) {
            Err(j)
        } else if at(t, j, Token::Comma) {
            write_elems(t, j + 1, acc.push(e))
        } else if at(t, j, Token::CloseParen) {
            Ok((acc.push(e), j + 1))
        } else {
            Err(j)
        },
    }
}

/// `WRITE '(' elem (',' elem)* ')' ';'`, with WRITE at `i`.
pub open spec fn write_inst(t: Toks, i: int) -> Result<(InstV, int), int> {
    if !at(t, i + 1, Token::OpenParen) {
        Err(i + 1)
    } else {
        match write_elems(t, i + 2, Seq::empty()) {
            Err(k) => Err(k),
            Ok((es, j)) => if at(t, j, Token::Semicolon) {
                Ok((InstV::Write(es), j + 1))
            } else {
                Err(j)
            },
        }
    }
}

/// `'{' inst* '}'`.
pub open spec fn block(t: Toks, i: int) -> Result<(Seq<InstV>, int), int>
    decreases t.len() - i, 0int,
{
    if !at(t, i, Token::OpenBrace) {
        Err(i)
    } else {
        match insts(t, i + 1, Seq::empty()) {
            Err(k) => Err(k),
            Ok((b, j)) => Ok((b, j + 1)),
        }
    }
}

/// `IF '(' cond ')' block [ELSE block]`, with IF at `i`.
pub open spec fn if_inst(t: Toks, i: int) -> Result<(InstV, int), int>
    decreases t.len() - i, 1int,
{
    if !at(t, i + 1, Token::OpenParen) {
        Err(i + 1)
    } else {
        match cond(t, i + 2) {
            Err(k) => Err(k),
            Ok((c, j)) => if !at(t, j, Token::CloseParen) || j <= i {
                Err(j)
            } else {
                match block(t, j + 1) {
                    Err(k) => Err(k),
                    Ok((tb, k)) => if !at(t, k, Token::Else) {
                        Ok((InstV::If(c, tb, None), k))
                    } else if k <= i {
                        Err(k)
                    } else {
                        match block(t, k + 1) {
                            Err(m) => Err(m),
                            Ok((eb, m)) => Ok((InstV::If(c, tb, Some(eb)), m)),
                        }
                    },
                }
            },
        }
    }
}

/// `FOR '(' Ident '=' expr ':' expr ':' expr ')' block`, with FOR at `i`:
/// the start value, the step, then the bound.
pub open spec fn for_inst(t: Toks, i: int) -> Result<(InstV, int), int>
    decreases t.len() - i, 1int,
{
    if !at(t, i + 1, Token::OpenParen) {
        Err(i + 1)
    } else {
        match ident(t, i + 2) {
            None => Err(i + 2),
            Some(v) => if !at(t, i + 3, Token::Assign) {
                Err(i + 3)
            } else {
                match expr(t, i + 4) {
                    Err(k) => Err(k),
                    Ok((start, j)) => if !at(t, j, Token::Colon) {
                        Err(j)
                    } else {
                        match expr(t, j + 1) {
                            Err(k) => Err(k),
                            Ok((step, k)) => if !at(t, k, Token::Colon) {
                                Err(k)
                            } else {
                                match expr(t, k + 1) {
                                    Err(m) => Err(m),
                                    Ok((bound, m)) => if !at(t, m, Token::CloseParen) || m <= i {
                                        Err(m)
                                    } else {
                                        match block(t, m + 1) {
                                            Err(q) => Err(q),
                                            Ok((body, q)) => Ok((
                                                InstV::For(
                                                    AssignV { var: v, index: None, expr: start },
                                                    step,
                                                    bound,
                                                    body,
                                                ),
                                                q,
                                            )),
                                        }
                                    },
                                }
                            },
                        }
                    },
                }
            },
        }
    }
}

pub open spec fn inst(t: Toks, i: int) -> Result<(InstV, int), int>
    decreases t.len() - i, 2int,
{
    if i < 0 || i >= t.len() {
        Err(i)
    } else {
        match t[i].token {
            Token::If => if_inst(t, i),
            Token::For => for_inst(t, i),
            Token::Read => read_inst(t, i),
            Token::Write => write_inst(t, i),
            Token::Identifier(_) => assign_inst(t, i),
            _ => Err(i),
        }
    }
}

/// The instructions from `i` up to a closing brace, after those in `acc`.
pub open spec fn insts(t: Toks, i: int, acc: Seq<InstV>) -> Result<(Seq<InstV>, int), int>
    decreases t.len() - i, 3int,
{
    if i < 0 || i >= t.len() {
        Err(i)
    } else if at(t, i, Token::CloseBrace) {
        Ok((acc, i))
    } else {
        match inst(t, i) {
            Err(k) => Err(k),
            Ok((s, j)) => if advanced(t, i, j) {
                insts(t, j, acc.push(s))
            } else {
                Err(j)
            },
        }
    }
}

// --------------------------------------------------------------- declarations

pub open spec fn type_at(t: Toks, i: int) -> Option<Type> {
    if 0 <= i < t.len() {
        match t[i].token {
            Token::IntegerType => Some(Type::Integer),
            Token::FloatType => Some(Type::Float),
            Token::CharType => Some(Type::Char),
            _ => None,
        }
    } else {
        None
    }
}

pub open spec fn var_item(t: Toks, i: int) -> Result<(VarV, int), int> {
    match ident(t, i) {
        None => Err(i),
        Some((n, p)) => if at(t, i + 1, Token::Assign) {
            match expr(t, i + 2) {
                Err(k) => Err(k),
                Ok((e, j)) => Ok((VarV::Init(n, p, e), j)),
            }
        } else {
            Ok((VarV::Simple(n, p), i + 1))
        },
    }
}

/// Items separated by commas up to a semicolon, after those in `acc`.
pub open spec fn var_items(t: Toks, i: int, acc: Seq<VarV>) -> Result<(Seq<VarV>, int), int>
    decreases t.len() - i,
{
    match var_item(t, i) {
        Err(k) => Err(k),
        Ok((v, j)) => if !advanced(t, i, j) {
            Err(j)
        } else if at(t, j, Token::Comma) {
            var_items(t, j + 1, acc.push(v))
        } else if at(t, j, Token::Semicolon) {
            Ok((acc.push(v), j + 1))
        } else {
            Err(j)
        },
    }
}

/// Expressions separated by commas up to a closing bracket.
pub open spec fn expr_list(t: Toks, i: int, acc: Seq<ExprV>) -> Result<(Seq<ExprV>, int), int>
    decreases t.len() - i,
{
    match expr(t, i) {
        Err(k) => Err(k),
        Ok((e, j)) => if !advanced(t, i, j) {
            Err(j)
        } else if at(t, j, Token::Comma) {
            expr_list(t, j + 1, acc.push(e))
        } else if at(t, j, Token::CloseBracket) {
            Ok((acc.push(e), j + 1))
        } else {
            Err(j)
        },
    }
}

pub open spec fn arr_item(t: Toks, i: int) -> Result<(ArrV, int), int> {
    match ident(t, i) {
        None => Err(i),
        Some((n, p)) => if !at(t, i + 1, Token::OpenBracket) {
            Err(i + 1)
        } else {
            match expr(t, i + 2) {
                Err(k) => Err(k),
                Ok((size, j)) => if !at(t, j, Token::CloseBracket) {
                    Err(j)
                } else if !at(t, j + 1, Token::Assign) {
                    Ok((ArrV::Simple(n, p, size), j + 1))
                } else if at(t, j + 2, Token::OpenBracket) {
                    match expr_list(t, j + 3, Seq::empty()) {
                        Err(k) => Err(k),
                        Ok((vs, k)) => Ok((ArrV::Init(n, p, size, vs), k)),
                    }
                } else {
                    match string_at(t, j + 2) {
                        Some((s, q)) => if quoted(s) {
                            Ok((ArrV::Str(n, p, size, s, q), j + 3))
                        } else {
                            Err(j + 2)
                        },
                        None => Err(j + 2),
                    }
                },
            }
        },
    }
}

pub open spec fn arr_items(t: Toks, i: int, acc: Seq<ArrV>) -> Result<(Seq<ArrV>, int), int>
    decreases t.len() - i,
{
    match arr_item(t, i) {
        Err(k) => Err(k),
        Ok((v, j)) => if !advanced(t, i, j) {
            Err(j)
        } else if at(t, j, Token::Comma) {
            arr_items(t, j + 1, acc.push(v))
        } else if at(t, j, Token::Semicolon) {
            Ok((acc.push(v), j + 1))
        } else {
            Err(j)
        },
    }
}

pub open spec fn const_item(t: Toks, i: int) -> Result<(AssignV, int), int> {
    match ident(t, i) {
        None => Err(i),
        Some(v) => if !at(t, i + 1, Token::Assign) {
            Err(i + 1)
        } else {
            match expr(t, i + 2) {
                Err(k) => Err(k),
                Ok((e, j)) => Ok((AssignV { var: v, index: None, expr: e }, j)),
            }
        },
    }
}

pub open spec fn const_items(t: Toks, i: int, acc: Seq<AssignV>) -> Result<(Seq<AssignV>, int), int>
    decreases t.len() - i,
{
    match const_item(t, i) {
        Err(k) => Err(k),
        Ok((v, j)) => if !advanced(t, i, j) {
            Err(j)
        } else if at(t, j, Token::Comma) {
            const_items(t, j + 1, acc.push(v))
        } else if at(t, j, Token::Semicolon) {
            Ok((acc.push(v), j + 1))
        } else {
            Err(j)
        },
    }
}

/// One declaration statement: constants, arrays (when a bracket follows the
/// first name) or simple variables.
pub open spec fn decl(t: Toks, i: int) -> Result<(DeclV, int), int> {
    if at(t, i, Token::Const) {
        match type_at(t, i + 1) {
            None => Err(i + 1),
            Some(ty) => match const_items(t, i + 2, Seq::empty()) {
                Err(k) => Err(k),
                Ok((cs, j)) => Ok((DeclV::Consts(ty, cs), j)),
            },
        }
    } else {
        match type_at(t, i) {
            None => Err(i),
            Some(ty) => if at(t, i + 2, Token::OpenBracket) {
                match arr_items(t, i + 1, Seq::empty()) {
                    Err(k) => Err(k),
                    Ok((vs, j)) => Ok((DeclV::Arrays(ty, vs), j)),
                }
            } else {
                match var_items(t, i + 1, Seq::empty()) {
                    Err(k) => Err(k),
                    Ok((vs, j)) => Ok((DeclV::Vars(ty, vs), j)),
                }
            },
        }
    }
}

/// The declarations from `i` up to a closing brace, after those in `acc`.
pub open spec fn decls(t: Toks, i: int, acc: Seq<DeclV>) -> Result<(Seq<DeclV>, int), int>
    decreases t.len() - i,
{
    if i < 0 || i >= t.len() {
        Err(i)
    } else if at(t, i, Token::CloseBrace) {
        Ok((acc, i))
    } else {
        match decl(t, i) {
            Err(k) => Err(k),
            Ok((d, j)) => if advanced(t, i, j) {
                decls(t, j, acc.push(d))
            } else {
                Err(j)
            },
        }
    }
}

/// A section of declarations introduced by `kw`, if `kw` is at `i`.
pub open spec fn decl_section(t: Toks, i: int, kw: Token) -> Result<(Option<Seq<DeclV>>, int), int> {
    if !at(t, i, kw) {
        Ok((None, i))
    } else if !at(t, i + 1, Token::OpenBrace) {
        Err(i + 1)
    } else {
        match decls(t, i + 2, Seq::empty()) {
            Err(k) => Err(k),
            Ok((ds, j)) => Ok((Some(ds), j + 1)),
        }
    }
}

/// The INSTRUCTION section, if it is at `i`.
pub open spec fn inst_section(t: Toks, i: int) -> Result<(Option<Seq<InstV>>, int), int> {
    if !at(t, i, Token::Instruction) {
        Ok((None, i))
    } else {
        match block(t, i + 1) {
            Err(k) => Err(k),
            Ok((is, j)) => Ok((Some(is), j)),
        }
    }
}

/// A whole program: its three sections in order, each optional, and nothing
/// after them.
pub open spec fn program(t: Toks) -> Result<ProgramV, int> {
    match decl_section(t, 0, Token::VarGlobal) {
        Err(k) => Err(k),
        Ok((g, i)) => match decl_section(t, i, Token::Declaration) {
            Err(k) => Err(k),
            Ok((d, j)) => match inst_section(t, j) {
                Err(k) => Err(k),
                Ok((is, k)) => if k == t.len() {
                    Ok(ProgramV { global: g, decls: d, inst: is })
                } else {
                    Err(k)
                },
            },
        },
    }
}

} // verus!

verus! {

/// The token that writes a comparison in source text.
pub open spec fn rel_op_token(op: RelOp) -> Token {
    match op {
        RelOp::Gt(..) => Token::GreaterThan,
        RelOp::Lt(..) => Token::LessThan,
        RelOp::Ge(..) => Token::GreaterEqual,
        RelOp::Le(..) => Token::LessEqual,
        RelOp::Eq(..) => Token::Equal,
        RelOp::Ne(..) => Token::NotEqual,
    }
}

/// The comparison read at `i` is the one its token writes (`<=` is "less
/// than or equal", `>=` "greater than or equal", and so on), placed where
/// the token stands; every comparison token is read as one.
pub proof fn lemma_rel_op_token(t: Toks, i: int)
    ensures
        rel_op(t, i) matches Some(op) ==> 0 <= i < t.len() && t[i].token == rel_op_token(op),
        rel_op(t, i) matches Some(op) ==> op == match op {
            RelOp::Gt(..) => RelOp::Gt(pos(t, i).0, pos(t, i).1),
            RelOp::Lt(..) => RelOp::Lt(pos(t, i).0, pos(t, i).1),
            RelOp::Ge(..) => RelOp::Ge(pos(t, i).0, pos(t, i).1),
            RelOp::Le(..) => RelOp::Le(pos(t, i).0, pos(t, i).1),
            RelOp::Eq(..) => RelOp::Eq(pos(t, i).0, pos(t, i).1),
            RelOp::Ne(..) => RelOp::Ne(pos(t, i).0, pos(t, i).1),
        },
        0 <= i < t.len() && (t[i].token is GreaterThan || t[i].token is LessThan || t[i].token is GreaterEqual
            || t[i].token is LessEqual || t[i].token is Equal || t[i].token is NotEqual) ==> rel_op(t, i) is Some,
{
}

/// The arithmetic operator read at `i` is the one its token writes (`+`
/// adds, `-` subtracts, `*` multiplies, `/` divides): additive operators
/// where a term may continue, multiplicative ones where a factor may.
pub proof fn lemma_bin_op_tokens(t: Toks, i: int)
    ensures
        add_op(t, i) matches Some(op) ==> 0 <= i < t.len() && t[i].token == crate::quadruplets::bin_op_token(op)
            && (op is Add || op is Sub),
        mul_op(t, i) matches Some(op) ==> 0 <= i < t.len() && t[i].token == crate::quadruplets::bin_op_token(op)
            && (op is Mul || op is Div),
        0 <= i < t.len() && (t[i].token is Plus || t[i].token is Minus) ==> add_op(t, i) is Some,
        0 <= i < t.len() && (t[i].token is Multiply || t[i].token is Divide) ==> mul_op(t, i) is Some,
{
}

/// What follows a conjunct is joined to it by `&&`: the result is the
/// conjunct itself or a conjunction.
pub proof fn lemma_conj_rest_and(t: Toks, i: int, acc: CondV)
    ensures
        conj_rest(t, i, acc) matches Ok((c, _)) ==> c == acc || c matches CondV::Logic(_, LogOp::And(..), _),
    decreases t.len() - i,
{
    if at(t, i, Token::And) {
        if let Ok((c, j)) = neg(t, i + 1) {
            if advanced(t, i + 1, j) {
                let p = pos(t, i);
                lemma_conj_rest_and(t, j, CondV::Logic(Box::new(acc), LogOp::And(p.0, p.1), Box::new(c)));
            }
        }
    }
}

/// What follows a disjunct is joined to it by `||`: the result is the
/// disjunct itself or a disjunction.
pub proof fn lemma_cond_rest_or(t: Toks, i: int, acc: CondV)
    ensures
        cond_rest(t, i, acc) matches Ok((c, _)) ==> c == acc || c matches CondV::Logic(_, LogOp::Or(..), _),
    decreases t.len() - i,
{
    if at(t, i, Token::Or) {
        if let Ok((c, j)) = conj(t, i + 1) {
            if advanced(t, i + 1, j) {
                let p = pos(t, i);
                lemma_cond_rest_or(t, j, CondV::Logic(Box::new(acc), LogOp::Or(p.0, p.1), Box::new(c)));
            }
        }
    }
}

/// A condition whose first conjunct is followed by `&&` is read as a
/// conjunction, and one whose first disjunct is followed by `||` as a
/// disjunction.
pub proof fn lemma_logical_operators(t: Toks, i: int)
    ensures
        neg(t, i) matches Ok((n, j)) ==> (at(t, j, Token::And) ==> (conj(t, i) matches Ok((c, _)) ==> c
            matches CondV::Logic(_, LogOp::And(..), _))),
        conj(t, i) matches Ok((n, j)) ==> (at(t, j, Token::Or) ==> (cond(t, i) matches Ok((c, _)) ==> c
            matches CondV::Logic(_, LogOp::Or(..), _))),
{
    if let Ok((n, j)) = neg(t, i) {
        if advanced(t, i, j) && at(t, j, Token::And) {
            if let Ok((c1, j1)) = neg(t, j + 1) {
                if advanced(t, j + 1, j1) {
                    let p = pos(t, j);
                    lemma_conj_rest_and(t, j1, CondV::Logic(Box::new(n), LogOp::And(p.0, p.1), Box::new(c1)));
                }
            }
        }
    }
    if 0 <= i <= t.len() {
        if let Ok((n, j)) = conj(t, i) {
            if advanced(t, i, j) && at(t, j, Token::Or) {
                if let Ok((c1, j1)) = conj(t, j + 1) {
                    if advanced(t, j + 1, j1) {
                        let p = pos(t, j);
                        lemma_cond_rest_or(t, j1, CondV::Logic(Box::new(n), LogOp::Or(p.0, p.1), Box::new(c1)));
                    }
                }
            }
        }
    }
}

} // verus!
