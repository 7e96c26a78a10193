//! What semantic analysis means: the checks made on a program, and how the
//! values of constant expressions are worked out, as functions from the
//! symbol table (what each identifier stands for) to a new table or an error.

use vstd::prelude::*;
use crate::ast::{
    ArrayDecl, Assignment, BinOp, Condition, Declaration, Expr, FloatV, ForStmt, Instruction,
    Program, ReadStmt, Type, TypeValue, ValV, Variable, WriteElement, WriteStmt, float_view,
};
use crate::error::ErrV;
use crate::lexer::fits_i16;
use crate::symbol_table::{SymV, Types};
use crate::type_checker::arithmetic_result;

verus! {

pub type TableV = Map<Seq<char>, SymV>;

/// Number of bytes of the UTF-8 encoding of `s`.
pub open spec fn byte_len(s: Seq<char>) -> nat {
    vstd::utf8::encode_utf8(s).len()
}

pub open spec fn scalar_type(t: Type) -> Types {
    match t {
        Type::Integer => Types::Integer,
        Type::Float => Types::Float,
        Type::Char => Types::Char,
    }
}

pub open spec fn valv_type(v: ValV) -> Types {
    match v {
        ValV::Int(_) => Types::Integer,
        ValV::Flt(_) => Types::Float,
        ValV::Chr(_) => Types::Char,
        ValV::Arr => Types::Array(Box::new(Types::Integer), 0),
    }
}

/// The type recorded for the variable `name`.
pub open spec fn symbol_type(m: TableV, name: Seq<char>) -> Result<Types, ErrV> {
    if !m.contains_key(name) {
        Err(ErrV::UndefinedVariable(name))
    } else {
        recorded_type(m, name)
    }
}

/// The type recorded for `name`, which has an entry.
pub open spec fn recorded_type(m: TableV, name: Seq<char>) -> Result<Types, ErrV> {
    match m[name].ty {
        Some(t) => Ok(t),
        None => Err(ErrV::NoType(name)),
    }
}

/// The type of an expression.
pub open spec fn infer(m: TableV, e: Expr) -> Result<Types, ErrV>
    decreases e,
{
    match e {
        Expr::Literal(v) => match v {
            TypeValue::Integer(_) => Ok(Types::Integer),
            TypeValue::Float(_) => Ok(Types::Float),
            TypeValue::Char(_) => Ok(Types::Char),
            TypeValue::Array(_) => Err(ErrV::ArrayValueInExpression),
        },
        Expr::Variable((name, _)) => symbol_type(m, name@),
        Expr::SUBS((name, _), _) => if !m.contains_key(name@) {
            Err(ErrV::UndefinedInWrite(name@))
        } else {
            recorded_type(m, name@)
        },
        Expr::BinaryOp(l, _, r) => match infer(m, *l) {
            Err(x) => Err(x),
            Ok(lt) => match infer(m, *r) {
                Err(x) => Err(x),
                Ok(rt) => match arithmetic_result(lt, rt) {
                    Some(t) => Ok(t),
                    None => Err(ErrV::Generic("Incompatible types for arithmetic operation"@)),
                },
            },
        },
    }
}

/// Integer division rounding toward zero.
pub open spec fn trunc_div(a: int, b: int) -> int {
    if a >= 0 {
        if b > 0 {
            a / b
        } else {
            -(a / (-b))
        }
    } else {
        if b > 0 {
            -((-a) / b)
        } else {
            (-a) / (-b)
        }
    }
}

/// The low byte of a character's code.
pub open spec fn char_byte(c: char) -> int {
    (c as u32 as int) % 256
}

pub open spec fn zero_text_char(c: char) -> bool {
    c == '0' || c == '.' || c == '-'
}

pub open spec fn zero_text(t: Seq<char>) -> bool {
    forall|k: int| 0 <= k < t.len() ==> #[trigger] zero_text_char(t[k])
}

/// A float literal's text denotes zero when all its digits are zeros.
pub open spec fn float_is_zero(f: FloatV) -> bool {
    match f {
        FloatV::Lit(t) => zero_text(t),
        _ => false,
    }
}

/// One arithmetic operation on two values.
pub open spec fn calculate(a: ValV, op: BinOp, b: ValV) -> Result<ValV, ErrV> {
    match (a, b) {
        (ValV::Int(x), ValV::Int(y)) => {
            if op is Div && y == 0 {
                Err(ErrV::DivisionByZero)
            } else {
                let v = match op {
                    BinOp::Add(..) => x + y,
                    BinOp::Sub(..) => x - y,
                    BinOp::Mul(..) => x * y,
                    BinOp::Div(..) => trunc_div(x as int, y as int),
                };
                if fits_i16(v) {
                    Ok(ValV::Int(v as i16))
                } else {
                    Err(ErrV::ArithmeticOverflow(op))
                }
            }
        },
        (ValV::Flt(x), ValV::Flt(y)) => {
            if op is Div && float_is_zero(y) {
                Err(ErrV::DivisionByZero)
            } else {
                Ok(ValV::Flt(FloatV::Bin(Box::new(x), op, Box::new(y))))
            }
        },
        (ValV::Chr(x), ValV::Chr(y)) => match op {
            BinOp::Add(..) => {
                let s = char_byte(x) + char_byte(y);
                if s > 255 {
                    Err(ErrV::ArithmeticOverflow(op))
                } else {
                    Ok(ValV::Chr(((s % 127) as u8) as char))
                }
            },
            BinOp::Sub(..) => {
                let s = char_byte(x) - char_byte(y);
                if s < 0 {
                    Err(ErrV::ArithmeticOverflow(op))
                } else {
                    Ok(ValV::Chr(((s % 127) as u8) as char))
                }
            },
            _ => Err(ErrV::InvalidOperation(op)),
        },
        _ => Err(ErrV::InvalidOperation(op)),
    }
}

/// The value of element `i` of the array `name` (only the first element is
/// recorded; the others read as the zero of the element type, `'!'` for
/// characters).
pub open spec fn array_cell(name: Seq<char>, sym: SymV, size: i16, i: i16) -> Result<ValV, ErrV> {
    if i < 0 {
        Err(ErrV::NegativeIndex)
    } else if i >= size {
        Err(ErrV::IndexOutOfBounds(size, i))
    } else if i == 0 {
        match sym.value {
            Some(v) => Ok(v),
            None => Err(ErrV::UsedBeforeAssigned(name)),
        }
    } else {
        match sym.ty {
            Some(Types::Integer) => Ok(ValV::Int(0)),
            Some(Types::Float) => Ok(ValV::Flt(FloatV::Lit(seq!['0']))),
            Some(Types::Char) => Ok(ValV::Chr('!')),
            _ => Err(ErrV::NoType(name)),
        }
    }
}

/// The value of an expression.  In a binary operation the right operand is
/// worked out first.
pub open spec fn eval(m: TableV, e: Expr) -> Result<ValV, ErrV>
    decreases e,
{
    match e {
        Expr::Literal(v) => match v {
            TypeValue::Integer((i, _)) => Ok(ValV::Int(i)),
            TypeValue::Float((f, _)) => Ok(ValV::Flt(float_view(f))),
            TypeValue::Char((c, _)) => Ok(ValV::Chr(c)),
            TypeValue::Array(_) => Err(ErrV::ArrayValueInExpression),
        },
        Expr::Variable((name, _)) => if !m.contains_key(name@) {
            Err(ErrV::UndeclaredInExpression(name@))
        } else {
            match m[name@].value {
                Some(v) => Ok(v),
                None => Err(ErrV::UsedBeforeAssigned(name@)),
            }
        },
        Expr::SUBS((name, _), index) => if !m.contains_key(name@) {
            Err(ErrV::UndeclaredInExpression(name@))
        } else {
            match m[name@].size {
                None => Err(ErrV::NotAnArray(name@)),
                Some(size) => match eval(m, *index) {
                    Err(x) => Err(x),
                    Ok(ValV::Int(i)) => array_cell(name@, m[name@], size, i),
                    Ok(_) => Err(ErrV::NonIntegerIndex),
                },
            }
        },
        Expr::BinaryOp(l, op, r) => match eval(m, *r) {
            Err(x) => Err(x),
            Ok(rv) => match eval(m, *l) {
                Err(x) => Err(x),
                Ok(lv) => calculate(lv, op, rv),
            },
        },
    }
}

/// The size an array declaration gives: a positive integer.
pub open spec fn array_size(m: TableV, e: Expr) -> Result<i16, ErrV> {
    match eval(m, e) {
        Err(x) => Err(x),
        Ok(ValV::Int(i)) => if i <= 0 {
            Err(ErrV::NonPositiveArraySize)
        } else {
            Ok(i)
        },
        Ok(_) => Err(ErrV::NonIntegerArraySize),
    }
}

/// The checks on a declared variable or constant.
pub open spec fn var_decl_check(
    name: Seq<char>,
    pos: (usize, usize),
    ty: Types,
    is_const: bool,
    value_type: Option<Types>,
) -> Result<(), ErrV> {
    if byte_len(name) as usize > 8 {
        Err(ErrV::IdentifierTooLong(name, pos))
    } else if is_const && value_type is None {
        Err(ErrV::UninitializedConstant(name, pos))
    } else {
        match value_type {
            Some(t) => if t != ty {
                Err(ErrV::TypeMismatch(t, ty))
            } else {
                Ok(())
            },
            None => Ok(()),
        }
    }
}

/// The checks on a declared array.
pub open spec fn array_decl_check(name: Seq<char>, pos: (usize, usize), ty: Types, size: i16) -> Result<(), ErrV> {
    if byte_len(name) as usize > 8 {
        Err(ErrV::IdentifierTooLong(name, pos))
    } else if size <= 0 {
        Err(ErrV::ArraySizeNotPositive(name, pos))
    } else if ty is Array {
        Err(ErrV::InvalidArrayType(name, pos))
    } else {
        Ok(())
    }
}

pub open spec fn declare(m: TableV, name: Seq<char>, ty: Types, is_const: bool) -> Result<TableV, ErrV> {
    if m.contains_key(name) {
        Err(ErrV::DuplicateVariableDeclaration(name))
    } else {
        Ok(m.insert(name, SymV { ty: Some(ty), is_const: Some(is_const), address: None, value: None, size: None }))
    }
}

pub open spec fn set_value(m: TableV, name: Seq<char>, v: ValV) -> TableV {
    m.insert(name, SymV { value: Some(v), ..m[name] })
}

pub open spec fn set_size(m: TableV, name: Seq<char>, size: i16) -> TableV {
    m.insert(name, SymV { size: Some(size), ..m[name] })
}

/// `m` when the check `r` passed, else the error it met.
pub open spec fn seq_then(r: Result<(), ErrV>, m: TableV) -> Result<TableV, ErrV> {
    match r {
        Ok(()) => Ok(m),
        Err(x) => Err(x),
    }
}

/// The value a variable or constant declaration gives `name`, worked out
/// in the table `m` that already holds `name`: the value of `e`, once the
/// checks on the declaration pass.
pub open spec fn init_value(
    m: TableV,
    name: Seq<char>,
    pos: (usize, usize),
    ty: Types,
    is_const: bool,
    e: Expr,
) -> Result<ValV, ErrV> {
    match eval(m, e) {
        Err(x) => Err(x),
        Ok(v) => match var_decl_check(name, pos, ty, is_const, Some(valv_type(v))) {
            Err(x) => Err(x),
            Ok(()) => Ok(v),
        },
    }
}

/// A declared variable enters the table with the declared type; its checks
/// and its value are worked out with the name already entered.  A failing
/// declaration enters nothing.
pub open spec fn decl_var(m: TableV, ty: Types, v: Variable) -> Result<TableV, ErrV> {
    match v {
        Variable::Simple((name, pos)) => match declare(m, name@, ty, false) {
            Err(x) => Err(x),
            Ok(m1) => seq_then(var_decl_check(name@, pos, ty, false, None), m1),
        },
        Variable::Initialized((name, pos), e) => match declare(m, name@, ty, false) {
            Err(x) => Err(x),
            Ok(m1) => match init_value(m1, name@, pos, ty, false, e) {
                Err(x) => Err(x),
                Ok(v) => Ok(set_value(m1, name@, v)),
            },
        },
    }
}

/// Every element of an initializer list has type `ty`.
pub open spec fn elements_typed(m: TableV, ty: Types, es: Seq<Expr>) -> Result<(), ErrV>
    decreases es.len(),
{
    if es.len() == 0 {
        Ok(())
    } else {
        match infer(m, es[0]) {
            Err(x) => Err(x),
            Ok(t) => if t != ty {
                Err(ErrV::ArrayElementType(ty, t))
            } else {
                elements_typed(m, ty, es.drop_first())
            },
        }
    }
}

/// An initializer list: the declared size is an integer no smaller than the
/// number of elements, and every element has the declared type.
pub open spec fn elements_init_check(m: TableV, ty: Types, se: Expr, es: Seq<Expr>) -> Result<(), ErrV> {
    match eval(m, se) {
        Err(x) => Err(x),
        Ok(ValV::Int(i)) => if i < (es.len() as i16) {
            Err(ErrV::ArraySizeMismatch(i as usize, es.len() as usize))
        } else {
            elements_typed(m, ty, es)
        },
        Ok(_) => Err(ErrV::NonIntegerInitializerSize),
    }
}

/// A string initializer: the declared size is an integer no smaller than the
/// length in bytes of the text.
pub open spec fn string_init_check(m: TableV, se: Expr, text: Seq<char>) -> Result<(), ErrV> {
    match eval(m, se) {
        Err(x) => Err(x),
        Ok(ValV::Int(i)) => if i < (byte_len(text) as usize as i16) {
            Err(ErrV::ArraySizeMismatch(i as usize, byte_len(text) as usize))
        } else {
            Ok(())
        },
        Ok(_) => Err(ErrV::NonIntegerInitializerSize),
    }
}

/// No recorded value is an array.
pub open spec fn scalar_table(m: TableV) -> bool {
    forall|k: Seq<char>| #[trigger] m.contains_key(k) ==> (m[k].value matches Some(v) ==> !(v is Arr))
}

/// The text between the quotes of a string literal.
pub open spec fn unquoted(t: Seq<char>) -> Seq<char> {
    t.subrange(1, t.len() - 1)
}

/// The identifier an array declaration names, and where.
pub open spec fn array_name(a: ArrayDecl) -> (Seq<char>, (usize, usize)) {
    match a {
        ArrayDecl::Simple((name, pos), _) => (name@, pos),
        ArrayDecl::Initialized((name, pos), _, _) => (name@, pos),
        ArrayDecl::InitializedString((name, pos), _, _) => (name@, pos),
    }
}

/// What an array declaration enters, worked out in the table `m` that
/// already holds the array's name: its size and, for an initialized array,
/// the value of its first element.
pub open spec fn array_init(m: TableV, ty: Types, a: ArrayDecl) -> Result<(i16, Option<ValV>), ErrV> {
    let (name, pos) = array_name(a);
    match a {
        ArrayDecl::Simple(_, se) => match array_size(m, se) {
            Err(x) => Err(x),
            Ok(size) => match array_decl_check(name, pos, ty, size) {
                Err(x) => Err(x),
                Ok(()) => Ok((size, None)),
            },
        },
        ArrayDecl::Initialized(_, se, vals) => match array_size(m, se) {
            Err(x) => Err(x),
            Ok(size) => match elements_init_check(m, ty, se, vals@) {
                Err(x) => Err(x),
                Ok(()) => match eval(m, vals@[0]) {
                    Err(x) => Err(x),
                    Ok(v) => match array_decl_check(name, pos, ty, size) {
                        Err(x) => Err(x),
                        Ok(()) => Ok((size, Some(v))),
                    },
                },
            },
        },
        ArrayDecl::InitializedString(_, se, (text, _)) => match array_size(m, se) {
            Err(x) => Err(x),
            Ok(size) => {
                let inner = unquoted(text@);
                match string_init_check(m, se, inner) {
                    Err(x) => Err(x),
                    Ok(()) => match array_decl_check(name, pos, ty, size) {
                        Err(x) => Err(x),
                        Ok(()) => Ok((size, Some(ValV::Chr(if inner.len() == 0 { '\0' } else { inner[0] })))),
                    },
                }
            },
        },
    }
}

/// The table once the array `name` has size `size` and, when given, first
/// element `v`.
pub open spec fn set_array(m: TableV, name: Seq<char>, size: i16, v: Option<ValV>) -> TableV {
    match v {
        Some(x) => set_value(set_size(m, name, size), name, x),
        None => set_size(m, name, size),
    }
}

/// A declared array enters the table with the declared element type, its
/// size and its first element.  A failing declaration enters nothing.
pub open spec fn decl_array(m: TableV, ty: Types, a: ArrayDecl) -> Result<TableV, ErrV> {
    let name = array_name(a).0;
    match declare(m, name, ty, false) {
        Err(x) => Err(x),
        Ok(m1) => match array_init(m1, ty, a) {
            Err(x) => Err(x),
            Ok((size, v)) => Ok(set_array(m1, name, size, v)),
        },
    }
}

/// The value a constant declaration gives, worked out in the table `m` that
/// already holds the constant: the expression has the declared type, and
/// the checks on the declaration pass.
pub open spec fn const_value(m: TableV, ty: Types, a: Assignment) -> Result<ValV, ErrV> {
    let (name, pos) = a.var;
    match infer(m, a.expr) {
        Err(x) => Err(x),
        Ok(t) => if t != ty {
            Err(ErrV::TypeMismatch(t, ty))
        } else {
            init_value(m, name@, pos, ty, true, a.expr)
        },
    }
}

/// A declared constant enters the table with its type and value.  A failing
/// declaration enters nothing.
pub open spec fn decl_const(m: TableV, ty: Types, a: Assignment) -> Result<TableV, ErrV> {
    let name = a.var.0@;
    match declare(m, name, ty, true) {
        Err(x) => Err(x),
        Ok(m1) => match const_value(m1, ty, a) {
            Err(x) => Err(x),
            Ok(v) => Ok(set_value(m1, name, v)),
        },
    }
}

pub open spec fn decl_vars(m: TableV, ty: Types, vs: Seq<Variable>) -> Result<TableV, ErrV>
    decreases vs.len(),
{
    if vs.len() == 0 {
        Ok(m)
    } else {
        match decl_var(m, ty, vs[0]) {
            Err(x) => Err(x),
            Ok(m1) => decl_vars(m1, ty, vs.drop_first()),
        }
    }
}

pub open spec fn decl_arrays(m: TableV, ty: Types, vs: Seq<ArrayDecl>) -> Result<TableV, ErrV>
    decreases vs.len(),
{
    if vs.len() == 0 {
        Ok(m)
    } else {
        match decl_array(m, ty, vs[0]) {
            Err(x) => Err(x),
            Ok(m1) => decl_arrays(m1, ty, vs.drop_first()),
        }
    }
}

pub open spec fn decl_consts(m: TableV, ty: Types, vs: Seq<Assignment>) -> Result<TableV, ErrV>
    decreases vs.len(),
{
    if vs.len() == 0 {
        Ok(m)
    } else {
        match decl_const(m, ty, vs[0]) {
            Err(x) => Err(x),
            Ok(m1) => decl_consts(m1, ty, vs.drop_first()),
        }
    }
}

pub open spec fn declaration(m: TableV, d: Declaration) -> Result<TableV, ErrV> {
    match d {
        Declaration::Variable(t, vs) => decl_vars(m, scalar_type(t), vs@),
        Declaration::ADEC(t, vs) => decl_arrays(m, scalar_type(t), vs@),
        Declaration::Constant(t, vs) => decl_consts(m, scalar_type(t), vs@),
    }
}

pub open spec fn declarations(m: TableV, ds: Seq<Declaration>) -> Result<TableV, ErrV>
    decreases ds.len(),
{
    if ds.len() == 0 {
        Ok(m)
    } else {
        match declaration(m, ds[0]) {
            Err(x) => Err(x),
            Ok(m1) => declarations(m1, ds.drop_first()),
        }
    }
}

/// The table after the variables `vs` are declared one by one, up to the
/// first that fails, which enters nothing.
pub open spec fn decl_vars_after(m: TableV, ty: Types, vs: Seq<Variable>) -> TableV
    decreases vs.len(),
{
    if vs.len() == 0 {
        m
    } else {
        match decl_var(m, ty, vs[0]) {
            Err(_) => m,
            Ok(m1) => decl_vars_after(m1, ty, vs.drop_first()),
        }
    }
}

/// The table after the arrays `vs` are declared one by one, up to the first
/// that fails, which enters nothing.
pub open spec fn decl_arrays_after(m: TableV, ty: Types, vs: Seq<ArrayDecl>) -> TableV
    decreases vs.len(),
{
    if vs.len() == 0 {
        m
    } else {
        match decl_array(m, ty, vs[0]) {
            Err(_) => m,
            Ok(m1) => decl_arrays_after(m1, ty, vs.drop_first()),
        }
    }
}

/// The table after the constants `vs` are declared one by one, up to the
/// first that fails, which enters nothing.
pub open spec fn decl_consts_after(m: TableV, ty: Types, vs: Seq<Assignment>) -> TableV
    decreases vs.len(),
{
    if vs.len() == 0 {
        m
    } else {
        match decl_const(m, ty, vs[0]) {
            Err(_) => m,
            Ok(m1) => decl_consts_after(m1, ty, vs.drop_first()),
        }
    }
}

/// The table after one declaration statement, whether or not it succeeds.
pub open spec fn declaration_after(m: TableV, d: Declaration) -> TableV {
    match d {
        Declaration::Variable(t, vs) => decl_vars_after(m, scalar_type(t), vs@),
        Declaration::ADEC(t, vs) => decl_arrays_after(m, scalar_type(t), vs@),
        Declaration::Constant(t, vs) => decl_consts_after(m, scalar_type(t), vs@),
    }
}

/// The table after the declaration statements `ds`, up to the first that
/// fails, which keeps what its items before the failing one entered.
pub open spec fn declarations_after(m: TableV, ds: Seq<Declaration>) -> TableV
    decreases ds.len(),
{
    if ds.len() == 0 {
        m
    } else {
        match declaration(m, ds[0]) {
            Err(_) => declaration_after(m, ds[0]),
            Ok(m1) => declarations_after(m1, ds.drop_first()),
        }
    }
}

/// An assignment: the target must be a declared variable that is not a
/// constant, of the type of the expression; the expression must have a
/// value, and an index must be an integer within the array's bounds.
/// Nothing is recorded.
pub open spec fn assign(m: TableV, a: Assignment) -> Result<(), ErrV> {
    let name = a.var.0@;
    if !m.contains_key(name) {
        Err(ErrV::UndeclaredVariable(name))
    } else if m[name].is_const == Some(true) {
        Err(ErrV::ConstantModification(name))
    } else {
        match infer(m, a.expr) {
            Err(x) => Err(x),
            Ok(t) => match m[name].ty {
                None => Err(ErrV::NoType(name)),
                Some(st) => if st != t {
                    Err(ErrV::TypeMismatch(t, st))
                } else {
                    match eval(m, a.expr) {
                        Err(x) => Err(x),
                        Ok(_) => match a.index {
                            None => Ok(()),
                            Some(ix) => match eval(m, ix) {
                                Err(x) => Err(x),
                                Ok(ValV::Int(i)) => if i < 0 {
                                    Err(ErrV::NegativeIndex)
                                } else {
                                    match m[name].size {
                                        None => Err(ErrV::NotAnArray(name)),
                                        Some(size) => if i >= size {
                                            Err(ErrV::IndexOutOfBounds(size, i))
                                        } else {
                                            Ok(())
                                        },
                                    }
                                },
                                Ok(_) => Err(ErrV::NonIntegerIndex),
                            },
                        },
                    }
                },
            },
        }
    }
}

/// A condition: the two sides of each comparison have the same type.
pub open spec fn condition(m: TableV, c: Condition) -> Result<(), ErrV>
    decreases c,
{
    match c {
        Condition::Not(inner) => condition(m, *inner),
        Condition::Logic(l, _, r) => match condition(m, *l) {
            Err(x) => Err(x),
            Ok(()) => condition(m, *r),
        },
        Condition::Basic(b) => match infer(m, b.left) {
            Err(x) => Err(x),
            Ok(lt) => match infer(m, b.right) {
                Err(x) => Err(x),
                Ok(rt) => if lt == rt {
                    Ok(())
                } else {
                    Err(ErrV::IncompatibleCondition(lt, rt))
                },
            },
        },
    }
}

pub open spec fn read(m: TableV, r: ReadStmt) -> Result<(), ErrV> {
    let name = r.variable.0@;
    if !m.contains_key(name) {
        Err(ErrV::UndeclaredInRead(name))
    } else if m[name].is_const == Some(true) {
        Err(ErrV::ReadIntoConstant(name))
    } else {
        Ok(())
    }
}

pub open spec fn write_elements(m: TableV, es: Seq<WriteElement>) -> Result<(), ErrV>
    decreases es.len(),
{
    if es.len() == 0 {
        Ok(())
    } else {
        match es[0] {
            WriteElement::Variable((name, _), _) => if !m.contains_key(name@) {
                Err(ErrV::UndefinedInWrite(name@))
            } else {
                write_elements(m, es.drop_first())
            },
            WriteElement::String(_) => write_elements(m, es.drop_first()),
        }
    }
}

/// The checks on one instruction.  Instructions only read the table.
pub open spec fn instruction(m: TableV, i: Instruction) -> Result<(), ErrV>
    decreases i, 1int,
{
    match i {
        Instruction::Assign(a) => assign(m, a),
        Instruction::If(s) => match condition(m, s.condition) {
            Err(x) => Err(x),
            Ok(()) => match instructions(m, s.then_block@) {
                Err(x) => Err(x),
                Ok(()) => match s.else_block {
                    Some(b) => instructions(m, b@),
                    None => Ok(()),
                },
            },
        },
        Instruction::For(f) => match infer(m, f.init.expr) {
            Err(x) => Err(x),
            Ok(it) => match infer(m, f.step) {
                Err(x) => Err(x),
                Ok(st) => if st != it {
                    Err(ErrV::StepTypeMismatch)
                } else {
                    match symbol_type(m, f.init.var.0@) {
                        Err(x) => Err(x),
                        Ok(lt) => match infer(m, f.condition) {
                            Err(x) => Err(x),
                            Ok(rt) => if lt != rt {
                                Err(ErrV::IncompatibleCondition(lt, rt))
                            } else {
                                instructions(m, f.body@)
                            },
                        },
                    }
                },
            },
        },
        Instruction::Read(r) => read(m, r),
        Instruction::Write(w) => write_elements(m, w.elements@),
    }
}

/// The checks on a block of instructions, in order, up to the first that
/// fails.
pub open spec fn instructions(m: TableV, is: Seq<Instruction>) -> Result<(), ErrV>
    decreases is, 0int,
{
    if is.len() == 0 {
        Ok(())
    } else {
        match instruction(m, is[0]) {
            Err(x) => Err(x),
            Ok(()) => instructions(m, is.drop_first()),
        }
    }
}

pub open spec fn quoted(t: Seq<char>) -> bool {
    t.len() >= 2 && t[0] == '"' && t[t.len() - 1] == '"'
}

/// An initializer list has an element; a string initializer has its quotes.
pub open spec fn array_decl_wf(a: ArrayDecl) -> bool {
    match a {
        ArrayDecl::Initialized(_, _, vals) => vals@.len() > 0,
        ArrayDecl::InitializedString(_, _, (t, _)) => quoted(t@),
        ArrayDecl::Simple(_, _) => true,
    }
}

pub open spec fn declaration_wf(d: Declaration) -> bool {
    match d {
        Declaration::ADEC(_, vs) => forall|i: int| 0 <= i < vs@.len() ==> #[trigger] array_decl_wf(vs@[i]),
        _ => true,
    }
}

pub open spec fn declarations_wf(ds: Seq<Declaration>) -> bool {
    forall|i: int| 0 <= i < ds.len() ==> #[trigger] declaration_wf(ds[i])
}

/// The shape analysis relies on: every initializer list has an element and
/// every string initializer has its quotes (a parsed program always does).
pub open spec fn program_wf(p: Program) -> bool {
    &&& (p.global matches Some(ds) ==> declarations_wf(ds@))
    &&& (p.decls matches Some(ds) ==> declarations_wf(ds@))
}

/// Analysis of a whole program: the global variables, then the declarations,
/// then the instructions, which leave the table as the declarations made it.
pub open spec fn analysis(m: TableV, p: Program) -> Result<TableV, ErrV> {
    let r1 = match p.global {
        Some(ds) => declarations(m, ds@),
        None => Ok(m),
    };
    match r1 {
        Err(x) => Err(x),
        Ok(m1) => {
            let r2 = match p.decls {
                Some(ds) => declarations(m1, ds@),
                None => Ok(m1),
            };
            match r2 {
                Err(x) => Err(x),
                Ok(m2) => match p.inst {
                    Some(is) => match instructions(m2, is@) {
                        Err(x) => Err(x),
                        Ok(()) => Ok(m2),
                    },
                    None => Ok(m2),
                },
            }
        },
    }
}

/// The table after analysing a program, whether or not the analysis
/// succeeds: what the declarations entered up to the first failing one.
pub open spec fn analysis_after(m: TableV, p: Program) -> TableV {
    let m1 = match p.global {
        Some(ds) => declarations_after(m, ds@),
        None => m,
    };
    let r1 = match p.global {
        Some(ds) => declarations(m, ds@),
        None => Ok(m),
    };
    match r1 {
        Err(_) => m1,
        Ok(_) => match p.decls {
            Some(ds) => declarations_after(m1, ds@),
            None => m1,
        },
    }
}

} // verus!

verus! {

/// Every entry of `m` is in `m2`, unchanged.
pub open spec fn extends(m: TableV, m2: TableV) -> bool {
    forall|k: Seq<char>| #[trigger] m.contains_key(k) ==> m2.contains_key(k) && m2[k] == m[k]
}

proof fn lemma_declare_extends(m: TableV, name: Seq<char>, ty: Types, c: bool)
    ensures
        declare(m, name, ty, c) matches Ok(m1) ==> extends(m, m1) && !m.contains_key(name)
            && m1.contains_key(name),
{
}

proof fn lemma_set_fresh_extends(m: TableV, m1: TableV, name: Seq<char>, v: ValV, z: i16)
    requires
        extends(m, m1),
        !m.contains_key(name),
        m1.contains_key(name),
    ensures
        extends(m, set_value(m1, name, v)),
        extends(m, set_size(m1, name, z)),
        extends(m, set_value(set_size(m1, name, z), name, v)),
{
}

proof fn lemma_decl_var_extends(m: TableV, ty: Types, v: Variable)
    ensures
        decl_var(m, ty, v) matches Ok(m2) ==> extends(m, m2),
{
    match v {
        Variable::Simple((name, _)) => lemma_declare_extends(m, name@, ty, false),
        Variable::Initialized((name, pos), e) => {
            lemma_declare_extends(m, name@, ty, false);
            if let Ok(m1) = declare(m, name@, ty, false) {
                if let Ok(x) = init_value(m1, name@, pos, ty, false, e) {
                    lemma_set_fresh_extends(m, m1, name@, x, 0);
                }
            }
        },
    }
}

proof fn lemma_decl_array_extends(m: TableV, ty: Types, a: ArrayDecl)
    ensures
        decl_array(m, ty, a) matches Ok(m2) ==> extends(m, m2),
{
    let n = array_name(a).0;
    lemma_declare_extends(m, n, ty, false);
    if let Ok(m1) = declare(m, n, ty, false) {
        if let Ok((size, v)) = array_init(m1, ty, a) {
            lemma_set_fresh_extends(m, m1, n, ValV::Int(0), size);
            if let Some(x) = v {
                lemma_set_fresh_extends(m, m1, n, x, size);
            }
        }
    }
}

proof fn lemma_decl_const_extends(m: TableV, ty: Types, a: Assignment)
    ensures
        decl_const(m, ty, a) matches Ok(m2) ==> extends(m, m2),
{
    lemma_declare_extends(m, a.var.0@, ty, true);
    if let Ok(m1) = declare(m, a.var.0@, ty, true) {
        if let Ok(v) = const_value(m1, ty, a) {
            lemma_set_fresh_extends(m, m1, a.var.0@, v, 0);
        }
    }
}

proof fn lemma_extends_trans(a: TableV, b: TableV, c: TableV)
    requires
        extends(a, b),
        extends(b, c),
    ensures
        extends(a, c),
{
}

proof fn lemma_decl_vars_extend(m: TableV, ty: Types, vs: Seq<Variable>)
    ensures
        decl_vars(m, ty, vs) matches Ok(m2) ==> extends(m, m2),
        extends(m, decl_vars_after(m, ty, vs)),
    decreases vs.len(),
{
    if vs.len() > 0 {
        lemma_decl_var_extends(m, ty, vs[0]);
        if let Ok(m1) = decl_var(m, ty, vs[0]) {
            lemma_decl_vars_extend(m1, ty, vs.drop_first());
            lemma_extends_trans(m, m1, decl_vars_after(m1, ty, vs.drop_first()));
            if let Ok(m2) = decl_vars(m1, ty, vs.drop_first()) {
                lemma_extends_trans(m, m1, m2);
            }
        }
    }
}

proof fn lemma_decl_arrays_extend(m: TableV, ty: Types, vs: Seq<ArrayDecl>)
    ensures
        decl_arrays(m, ty, vs) matches Ok(m2) ==> extends(m, m2),
        extends(m, decl_arrays_after(m, ty, vs)),
    decreases vs.len(),
{
    if vs.len() > 0 {
        lemma_decl_array_extends(m, ty, vs[0]);
        if let Ok(m1) = decl_array(m, ty, vs[0]) {
            lemma_decl_arrays_extend(m1, ty, vs.drop_first());
            lemma_extends_trans(m, m1, decl_arrays_after(m1, ty, vs.drop_first()));
            if let Ok(m2) = decl_arrays(m1, ty, vs.drop_first()) {
                lemma_extends_trans(m, m1, m2);
            }
        }
    }
}

proof fn lemma_decl_consts_extend(m: TableV, ty: Types, vs: Seq<Assignment>)
    ensures
        decl_consts(m, ty, vs) matches Ok(m2) ==> extends(m, m2),
        extends(m, decl_consts_after(m, ty, vs)),
    decreases vs.len(),
{
    if vs.len() > 0 {
        lemma_decl_const_extends(m, ty, vs[0]);
        if let Ok(m1) = decl_const(m, ty, vs[0]) {
            lemma_decl_consts_extend(m1, ty, vs.drop_first());
            lemma_extends_trans(m, m1, decl_consts_after(m1, ty, vs.drop_first()));
            if let Ok(m2) = decl_consts(m1, ty, vs.drop_first()) {
                lemma_extends_trans(m, m1, m2);
            }
        }
    }
}

/// Declarations only add identifiers: every entry the table had before is
/// still there, unchanged (an identifier cannot be declared twice), whether
/// the declarations succeed or stop at an error.
pub proof fn lemma_declarations_extend(m: TableV, ds: Seq<Declaration>)
    ensures
        declarations(m, ds) matches Ok(m2) ==> extends(m, m2),
        extends(m, declarations_after(m, ds)),
    decreases ds.len(),
{
    if ds.len() > 0 {
        match ds[0] {
            Declaration::Variable(t, vs) => lemma_decl_vars_extend(m, scalar_type(t), vs@),
            Declaration::ADEC(t, vs) => lemma_decl_arrays_extend(m, scalar_type(t), vs@),
            Declaration::Constant(t, vs) => lemma_decl_consts_extend(m, scalar_type(t), vs@),
        }
        if let Ok(m1) = declaration(m, ds[0]) {
            lemma_declarations_extend(m1, ds.drop_first());
            lemma_extends_trans(m, m1, declarations_after(m1, ds.drop_first()));
            if let Ok(m2) = declarations(m1, ds.drop_first()) {
                lemma_extends_trans(m, m1, m2);
            }
        }
    }
}

/// Assigning to a constant is refused, whatever is assigned.
pub proof fn lemma_constant_assignment_refused(m: TableV, a: Assignment)
    requires
        m.contains_key(a.var.0@),
        m[a.var.0@].is_const == Some(true),
    ensures
        assign(m, a) == Err::<(), ErrV>(ErrV::ConstantModification(a.var.0@)),
        instruction(m, Instruction::Assign(a)) == Err::<(), ErrV>(ErrV::ConstantModification(a.var.0@)),
{
}

/// Assigning to an identifier that was never declared is refused.
pub proof fn lemma_undeclared_assignment_refused(m: TableV, a: Assignment)
    requires
        !m.contains_key(a.var.0@),
    ensures
        assign(m, a) == Err::<(), ErrV>(ErrV::UndeclaredVariable(a.var.0@)),
{
}

} // verus!

verus! {

/// The type of a comparison: both sides have the same type, and the
/// comparison counts as an integer.
pub open spec fn basic_type(m: TableV, b: crate::ast::BasicCond) -> Result<Types, ErrV> {
    match infer(m, b.left) {
        Err(x) => Err(x),
        Ok(lt) => match infer(m, b.right) {
            Err(x) => Err(x),
            Ok(rt) => if lt == rt {
                Ok(Types::Integer)
            } else {
                Err(ErrV::IncompatibleCondition(lt, rt))
            },
        },
    }
}

/// The type of a condition: that of the comparison it negates or is; a
/// logical operation counts as an integer whatever its sides.
pub open spec fn condition_type(m: TableV, c: Condition) -> Result<Types, ErrV>
    decreases c,
{
    match c {
        Condition::Not(x) => condition_type(m, *x),
        Condition::Logic(..) => Ok(Types::Integer),
        Condition::Basic(b) => basic_type(m, b),
    }
}

/// The element `index` of the array `name` (an error when `name` is not an
/// array).
pub open spec fn element_of(m: TableV, name: Seq<char>, index: Expr) -> Result<ValV, ErrV> {
    match m[name].size {
        None => Err(ErrV::NotAnArray(name)),
        Some(size) => match eval(m, index) {
            Err(x) => Err(x),
            Ok(ValV::Int(i)) => array_cell(name, m[name], size, i),
            Ok(_) => Err(ErrV::NonIntegerIndex),
        },
    }
}

/// The checks on expressions to be written: each variable is declared, each
/// operation has operands of one scalar type.  The first indexed variable
/// ends the checks: its element must exist, and what follows it is not
/// looked at.
pub open spec fn write_exprs_check(m: TableV, es: Seq<Expr>) -> Result<(), ErrV>
    decreases es.len(),
{
    if es.len() == 0 {
        Ok(())
    } else {
        match es[0] {
            Expr::Literal(_) => write_exprs_check(m, es.drop_first()),
            Expr::Variable((n, _)) => if !m.contains_key(n@) {
                Err(ErrV::UndefinedInWrite(n@))
            } else {
                write_exprs_check(m, es.drop_first())
            },
            Expr::SUBS((n, _), ix) => if !m.contains_key(n@) {
                Err(ErrV::UndefinedInWrite(n@))
            } else {
                match element_of(m, n@, *ix) {
                    Err(x) => Err(x),
                    Ok(_) => Ok(()),
                }
            },
            Expr::BinaryOp(l, _, r) => match infer(m, *l) {
                Err(x) => Err(x),
                Ok(lt) => match infer(m, *r) {
                    Err(x) => Err(x),
                    Ok(rt) => match arithmetic_result(lt, rt) {
                        None => Err(ErrV::Generic("Incompatible types for arithmetic operation"@)),
                        Some(_) => write_exprs_check(m, es.drop_first()),
                    },
                },
            },
        }
    }
}

} // verus!

verus! {

/// Analysing a program never loses or changes an entry the table already
/// held: the declarations of the program only add entries, and its
/// instructions leave the table as it is.  This holds of the table after an
/// analysis that fails, too.
pub proof fn lemma_analysis_preserves(m: TableV, p: crate::ast::Program)
    ensures
        analysis(m, p) matches Ok(m2) ==> extends(m, m2),
        extends(m, analysis_after(m, p)),
{
    let r1 = match p.global {
        Some(ds) => declarations(m, ds@),
        None => Ok(m),
    };
    let a1 = match p.global {
        Some(ds) => declarations_after(m, ds@),
        None => m,
    };
    if let Some(ds) = p.global {
        lemma_declarations_extend(m, ds@);
    }
    if let Ok(m1) = r1 {
        if let Some(ds) = p.global {
            lemma_declarations_after_ok(m, ds@);
        }
        assert(a1 == m1);
        if let Some(ds) = p.decls {
            lemma_declarations_extend(m1, ds@);
            lemma_extends_trans(m, m1, declarations_after(m1, ds@));
            if let Ok(m2) = declarations(m1, ds@) {
                lemma_extends_trans(m, m1, m2);
            }
        }
    }
}

/// Once declarations succeed, the table after them is the one they give.
pub proof fn lemma_declarations_after_ok(m: TableV, ds: Seq<Declaration>)
    ensures
        declarations(m, ds) matches Ok(m2) ==> declarations_after(m, ds) == m2,
    decreases ds.len(),
{
    if ds.len() > 0 {
        if let Ok(m1) = declaration(m, ds[0]) {
            lemma_declarations_after_ok(m1, ds.drop_first());
        }
    }
}

} // verus!

verus! {

/// Integer arithmetic on constants means what it says: the sum, the
/// difference (left operand minus right operand) and the product of `x` and
/// `y` when they fit in 16 bits, an overflow error when they do not; a
/// quotient `q` with remainder `x - q * y` smaller than `y` in size and of
/// the sign of `x` (division rounds toward zero), and an error for a zero
/// divisor.
pub proof fn lemma_integer_arithmetic(x: i16, y: i16, l: usize, c: usize)
    ensures
        fits_i16(x + y) ==> calculate(ValV::Int(x), BinOp::Add(l, c), ValV::Int(y)) == Ok::<ValV, ErrV>(
            ValV::Int((x + y) as i16),
        ),
        !fits_i16(x + y) ==> calculate(ValV::Int(x), BinOp::Add(l, c), ValV::Int(y)) == Err::<ValV, ErrV>(
            ErrV::ArithmeticOverflow(BinOp::Add(l, c)),
        ),
        fits_i16(x - y) ==> calculate(ValV::Int(x), BinOp::Sub(l, c), ValV::Int(y)) == Ok::<ValV, ErrV>(
            ValV::Int((x - y) as i16),
        ),
        !fits_i16(x - y) ==> calculate(ValV::Int(x), BinOp::Sub(l, c), ValV::Int(y)) == Err::<ValV, ErrV>(
            ErrV::ArithmeticOverflow(BinOp::Sub(l, c)),
        ),
        fits_i16(x * y) ==> calculate(ValV::Int(x), BinOp::Mul(l, c), ValV::Int(y)) == Ok::<ValV, ErrV>(
            ValV::Int((x * y) as i16),
        ),
        !fits_i16(x * y) ==> calculate(ValV::Int(x), BinOp::Mul(l, c), ValV::Int(y)) == Err::<ValV, ErrV>(
            ErrV::ArithmeticOverflow(BinOp::Mul(l, c)),
        ),
        y == 0 ==> calculate(ValV::Int(x), BinOp::Div(l, c), ValV::Int(y)) == Err::<ValV, ErrV>(
            ErrV::DivisionByZero,
        ),
        y != 0 && !(x == -32768 && y == -1) ==> (calculate(ValV::Int(x), BinOp::Div(l, c), ValV::Int(y)) matches Ok(
            ValV::Int(q),
        ) && {
            let rem = x - q * y;
            &&& (if rem >= 0 { rem } else { -rem }) < (if y >= 0 { y as int } else { -y })
            &&& (rem == 0 || (rem > 0) == (x > 0))
        }),
{
    if y != 0 && !(x == -32768 && y == -1) {
        let a = x as int;
        let b = y as int;
        let q = trunc_div(a, b);
        if a >= 0 && b > 0 {
            assert(a == b * (a / b) + a % b && 0 <= a % b < b) by (nonlinear_arith)
                requires
                    b > 0,
            ;
            assert(0 <= q <= a) by (nonlinear_arith)
                requires
                    a >= 0,
                    b > 0,
                    q == a / b,
            ;
        } else if a >= 0 && b < 0 {
            let nb = -b;
            assert(a == nb * (a / nb) + a % nb && 0 <= a % nb < nb) by (nonlinear_arith)
                requires
                    nb > 0,
            ;
            assert(0 <= a / nb <= a) by (nonlinear_arith)
                requires
                    a >= 0,
                    nb > 0,
            ;
            assert(a - q * b == a % nb) by (nonlinear_arith)
                requires
                    q == -(a / nb),
                    b == -nb,
                    a == nb * (a / nb) + a % nb,
            ;
        } else if a < 0 && b > 0 {
            let na = -a;
            assert(na == b * (na / b) + na % b && 0 <= na % b < b) by (nonlinear_arith)
                requires
                    b > 0,
            ;
            assert(0 <= na / b <= na) by (nonlinear_arith)
                requires
                    na >= 0,
                    b > 0,
            ;
            assert(a - q * b == -(na % b)) by (nonlinear_arith)
                requires
                    q == -(na / b),
                    a == -na,
                    na == b * (na / b) + na % b,
            ;
        } else {
            let na = -a;
            let nb = -b;
            assert(na == nb * (na / nb) + na % nb && 0 <= na % nb < nb) by (nonlinear_arith)
                requires
                    nb > 0,
            ;
            assert(0 <= na / nb <= na) by (nonlinear_arith)
                requires
                    na >= 0,
                    nb > 0,
            ;
            assert(a - q * b == -(na % nb)) by (nonlinear_arith)
                requires
                    q == na / nb,
                    a == -na,
                    b == -nb,
                    na == nb * (na / nb) + na % nb,
            ;
            if nb == 1 {
                assert(na / nb == na) by (nonlinear_arith)
                    requires
                        nb == 1,
                ;
            } else {
                assert(na / nb <= na / 2) by (nonlinear_arith)
                    requires
                        na >= 0,
                        nb >= 2,
                ;
            }
        }
        assert(fits_i16(q));
        assert(calculate(ValV::Int(x), BinOp::Div(l, c), ValV::Int(y)) == Ok::<ValV, ErrV>(ValV::Int(q as i16)));
    }
}

/// Character arithmetic works on the low bytes of the codes: a sum or a
/// difference that stays within a byte gives the character whose code is
/// that number modulo 127; one that leaves it is an overflow.  Characters
/// cannot be multiplied or divided.
pub proof fn lemma_character_arithmetic(x: char, y: char, l: usize, c: usize)
    ensures
        char_byte(x) + char_byte(y) <= 255 ==> (calculate(ValV::Chr(x), BinOp::Add(l, c), ValV::Chr(y)) matches Ok(
            ValV::Chr(z),
        ) && z as u32 as int == (char_byte(x) + char_byte(y)) % 127),
        char_byte(x) + char_byte(y) > 255 ==> calculate(ValV::Chr(x), BinOp::Add(l, c), ValV::Chr(y)) == Err::<
            ValV,
            ErrV,
        >(ErrV::ArithmeticOverflow(BinOp::Add(l, c))),
        char_byte(x) >= char_byte(y) ==> (calculate(ValV::Chr(x), BinOp::Sub(l, c), ValV::Chr(y)) matches Ok(
            ValV::Chr(z),
        ) && z as u32 as int == (char_byte(x) - char_byte(y)) % 127),
        char_byte(x) < char_byte(y) ==> calculate(ValV::Chr(x), BinOp::Sub(l, c), ValV::Chr(y)) == Err::<
            ValV,
            ErrV,
        >(ErrV::ArithmeticOverflow(BinOp::Sub(l, c))),
        calculate(ValV::Chr(x), BinOp::Mul(l, c), ValV::Chr(y)) == Err::<ValV, ErrV>(
            ErrV::InvalidOperation(BinOp::Mul(l, c)),
        ),
        calculate(ValV::Chr(x), BinOp::Div(l, c), ValV::Chr(y)) == Err::<ValV, ErrV>(
            ErrV::InvalidOperation(BinOp::Div(l, c)),
        ),
{
    let s = char_byte(x) + char_byte(y);
    let d = char_byte(x) - char_byte(y);
    if s <= 255 {
        let k = s % 127;
        assert(0 <= k < 127);
        assert(((k as u8) as char) as u32 as int == k);
    }
    if d >= 0 {
        let k = d % 127;
        assert(0 <= k < 127);
        assert(((k as u8) as char) as u32 as int == k);
    }
}

/// Floating-point operations are kept as written, with the operator of the
/// source and the left operand first; only a division by a literal zero is
/// refused.
pub proof fn lemma_float_arithmetic(x: FloatV, op: BinOp, y: FloatV)
    ensures
        !(op is Div && float_is_zero(y)) ==> calculate(ValV::Flt(x), op, ValV::Flt(y)) == Ok::<ValV, ErrV>(
            ValV::Flt(FloatV::Bin(Box::new(x), op, Box::new(y))),
        ),
        op is Div && float_is_zero(y) ==> calculate(ValV::Flt(x), op, ValV::Flt(y)) == Err::<ValV, ErrV>(
            ErrV::DivisionByZero,
        ),
{
}

/// A binary expression is evaluated by applying its operator to the value
/// of its left operand and the value of its right operand, in that order;
/// so `x - y` on integer literals gives `x - y` when that fits.
pub proof fn lemma_eval_binary(m: TableV, l: Expr, op: BinOp, r: Expr)
    ensures
        eval(m, l) matches Ok(a) ==> (eval(m, r) matches Ok(b) ==> eval(
            m,
            Expr::BinaryOp(Box::new(l), op, Box::new(r)),
        ) == calculate(a, op, b)),
        eval(m, r) matches Err(e) ==> eval(m, Expr::BinaryOp(Box::new(l), op, Box::new(r))) == Err::<ValV, ErrV>(e),
{
}

/// The difference of two integer literals is the left one minus the right
/// one, whatever the table holds.
pub proof fn lemma_literal_difference(m: TableV, x: i16, px: (usize, usize), y: i16, py: (usize, usize), op_pos: (usize, usize))
    requires
        fits_i16(x - y),
    ensures
        eval(
            m,
            Expr::BinaryOp(
                Box::new(Expr::Literal(TypeValue::Integer((x, px)))),
                BinOp::Sub(op_pos.0, op_pos.1),
                Box::new(Expr::Literal(TypeValue::Integer((y, py)))),
            ),
        ) == Ok::<ValV, ErrV>(ValV::Int((x - y) as i16)),
{
    lemma_integer_arithmetic(x, y, op_pos.0, op_pos.1);
    assert(eval(m, Expr::Literal(TypeValue::Integer((x, px)))) == Ok::<ValV, ErrV>(ValV::Int(x)));
    assert(eval(m, Expr::Literal(TypeValue::Integer((y, py)))) == Ok::<ValV, ErrV>(ValV::Int(y)));
}

} // verus!

verus! {

/// An arithmetic expression has a type exactly when both operands have the
/// same scalar type, and then it has that type.
pub proof fn lemma_infer_binary(m: TableV, l: Expr, op: BinOp, r: Expr, t: Types)
    ensures
        infer(m, Expr::BinaryOp(Box::new(l), op, Box::new(r))) == Ok::<Types, ErrV>(t) <==> (infer(m, l) == Ok::<
            Types,
            ErrV,
        >(t) && infer(m, r) == Ok::<Types, ErrV>(t) && !(t is Array)),
{
}

} // verus!
