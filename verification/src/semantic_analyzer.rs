//! Semantic analysis: enters each declared name in the symbol table (the
//! grammar leaves the table empty), works out the values of initialized
//! declarations, and checks types, constness and array bounds, exactly as
//! `crate::semantics` describes.  Instructions are only checked: they read
//! the table and never change it.

use vstd::prelude::*;
use crate::ast::{
    ArrayDecl, Assignment, BinOp, Condition, Declaration, Expr, FloatValue, ForStmt, IfStmt,
    Instruction, Program, ReadStmt, Type, TypeValue, ValV, Variable, WriteElement, WriteStmt,
    float_view, val_view,
};
use crate::error::{ErrV, SemanticError, err_view};
use crate::semantic_rules::{SemanticRules, unit_result};
use crate::semantics::{
    TableV, analysis, analysis_after, array_init, array_name, array_size, assign, calculate,
    const_value, decl_array, decl_arrays, decl_arrays_after, decl_const, decl_consts,
    decl_consts_after, decl_var, decl_vars, decl_vars_after, declaration_after, declarations_after,
    eval, float_is_zero, infer, init_value, instruction, program_wf, declarations_wf,
    declaration_wf, read, scalar_type, symbol_type, unquoted, valv_type, write_elements, set_value,
    set_size, declare, condition_type, write_exprs_check, recorded_type,
};
use crate::symbol_table::{SymbolTable, Types};
use crate::text::chars_of;
use crate::type_checker::TypeChecker;

verus! {

pub open spec fn val_result(r: Result<TypeValue, SemanticError>) -> Result<ValV, ErrV> {
    match r {
        Ok(v) => Ok(val_view(v)),
        Err(e) => Err(err_view(e)),
    }
}

pub open spec fn types_result(r: Result<Types, SemanticError>) -> Result<Types, ErrV> {
    match r {
        Ok(t) => Ok(t),
        Err(e) => Err(err_view(e)),
    }
}

pub open spec fn table_result(r: Result<(), SemanticError>, m: TableV) -> Result<TableV, ErrV> {
    match r {
        Ok(()) => Ok(m),
        Err(e) => Err(err_view(e)),
    }
}

/// The analyzer, with the symbol table it fills.
pub struct SemanticAnalyzer {
    table: SymbolTable,
}

impl SemanticAnalyzer {
    /// What each declared identifier stands for.
    pub closed spec fn table_view(&self) -> TableV {
        self.table@
    }

    /// The table has one entry per identifier, each holding at most one
    /// value, and no value is an array.
    pub closed spec fn wf(&self) -> bool {
        &&& self.table.wf()
        &&& self.table.single_valued()
        &&& crate::semantics::scalar_table(self.table@)
    }

    /// An analyzer with an empty symbol table.
    pub fn new() -> (a: Self)
        ensures
            a.wf(),
            a.table_view() == Map::<Seq<char>, crate::symbol_table::SymV>::empty(),
    {
        let a = SemanticAnalyzer { table: SymbolTable::new() };
        assert(a.table@ =~= Map::<Seq<char>, crate::symbol_table::SymV>::empty());
        assert(crate::semantics::scalar_table(a.table@));
        a
    }

    /// The symbol table filled so far.
    pub fn symbol_table(&self) -> (t: &SymbolTable)
        requires
            self.wf(),
        ensures
            t.wf(),
            t.single_valued(),
            t@ == self.table_view(),
    {
        &self.table
    }

    /// The type recorded for the variable `name`.
    fn symbol_type(&self, name: &String) -> (r: Result<Types, SemanticError>)
        requires
            self.wf(),
        ensures
            types_result(r) == symbol_type(self.table_view(), name@),
    {
        match self.table.get(name) {
            None => Err(SemanticError::UndefinedVariable(name.clone())),
            Some(sym) => match &sym.Type {
                Some(t) => Ok(t.clone()),
                None => Err(SemanticError::NoType(name.clone())),
            },
        }
    }

    /// The type recorded for the indexed variable `name`.
    fn element_type(&self, name: &String) -> (r: Result<Types, SemanticError>)
        requires
            self.wf(),
        ensures
            types_result(r) == if !self.table_view().contains_key(name@) {
                Err(ErrV::UndefinedInWrite(name@))
            } else {
                recorded_type(self.table_view(), name@)
            },
    {
        match self.table.get(name) {
            None => Err(SemanticError::UndefinedInWrite(name.clone())),
            Some(sym) => match &sym.Type {
                Some(t) => Ok(t.clone()),
                None => Err(SemanticError::NoType(name.clone())),
            },
        }
    }

    /// The type of an expression.
    pub fn infer_expression_type(&self, expr: &Expr) -> (r: Result<Types, SemanticError>)
        requires
            self.wf(),
        ensures
            types_result(r) == infer(self.table_view(), *expr),
        decreases expr,
    {
        match expr {
            Expr::Literal(lit) => match lit {
                TypeValue::Integer(_) => Ok(Types::Integer),
                TypeValue::Float(_) => Ok(Types::Float),
                TypeValue::Char(_) => Ok(Types::Char),
                TypeValue::Array(_) => Err(SemanticError::ArrayValueInExpression),
            },
            Expr::Variable(var) => self.symbol_type(&var.0),
            Expr::SUBS(var, _) => self.element_type(&var.0),
            Expr::BinaryOp(left, _, right) => {
                let left_type = self.infer_expression_type(left)?;
                let right_type = self.infer_expression_type(right)?;
                TypeChecker::check_arithmetic_compatibility(&left_type, &right_type)
            },
        }
    }
}

/// Where an operator is written.
pub open spec fn bin_pos(op: BinOp) -> (usize, usize) {
    match op {
        BinOp::Add(l, c) => (l, c),
        BinOp::Sub(l, c) => (l, c),
        BinOp::Mul(l, c) => (l, c),
        BinOp::Div(l, c) => (l, c),
    }
}

/// Where a scalar value is written.
pub open spec fn value_pos(v: TypeValue) -> Option<(usize, usize)> {
    match v {
        TypeValue::Integer((_, p)) => Some(p),
        TypeValue::Float((_, p)) => Some(p),
        TypeValue::Char((_, p)) => Some(p),
        TypeValue::Array(_) => None,
    }
}

fn op_position(op: &BinOp) -> (p: (usize, usize))
    ensures
        p == bin_pos(*op),
{
    match op {
        BinOp::Add(l, c) => (*l, *c),
        BinOp::Sub(l, c) => (*l, *c),
        BinOp::Mul(l, c) => (*l, *c),
        BinOp::Div(l, c) => (*l, *c),
    }
}

/// Whether a float value is a literal whose digits are all zeros.
#[verifier::loop_isolation(false)]
fn float_is_zero_value(f: &FloatValue) -> (b: bool)
    ensures
        b == float_is_zero(float_view(*f)),
{
    match f {
        FloatValue::Literal(t) => {
            let cs = chars_of(t.as_str());
            let mut i: usize = 0;
            while i < cs.len()
                invariant
                    cs@ == t@,
                    i <= cs@.len(),
                    forall|k: int| 0 <= k < i ==> #[trigger] crate::semantics::zero_text_char(cs@[k]),
                decreases cs@.len() - i,
            {
                if !(cs[i] == '0' || cs[i] == '.' || cs[i] == '-') {
                    assert(t@[i as int] == cs@[i as int]);
                    assert(!crate::semantics::zero_text_char(t@[i as int]));
                    assert(!crate::semantics::zero_text(t@));
                    assert(float_view(*f) == crate::ast::FloatV::Lit(t@));
                    return false;
                }
                i = i + 1;
            }
            true
        },
        FloatValue::Binary(..) => false,
    }
}

/// One arithmetic operation on two values (see `calculate`); the result is
/// placed where the operator is written.
pub fn calculate_expr(a0: TypeValue, op: &BinOp, a1: TypeValue) -> (r: Result<TypeValue, SemanticError>)
    ensures
        val_result(r) == calculate(val_view(a0), *op, val_view(a1)),
        r matches Ok(v) ==> value_pos(v) == Some(bin_pos(*op)),
{
    let pos = op_position(op);
    match (a0, a1) {
        (TypeValue::Integer((x, _)), TypeValue::Integer((y, _))) => {
            let is_div = match op {
                BinOp::Div(..) => true,
                _ => false,
            };
            if is_div && y == 0 {
                return Err(SemanticError::DivisionByZero);
            }
            let xi = x as i32;
            let yi = y as i32;
            assert(-1073741824 <= xi * yi <= 1073741824) by (nonlinear_arith)
                requires
                    -32768 <= xi <= 32767,
                    -32768 <= yi <= 32767,
            ;
            let v: i32 = match op {
                BinOp::Add(..) => xi + yi,
                BinOp::Sub(..) => xi - yi,
                BinOp::Mul(..) => xi * yi,
                BinOp::Div(..) => {
                    let ax: u32 = if xi < 0 { (0 - xi) as u32 } else { xi as u32 };
                    let ay: u32 = if yi < 0 { (0 - yi) as u32 } else { yi as u32 };
                    let q = (ax / ay) as i32;
                    if (xi < 0) != (yi < 0) {
                        0 - q
                    } else {
                        q
                    }
                },
            };
            if -32768 <= v && v <= 32767 {
                Ok(TypeValue::Integer((v as i16, pos)))
            } else {
                Err(SemanticError::ArithmeticOverflow(*op))
            }
        },
        (TypeValue::Float((f0, _)), TypeValue::Float((f1, _))) => {
            let is_div = match op {
                BinOp::Div(..) => true,
                _ => false,
            };
            if is_div && float_is_zero_value(&f1) {
                return Err(SemanticError::DivisionByZero);
            }
            Ok(TypeValue::Float((FloatValue::Binary(Box::new(f0), *op, Box::new(f1)), pos)))
        },
        (TypeValue::Char((c0, _)), TypeValue::Char((c1, _))) => {
            let b0 = (c0 as u32) % 256;
            let b1 = (c1 as u32) % 256;
            match op {
                BinOp::Add(..) => {
                    let s = b0 + b1;
                    if s > 255 {
                        Err(SemanticError::ArithmeticOverflow(*op))
                    } else {
                        Ok(TypeValue::Char((((s % 127) as u8) as char, pos)))
                    }
                },
                BinOp::Sub(..) => {
                    if b0 < b1 {
                        Err(SemanticError::ArithmeticOverflow(*op))
                    } else {
                        Ok(TypeValue::Char((((b0 - b1) % 127) as u8 as char, pos)))
                    }
                },
                _ => Err(SemanticError::InvalidOperation(*op)),
            }
        },
        _ => Err(SemanticError::InvalidOperation(*op)),
    }
}

pub open spec fn size_result(r: Result<i16, SemanticError>) -> Result<i16, ErrV> {
    match r {
        Ok(t) => Ok(t),
        Err(e) => Err(err_view(e)),
    }
}

impl SemanticAnalyzer {
    /// The value of element `index` of the array `symbol` (see `array_cell`).
    fn get_array_cell(&self, symbol: &crate::symbol_table::Symbol, index: &Expr) -> (r: Result<TypeValue, SemanticError>)
        requires
            self.wf(),
            self.table.get_spec(symbol.Identifier@) == Some(*symbol),
        ensures
            val_result(r) == ({
                let m = self.table_view();
                let name = symbol.Identifier@;
                match m[name].size {
                    None => Err(ErrV::NotAnArray(name)),
                    Some(size) => match eval(m, *index) {
                        Err(x) => Err(x),
                        Ok(ValV::Int(i)) => crate::semantics::array_cell(name, m[name], size, i),
                        Ok(_) => Err(ErrV::NonIntegerIndex),
                    },
                }
            }),
        decreases index, 2int,
    {
        let ghost m = self.table_view();
        assert(m.contains_key(symbol.Identifier@));
        assert(m[symbol.Identifier@] == crate::symbol_table::sym_view(*symbol));
        match symbol.size {
            None => Err(SemanticError::NotAnArray(symbol.Identifier.clone())),
            Some(size) => match self.parse_expr(index)? {
                TypeValue::Integer((i, p)) => {
                    if i < 0 {
                        return Err(SemanticError::NegativeIndex);
                    }
                    if i >= size {
                        return Err(SemanticError::IndexOutOfBounds(size, i));
                    }
                    if i == 0 {
                        if symbol.Value.len() > 0 {
                            match &symbol.Value[0] {
                                Some(v) => Ok(v.copy()),
                                None => Err(SemanticError::UsedBeforeAssigned(symbol.Identifier.clone())),
                            }
                        } else {
                            Err(SemanticError::UsedBeforeAssigned(symbol.Identifier.clone()))
                        }
                    } else {
                        match &symbol.Type {
                            Some(Types::Integer) => Ok(TypeValue::Integer((0, (p.0, p.1)))),
                            Some(Types::Float) => {
                                let zero = String::from_str("0");
                                proof {
                                    reveal_strlit("0");
                                    assert("0"@ =~= seq!['0']);
                                }
                                Ok(TypeValue::Float((FloatValue::Literal(zero), (p.0, p.1))))
                            },
                            Some(Types::Char) => Ok(TypeValue::Char(('!', (p.0, p.1)))),
                            _ => Err(SemanticError::NoType(symbol.Identifier.clone())),
                        }
                    }
                },
                _ => Err(SemanticError::NonIntegerIndex),
            },
        }
    }

    /// The value of an expression (see `eval`).
    pub fn parse_expr(&self, expr: &Expr) -> (r: Result<TypeValue, SemanticError>)
        requires
            self.wf(),
        ensures
            val_result(r) == eval(self.table_view(), *expr),
        decreases expr, 1int,
    {
        match expr {
            Expr::Literal(i) => match i {
                TypeValue::Integer((j, p)) => Ok(TypeValue::Integer((*j, (p.0, p.1)))),
                TypeValue::Float((j, p)) => Ok(TypeValue::Float((j.copy(), (p.0, p.1)))),
                TypeValue::Char((j, p)) => Ok(TypeValue::Char((*j, (p.0, p.1)))),
                TypeValue::Array(_) => Err(SemanticError::ArrayValueInExpression),
            },
            Expr::Variable(s) => match self.table.get(&s.0) {
                Some(t) => {
                    assert(self.table_view()[s.0@] == crate::symbol_table::sym_view(*t));
                    if t.Value.len() > 0 {
                        match &t.Value[0] {
                            Some(e) => Ok(e.copy()),
                            None => Err(SemanticError::UsedBeforeAssigned(s.0.clone())),
                        }
                    } else {
                        Err(SemanticError::UsedBeforeAssigned(s.0.clone()))
                    }
                },
                None => Err(SemanticError::UndeclaredInExpression(s.0.clone())),
            },
            Expr::SUBS(s, i) => match self.table.get(&s.0) {
                Some(t) => self.get_array_cell(t, i),
                None => Err(SemanticError::UndeclaredInExpression(s.0.clone())),
            },
            Expr::BinaryOp(expr0, bin_op, expr1) => {
                let result1 = self.parse_expr(expr1)?;
                let result0 = self.parse_expr(expr0)?;
                calculate_expr(result0, bin_op, result1)
            },
        }
    }

    /// The size given in an array declaration: a positive integer.
    fn evaluate_array_size(&self, size_expr: &Expr) -> (r: Result<i16, SemanticError>)
        requires
            self.wf(),
        ensures
            size_result(r) == array_size(self.table_view(), *size_expr),
    {
        let result = self.parse_expr(size_expr)?;
        match result {
            TypeValue::Integer((i, _)) => {
                if i <= 0 {
                    return Err(SemanticError::NonPositiveArraySize);
                }
                Ok(i)
            },
            _ => Err(SemanticError::NonIntegerArraySize),
        }
    }
}

proof fn lemma_eval_scalar(m: TableV, e: Expr)
    requires
        crate::semantics::scalar_table(m),
    ensures
        eval(m, e) matches Ok(v) ==> !(v is Arr),
    decreases e,
{
    match e {
        Expr::Variable((name, _)) => {
            if m.contains_key(name@) {
            }
        },
        Expr::SUBS((name, _), index) => {
            lemma_eval_scalar(m, *index);
            if m.contains_key(name@) {
            }
        },
        Expr::BinaryOp(l, _, r) => {
            lemma_eval_scalar(m, *l);
            lemma_eval_scalar(m, *r);
        },
        _ => {},
    }
}

proof fn lemma_scalar_type(v: TypeValue)
    requires
        !(val_view(v) is Arr),
    ensures
        crate::type_checker::has_type(v),
        crate::type_checker::type_of_value(v) == valv_type(val_view(v)),
{
}

impl SemanticAnalyzer {
    /// Records value `v` for `name`, which has an entry.
    fn store_value(&mut self, name: &String, v: TypeValue)
        requires
            old(self).wf(),
            old(self).table_view().contains_key(name@),
            !(val_view(v) is Arr),
        ensures
            final(self).wf(),
            final(self).table_view() == set_value(old(self).table_view(), name@, val_view(v)),
    {
        let r = self.table.set_value(name, v);
        assert(r is Ok);
        assert(crate::semantics::scalar_table(self.table@)) by {
            assert forall|k: Seq<char>| #[trigger] self.table@.contains_key(k) implies (
            self.table@[k].value matches Some(x) ==> !(x is Arr)) by {
                if k != name@ {
                    assert(old(self).table@.contains_key(k));
                }
            }
        }
    }

    /// Records size `size` for `name`, which has an entry.
    fn store_size(&mut self, name: &String, size: i16)
        requires
            old(self).wf(),
            old(self).table_view().contains_key(name@),
        ensures
            final(self).wf(),
            final(self).table_view() == set_size(old(self).table_view(), name@, size),
    {
        let r = self.table.set_array_size(name, size);
        assert(r is Ok);
        assert(crate::semantics::scalar_table(self.table@)) by {
            assert forall|k: Seq<char>| #[trigger] self.table@.contains_key(k) implies (
            self.table@[k].value matches Some(x) ==> !(x is Arr)) by {
                assert(old(self).table@.contains_key(k));
            }
        }
    }

    /// Enters `name` in the table with type `ty`.
    fn declare(&mut self, name: &String, ty: &Types, is_constant: bool) -> (r: Result<(), SemanticError>)
        requires
            old(self).wf(),
        ensures
            final(self).wf(),
            table_result(r, final(self).table_view()) == declare(old(self).table_view(), name@, *ty, is_constant),
            r is Err ==> final(self).table_view() == old(self).table_view(),
    {
        let r = self.table.declare(name.clone(), ty.clone(), is_constant);
        assert(crate::semantics::scalar_table(self.table@)) by {
            assert forall|k: Seq<char>| #[trigger] self.table@.contains_key(k) implies (
            self.table@[k].value matches Some(x) ==> !(x is Arr)) by {
                if k != name@ {
                    assert(old(self).table@.contains_key(k));
                }
            }
        }
        r
    }

    /// Takes `name` back out of the table, after its declaration failed.
    fn undeclare(&mut self, name: &String)
        requires
            old(self).wf(),
        ensures
            final(self).wf(),
            final(self).table_view() == old(self).table_view().remove(name@),
    {
        let _ = self.table.remove(name);
        assert(self.table@ =~= old(self).table@.remove(name@));
        assert(crate::semantics::scalar_table(self.table@)) by {
            assert forall|k: Seq<char>| #[trigger] self.table@.contains_key(k) implies (
            self.table@[k].value matches Some(x) ==> !(x is Arr)) by {
                assert(old(self).table@.contains_key(k));
            }
        }
    }

    /// The value a declaration gives `name` (see `init_value`).
    fn initial_value(&self, name: &(String, (usize, usize)), ty: &Types, is_constant: bool, expr: &Expr) -> (r:
        Result<TypeValue, SemanticError>)
        requires
            self.wf(),
        ensures
            val_result(r) == init_value(self.table_view(), name.0@, name.1, *ty, is_constant, *expr),
            r matches Ok(v) ==> !(val_view(v) is Arr),
    {
        let value = self.parse_expr(expr)?;
        proof {
            lemma_eval_scalar(self.table_view(), *expr);
            lemma_scalar_type(value);
        }
        SemanticRules::validate_variable_declaration(name, ty, is_constant, Some(&value))?;
        Ok(value)
    }

    /// A declared variable, with or without an initial value (see `decl_var`).
    /// The grammar leaves the table empty: the analyzer enters each declared
    /// name, and refuses a name declared twice.  A declaration that fails
    /// leaves the table as it was.
    fn validate_variable(&mut self, type_decl: &Types, var: &Variable) -> (r: Result<(), SemanticError>)
        requires
            old(self).wf(),
        ensures
            final(self).wf(),
            table_result(r, final(self).table_view()) == decl_var(old(self).table_view(), *type_decl, *var),
            r is Err ==> final(self).table_view() == old(self).table_view(),
    {
        let ghost m0 = self.table_view();
        match var {
            Variable::Simple(name) => {
                self.declare(&name.0, type_decl, false)?;
                match SemanticRules::validate_variable_declaration(name, type_decl, false, None) {
                    Ok(()) => Ok(()),
                    Err(e) => {
                        self.undeclare(&name.0);
                        assert(self.table_view() =~= m0);
                        Err(e)
                    },
                }
            },
            Variable::Initialized(name, expr) => {
                self.declare(&name.0, type_decl, false)?;
                match self.initial_value(name, type_decl, false, expr) {
                    Ok(value) => {
                        self.store_value(&name.0, value);
                        Ok(())
                    },
                    Err(e) => {
                        self.undeclare(&name.0);
                        assert(self.table_view() =~= m0);
                        Err(e)
                    },
                }
            },
        }
    }

    /// The elements of an initializer list (see `elements_init_check`).
    fn validate_array_initialization(&self, type_decl: &Types, declared_size: &Expr, elements: &Vec<Expr>) -> (r: Result<(), SemanticError>)
        requires
            self.wf(),
        ensures
            unit_result(r) == crate::semantics::elements_init_check(self.table_view(), *type_decl, *declared_size, elements@),
    {
        let parsed_declared_size;
        match self.parse_expr(declared_size)? {
            TypeValue::Integer((i, _)) => parsed_declared_size = i,
            _ => return Err(SemanticError::NonIntegerInitializerSize),
        }
        if parsed_declared_size < elements.len() as i16 {
            return Err(SemanticError::ArraySizeMismatch(parsed_declared_size as usize, elements.len()));
        }
        let ghost m = self.table_view();
        let mut k: usize = 0;
        assert(elements@.skip(0) =~= elements@);
        while k < elements.len()
            invariant
                self.wf(),
                m == self.table_view(),
                crate::semantics::elements_init_check(m, *type_decl, *declared_size, elements@)
                    == crate::semantics::elements_typed(m, *type_decl, elements@),
                k <= elements@.len(),
                crate::semantics::elements_typed(m, *type_decl, elements@)
                    == crate::semantics::elements_typed(m, *type_decl, elements@.skip(k as int)),
            decreases elements@.len() - k,
        {
            let value_type = self.infer_expression_type(&elements[k]);
            proof {
                let rest = elements@.skip(k as int);
                assert(rest[0] == elements@[k as int]);
                assert(rest.drop_first() =~= elements@.skip(k + 1));
            }
            let value_type = value_type?;
            if !TypeChecker::are_types_compatible(&value_type, type_decl) {
                return Err(SemanticError::ArrayElementType(type_decl.clone(), value_type));
            }
            k = k + 1;
        }
        assert(elements@.skip(k as int).len() == 0);
        Ok(())
    }

    /// A string initializer (see `string_init_check`).
    fn validate_array_string_initialization(&self, declared_size: &Expr, elements: &str) -> (r: Result<(), SemanticError>)
        requires
            self.wf(),
        ensures
            unit_result(r) == crate::semantics::string_init_check(self.table_view(), *declared_size, elements@),
    {
        let parsed_declared_size;
        match self.parse_expr(declared_size)? {
            TypeValue::Integer((i, _)) => parsed_declared_size = i,
            _ => return Err(SemanticError::NonIntegerInitializerSize),
        }
        if parsed_declared_size < elements.len() as i16 {
            return Err(SemanticError::ArraySizeMismatch(parsed_declared_size as usize, elements.len()));
        }
        Ok(())
    }

    /// The size and first element an array declaration gives (see
    /// `array_init`).
    fn array_entry(&self, type_decl: &Types, arr: &ArrayDecl) -> (r: Result<(i16, Option<TypeValue>), SemanticError>)
        requires
            self.wf(),
            crate::semantics::array_decl_wf(*arr),
        ensures
            match r {
                Ok((size, v)) => {
                    &&& array_init(self.table_view(), *type_decl, *arr) == Ok::<(i16, Option<ValV>), ErrV>((
                        size,
                        match v {
                            Some(x) => Some(val_view(x)),
                            None => None,
                        },
                    ))
                    &&& (v matches Some(x) ==> !(val_view(x) is Arr))
                },
                Err(e) => array_init(self.table_view(), *type_decl, *arr) == Err::<(i16, Option<ValV>), ErrV>(
                    err_view(e),
                ),
            },
    {
        match arr {
            ArrayDecl::Simple(name, size_expr) => {
                let size = self.evaluate_array_size(size_expr)?;
                SemanticRules::validate_array_declaration(name, type_decl, size)?;
                Ok((size, None))
            },
            ArrayDecl::Initialized(name, size_expr, values) => {
                let size = self.evaluate_array_size(size_expr)?;
                self.validate_array_initialization(type_decl, size_expr, values)?;
                let value = self.parse_expr(&values[0])?;
                proof {
                    lemma_eval_scalar(self.table_view(), values@[0]);
                }
                SemanticRules::validate_array_declaration(name, type_decl, size)?;
                Ok((size, Some(value)))
            },
            ArrayDecl::InitializedString(name, size_expr, value) => {
                let size = self.evaluate_array_size(size_expr)?;
                let cs = chars_of(value.0.as_str());
                let inner = crate::text::string_of(&cs, 1, cs.len() - 1);
                assert(inner@ =~= unquoted(value.0@));
                self.validate_array_string_initialization(size_expr, inner.as_str())?;
                let first = if cs.len() > 2 {
                    cs[1]
                } else {
                    '\0'
                };
                assert(cs.len() > 2 ==> first == unquoted(value.0@)[0]);
                SemanticRules::validate_array_declaration(name, type_decl, size)?;
                Ok((size, Some(TypeValue::Char((first, (name.1.0, name.1.1))))))
            },
        }
    }

    /// A declared array (see `decl_array`).  A declaration that fails leaves
    /// the table as it was.
    fn validate_array(&mut self, type_decl: &Types, arr: &ArrayDecl) -> (r: Result<(), SemanticError>)
        requires
            old(self).wf(),
            crate::semantics::array_decl_wf(*arr),
        ensures
            final(self).wf(),
            table_result(r, final(self).table_view()) == decl_array(old(self).table_view(), *type_decl, *arr),
            r is Err ==> final(self).table_view() == old(self).table_view(),
    {
        let ghost m0 = self.table_view();
        let name = match arr {
            ArrayDecl::Simple(name, _) => name,
            ArrayDecl::Initialized(name, _, _) => name,
            ArrayDecl::InitializedString(name, _, _) => name,
        };
        assert(name.0@ == array_name(*arr).0);
        self.declare(&name.0, type_decl, false)?;
        match self.array_entry(type_decl, arr) {
            Ok((size, v)) => {
                self.store_size(&name.0, size);
                match v {
                    Some(x) => self.store_value(&name.0, x),
                    None => {},
                }
                Ok(())
            },
            Err(e) => {
                self.undeclare(&name.0);
                assert(self.table_view() =~= m0);
                Err(e)
            },
        }
    }

    /// The value a constant declaration gives (see `const_value`).
    fn constant_value(&self, type_decl: &Types, constant: &Assignment) -> (r: Result<TypeValue, SemanticError>)
        requires
            self.wf(),
        ensures
            val_result(r) == const_value(self.table_view(), *type_decl, *constant),
            r matches Ok(v) ==> !(val_view(v) is Arr),
    {
        let value_type = self.infer_expression_type(&constant.expr)?;
        TypeChecker::check_assignment_compatibility(type_decl, &value_type)?;
        self.initial_value(&constant.var, type_decl, true, &constant.expr)
    }

    /// A declared constant (see `decl_const`).  A declaration that fails
    /// leaves the table as it was.
    fn validate_constant(&mut self, type_decl: &Types, constant: &Assignment) -> (r: Result<(), SemanticError>)
        requires
            old(self).wf(),
        ensures
            final(self).wf(),
            table_result(r, final(self).table_view()) == decl_const(old(self).table_view(), *type_decl, *constant),
            r is Err ==> final(self).table_view() == old(self).table_view(),
    {
        let ghost m0 = self.table_view();
        self.declare(&constant.var.0, type_decl, true)?;
        match self.constant_value(type_decl, constant) {
            Ok(value) => {
                self.store_value(&constant.var.0, value);
                Ok(())
            },
            Err(e) => {
                self.undeclare(&constant.var.0);
                assert(self.table_view() =~= m0);
                Err(e)
            },
        }
    }
}

fn scalar_of(t: &Type) -> (r: Types)
    ensures
        r == scalar_type(*t),
{
    match t {
        Type::Integer => Types::Integer,
        Type::Float => Types::Float,
        Type::Char => Types::Char,
    }
}

impl SemanticAnalyzer {
    /// The variables of one declaration statement, in order (see
    /// `decl_vars`); after a failing one the table keeps what the ones
    /// before it entered.
    fn analyze_variables(&mut self, ty: &Types, vars: &Vec<Variable>) -> (r: Result<(), SemanticError>)
        requires
            old(self).wf(),
        ensures
            final(self).wf(),
            table_result(r, final(self).table_view()) == decl_vars(old(self).table_view(), *ty, vars@),
            final(self).table_view() == decl_vars_after(old(self).table_view(), *ty, vars@),
    {
        let ghost m0 = self.table_view();
        let mut i: usize = 0;
        assert(vars@.skip(0) =~= vars@);
        while i < vars.len()
            invariant
                self.wf(),
                i <= vars@.len(),
                m0 == old(self).table_view(),
                decl_vars(m0, *ty, vars@) == decl_vars(self.table_view(), *ty, vars@.skip(i as int)),
                decl_vars_after(m0, *ty, vars@) == decl_vars_after(self.table_view(), *ty, vars@.skip(i as int)),
            decreases vars@.len() - i,
        {
            proof {
                let rest = vars@.skip(i as int);
                assert(rest[0] == vars@[i as int]);
                assert(rest.drop_first() =~= vars@.skip(i + 1));
            }
            self.validate_variable(ty, &vars[i])?;
            i = i + 1;
        }
        assert(vars@.skip(i as int).len() == 0);
        Ok(())
    }

    /// The arrays of one declaration statement, in order (see
    /// `decl_arrays`); after a failing one the table keeps what the ones
    /// before it entered.
    fn analyze_arrays(&mut self, ty: &Types, arrays: &Vec<ArrayDecl>) -> (r: Result<(), SemanticError>)
        requires
            old(self).wf(),
            forall|k: int| 0 <= k < arrays@.len() ==> #[trigger] crate::semantics::array_decl_wf(arrays@[k]),
        ensures
            final(self).wf(),
            table_result(r, final(self).table_view()) == decl_arrays(old(self).table_view(), *ty, arrays@),
            final(self).table_view() == decl_arrays_after(old(self).table_view(), *ty, arrays@),
    {
        let ghost m0 = self.table_view();
        let mut i: usize = 0;
        assert(arrays@.skip(0) =~= arrays@);
        while i < arrays.len()
            invariant
                self.wf(),
                i <= arrays@.len(),
                m0 == old(self).table_view(),
                forall|k: int| 0 <= k < arrays@.len() ==> #[trigger] crate::semantics::array_decl_wf(arrays@[k]),
                decl_arrays(m0, *ty, arrays@) == decl_arrays(self.table_view(), *ty, arrays@.skip(i as int)),
                decl_arrays_after(m0, *ty, arrays@) == decl_arrays_after(
                    self.table_view(),
                    *ty,
                    arrays@.skip(i as int),
                ),
            decreases arrays@.len() - i,
        {
            proof {
                let rest = arrays@.skip(i as int);
                assert(rest[0] == arrays@[i as int]);
                assert(rest.drop_first() =~= arrays@.skip(i + 1));
            }
            self.validate_array(ty, &arrays[i])?;
            i = i + 1;
        }
        assert(arrays@.skip(i as int).len() == 0);
        Ok(())
    }

    /// The constants of one declaration statement, in order (see
    /// `decl_consts`); after a failing one the table keeps what the ones
    /// before it entered.
    fn analyze_constants(&mut self, ty: &Types, constants: &Vec<Assignment>) -> (r: Result<(), SemanticError>)
        requires
            old(self).wf(),
        ensures
            final(self).wf(),
            table_result(r, final(self).table_view()) == decl_consts(old(self).table_view(), *ty, constants@),
            final(self).table_view() == decl_consts_after(old(self).table_view(), *ty, constants@),
    {
        let ghost m0 = self.table_view();
        let mut i: usize = 0;
        assert(constants@.skip(0) =~= constants@);
        while i < constants.len()
            invariant
                self.wf(),
                i <= constants@.len(),
                m0 == old(self).table_view(),
                decl_consts(m0, *ty, constants@) == decl_consts(self.table_view(), *ty, constants@.skip(i as int)),
                decl_consts_after(m0, *ty, constants@) == decl_consts_after(
                    self.table_view(),
                    *ty,
                    constants@.skip(i as int),
                ),
            decreases constants@.len() - i,
        {
            proof {
                let rest = constants@.skip(i as int);
                assert(rest[0] == constants@[i as int]);
                assert(rest.drop_first() =~= constants@.skip(i + 1));
            }
            self.validate_constant(ty, &constants[i])?;
            i = i + 1;
        }
        assert(constants@.skip(i as int).len() == 0);
        Ok(())
    }

    /// One declaration statement (see `declaration`).
    fn analyze_declaration(&mut self, decl: &Declaration) -> (r: Result<(), SemanticError>)
        requires
            old(self).wf(),
            declaration_wf(*decl),
        ensures
            final(self).wf(),
            table_result(r, final(self).table_view()) == crate::semantics::declaration(
                old(self).table_view(),
                *decl,
            ),
            final(self).table_view() == declaration_after(old(self).table_view(), *decl),
    {
        match decl {
            Declaration::Variable(type_decl, vars) => {
                let ty = scalar_of(type_decl);
                self.analyze_variables(&ty, vars)
            },
            Declaration::ADEC(type_decl, arrays) => {
                let ty = scalar_of(type_decl);
                self.analyze_arrays(&ty, arrays)
            },
            Declaration::Constant(type_decl, constants) => {
                let ty = scalar_of(type_decl);
                self.analyze_constants(&ty, constants)
            },
        }
    }

    /// The declarations of one section, in order (see `declarations`).  After
    /// an error the table keeps what the declarations before the failing one
    /// entered (see `declarations_after`).
    fn analyze_declarations(&mut self, declarations: &Vec<Declaration>) -> (r: Result<(), SemanticError>)
        requires
            old(self).wf(),
            declarations_wf(declarations@),
        ensures
            final(self).wf(),
            table_result(r, final(self).table_view()) == crate::semantics::declarations(
                old(self).table_view(),
                declarations@,
            ),
            final(self).table_view() == declarations_after(old(self).table_view(), declarations@),
    {
        let ghost m0 = self.table_view();
        let mut i: usize = 0;
        assert(declarations@.skip(0) =~= declarations@);
        while i < declarations.len()
            invariant
                self.wf(),
                i <= declarations@.len(),
                m0 == old(self).table_view(),
                declarations_wf(declarations@),
                crate::semantics::declarations(m0, declarations@) == crate::semantics::declarations(
                    self.table_view(),
                    declarations@.skip(i as int),
                ),
                declarations_after(m0, declarations@) == declarations_after(
                    self.table_view(),
                    declarations@.skip(i as int),
                ),
            decreases declarations@.len() - i,
        {
            proof {
                let rest = declarations@.skip(i as int);
                assert(rest[0] == declarations@[i as int]);
                assert(rest.drop_first() =~= declarations@.skip(i + 1));
                assert(declaration_wf(declarations@[i as int]));
            }
            self.analyze_declaration(&declarations[i])?;
            i = i + 1;
        }
        assert(declarations@.skip(i as int).len() == 0);
        Ok(())
    }
}

impl SemanticAnalyzer {
    /// The type a comparison has: both sides must have the same type, and the
    /// comparison then counts as an integer.
    pub fn basic_condition_type(&self, basic_cond: &crate::ast::BasicCond) -> (r: Result<Types, SemanticError>)
        requires
            self.wf(),
        ensures
            types_result(r) == match infer(self.table_view(), basic_cond.left) {
                Err(x) => Err(x),
                Ok(lt) => match infer(self.table_view(), basic_cond.right) {
                    Err(x) => Err(x),
                    Ok(rt) => if lt == rt {
                        Ok(Types::Integer)
                    } else {
                        Err(ErrV::IncompatibleCondition(lt, rt))
                    },
                },
            },
    {
        let left_type = self.infer_expression_type(&basic_cond.left)?;
        let right_type = self.infer_expression_type(&basic_cond.right)?;
        if TypeChecker::are_types_compatible(&left_type, &right_type) {
            Ok(Types::Integer)
        } else {
            Err(SemanticError::IncompatibleCondition(left_type, right_type))
        }
    }

    /// An assignment (see `assign`): the checks only; nothing is recorded.
    fn validate_assignment(&self, assignment: &Assignment) -> (r: Result<(), SemanticError>)
        requires
            self.wf(),
        ensures
            unit_result(r) == assign(self.table_view(), *assignment),
    {
        let name = &assignment.var.0;
        let (is_constant, symbol_type, size) = match self.table.get(name) {
            None => return Err(SemanticError::UndeclaredVariable(name.clone())),
            Some(symbol) => {
                let c = match symbol.Is_Constant {
                    Some(true) => true,
                    _ => false,
                };
                let t = match &symbol.Type {
                    Some(t) => Some(t.clone()),
                    None => None,
                };
                (c, t, symbol.size)
            },
        };
        if is_constant {
            return Err(SemanticError::ConstantModification(name.clone()));
        }
        let expr_type = self.infer_expression_type(&assignment.expr)?;
        match symbol_type {
            None => return Err(SemanticError::NoType(name.clone())),
            Some(st) => {
                if !TypeChecker::are_types_compatible(&st, &expr_type) {
                    return Err(SemanticError::TypeMismatch(expr_type, st));
                }
            },
        }
        let _ = self.parse_expr(&assignment.expr)?;
        match &assignment.index {
            None => Ok(()),
            Some(index_expr) => {
                let index = self.parse_expr(index_expr)?;
                match index {
                    TypeValue::Integer((i, _)) => {
                        if i < 0 {
                            return Err(SemanticError::NegativeIndex);
                        }
                        match size {
                            None => Err(SemanticError::NotAnArray(name.clone())),
                            Some(sz) => {
                                if i >= sz {
                                    Err(SemanticError::IndexOutOfBounds(sz, i))
                                } else {
                                    Ok(())
                                }
                            },
                        }
                    },
                    _ => Err(SemanticError::NonIntegerIndex),
                }
            },
        }
    }

    /// `READ(var)`: the variable is declared and not a constant.
    fn validate_read(&self, read_stmt: &ReadStmt) -> (r: Result<(), SemanticError>)
        requires
            self.wf(),
        ensures
            unit_result(r) == read(self.table_view(), *read_stmt),
    {
        let identifier = &read_stmt.variable.0;
        match self.table.get(identifier) {
            None => Err(SemanticError::UndeclaredInRead(identifier.clone())),
            Some(x) => match x.Is_Constant {
                Some(true) => Err(SemanticError::ReadIntoConstant(identifier.clone())),
                _ => Ok(()),
            },
        }
    }

    /// `WRITE(...)`: every variable written is declared.
    fn validate_write(&self, write_stmt: &WriteStmt) -> (r: Result<(), SemanticError>)
        requires
            self.wf(),
        ensures
            unit_result(r) == write_elements(self.table_view(), write_stmt.elements@),
    {
        let es = &write_stmt.elements;
        let ghost m = self.table_view();
        let mut i: usize = 0;
        assert(es@.skip(0) =~= es@);
        while i < es.len()
            invariant
                self.wf(),
                m == self.table_view(),
                es@ == write_stmt.elements@,
                i <= es@.len(),
                write_elements(m, es@) == write_elements(m, es@.skip(i as int)),
            decreases es@.len() - i,
        {
            proof {
                let rest = es@.skip(i as int);
                assert(rest[0] == es@[i as int]);
                assert(rest.drop_first() =~= es@.skip(i + 1));
            }
            match &es[i] {
                WriteElement::String(_) => {},
                WriteElement::Variable(var, _) => {
                    if !self.table.contains_key(&var.0) {
                        assert(!self.table@.contains_key(var.0@));
                        return Err(SemanticError::UndefinedInWrite(var.0.clone()));
                    }
                },
            }
            i = i + 1;
        }
        assert(es@.skip(i as int).len() == 0);
        Ok(())
    }

    /// `IF (...) { ... } ELSE { ... }`: the condition, then both blocks.
    fn validate_if_statement(&self, if_stmt: &IfStmt) -> (r: Result<(), SemanticError>)
        requires
            self.wf(),
        ensures
            unit_result(r) == instruction(self.table_view(), Instruction::If(*if_stmt)),
        decreases if_stmt, 1int,
    {
        SemanticRules::validate_condition(&if_stmt.condition, self)?;
        self.analyze_instructions(&if_stmt.then_block)?;
        if let Some(else_instructions) = &if_stmt.else_block {
            self.analyze_instructions(else_instructions)?;
        }
        Ok(())
    }

    /// `FOR(var = start : step : end) { ... }`: the step has the type of the
    /// start, the variable the type of the end; then the body.
    fn validate_for_loop(&self, for_loop: &ForStmt) -> (r: Result<(), SemanticError>)
        requires
            self.wf(),
        ensures
            unit_result(r) == instruction(self.table_view(), Instruction::For(*for_loop)),
        decreases for_loop, 1int,
    {
        let init_type = self.infer_expression_type(&for_loop.init.expr)?;
        let step_type = self.infer_expression_type(&for_loop.step)?;
        if !TypeChecker::are_types_compatible(&step_type, &init_type) {
            return Err(SemanticError::StepTypeMismatch);
        }
        let left_type = self.symbol_type(&for_loop.init.var.0)?;
        let right_type = self.infer_expression_type(&for_loop.condition)?;
        if !TypeChecker::are_types_compatible(&left_type, &right_type) {
            return Err(SemanticError::IncompatibleCondition(left_type, right_type));
        }
        self.analyze_instructions(&for_loop.body)
    }

    /// One instruction (see `instruction`).
    fn analyze_instruction(&self, instruction: &Instruction) -> (r: Result<(), SemanticError>)
        requires
            self.wf(),
        ensures
            unit_result(r) == crate::semantics::instruction(self.table_view(), *instruction),
        decreases instruction, 2int,
    {
        match instruction {
            Instruction::Assign(assignment) => self.validate_assignment(assignment),
            Instruction::If(if_stmt) => self.validate_if_statement(if_stmt),
            Instruction::For(for_loop) => self.validate_for_loop(for_loop),
            Instruction::Read(read_stmt) => self.validate_read(read_stmt),
            Instruction::Write(write_stmt) => self.validate_write(write_stmt),
        }
    }

    /// A block of instructions, in order (see `instructions`).
    fn analyze_instructions(&self, instructions: &Vec<Instruction>) -> (r: Result<(), SemanticError>)
        requires
            self.wf(),
        ensures
            unit_result(r) == crate::semantics::instructions(self.table_view(), instructions@),
        decreases instructions@, 0int,
    {
        let ghost m = self.table_view();
        let mut i: usize = 0;
        assert(instructions@.skip(0) =~= instructions@);
        while i < instructions.len()
            invariant
                self.wf(),
                i <= instructions@.len(),
                m == self.table_view(),
                crate::semantics::instructions(m, instructions@) == crate::semantics::instructions(
                    m,
                    instructions@.skip(i as int),
                ),
            decreases instructions@.len() - i,
        {
            proof {
                let rest = instructions@.skip(i as int);
                assert(rest[0] == instructions@[i as int]);
                assert(rest.drop_first() =~= instructions@.skip(i + 1));
            }
            self.analyze_instruction(&instructions[i])?;
            i = i + 1;
        }
        assert(instructions@.skip(i as int).len() == 0);
        Ok(())
    }

    /// Analyzes a program: enters and checks the global variables, then the
    /// declarations, then checks the instructions, which only read the table
    /// (see `analysis`).  On success the symbol table holds what `analysis`
    /// gives; after an error it holds what the declarations before the
    /// failing one entered (see `analysis_after`).
    pub fn analyze(&mut self, program: &Program) -> (r: Result<(), SemanticError>)
        requires
            old(self).wf(),
            program_wf(*program),
        ensures
            final(self).wf(),
            table_result(r, final(self).table_view()) == analysis(old(self).table_view(), *program),
            final(self).table_view() == analysis_after(old(self).table_view(), *program),
    {
        let ghost m0 = self.table_view();
        if let Some(global_vars) = &program.global {
            self.analyze_declarations(global_vars)?;
            proof {
                crate::semantics::lemma_declarations_after_ok(m0, global_vars@);
            }
        }
        if let Some(declarations) = &program.decls {
            self.analyze_declarations(declarations)?;
        }
        if let Some(instructions) = &program.inst {
            self.analyze_instructions(instructions)?;
        }
        Ok(())
    }
}

impl SemanticAnalyzer {
    /// The type of a condition (see `condition_type`).
    pub fn infer_condition_type(&self, condition: &Condition) -> (r: Result<Types, SemanticError>)
        requires
            self.wf(),
        ensures
            types_result(r) == condition_type(self.table_view(), *condition),
        decreases condition,
    {
        match condition {
            Condition::Not(inner_condition) => self.infer_condition_type(inner_condition),
            Condition::Logic(_, _, _) => Ok(Types::Integer),
            Condition::Basic(basic_cond) => self.basic_condition_type(basic_cond),
        }
    }

    /// The checks on expressions to be written (see `write_exprs_check`).
    pub fn validate_write_expressions(&self, exprs: &Vec<Expr>) -> (r: Result<(), SemanticError>)
        requires
            self.wf(),
        ensures
            unit_result(r) == write_exprs_check(self.table_view(), exprs@),
    {
        let ghost m = self.table_view();
        let mut i: usize = 0;
        assert(exprs@.skip(0) =~= exprs@);
        while i < exprs.len()
            invariant
                self.wf(),
                m == self.table_view(),
                i <= exprs@.len(),
                write_exprs_check(m, exprs@) == write_exprs_check(m, exprs@.skip(i as int)),
            decreases exprs@.len() - i,
        {
            proof {
                let rest = exprs@.skip(i as int);
                assert(rest[0] == exprs@[i as int]);
                assert(rest.drop_first() =~= exprs@.skip(i + 1));
            }
            match &exprs[i] {
                Expr::Literal(_) => {},
                Expr::Variable((name, _)) => {
                    if !self.table.contains_key(name) {
                        return Err(SemanticError::UndefinedInWrite(name.clone()));
                    }
                },
                Expr::SUBS((name, _), index) => {
                    return match self.table.get(name) {
                        Some(symbol) => {
                            match self.get_array_cell(symbol, index) {
                                Ok(_) => Ok(()),
                                Err(e) => Err(e),
                            }
                        },
                        None => Err(SemanticError::UndefinedInWrite(name.clone())),
                    };
                },
                Expr::BinaryOp(left, _, right) => {
                    let left_type = self.infer_expression_type(left)?;
                    let right_type = self.infer_expression_type(right)?;
                    TypeChecker::check_arithmetic_compatibility(&left_type, &right_type)?;
                },
            }
            i = i + 1;
        }
        assert(exprs@.skip(i as int).len() == 0);
        Ok(())
    }
}

} // verus!
