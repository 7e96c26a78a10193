//! Intermediate code: quadruplets `(operator, operand, operand, result)` and a
//! generator that numbers temporaries `t1`, `t2`, ... and lays out the
//! quadruplets that compute an expression.

use vstd::prelude::*;
use crate::ast::{BinOp, Expr, FloatValue, TypeValue, FloatV, float_view};
use crate::error::CustomError;
use crate::text::{append_str, int_text, nat_text, push_char, push_decimal, push_int, lemma_nat_text_injective};
use crate::token::Token;

verus! {

/// An operation of the intermediate code.
#[derive(Debug, Clone, Copy, PartialEq, Eq, Structural)]
pub enum Operator {
    Add,
    Subtract,
    Multiply,
    Divide,
    GreaterThan,
    LessThan,
    GreaterThanOrEqual,
    LessThanOrEqual,
    Equal,
    NotEqual,
    LogicalAnd,
    LogicalOr,
    LogicalNot,
    Assign,
    Read,
    Write,
    Goto,
    IfTrue,
    IfFalse,
    For,
}

/// The operator a token stands for, for the tokens that stand for one.
pub open spec fn token_operator(t: Token) -> Option<Operator> {
    match t {
        Token::Plus => Some(Operator::Add),
        Token::Minus => Some(Operator::Subtract),
        Token::Multiply => Some(Operator::Multiply),
        Token::Divide => Some(Operator::Divide),
        Token::GreaterThan => Some(Operator::GreaterThan),
        Token::LessThan => Some(Operator::LessThan),
        Token::GreaterEqual => Some(Operator::GreaterThanOrEqual),
        Token::LessEqual => Some(Operator::LessThanOrEqual),
        Token::Equal => Some(Operator::Equal),
        Token::NotEqual => Some(Operator::NotEqual),
        Token::And => Some(Operator::LogicalAnd),
        Token::Or => Some(Operator::LogicalOr),
        Token::Not => Some(Operator::LogicalNot),
        Token::Assign => Some(Operator::Assign),
        Token::Read => Some(Operator::Read),
        Token::Write => Some(Operator::Write),
        Token::For => Some(Operator::For),
        _ => None,
    }
}

/// The name of an operator, as it is printed.
pub open spec fn operator_name(o: Operator) -> Seq<char> {
    match o {
        Operator::Add => "Add"@,
        Operator::Subtract => "Subtract"@,
        Operator::Multiply => "Multiply"@,
        Operator::Divide => "Divide"@,
        Operator::GreaterThan => "GreaterThan"@,
        Operator::LessThan => "LessThan"@,
        Operator::GreaterThanOrEqual => "GreaterThanOrEqual"@,
        Operator::LessThanOrEqual => "LessThanOrEqual"@,
        Operator::Equal => "Equal"@,
        Operator::NotEqual => "NotEqual"@,
        Operator::LogicalAnd => "LogicalAnd"@,
        Operator::LogicalOr => "LogicalOr"@,
        Operator::LogicalNot => "LogicalNot"@,
        Operator::Assign => "Assign"@,
        Operator::Read => "Read"@,
        Operator::Write => "Write"@,
        Operator::Goto => "Goto"@,
        Operator::IfTrue => "IfTrue"@,
        Operator::IfFalse => "IfFalse"@,
        Operator::For => "For"@,
    }
}

impl Operator {
    /// The operator `token` stands for.  Only tokens that stand for an
    /// operator are accepted.
    pub fn from(token: Token) -> (o: Operator)
        requires
            token_operator(token) is Some,
        ensures
            token_operator(token) == Some(o),
    {
        match token {
            Token::Plus => Operator::Add,
            Token::Minus => Operator::Subtract,
            Token::Multiply => Operator::Multiply,
            Token::Divide => Operator::Divide,
            Token::GreaterThan => Operator::GreaterThan,
            Token::LessThan => Operator::LessThan,
            Token::GreaterEqual => Operator::GreaterThanOrEqual,
            Token::LessEqual => Operator::LessThanOrEqual,
            Token::Equal => Operator::Equal,
            Token::NotEqual => Operator::NotEqual,
            Token::And => Operator::LogicalAnd,
            Token::Or => Operator::LogicalOr,
            Token::Not => Operator::LogicalNot,
            Token::Assign => Operator::Assign,
            Token::Read => Operator::Read,
            Token::Write => Operator::Write,
            _ => Operator::For,
        }
    }

    /// The operator's name, as it is printed.
    pub fn name(&self) -> (s: &'static str)
        ensures
            s@ == operator_name(*self),
    {
        match self {
            Operator::Add => "Add",
            Operator::Subtract => "Subtract",
            Operator::Multiply => "Multiply",
            Operator::Divide => "Divide",
            Operator::GreaterThan => "GreaterThan",
            Operator::LessThan => "LessThan",
            Operator::GreaterThanOrEqual => "GreaterThanOrEqual",
            Operator::LessThanOrEqual => "LessThanOrEqual",
            Operator::Equal => "Equal",
            Operator::NotEqual => "NotEqual",
            Operator::LogicalAnd => "LogicalAnd",
            Operator::LogicalOr => "LogicalOr",
            Operator::LogicalNot => "LogicalNot",
            Operator::Assign => "Assign",
            Operator::Read => "Read",
            Operator::Write => "Write",
            Operator::Goto => "Goto",
            Operator::IfTrue => "IfTrue",
            Operator::IfFalse => "IfFalse",
            Operator::For => "For",
        }
    }
}

/// One instruction of the intermediate code; an absent operand or result is
/// printed `_`.
#[derive(Debug)]
pub struct Quadruplet {
    pub operator: Operator,
    pub operand1: Option<String>,
    pub operand2: Option<String>,
    pub result: Option<String>,
}

/// A quadruplet with its texts as character sequences.
pub struct QuadV {
    pub op: Operator,
    pub a: Option<Seq<char>>,
    pub b: Option<Seq<char>>,
    pub r: Option<Seq<char>>,
}

pub open spec fn opt_text(o: Option<String>) -> Option<Seq<char>> {
    match o {
        Some(s) => Some(s@),
        None => None,
    }
}

pub open spec fn quad_view(q: Quadruplet) -> QuadV {
    QuadV { op: q.operator, a: opt_text(q.operand1), b: opt_text(q.operand2), r: opt_text(q.result) }
}

pub open spec fn slot_text(o: Option<Seq<char>>) -> Seq<char> {
    match o {
        Some(s) => s,
        None => "_"@,
    }
}

/// `(Operator, operand1, operand2, result)`.
pub open spec fn quad_text(q: QuadV) -> Seq<char> {
    "("@ + operator_name(q.op) + ", "@ + slot_text(q.a) + ", "@ + slot_text(q.b) + ", "@
        + slot_text(q.r) + ")"@
}

fn push_slot(s: &mut String, o: &Option<String>)
    ensures
        final(s)@ == old(s)@ + slot_text(opt_text(*o)),
{
    match o {
        Some(t) => append_str(s, t.as_str()),
        None => append_str(s, "_"),
    }
}

impl Quadruplet {
    pub fn new(
        operator: Operator,
        operand1: Option<String>,
        operand2: Option<String>,
        result: Option<String>,
    ) -> (q: Self)
        ensures
            q == (Quadruplet { operator, operand1, operand2, result }),
    {
        Quadruplet { operator, operand1, operand2, result }
    }

    /// `(Operator, operand1, operand2, result)`, with `_` for what is absent.
    pub fn to_string(&self) -> (s: String)
        ensures
            s@ == quad_text(quad_view(*self)),
    {
        let mut s = String::new();
        append_str(&mut s, "(");
        append_str(&mut s, self.operator.name());
        append_str(&mut s, ", ");
        push_slot(&mut s, &self.operand1);
        append_str(&mut s, ", ");
        push_slot(&mut s, &self.operand2);
        append_str(&mut s, ", ");
        push_slot(&mut s, &self.result);
        append_str(&mut s, ")");
        s
    }
}

/// The name of the `n`-th temporary: `t` followed by `n` in decimal.
pub open spec fn temp_name(n: nat) -> Seq<char> {
    "t"@ + nat_text(n)
}

/// The operator of an arithmetic operation.
pub open spec fn bin_operator(op: BinOp) -> Operator {
    match op {
        BinOp::Add(..) => Operator::Add,
        BinOp::Sub(..) => Operator::Subtract,
        BinOp::Mul(..) => Operator::Multiply,
        BinOp::Div(..) => Operator::Divide,
    }
}

pub open spec fn bin_symbol(op: BinOp) -> Seq<char> {
    match op {
        BinOp::Add(..) => "+"@,
        BinOp::Sub(..) => "-"@,
        BinOp::Mul(..) => "*"@,
        BinOp::Div(..) => "/"@,
    }
}

/// How a floating-point value is written: a literal as it was written, an
/// operation on two values in parentheses.
pub open spec fn float_text(f: FloatV) -> Seq<char>
    decreases f,
{
    match f {
        FloatV::Lit(t) => t,
        FloatV::Bin(a, op, b) => "("@ + float_text(*a) + " "@ + bin_symbol(op) + " "@ + float_text(*b) + ")"@,
    }
}

/// How a literal is written as an operand.
pub open spec fn value_text(v: TypeValue) -> Seq<char> {
    match v {
        TypeValue::Integer((i, _)) => int_text(i as int),
        TypeValue::Float((f, _)) => float_text(float_view(f)),
        TypeValue::Char((c, _)) => seq![c],
        TypeValue::Array(_) => "Array"@,
    }
}

/// The number of temporaries an expression needs.
pub open spec fn temps_needed(e: Expr) -> nat
    decreases e,
{
    match e {
        Expr::BinaryOp(l, _, r) => temps_needed(*l) + temps_needed(*r) + 1,
        Expr::Variable(_) => 0,
        Expr::SUBS(_, i) => temps_needed(*i) + 1,
        Expr::Literal(_) => 0,
    }
}

/// The code for `e` when `c` temporaries are in use: where its value ends up,
/// how many temporaries are then in use, and the quadruplets, operands before
/// the operation that uses them.
pub open spec fn expr_code(e: Expr, c: nat) -> (Seq<char>, nat, Seq<QuadV>)
    decreases e,
{
    match e {
        Expr::BinaryOp(l, op, r) => {
            let (ln, c1, q1) = expr_code(*l, c);
            let (rn, c2, q2) = expr_code(*r, c1);
            let t = temp_name(c2 + 1);
            (t, c2 + 1, q1 + q2 + seq![QuadV { op: bin_operator(op), a: Some(ln), b: Some(rn), r: Some(t) }])
        },
        Expr::Variable((name, _)) => (name@, c, Seq::empty()),
        Expr::SUBS((name, _), i) => {
            let (iname, c1, q1) = expr_code(*i, c);
            let t = temp_name(c1 + 1);
            (t, c1 + 1, q1.push(QuadV { op: Operator::Assign, a: Some(name@ + "["@ + iname + "]"@), b: None, r: Some(t) }))
        },
        Expr::Literal(v) => (value_text(v), c, Seq::empty()),
    }
}

pub proof fn lemma_expr_code_count(e: Expr, c: nat)
    ensures
        expr_code(e, c).1 == c + temps_needed(e),
    decreases e,
{
    match e {
        Expr::BinaryOp(l, _, r) => {
            lemma_expr_code_count(*l, c);
            lemma_expr_code_count(*r, expr_code(*l, c).1);
        },
        Expr::SUBS(_, i) => {
            lemma_expr_code_count(*i, c);
        },
        _ => {},
    }
}

/// The listing of quadruplets: each on its own line after its index.
pub open spec fn listing_lines(qs: Seq<QuadV>) -> Seq<char>
    decreases qs.len(),
{
    if qs.len() == 0 {
        Seq::empty()
    } else {
        listing_lines(qs.drop_last()) + nat_text((qs.len() - 1) as nat) + ": "@ + quad_text(qs.last()) + "\n"@
    }
}

pub open spec fn listing_text(qs: Seq<QuadV>) -> Seq<char> {
    "\nGenerated Quadruplets:\n----------------------\n"@ + listing_lines(qs) + "----------------------\n\n"@
}

/// Collects quadruplets, numbers temporaries, and keeps the errors met.
#[derive(Debug)]
pub struct QuadrupletGenerator {
    quadruplets: Vec<Quadruplet>,
    temp_counter: usize,
    error_handler: Vec<CustomError>,
}

impl QuadrupletGenerator {
    /// The quadruplets generated so far.
    pub closed spec fn quads(&self) -> Seq<QuadV> {
        self.quadruplets@.map_values(|q: Quadruplet| quad_view(q))
    }

    /// How many temporaries have been handed out.
    pub closed spec fn temps(&self) -> nat {
        self.temp_counter as nat
    }

    /// The errors recorded so far.
    pub closed spec fn errors(&self) -> Seq<CustomError> {
        self.error_handler@
    }

    pub fn new() -> (g: Self)
        ensures
            g.quads() == Seq::<QuadV>::empty(),
            g.temps() == 0,
            g.errors() == Seq::<CustomError>::empty(),
    {
        let g = QuadrupletGenerator { quadruplets: Vec::new(), temp_counter: 0, error_handler: Vec::new() };
        assert(g.quads() =~= Seq::<QuadV>::empty());
        g
    }

    /// A new temporary: `t1` the first time, then `t2`, and so on.
    pub fn generate_temp(&mut self) -> (t: String)
        requires
            old(self).temps() < usize::MAX,
        ensures
            final(self).temps() == old(self).temps() + 1,
            t@ == temp_name(final(self).temps()),
            final(self).quads() == old(self).quads(),
            final(self).errors() == old(self).errors(),
    {
        self.temp_counter = self.temp_counter + 1;
        let mut t = String::new();
        append_str(&mut t, "t");
        push_decimal(&mut t, self.temp_counter);
        t
    }

    /// Adds a quadruplet at the end, and returns it.
    pub fn add_quadruplet(&mut self, quadruplet: Quadruplet) -> (r: &Quadruplet)
        ensures
            final(self).quads() == old(self).quads().push(quad_view(quadruplet)),
            final(self).temps() == old(self).temps(),
            final(self).errors() == old(self).errors(),
            *r == quadruplet,
    {
        let ghost q = quadruplet;
        self.quadruplets.push(quadruplet);
        assert(self.quads() =~= old(self).quads().push(quad_view(q)));
        let n = self.quadruplets.len();
        &self.quadruplets[n - 1]
    }

    /// The quadruplets generated so far.
    pub fn get_quadruplets(&self) -> (v: &Vec<Quadruplet>)
        ensures
            v@.map_values(|q: Quadruplet| quad_view(q)) == self.quads(),
    {
        &self.quadruplets
    }

    /// The listing that `print_quadruplets` prints: a title, then each
    /// quadruplet after its index.
    pub fn format_quadruplets(&self) -> (s: String)
        ensures
            s@ == listing_text(self.quads()),
    {
        let mut s = String::new();
        append_str(&mut s, "\nGenerated Quadruplets:\n----------------------\n");
        let ghost head = s@;
        let mut i: usize = 0;
        while i < self.quadruplets.len()
            invariant
                i <= self.quadruplets@.len(),
                head == "\nGenerated Quadruplets:\n----------------------\n"@,
                s@ == head + listing_lines(self.quads().take(i as int)),
            decreases self.quadruplets@.len() - i,
        {
            let ghost before = s@;
            push_decimal(&mut s, i);
            append_str(&mut s, ": ");
            let line = self.quadruplets[i].to_string();
            append_str(&mut s, line.as_str());
            append_str(&mut s, "\n");
            proof {
                let qs = self.quads().take(i + 1);
                assert(qs.drop_last() =~= self.quads().take(i as int));
                assert(qs.last() == quad_view(self.quadruplets@[i as int]));
                assert(s@ =~= head + listing_lines(qs));
            }
            i = i + 1;
        }
        assert(self.quads().take(i as int) =~= self.quads());
        append_str(&mut s, "----------------------\n\n");
        s
    }

    /// The code for `expr`: adds the quadruplets that compute it and returns
    /// where its value ends up (a temporary, a variable's name, or a
    /// literal as written).
    pub fn generate_expression(&mut self, expr: &Expr) -> (r: Result<String, CustomError>)
        requires
            old(self).temps() + temps_needed(*expr) <= usize::MAX,
        ensures
            r matches Ok(name) && name@ == expr_code(*expr, old(self).temps()).0,
            final(self).temps() == expr_code(*expr, old(self).temps()).1,
            final(self).quads() == old(self).quads() + expr_code(*expr, old(self).temps()).2,
            final(self).errors() == old(self).errors(),
        decreases expr,
    {
        proof {
            lemma_expr_code_count(*expr, self.temps());
        }
        match expr {
            Expr::BinaryOp(left, op, right) => {
                proof {
                    lemma_expr_code_count(**left, self.temps());
                    lemma_expr_code_count(**right, self.temps() + temps_needed(**left));
                }
                let left_temp = match self.generate_expression(left) {
                    Ok(t) => t,
                    Err(e) => return Err(e),
                };
                let right_temp = match self.generate_expression(right) {
                    Ok(t) => t,
                    Err(e) => return Err(e),
                };
                let result_temp = self.generate_temp();
                let operator = match op {
                    BinOp::Add(_, _) => Operator::Add,
                    BinOp::Sub(_, _) => Operator::Subtract,
                    BinOp::Mul(_, _) => Operator::Multiply,
                    BinOp::Div(_, _) => Operator::Divide,
                };
                let ghost before = self.quads();
                self.add_quadruplet(Quadruplet::new(
                    operator,
                    Some(left_temp),
                    Some(right_temp),
                    Some(result_temp.clone()),
                ));
                assert(self.quads() =~= old(self).quads() + expr_code(*expr, old(self).temps()).2);
                Ok(result_temp)
            },
            Expr::Variable((name, _)) => {
                assert(self.quads() =~= old(self).quads() + expr_code(*expr, old(self).temps()).2);
                Ok(name.clone())
            },
            Expr::SUBS((name, _), index) => {
                let index_temp = match self.generate_expression(index) {
                    Ok(t) => t,
                    Err(e) => return Err(e),
                };
                let result_temp = self.generate_temp();
                let mut place = String::new();
                append_str(&mut place, name.as_str());
                append_str(&mut place, "[");
                append_str(&mut place, index_temp.as_str());
                append_str(&mut place, "]");
                self.add_quadruplet(Quadruplet::new(Operator::Assign, Some(place), None, Some(result_temp.clone())));
                assert(self.quads() =~= old(self).quads() + expr_code(*expr, old(self).temps()).2);
                Ok(result_temp)
            },
            Expr::Literal(lit) => {
                assert(self.quads() =~= old(self).quads() + expr_code(*expr, old(self).temps()).2);
                Ok(type_value_to_string(lit))
            },
        }
    }

    /// The errors recorded so far.
    pub fn get_errors(&self) -> (v: &Vec<CustomError>)
        ensures
            v@ == self.errors(),
    {
        &self.error_handler
    }

    /// Whether an error has been recorded.
    pub fn has_errors(&self) -> (b: bool)
        ensures
            b == (self.errors().len() > 0),
    {
        self.error_handler.len() > 0
    }

    /// Records an error.
    pub fn add_error(&mut self, error: CustomError)
        ensures
            final(self).errors() == old(self).errors().push(error),
            final(self).quads() == old(self).quads(),
            final(self).temps() == old(self).temps(),
    {
        self.error_handler.push(error);
    }
}

pub(crate) fn push_bin_symbol(s: &mut String, op: &BinOp)
    ensures
        final(s)@ == old(s)@ + bin_symbol(*op),
{
    match op {
        BinOp::Add(..) => append_str(s, "+"),
        BinOp::Sub(..) => append_str(s, "-"),
        BinOp::Mul(..) => append_str(s, "*"),
        BinOp::Div(..) => append_str(s, "/"),
    }
}

pub(crate) fn push_float(s: &mut String, f: &FloatValue)
    ensures
        final(s)@ == old(s)@ + float_text(float_view(*f)),
    decreases f,
{
    match f {
        FloatValue::Literal(t) => append_str(s, t.as_str()),
        FloatValue::Binary(a, op, b) => {
            let ghost s0 = s@;
            append_str(s, "(");
            push_float(s, a);
            append_str(s, " ");
            push_bin_symbol(s, op);
            append_str(s, " ");
            push_float(s, b);
            append_str(s, ")");
            assert(s@ =~= s0 + float_text(float_view(*f)));
        },
    }
}

/// How a literal is written as an operand: an integer in decimal, a float as
/// written, a character as itself.
pub fn type_value_to_string(value: &TypeValue) -> (s: String)
    ensures
        s@ == value_text(*value),
{
    let mut s = String::new();
    match value {
        TypeValue::Integer((i, _)) => push_int(&mut s, *i),
        TypeValue::Float((f, _)) => push_float(&mut s, f),
        TypeValue::Char((c, _)) => push_char(&mut s, *c),
        TypeValue::Array(_) => append_str(&mut s, "Array"),
    }
    assert(s@ =~= value_text(*value));
    s
}

/// Temporaries with different numbers have different names, so the
/// generator never hands out the same temporary twice.
pub proof fn lemma_temp_names_distinct(a: nat, b: nat)
    requires
        a != b,
    ensures
        temp_name(a) != temp_name(b),
{
    if temp_name(a) == temp_name(b) {
        reveal_strlit("t");
        assert(nat_text(a) =~= temp_name(a).drop_first());
        assert(nat_text(b) =~= temp_name(b).drop_first());
        lemma_nat_text_injective(a, b);
    }
}

} // verus!

verus! {

/// The token that writes an arithmetic operator in source text.
pub open spec fn bin_op_token(op: BinOp) -> Token {
    match op {
        BinOp::Add(..) => Token::Plus,
        BinOp::Sub(..) => Token::Minus,
        BinOp::Mul(..) => Token::Multiply,
        BinOp::Div(..) => Token::Divide,
    }
}

/// The code for a binary operation ends with one quadruplet that applies the
/// operator its source token stands for (`+` adds, `-` subtracts, `*`
/// multiplies, `/` divides) to the place of the left operand and the place
/// of the right operand, in that order, and puts the result in a fresh
/// temporary, which is where the value of the whole expression ends up.
pub proof fn lemma_operation_quadruplet(l: Expr, op: BinOp, r: Expr, c: nat)
    ensures
        ({
            let (name, used, qs) = expr_code(Expr::BinaryOp(Box::new(l), op, Box::new(r)), c);
            let last = qs.last();
            &&& qs.len() > 0
            &&& token_operator(bin_op_token(op)) == Some(last.op)
            &&& (op is Add ==> last.op == Operator::Add)
            &&& (op is Sub ==> last.op == Operator::Subtract)
            &&& (op is Mul ==> last.op == Operator::Multiply)
            &&& (op is Div ==> last.op == Operator::Divide)
            &&& last.a == Some(expr_code(l, c).0)
            &&& last.b == Some(expr_code(r, expr_code(l, c).1).0)
            &&& last.r == Some(name)
            &&& name == temp_name(used)
            &&& used == c + temps_needed(l) + temps_needed(r) + 1
        }),
{
    lemma_expr_code_count(l, c);
    lemma_expr_code_count(r, expr_code(l, c).1);
}

/// Distinct arithmetic operators give quadruplets with distinct operators.
pub proof fn lemma_operation_quadruplets_distinct(l: Expr, op1: BinOp, op2: BinOp, r: Expr, c: nat)
    requires
        (op1 is Add) != (op2 is Add) || (op1 is Sub) != (op2 is Sub) || (op1 is Mul) != (op2 is Mul),
    ensures
        expr_code(Expr::BinaryOp(Box::new(l), op1, Box::new(r)), c).2.last().op != expr_code(
            Expr::BinaryOp(Box::new(l), op2, Box::new(r)),
            c,
        ).2.last().op,
{
    lemma_operation_quadruplet(l, op1, r, c);
    lemma_operation_quadruplet(l, op2, r, c);
}

} // verus!
