use vstd::prelude::*;
use crate::text::{append_str, int_text, nat_text, push_decimal, push_int};
use crate::symbol_table::Types;
use crate::quadruplets::bin_symbol;

verus! {

/// Errors reported while turning source text into tokens (and by the parser,
/// which reports a redeclared identifier through the same type).
/// Each position is `(line, column)`, both counted from 1.
#[derive(Debug, PartialEq)]
pub enum CustomError {
    UnknownError,
    UnrecognizedToken((usize, usize)),
    InvalidNumberFormat(String, (usize, usize)),
    IntegerOverflow(String, (usize, usize)),
    FloatOverflow(String, (usize, usize)),
    IdentifierTooLong(String, (usize, usize)),
    ReDeclaredIdentifier(String, (usize, usize)),
}

impl Clone for CustomError {
    fn clone(&self) -> (r: CustomError) {
        match self {
            CustomError::UnknownError => CustomError::UnknownError,
            CustomError::UnrecognizedToken(p) => CustomError::UnrecognizedToken((p.0, p.1)),
            CustomError::InvalidNumberFormat(s, p) => CustomError::InvalidNumberFormat(s.clone(), (p.0, p.1)),
            CustomError::IntegerOverflow(s, p) => CustomError::IntegerOverflow(s.clone(), (p.0, p.1)),
            CustomError::FloatOverflow(s, p) => CustomError::FloatOverflow(s.clone(), (p.0, p.1)),
            CustomError::IdentifierTooLong(s, p) => CustomError::IdentifierTooLong(s.clone(), (p.0, p.1)),
            CustomError::ReDeclaredIdentifier(s, p) => CustomError::ReDeclaredIdentifier(s.clone(), (p.0, p.1)),
        }
    }
}

impl Default for CustomError {
    fn default() -> (e: CustomError)
        ensures
            e == CustomError::UnknownError,
    {
        CustomError::UnknownError
    }
}

} // verus!

verus! {

/// Errors found by semantic analysis and by the symbol table.  Each variant
/// has its own message (see `semantic_error_text`).
#[derive(Debug)]
pub enum SemanticError {
    /// An assignment to an identifier that has no entry.
    UndeclaredVariable(String),
    /// The type of the value, then the type of the variable.
    TypeMismatch(crate::symbol_table::Types, crate::symbol_table::Types),
    ConstantModification(String),
    /// The declared size of an array, then the number of elements given.
    ArraySizeMismatch(usize, usize),
    DuplicateVariableDeclaration(String),
    InvalidDeclaration(String),
    /// An update of an identifier that has no entry.
    SymbolTableError(String),
    /// An error whose message is the text it holds.
    Generic(String),
    IdentifierTooLong(String, (usize, usize)),
    UninitializedConstant(String, (usize, usize)),
    /// An array declared with a size that is not positive.
    ArraySizeNotPositive(String, (usize, usize)),
    /// An array declared with an element type that is not a scalar.
    InvalidArrayType(String, (usize, usize)),
    /// The declared element type, then the type of an element of the
    /// initializer list.
    ArrayElementType(crate::symbol_table::Types, crate::symbol_table::Types),
    /// The size of an initialized array is not an integer.
    NonIntegerInitializerSize,
    NonPositiveArraySize,
    NonIntegerArraySize,
    DivisionByZero,
    /// An integer or character operation whose result does not fit.
    ArithmeticOverflow(crate::ast::BinOp),
    /// Operands whose kinds do not fit the operator.
    InvalidOperation(crate::ast::BinOp),
    ArrayValueInExpression,
    UsedBeforeAssigned(String),
    NotAnArray(String),
    NegativeIndex,
    /// The size of the array, then the index.
    IndexOutOfBounds(i16, i16),
    NonIntegerIndex,
    /// The types of the two sides of a comparison.
    IncompatibleCondition(crate::symbol_table::Types, crate::symbol_table::Types),
    StepTypeMismatch,
    ReadIntoConstant(String),
    NoType(String),
    /// A variable read in an expression that has no entry; the message gives
    /// the name between double quotes.
    UndeclaredInExpression(String),
    /// A `READ` into an identifier that has no entry.
    UndeclaredInRead(String),
    /// A `WRITE` of an identifier that has no entry, or the type of an
    /// indexed identifier that has none.
    UndefinedInWrite(String),
    /// The type of a variable that has no entry.
    UndefinedVariable(String),
}

/// What an error says, texts as character sequences.
pub enum ErrV {
    UndeclaredVariable(Seq<char>),
    TypeMismatch(crate::symbol_table::Types, crate::symbol_table::Types),
    ConstantModification(Seq<char>),
    ArraySizeMismatch(usize, usize),
    DuplicateVariableDeclaration(Seq<char>),
    InvalidDeclaration(Seq<char>),
    SymbolTableError(Seq<char>),
    Generic(Seq<char>),
    IdentifierTooLong(Seq<char>, (usize, usize)),
    UninitializedConstant(Seq<char>, (usize, usize)),
    ArraySizeNotPositive(Seq<char>, (usize, usize)),
    InvalidArrayType(Seq<char>, (usize, usize)),
    ArrayElementType(crate::symbol_table::Types, crate::symbol_table::Types),
    NonIntegerInitializerSize,
    NonPositiveArraySize,
    NonIntegerArraySize,
    DivisionByZero,
    ArithmeticOverflow(crate::ast::BinOp),
    InvalidOperation(crate::ast::BinOp),
    ArrayValueInExpression,
    UsedBeforeAssigned(Seq<char>),
    NotAnArray(Seq<char>),
    NegativeIndex,
    IndexOutOfBounds(i16, i16),
    NonIntegerIndex,
    IncompatibleCondition(crate::symbol_table::Types, crate::symbol_table::Types),
    StepTypeMismatch,
    ReadIntoConstant(Seq<char>),
    NoType(Seq<char>),
    UndeclaredInExpression(Seq<char>),
    UndeclaredInRead(Seq<char>),
    UndefinedInWrite(Seq<char>),
    UndefinedVariable(Seq<char>),
}

pub open spec fn err_view(e: SemanticError) -> ErrV {
    match e {
        SemanticError::UndeclaredVariable(x) => ErrV::UndeclaredVariable(x@),
        SemanticError::TypeMismatch(a, b) => ErrV::TypeMismatch(a, b),
        SemanticError::ConstantModification(x) => ErrV::ConstantModification(x@),
        SemanticError::ArraySizeMismatch(a, b) => ErrV::ArraySizeMismatch(a, b),
        SemanticError::DuplicateVariableDeclaration(x) => ErrV::DuplicateVariableDeclaration(x@),
        SemanticError::InvalidDeclaration(x) => ErrV::InvalidDeclaration(x@),
        SemanticError::SymbolTableError(x) => ErrV::SymbolTableError(x@),
        SemanticError::Generic(x) => ErrV::Generic(x@),
        SemanticError::IdentifierTooLong(x, p) => ErrV::IdentifierTooLong(x@, p),
        SemanticError::UninitializedConstant(x, p) => ErrV::UninitializedConstant(x@, p),
        SemanticError::ArraySizeNotPositive(x, p) => ErrV::ArraySizeNotPositive(x@, p),
        SemanticError::InvalidArrayType(x, p) => ErrV::InvalidArrayType(x@, p),
        SemanticError::ArrayElementType(a, b) => ErrV::ArrayElementType(a, b),
        SemanticError::NonIntegerInitializerSize => ErrV::NonIntegerInitializerSize,
        SemanticError::NonPositiveArraySize => ErrV::NonPositiveArraySize,
        SemanticError::NonIntegerArraySize => ErrV::NonIntegerArraySize,
        SemanticError::DivisionByZero => ErrV::DivisionByZero,
        SemanticError::ArithmeticOverflow(o) => ErrV::ArithmeticOverflow(o),
        SemanticError::InvalidOperation(o) => ErrV::InvalidOperation(o),
        SemanticError::ArrayValueInExpression => ErrV::ArrayValueInExpression,
        SemanticError::UsedBeforeAssigned(x) => ErrV::UsedBeforeAssigned(x@),
        SemanticError::NotAnArray(x) => ErrV::NotAnArray(x@),
        SemanticError::NegativeIndex => ErrV::NegativeIndex,
        SemanticError::IndexOutOfBounds(a, b) => ErrV::IndexOutOfBounds(a, b),
        SemanticError::NonIntegerIndex => ErrV::NonIntegerIndex,
        SemanticError::IncompatibleCondition(a, b) => ErrV::IncompatibleCondition(a, b),
        SemanticError::StepTypeMismatch => ErrV::StepTypeMismatch,
        SemanticError::ReadIntoConstant(x) => ErrV::ReadIntoConstant(x@),
        SemanticError::NoType(x) => ErrV::NoType(x@),
        SemanticError::UndeclaredInExpression(x) => ErrV::UndeclaredInExpression(x@),
        SemanticError::UndeclaredInRead(x) => ErrV::UndeclaredInRead(x@),
        SemanticError::UndefinedInWrite(x) => ErrV::UndefinedInWrite(x@),
        SemanticError::UndefinedVariable(x) => ErrV::UndefinedVariable(x@),
    }
}

} // verus!

verus! {

/// `name at (a:b)`.
pub open spec fn at_text(name: Seq<char>, a: usize, b: usize) -> Seq<char> {
    name + " at ("@ + nat_text(a as nat) + ":"@ + nat_text(b as nat) + ")"@
}

/// The message of a lexical error.  An unrecognized token gives its column
/// before its line; the others give the line first.
pub open spec fn custom_error_text(e: CustomError) -> Seq<char> {
    match e {
        CustomError::UnknownError => "Unknown error"@,
        CustomError::UnrecognizedToken((line, column)) => "UnrecognizedToken at ("@ + nat_text(column as nat) + ":"@
            + nat_text(line as nat) + ")"@,
        CustomError::InvalidNumberFormat(s, (l, c)) => "Invalid number format: "@ + at_text(s@, l, c),
        CustomError::IntegerOverflow(s, (l, c)) => "Integer overflow: "@ + at_text(s@, l, c),
        CustomError::FloatOverflow(s, (l, c)) => "Float overflow: "@ + at_text(s@, l, c),
        CustomError::IdentifierTooLong(s, (l, c)) => "Identifier too long: "@ + at_text(s@, l, c),
        CustomError::ReDeclaredIdentifier(s, (l, c)) => "Identifier Already Declared: "@ + at_text(s@, l, c),
    }
}

fn push_at(out: &mut String, name: &String, a: usize, b: usize)
    ensures
        final(out)@ == old(out)@ + at_text(name@, a, b),
{
    let ghost s0 = out@;
    append_str(out, name.as_str());
    append_str(out, " at (");
    push_decimal(out, a);
    append_str(out, ":");
    push_decimal(out, b);
    append_str(out, ")");
    assert(out@ =~= s0 + at_text(name@, a, b));
}

impl CustomError {
    /// The message of this error.
    pub fn message(&self) -> (m: String)
        ensures
            m@ == custom_error_text(*self),
    {
        let mut m = String::new();
        match self {
            CustomError::UnknownError => append_str(&mut m, "Unknown error"),
            CustomError::UnrecognizedToken((line, column)) => {
                append_str(&mut m, "UnrecognizedToken at (");
                push_decimal(&mut m, *column);
                append_str(&mut m, ":");
                push_decimal(&mut m, *line);
                append_str(&mut m, ")");
            },
            CustomError::InvalidNumberFormat(s, (l, c)) => {
                append_str(&mut m, "Invalid number format: ");
                push_at(&mut m, s, *l, *c);
            },
            CustomError::IntegerOverflow(s, (l, c)) => {
                append_str(&mut m, "Integer overflow: ");
                push_at(&mut m, s, *l, *c);
            },
            CustomError::FloatOverflow(s, (l, c)) => {
                append_str(&mut m, "Float overflow: ");
                push_at(&mut m, s, *l, *c);
            },
            CustomError::IdentifierTooLong(s, (l, c)) => {
                append_str(&mut m, "Identifier too long: ");
                push_at(&mut m, s, *l, *c);
            },
            CustomError::ReDeclaredIdentifier(s, (l, c)) => {
                append_str(&mut m, "Identifier Already Declared: ");
                push_at(&mut m, s, *l, *c);
            },
        }
        assert(m@ =~= custom_error_text(*self));
        m
    }
}

/// Errors of code generation.
#[derive(Debug, PartialEq)]
pub enum CodegenError {
    UndefinedVariable(String),
    UnsupportedOperation(String),
    InvalidType(String),
    CompilationError(String),
    ModuleError(String),
}

pub open spec fn codegen_error_text(e: CodegenError) -> Seq<char> {
    match e {
        CodegenError::UndefinedVariable(s) => "Undefined variable: "@ + s@,
        CodegenError::UnsupportedOperation(s) => "Unsupported operation: "@ + s@,
        CodegenError::InvalidType(s) => "Invalid type: "@ + s@,
        CodegenError::CompilationError(s) => "Compilation error: "@ + s@,
        CodegenError::ModuleError(s) => "Module error: "@ + s@,
    }
}

impl CodegenError {
    /// The message of this error.
    pub fn message(&self) -> (m: String)
        ensures
            m@ == codegen_error_text(*self),
    {
        let mut m = String::new();
        match self {
            CodegenError::UndefinedVariable(s) => {
                append_str(&mut m, "Undefined variable: ");
                append_str(&mut m, s.as_str());
            },
            CodegenError::UnsupportedOperation(s) => {
                append_str(&mut m, "Unsupported operation: ");
                append_str(&mut m, s.as_str());
            },
            CodegenError::InvalidType(s) => {
                append_str(&mut m, "Invalid type: ");
                append_str(&mut m, s.as_str());
            },
            CodegenError::CompilationError(s) => {
                append_str(&mut m, "Compilation error: ");
                append_str(&mut m, s.as_str());
            },
            CodegenError::ModuleError(s) => {
                append_str(&mut m, "Module error: ");
                append_str(&mut m, s.as_str());
            },
        }
        m
    }
}

} // verus!

verus! {

/// How a type is printed: `Integer`, `Float`, `Char`, `Array(Integer, 5)`.
pub open spec fn types_text(t: Types) -> Seq<char>
    decreases t,
{
    match t {
        Types::Integer => "Integer"@,
        Types::Float => "Float"@,
        Types::Char => "Char"@,
        Types::Array(b, n) => "Array("@ + types_text(*b) + ", "@ + int_text(n as int) + ")"@,
    }
}

fn push_types(out: &mut String, t: &Types)
    ensures
        final(out)@ == old(out)@ + types_text(*t),
    decreases t,
{
    let ghost s0 = out@;
    match t {
        Types::Integer => append_str(out, "Integer"),
        Types::Float => append_str(out, "Float"),
        Types::Char => append_str(out, "Char"),
        Types::Array(b, n) => {
            append_str(out, "Array(");
            push_types(out, b);
            append_str(out, ", ");
            push_int(out, *n);
            append_str(out, ")");
            assert(out@ =~= s0 + types_text(*t));
        },
    }
}

/// `(a:b)`.
pub open spec fn position_text(a: usize, b: usize) -> Seq<char> {
    "("@ + nat_text(a as nat) + ":"@ + nat_text(b as nat) + ")"@
}

/// The message of a semantic error.
pub open spec fn semantic_error_text(e: ErrV) -> Seq<char> {
    match e {
        ErrV::UndeclaredVariable(n) => "Undeclared variable '"@ + n + "'."@,
        ErrV::TypeMismatch(value, var) => "Cannot assign "@ + types_text(value) + " to "@ + types_text(var),
        ErrV::ConstantModification(n) => "Constant variable "@ + n + " cannot be modified"@,
        ErrV::ArraySizeMismatch(a, b) => "Array overflow detected\nExpected a maximum of '"@ + nat_text(a as nat)
            + "' elements, got assigned "@ + nat_text(b as nat) + " elements."@,
        ErrV::DuplicateVariableDeclaration(n) => "Duplicate identifier '"@ + n + "'"@,
        ErrV::InvalidDeclaration(m) => "Invalid declaration: "@ + m,
        ErrV::SymbolTableError(n) => "Symbol '"@ + n + "' not found in the table"@,
        ErrV::Generic(m) => m,
        ErrV::IdentifierTooLong(n, (l, c)) => "Identifier '"@ + n + "' cannot exceed 8 characters at "@
            + position_text(l, c),
        ErrV::UninitializedConstant(n, (l, c)) => "Constant '"@ + n + "' must be initialized at declaration at "@
            + position_text(l, c),
        ErrV::ArraySizeNotPositive(n, (l, c)) => "Array '"@ + n + "' must have a positive size at "@
            + position_text(l, c),
        ErrV::InvalidArrayType(n, (l, c)) => "Invalid array type for '"@ + n + "' at "@ + position_text(l, c),
        ErrV::ArrayElementType(decl, value) => "Invalid Type for array assignment\nExpected '"@ + types_text(decl)
            + "', got '"@ + types_text(value) + "'"@,
        ErrV::NonIntegerInitializerSize => "Can't use a Non-Integer value as an array's size"@,
        ErrV::NonPositiveArraySize => "Non-Positive Array size detected."@,
        ErrV::NonIntegerArraySize => "Non-Integer Array size detected."@,
        ErrV::DivisionByZero => "Division by zero"@,
        ErrV::ArithmeticOverflow(op) => "Arithmetic overflow in '"@ + bin_symbol(op) + "'"@,
        ErrV::InvalidOperation(op) => "Invalid Expression for operator '"@ + bin_symbol(op) + "'"@,
        ErrV::ArrayValueInExpression => "Cannot use array values in expression."@,
        ErrV::UsedBeforeAssigned(n) => "Variable '"@ + n + "' used before being Assigned"@,
        ErrV::NotAnArray(n) => "Index Assignment used with Non-Array variable '"@ + n + "'."@,
        ErrV::NegativeIndex => "Index of array can't be negative"@,
        ErrV::IndexOutOfBounds(size, i) => "Index out of bounds, Array of size "@ + int_text(size as int)
            + ", Got "@ + int_text(i as int) + "."@,
        ErrV::NonIntegerIndex => "Invalid Array size type."@,
        ErrV::IncompatibleCondition(l, r) => "Incompatible types in condition: "@ + types_text(l) + " and "@
            + types_text(r),
        ErrV::StepTypeMismatch => "Step type must match initialization type"@,
        ErrV::ReadIntoConstant(n) => "Cannot READ into constant '"@ + n + "'."@,
        ErrV::NoType(n) => "No type for variable '"@ + n + "' in WRITE."@,
        ErrV::UndeclaredInExpression(n) => "Undeclared Variable: \""@ + n + "\""@,
        ErrV::UndeclaredInRead(n) => "Undeclared variable '"@ + n + "' inside READ instruction."@,
        ErrV::UndefinedInWrite(n) => "Undefined variable '"@ + n + "' in WRITE."@,
        ErrV::UndefinedVariable(n) => "Undefined variable '"@ + n + "'."@,
    }
}

fn push_quoted_name(out: &mut String, before: &str, n: &String, after: &str)
    ensures
        final(out)@ == old(out)@ + (before@ + n@ + after@),
{
    let ghost s0 = out@;
    append_str(out, before);
    append_str(out, n.as_str());
    append_str(out, after);
    assert(out@ =~= s0 + (before@ + n@ + after@));
}

/// Appends `(a:b)`.
fn push_position(out: &mut String, a: usize, b: usize)
    ensures
        final(out)@ == old(out)@ + position_text(a, b),
{
    let ghost s0 = out@;
    append_str(out, "(");
    push_decimal(out, a);
    append_str(out, ":");
    push_decimal(out, b);
    append_str(out, ")");
    assert(out@ =~= s0 + position_text(a, b));
}

impl SemanticError {
    /// The message of this error.
    pub fn message(&self) -> (m: String)
        ensures
            m@ == semantic_error_text(err_view(*self)),
    {
        let mut m = String::new();
        proof {
            reveal_strlit("");
        }
        match self {
            SemanticError::UndeclaredVariable(n) => push_quoted_name(&mut m, "Undeclared variable '", n, "'."),
            SemanticError::TypeMismatch(value, var) => {
                append_str(&mut m, "Cannot assign ");
                push_types(&mut m, value);
                append_str(&mut m, " to ");
                push_types(&mut m, var);
            },
            SemanticError::ConstantModification(n) => push_quoted_name(&mut m, "Constant variable ", n, " cannot be modified"),
            SemanticError::ArraySizeMismatch(a, b) => {
                append_str(&mut m, "Array overflow detected\nExpected a maximum of '");
                push_decimal(&mut m, *a);
                append_str(&mut m, "' elements, got assigned ");
                push_decimal(&mut m, *b);
                append_str(&mut m, " elements.");
            },
            SemanticError::DuplicateVariableDeclaration(n) => push_quoted_name(&mut m, "Duplicate identifier '", n, "'"),
            SemanticError::InvalidDeclaration(x) => push_quoted_name(&mut m, "Invalid declaration: ", x, ""),
            SemanticError::SymbolTableError(n) => push_quoted_name(&mut m, "Symbol '", n, "' not found in the table"),
            SemanticError::Generic(x) => push_quoted_name(&mut m, "", x, ""),
            SemanticError::IdentifierTooLong(n, (l, c)) => {
                push_quoted_name(&mut m, "Identifier '", n, "' cannot exceed 8 characters at ");
                push_position(&mut m, *l, *c);
            },
            SemanticError::UninitializedConstant(n, (l, c)) => {
                push_quoted_name(&mut m, "Constant '", n, "' must be initialized at declaration at ");
                push_position(&mut m, *l, *c);
            },
            SemanticError::ArraySizeNotPositive(n, (l, c)) => {
                push_quoted_name(&mut m, "Array '", n, "' must have a positive size at ");
                push_position(&mut m, *l, *c);
            },
            SemanticError::InvalidArrayType(n, (l, c)) => {
                push_quoted_name(&mut m, "Invalid array type for '", n, "' at ");
                push_position(&mut m, *l, *c);
            },
            SemanticError::ArrayElementType(decl, value) => {
                append_str(&mut m, "Invalid Type for array assignment\nExpected '");
                push_types(&mut m, decl);
                append_str(&mut m, "', got '");
                push_types(&mut m, value);
                append_str(&mut m, "'");
            },
            SemanticError::NonIntegerInitializerSize => append_str(&mut m, "Can't use a Non-Integer value as an array's size"),
            SemanticError::NonPositiveArraySize => append_str(&mut m, "Non-Positive Array size detected."),
            SemanticError::NonIntegerArraySize => append_str(&mut m, "Non-Integer Array size detected."),
            SemanticError::DivisionByZero => append_str(&mut m, "Division by zero"),
            SemanticError::ArithmeticOverflow(op) => {
                append_str(&mut m, "Arithmetic overflow in '");
                append_str(&mut m, op.symbol());
                append_str(&mut m, "'");
            },
            SemanticError::InvalidOperation(op) => {
                append_str(&mut m, "Invalid Expression for operator '");
                append_str(&mut m, op.symbol());
                append_str(&mut m, "'");
            },
            SemanticError::ArrayValueInExpression => append_str(&mut m, "Cannot use array values in expression."),
            SemanticError::UsedBeforeAssigned(n) => push_quoted_name(&mut m, "Variable '", n, "' used before being Assigned"),
            SemanticError::NotAnArray(n) => push_quoted_name(&mut m, "Index Assignment used with Non-Array variable '", n, "'."),
            SemanticError::NegativeIndex => append_str(&mut m, "Index of array can't be negative"),
            SemanticError::IndexOutOfBounds(size, i) => {
                append_str(&mut m, "Index out of bounds, Array of size ");
                push_int(&mut m, *size);
                append_str(&mut m, ", Got ");
                push_int(&mut m, *i);
                append_str(&mut m, ".");
            },
            SemanticError::NonIntegerIndex => append_str(&mut m, "Invalid Array size type."),
            SemanticError::IncompatibleCondition(l, r) => {
                append_str(&mut m, "Incompatible types in condition: ");
                push_types(&mut m, l);
                append_str(&mut m, " and ");
                push_types(&mut m, r);
            },
            SemanticError::StepTypeMismatch => append_str(&mut m, "Step type must match initialization type"),
            SemanticError::ReadIntoConstant(n) => push_quoted_name(&mut m, "Cannot READ into constant '", n, "'."),
            SemanticError::NoType(n) => push_quoted_name(&mut m, "No type for variable '", n, "' in WRITE."),
            SemanticError::UndeclaredInExpression(n) => push_quoted_name(&mut m, "Undeclared Variable: \"", n, "\""),
            SemanticError::UndeclaredInRead(n) => push_quoted_name(&mut m, "Undeclared variable '", n, "' inside READ instruction."),
            SemanticError::UndefinedInWrite(n) => push_quoted_name(&mut m, "Undefined variable '", n, "' in WRITE."),
            SemanticError::UndefinedVariable(n) => push_quoted_name(&mut m, "Undefined variable '", n, "'."),
        }
        assert(m@ =~= semantic_error_text(err_view(*self)));
        m
    }
}

} // verus!
