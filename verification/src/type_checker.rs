//! Type rules for operators, assignments and literals.

use vstd::prelude::*;
use crate::ast::TypeValue;
use crate::error::SemanticError;
use crate::symbol_table::Types;

verus! {

pub open spec fn is_scalar(t: Types) -> bool {
    !(t is Array)
}

/// The type an arithmetic operation on `left` and `right` has: both operands
/// must be the same scalar type.
pub open spec fn arithmetic_result(left: Types, right: Types) -> Option<Types> {
    if is_scalar(left) && left == right {
        Some(left)
    } else {
        None
    }
}

pub open spec fn all_integers(a: Seq<TypeValue>) -> bool {
    forall|i: int| 0 <= i < a.len() ==> #[trigger] a[i] is Integer
}

pub open spec fn all_floats(a: Seq<TypeValue>) -> bool {
    forall|i: int| 0 <= i < a.len() ==> #[trigger] a[i] is Float
}

pub open spec fn all_chars(a: Seq<TypeValue>) -> bool {
    forall|i: int| 0 <= i < a.len() ==> #[trigger] a[i] is Char
}

/// Whether `v` has a type: a scalar, or an array whose elements are all
/// integers, all floats or all characters.
pub open spec fn has_type(v: TypeValue) -> bool {
    match v {
        TypeValue::Array(a) => all_integers(a@) || all_floats(a@) || all_chars(a@),
        _ => true,
    }
}

/// The type of a value (see `has_type`).
pub open spec fn type_of_value(v: TypeValue) -> Types {
    match v {
        TypeValue::Integer(_) => Types::Integer,
        TypeValue::Float(_) => Types::Float,
        TypeValue::Char(_) => Types::Char,
        TypeValue::Array(a) => if all_integers(a@) {
            Types::Array(Box::new(Types::Integer), a@.len() as i16)
        } else if all_floats(a@) {
            Types::Array(Box::new(Types::Float), a@.len() as i16)
        } else {
            Types::Array(Box::new(Types::Char), a@.len() as i16)
        },
    }
}

pub struct TypeChecker;

impl TypeChecker {
    /// The result type of an arithmetic operation; an error unless both
    /// operands have the same scalar type.
    pub fn check_arithmetic_compatibility(left: &Types, right: &Types) -> (r: Result<Types, SemanticError>)
        ensures
            match arithmetic_result(*left, *right) {
                Some(t) => r == Ok::<Types, SemanticError>(t),
                None => r matches Err(SemanticError::Generic(m)) && m@
                    == "Incompatible types for arithmetic operation"@,
            },
    {
        match (left, right) {
            (Types::Char, Types::Char) => Ok(Types::Char),
            (Types::Integer, Types::Integer) => Ok(Types::Integer),
            (Types::Float, Types::Float) => Ok(Types::Float),
            _ => Err(SemanticError::Generic(String::from_str("Incompatible types for arithmetic operation"))),
        }
    }

    /// Whether a value of type `value_type` may be assigned to a variable of
    /// type `variable_type`: the two must be the same type.
    pub fn check_assignment_compatibility(variable_type: &Types, value_type: &Types) -> (r: Result<(), SemanticError>)
        ensures
            *variable_type == *value_type ==> r is Ok,
            *variable_type != *value_type ==> r == Err::<(), SemanticError>(
                SemanticError::TypeMismatch(*value_type, *variable_type),
            ),
    {
        if Self::are_types_compatible(variable_type, value_type) {
            Ok(())
        } else {
            Err(SemanticError::TypeMismatch(value_type.clone(), variable_type.clone()))
        }
    }

    /// The type of a value; an array must not mix element kinds.
    pub fn infer_expression_type(value: &TypeValue) -> (t: Types)
        requires
            has_type(*value),
        ensures
            t == type_of_value(*value),
    {
        match value {
            TypeValue::Integer(_) => Types::Integer,
            TypeValue::Float(_) => Types::Float,
            TypeValue::Char(_) => Types::Char,
            TypeValue::Array(arr) => {
                let mut ints = true;
                let mut floats = true;
                let mut chars = true;
                let mut i: usize = 0;
                while i < arr.len()
                    invariant
                        i <= arr@.len(),
                        ints == forall|j: int| 0 <= j < i ==> #[trigger] arr@[j] is Integer,
                        floats == forall|j: int| 0 <= j < i ==> #[trigger] arr@[j] is Float,
                        chars == forall|j: int| 0 <= j < i ==> #[trigger] arr@[j] is Char,
                    decreases arr@.len() - i,
                {
                    match &arr[i] {
                        TypeValue::Integer(_) => {
                            floats = false;
                            chars = false;
                        },
                        TypeValue::Float(_) => {
                            ints = false;
                            chars = false;
                        },
                        TypeValue::Char(_) => {
                            ints = false;
                            floats = false;
                        },
                        TypeValue::Array(_) => {
                            ints = false;
                            floats = false;
                            chars = false;
                        },
                    }
                    i = i + 1;
                }
                let n = arr.len() as i16;
                if ints {
                    Types::Array(Box::new(Types::Integer), n)
                } else if floats {
                    Types::Array(Box::new(Types::Float), n)
                } else {
                    Types::Array(Box::new(Types::Char), n)
                }
            },
        }
    }

    /// Whether the two types are the same.
    pub fn are_types_compatible(type1: &Types, type2: &Types) -> (b: bool)
        ensures
            b == (*type1 == *type2),
        decreases type1,
    {
        match (type1, type2) {
            (Types::Integer, Types::Integer) => true,
            (Types::Float, Types::Float) => true,
            (Types::Char, Types::Char) => true,
            (Types::Array(t1, s1), Types::Array(t2, s2)) => *s1 == *s2
                && Self::are_types_compatible(&**t1, &**t2),
            _ => false,
        }
    }
}

} // verus!
