//! The checks on single declarations.

use vstd::prelude::*;
use crate::ast::TypeValue;
use crate::error::{ErrV, SemanticError, err_view};
use crate::semantics::{array_decl_check, var_decl_check};
use crate::symbol_table::Types;
use crate::type_checker::{TypeChecker, has_type, type_of_value};

verus! {

pub open spec fn unit_result(r: Result<(), SemanticError>) -> Result<(), ErrV> {
    match r {
        Ok(()) => Ok(()),
        Err(e) => Err(err_view(e)),
    }
}

pub struct SemanticRules;

impl SemanticRules {
    /// A declared variable or constant: its name is at most eight bytes long,
    /// a constant has a value, and a value has the declared type.
    pub fn validate_variable_declaration(
        name: &(String, (usize, usize)),
        symbol_type: &Types,
        is_constant: bool,
        value: Option<&TypeValue>,
    ) -> (r: Result<(), SemanticError>)
        requires
            value matches Some(v) ==> has_type(*v),
        ensures
            unit_result(r) == var_decl_check(
                name.0@,
                name.1,
                *symbol_type,
                is_constant,
                match value {
                    Some(v) => Some(type_of_value(*v)),
                    None => None,
                },
            ),
    {
        if name.0.as_str().len() > 8 {
            return Err(SemanticError::IdentifierTooLong(name.0.clone(), (name.1.0, name.1.1)));
        }
        if is_constant && value.is_none() {
            return Err(SemanticError::UninitializedConstant(name.0.clone(), (name.1.0, name.1.1)));
        }
        if let Some(val) = value {
            let val_type = TypeChecker::infer_expression_type(val);
            TypeChecker::check_assignment_compatibility(symbol_type, &val_type)?;
        }
        Ok(())
    }

    /// A declared array: its name is at most eight bytes long, its size is
    /// positive, and its elements are scalars.
    pub fn validate_array_declaration(
        name: &(String, (usize, usize)),
        element_type: &Types,
        size: i16,
    ) -> (r: Result<(), SemanticError>)
        ensures
            unit_result(r) == array_decl_check(name.0@, name.1, *element_type, size),
    {
        if name.0.as_str().len() > 8 {
            return Err(SemanticError::IdentifierTooLong(name.0.clone(), (name.1.0, name.1.1)));
        }
        if size <= 0 {
            return Err(SemanticError::ArraySizeNotPositive(name.0.clone(), (name.1.0, name.1.1)));
        }
        match element_type {
            Types::Integer | Types::Float | Types::Char => Ok(()),
            _ => Err(SemanticError::InvalidArrayType(name.0.clone(), (name.1.0, name.1.1))),
        }
    }

    /// A condition: each comparison in it has sides of the same type.
    pub fn validate_condition(
        condition: &crate::ast::Condition,
        analyzer: &crate::semantic_analyzer::SemanticAnalyzer,
    ) -> (r: Result<(), SemanticError>)
        requires
            analyzer.wf(),
        ensures
            unit_result(r) == crate::semantics::condition(analyzer.table_view(), *condition),
        decreases condition,
    {
        match condition {
            crate::ast::Condition::Not(inner_condition) => Self::validate_condition(inner_condition, analyzer),
            crate::ast::Condition::Logic(left_cond, _, right_cond) => {
                Self::validate_condition(left_cond, analyzer)?;
                Self::validate_condition(right_cond, analyzer)?;
                Ok(())
            },
            crate::ast::Condition::Basic(basic_cond) => {
                let condition_type = analyzer.basic_condition_type(basic_cond)?;
                match condition_type {
                    Types::Integer => Ok(()),
                    Types::Float => Ok(()),
                    _ => Err(SemanticError::Generic(String::from_str("Condition must resolve to an integer or float expression"))),
                }
            },
        }
    }
}

} // verus!
