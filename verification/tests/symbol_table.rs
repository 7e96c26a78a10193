use mining::ast::{FloatValue, TypeValue};
use mining::error::{CodegenError, SemanticError};
use mining::symbol_table::{Symbol, SymbolTable, Types};
use mining::table_format::{table_border, table_header};
use mining::type_checker::TypeChecker;

fn sym(name: &str, ty: Types) -> Symbol {
    Symbol::new(name.to_string(), Some(ty), Some(false), None, Vec::new(), None)
}

#[test]
fn insert_then_get() {
    let mut t = SymbolTable::new();
    assert!(t.insert(sym("A", Types::Integer)).is_ok());
    assert!(t.insert(sym("B", Types::Float)).is_ok());
    assert_eq!(t.get(&"A".to_string()).unwrap().Type, Some(Types::Integer));
    assert_eq!(t.get(&"B".to_string()).unwrap().Type, Some(Types::Float));
    assert!(t.get(&"C".to_string()).is_none());
    assert_eq!(t.len(), 2);
}

#[test]
fn one_symbol_per_identifier() {
    let mut t = SymbolTable::new();
    assert!(t.insert(sym("A", Types::Integer)).is_ok());
    let r = t.insert(sym("A", Types::Char));
    assert!(matches!(r, Err(SemanticError::DuplicateVariableDeclaration(ref n)) if n == "A"));
    assert_eq!(r.unwrap_err().message(), "Duplicate identifier 'A'");
    assert_eq!(t.len(), 1);
    assert_eq!(t.get(&"A".to_string()).unwrap().Type, Some(Types::Integer));
}

#[test]
fn update_and_remove() {
    let mut t = SymbolTable::new();
    t.insert(sym("A", Types::Integer)).unwrap();
    assert!(t.update(&"A".to_string(), vec![Some(TypeValue::Integer((7, (1, 1))))]).is_ok());
    assert!(matches!(t.get(&"A".to_string()).unwrap().Value[0], Some(TypeValue::Integer((7, _)))));
    let missing = t.update(&"Z".to_string(), Vec::new());
    assert!(matches!(missing, Err(SemanticError::SymbolTableError(ref n)) if n == "Z"));
    assert_eq!(missing.unwrap_err().message(), "Symbol 'Z' not found in the table");
    let removed = t.remove(&"A".to_string()).unwrap();
    assert_eq!(removed.Identifier, "A");
    assert!(t.get(&"A".to_string()).is_none());
    assert!(t.remove(&"A".to_string()).is_none());
}

#[test]
fn a_row_of_the_printed_table() {
    let s = Symbol::new(
        "Count".to_string(),
        Some(Types::Integer),
        Some(false),
        None,
        vec![Some(TypeValue::Integer((42, (1, 1))))],
        None,
    );
    assert!(s.printable());
    assert_eq!(
        s.row(),
        format!("| {:<17} | {:<17} | {:<17} | {:<17} | {:<17} | {:<17} |\n", "Count", "INTEGER", "N/A", "false", "N/A", "42")
    );
}

#[test]
fn long_values_spread_over_lines() {
    let v = |i: i16| Some(TypeValue::Integer((i, (1, 1))));
    let s = Symbol::new(
        "AVeryLongIdentifierName".to_string(),
        Some(Types::Array(Box::new(Types::Integer), 4)),
        None,
        Some(123),
        vec![v(1000), v(2000), v(3000), v(4000)],
        Some(4),
    );
    let row = s.row();
    let expected = format!(
        "| {:<17} | {:<17} | {:<17} | {:<17} | {:<17} | {:<17} |\n| {:<17} | {:<17} | {:<17} | {:<17} | {:<17} | {:<17} |\n",
        "AVeryLongIdentifi", "", "4", "N/A", "123", "1000, 2000, ", "", "", "", "", "", "3000, 4000"
    );
    assert_eq!(row, expected);
}

#[test]
fn values_of_each_kind_in_the_table() {
    let s = Symbol::new(
        "C".to_string(),
        Some(Types::Char),
        Some(true),
        None,
        vec![Some(TypeValue::Char(('\0', (1, 1)))), None, Some(TypeValue::Float((FloatValue::Literal("2.5".to_string()), (1, 1))))],
        None,
    );
    assert_eq!(
        s.row(),
        format!(
            "| {:<17} | {:<17} | {:<17} | {:<17} | {:<17} | {:<17} |\n",
            "C", "CHAR", "N/A", "true", "N/A", "'\\0', N/A, 2.5"
        )
    );
    let empty = Symbol::new("E".to_string(), None, None, None, Vec::new(), None);
    assert!(empty.row().ends_with(&format!("| {:<17} |\n", "N/A")));
    let arrays_only = Symbol::new("R".to_string(), None, None, None, vec![Some(TypeValue::Array(Vec::new()))], None);
    assert!(!arrays_only.printable());
}

#[test]
fn table_frame() {
    assert_eq!(table_border().len(), table_header().len());
    assert!(table_header().starts_with("| Identifier        |"));
}

#[test]
fn type_rules() {
    assert!(TypeChecker::are_types_compatible(&Types::Integer, &Types::Integer));
    assert!(!TypeChecker::are_types_compatible(&Types::Integer, &Types::Float));
    let a3 = Types::Array(Box::new(Types::Char), 3);
    assert!(TypeChecker::are_types_compatible(&a3, &Types::Array(Box::new(Types::Char), 3)));
    assert!(!TypeChecker::are_types_compatible(&a3, &Types::Array(Box::new(Types::Char), 4)));
    assert!(TypeChecker::check_assignment_compatibility(&Types::Float, &Types::Float).is_ok());
    assert!(matches!(
        TypeChecker::check_assignment_compatibility(&Types::Float, &Types::Char),
        Err(SemanticError::TypeMismatch(Types::Char, Types::Float))
    ));
    assert_eq!(
        TypeChecker::check_assignment_compatibility(&Types::Float, &Types::Integer).unwrap_err().message(),
        "Cannot assign Integer to Float"
    );
    assert!(matches!(TypeChecker::check_arithmetic_compatibility(&Types::Char, &Types::Char), Ok(Types::Char)));
    assert!(TypeChecker::check_arithmetic_compatibility(&a3, &a3).is_err());
    assert_eq!(
        TypeChecker::infer_expression_type(&TypeValue::Array(vec![
            TypeValue::Integer((1, (1, 1))),
            TypeValue::Integer((2, (1, 1)))
        ])),
        Types::Array(Box::new(Types::Integer), 2)
    );
}

#[test]
fn codegen_error_messages() {
    assert_eq!(CodegenError::UndefinedVariable("X".to_string()).message(), "Undefined variable: X");
    assert_eq!(CodegenError::ModuleError("m".to_string()).message(), "Module error: m");
}
