use mining::ast::{BinOp, Expr, TypeValue};
use mining::error::SemanticError;
use mining::parser::{ParseError, ProgramParser};
use mining::semantic_analyzer::SemanticAnalyzer;
use mining::symbol_table::Types;

fn analyze(program: &str) -> Result<SemanticAnalyzer, SemanticError> {
    let parsed = ProgramParser::new().parse(program).expect("the program parses");
    let mut analyzer = SemanticAnalyzer::new();
    analyzer.analyze(&parsed)?;
    Ok(analyzer)
}

#[test]
fn test_syntactic_error() {
    let program = r#"
        VAR_GLOBAL {
            INTEGER A
        }
        DECLARATION {
            CONST INTEGER B = 5;
        }
    "#; // Missing semicolon after `INTEGER A`
    let parser = ProgramParser::new();
    let result = parser.parse(program);
    assert!(result.is_err(), "Syntactic error detected as expected");
}

#[test]
fn test_semantic_error_undeclared_variable() {
    let program = r#"
        VAR_GLOBAL {
            INTEGER A;
        }
        INSTRUCTION {
            B = 5;
        }
    "#; // `B` is not declared
    let parser = ProgramParser::new();
    let parse_result = parser.parse(program);
    assert!(parse_result.is_ok(), "Parsing should succeed");

    let mut semantic_analyzer = SemanticAnalyzer::new();
    let semantic_result = semantic_analyzer.analyze(&parse_result.unwrap());
    assert!(semantic_result.is_err(), "Semantic error detected as expected");
}

#[test]
fn test_semantic_error_type_mismatch() {
    let program = r#"
        VAR_GLOBAL {
            INTEGER A;
            FLOAT B;
        }
        INSTRUCTION {
            A = B + 3.14;
        }
    "#; // Type mismatch: assigning FLOAT to INTEGER
    let parser = ProgramParser::new();
    let parse_result = parser.parse(program);
    assert!(parse_result.is_ok(), "Parsing should succeed");

    let mut semantic_analyzer = SemanticAnalyzer::new();
    let semantic_result = semantic_analyzer.analyze(&parse_result.unwrap());
    assert!(semantic_result.is_err(), "Semantic error detected as expected");
}

#[test]
fn test_semantic_error_array_bounds() {
    let program = r#"
        VAR_GLOBAL {
            INTEGER Arr[3] = [1, 2, 3];
        }
        INSTRUCTION {
            Arr[5] = 10;
        }
    "#; // Out-of-bounds array access
    let parser = ProgramParser::new();
    let parse_result = parser.parse(program);
    assert!(parse_result.is_ok(), "Parsing should succeed");

    let mut semantic_analyzer = SemanticAnalyzer::new();
    let semantic_result = semantic_analyzer.analyze(&parse_result.unwrap());
    assert!(semantic_result.is_err(), "Semantic error detected as expected");
}

#[test]
fn test_semantic_error_const_assignment() {
    let program = r#"
        DECLARATION {
            CONST INTEGER A = 10;
        }
        INSTRUCTION {
            A = 5;
        }
    "#; // Attempt to modify a constant
    let parser = ProgramParser::new();
    let parse_result = parser.parse(program);
    assert!(parse_result.is_ok(), "Parsing should succeed");

    let mut semantic_analyzer = SemanticAnalyzer::new();
    let semantic_result = semantic_analyzer.analyze(&parse_result.unwrap());
    assert!(semantic_result.is_err(), "Semantic error detected as expected");
}

#[test]
fn the_errors_name_what_went_wrong() {
    let undeclared = analyze("VAR_GLOBAL { INTEGER A; } INSTRUCTION { B = 5; }");
    assert!(matches!(undeclared, Err(SemanticError::UndeclaredVariable(ref n)) if n == "B"));

    let mismatch = analyze("VAR_GLOBAL { INTEGER A; FLOAT B; } INSTRUCTION { A = B + 3.14; }");
    assert!(matches!(mismatch, Err(SemanticError::TypeMismatch(Types::Float, Types::Integer))));

    let bounds = analyze("VAR_GLOBAL { INTEGER Arr[3] = [1, 2, 3]; } INSTRUCTION { Arr[5] = 10; }");
    assert!(matches!(bounds, Err(SemanticError::IndexOutOfBounds(3, 5))));

    let constant = analyze("DECLARATION { CONST INTEGER A = 10; } INSTRUCTION { A = 5; }");
    assert!(matches!(constant, Err(SemanticError::ConstantModification(ref n)) if n == "A"));
}

#[test]
fn a_correct_program_fills_the_table() {
    let analyzer = analyze(
        r#"
        VAR_GLOBAL {
            INTEGER X = 1, Y;
            CHAR Word[5] = "Hello";
        }
        DECLARATION {
            CONST INTEGER Max = 100;
            FLOAT Rate;
        }
        INSTRUCTION {
            READ(Y);
            X = X + Max * 2;
            IF (X > Y && !(Y == 0)) {
                WRITE("X is ", X);
            } ELSE {
                Y = 0;
            }
            FOR (Y = 0 : 1 : 10) {
                Rate = 2.5 * 1.5;
            }
        }
    "#,
    )
    .expect("the program is correct");
    let table = analyzer.symbol_table();
    assert_eq!(table.len(), 5);
    let x = table.get(&"X".to_string()).unwrap();
    assert_eq!(x.Type, Some(Types::Integer));
    match &x.Value[0] {
        Some(TypeValue::Integer((v, _))) => assert_eq!(*v, 1),
        _ => panic!("X holds an integer"),
    }
    let word = table.get(&"Word".to_string()).unwrap();
    assert_eq!(word.size, Some(5));
    let max = table.get(&"Max".to_string()).unwrap();
    assert_eq!(max.Is_Constant, Some(true));
    assert!(table.get(&"Nothing".to_string()).is_none());
}

#[test]
fn declaring_twice_is_refused() {
    let twice = analyze("VAR_GLOBAL { INTEGER A; } DECLARATION { FLOAT A; }");
    assert!(matches!(twice, Err(SemanticError::DuplicateVariableDeclaration(ref n)) if n == "A"));
}

#[test]
fn a_string_longer_than_its_array_is_refused() {
    let r = analyze(r#"VAR_GLOBAL { CHAR S[3] = "Hello"; }"#);
    assert!(matches!(r, Err(SemanticError::ArraySizeMismatch(3, 5))));
}

#[test]
fn integer_overflow_and_division_by_zero_are_found() {
    let r = analyze("DECLARATION { CONST INTEGER Big = 32767; INTEGER N; } INSTRUCTION { N = Big + 1; }");
    assert!(matches!(r, Err(SemanticError::ArithmeticOverflow(_))));
    let r = analyze("DECLARATION { INTEGER N; } INSTRUCTION { N = 7 / 0; }");
    assert!(matches!(r, Err(SemanticError::DivisionByZero)));
}

#[test]
fn reading_into_a_constant_is_refused() {
    let r = analyze("DECLARATION { CONST CHAR C = 'a'; } INSTRUCTION { READ(C); }");
    assert!(matches!(r, Err(SemanticError::ReadIntoConstant(ref n)) if n == "C"));
}

#[test]
fn the_readme_example_mixes_float_and_integer() {
    let r = analyze(
        r#"
VAR_GLOBAL {
    INTEGER X = 1;
    FLOAT Y = 2.0;
    CHAR Z[5] = "Hello";
}
DECLARATION {
    CONST INTEGER MAX = 100;
}
INSTRUCTION {
    READ(X);
    IF(X > 0) {
        Y = Y + X;
    } ELSE {
        Y = 0;
    }
    WRITE("Result: ", Y);
}
"#,
    );
    assert!(matches!(r, Err(SemanticError::Generic(_))));
}

#[test]
fn a_lexical_error_stops_parsing() {
    let r = ProgramParser::new().parse("VAR_GLOBAL { INTEGER 123InvalidName; }");
    assert!(matches!(r, Err(ParseError::Lexical(_))));
}

#[test]
fn instructions_leave_the_table_as_the_declarations_made_it() {
    let analyzer = analyze(
        r#"
        VAR_GLOBAL { INTEGER N = 3; }
        DECLARATION { CONST INTEGER Limit = 9; INTEGER M; }
        INSTRUCTION {
            M = Limit - N;
            N = Limit * 2;
            FOR (M = 0 : 1 : Limit) { N = N + 1; }
        }
    "#,
    )
    .expect("the program is correct");
    let table = analyzer.symbol_table();
    assert_eq!(table.len(), 3);
    let limit = table.get(&"Limit".to_string()).unwrap();
    assert_eq!(limit.Is_Constant, Some(true));
    assert!(matches!(limit.Value[0], Some(TypeValue::Integer((9, _)))));
    let n = table.get(&"N".to_string()).unwrap();
    assert_eq!(n.Type, Some(Types::Integer));
    assert!(matches!(n.Value[0], Some(TypeValue::Integer((3, _)))));
    assert!(table.get(&"M".to_string()).unwrap().Value.is_empty());
}

#[test]
fn a_variable_only_an_instruction_assigned_has_no_value() {
    let r = analyze("VAR_GLOBAL { INTEGER A, B; } INSTRUCTION { A = 1; B = A + 1; }");
    assert!(matches!(r, Err(SemanticError::UsedBeforeAssigned(ref n)) if n == "A"));
}

#[test]
fn a_failing_declaration_keeps_the_ones_before_it() {
    let parsed = ProgramParser::new()
        .parse("VAR_GLOBAL { INTEGER A = 1; INTEGER Arr[0]; INTEGER Z; }")
        .expect("the program parses");
    let mut analyzer = SemanticAnalyzer::new();
    let r = analyzer.analyze(&parsed);
    assert!(matches!(r, Err(SemanticError::NonPositiveArraySize)));
    let table = analyzer.symbol_table();
    assert_eq!(table.len(), 1);
    assert!(table.get(&"A".to_string()).is_some());
    assert!(table.get(&"Arr".to_string()).is_none());

    let parsed = ProgramParser::new()
        .parse("VAR_GLOBAL { INTEGER P; } DECLARATION { INTEGER Q, P, R; }")
        .expect("the program parses");
    let mut analyzer = SemanticAnalyzer::new();
    let r = analyzer.analyze(&parsed);
    assert_eq!(r.unwrap_err().message(), "Duplicate identifier 'P'");
    let table = analyzer.symbol_table();
    assert_eq!(table.len(), 2);
    assert!(table.get(&"Q".to_string()).is_some());
    assert!(table.get(&"R".to_string()).is_none());
}

#[test]
fn a_failing_instruction_leaves_the_table_alone() {
    let parsed = ProgramParser::new()
        .parse("VAR_GLOBAL { INTEGER I = 0; } INSTRUCTION { FOR (I = 0 : 1.5 : 10) { } }")
        .expect("the program parses");
    let mut analyzer = SemanticAnalyzer::new();
    let r = analyzer.analyze(&parsed);
    assert_eq!(r.unwrap_err().message(), "Step type must match initialization type");
    let table = analyzer.symbol_table();
    assert_eq!(table.len(), 1);
    assert!(matches!(table.get(&"I".to_string()).unwrap().Value[0], Some(TypeValue::Integer((0, _)))));
}

fn cond_of(program: &str) -> mining::ast::Condition {
    let p = ProgramParser::new().parse(program).unwrap();
    match p.inst.unwrap().into_iter().next().unwrap() {
        mining::ast::Instruction::If(s) => s.condition,
        _ => panic!("an IF"),
    }
}

#[test]
fn the_type_of_a_condition() {
    let analyzer = analyze("VAR_GLOBAL { INTEGER A; FLOAT F; }").unwrap();
    let c = cond_of("INSTRUCTION { IF (A > 1 && F < 2.0) { } }");
    assert!(matches!(analyzer.infer_condition_type(&c), Ok(Types::Integer)));
    let c = cond_of("INSTRUCTION { IF (!(A == F)) { } }");
    assert!(matches!(
        analyzer.infer_condition_type(&c),
        Err(SemanticError::IncompatibleCondition(Types::Integer, Types::Float))
    ));
    let c = cond_of("INSTRUCTION { IF (B == 1) { } }");
    assert!(matches!(analyzer.infer_condition_type(&c), Err(SemanticError::UndefinedVariable(ref n)) if n == "B"));
}

#[test]
fn checks_on_expressions_to_write() {
    let analyzer = analyze("VAR_GLOBAL { INTEGER T[2] = [4, 5]; CHAR C = 'c'; }").unwrap();
    let var = |n: &str| Expr::Variable((n.to_string(), (1, 1)));
    let lit = |v: i16| Expr::Literal(TypeValue::Integer((v, (1, 1))));
    let cell = |i: i16| Expr::SUBS(("T".to_string(), (1, 1)), Box::new(lit(i)));
    assert!(analyzer.validate_write_expressions(&vec![lit(1), var("C")]).is_ok());
    assert!(matches!(
        analyzer.validate_write_expressions(&vec![var("Z")]),
        Err(SemanticError::UndefinedInWrite(ref n)) if n == "Z"
    ));
    assert!(matches!(analyzer.validate_write_expressions(&vec![cell(2)]), Err(SemanticError::IndexOutOfBounds(2, 2))));
    assert!(analyzer.validate_write_expressions(&vec![cell(0), var("Z")]).is_ok());
    let mixed = Expr::BinaryOp(Box::new(var("C")), BinOp::Add(1, 1), Box::new(lit(1)));
    assert!(matches!(analyzer.validate_write_expressions(&vec![mixed]), Err(SemanticError::Generic(_))));
    assert_eq!(BinOp::Div(1, 1).symbol(), "/");
}

#[test]
fn each_semantic_error_has_an_input_that_gives_it() {
    let r = analyze("VAR_GLOBAL { INTEGER A[0]; }");
    assert!(matches!(r, Err(SemanticError::NonPositiveArraySize)));
    let r = analyze("VAR_GLOBAL { INTEGER A['c']; }");
    assert!(matches!(r, Err(SemanticError::NonIntegerArraySize)));
    let r = analyze("VAR_GLOBAL { INTEGER A, B; } INSTRUCTION { B = A + 1; }");
    assert!(matches!(r, Err(SemanticError::UsedBeforeAssigned(ref n)) if n == "A"));
    let r = analyze("VAR_GLOBAL { INTEGER A; } INSTRUCTION { A[0] = 1; }");
    assert!(matches!(r, Err(SemanticError::NotAnArray(ref n)) if n == "A"));
    let r = analyze("VAR_GLOBAL { INTEGER T[2]; } INSTRUCTION { T[-1] = 1; }");
    assert!(matches!(r, Err(SemanticError::NegativeIndex)));
    let r = analyze("VAR_GLOBAL { INTEGER T[2]; } INSTRUCTION { T['c'] = 1; }");
    assert!(matches!(r, Err(SemanticError::NonIntegerIndex)));
    let r = analyze("VAR_GLOBAL { INTEGER I; } INSTRUCTION { FOR (I = 0 : 1.5 : 3) { } }");
    assert!(matches!(r, Err(SemanticError::StepTypeMismatch)));
    let r = analyze("VAR_GLOBAL { CHAR A = 'x', B; } INSTRUCTION { B = A * A; }");
    assert!(matches!(r, Err(SemanticError::InvalidOperation(BinOp::Mul(..)))));
    let r = analyze("VAR_GLOBAL { CHAR A = 'a', B; } INSTRUCTION { B = A - 'b'; }");
    assert!(matches!(r, Err(SemanticError::ArithmeticOverflow(BinOp::Sub(..)))));
    let r = analyze("VAR_GLOBAL { CHAR A = 'x', B; } INSTRUCTION { B = A + A; }");
    assert!(r.is_ok());
    let r = analyze("VAR_GLOBAL { INTEGER T[2] = [1, 'c']; }");
    assert!(matches!(r, Err(SemanticError::ArrayElementType(Types::Integer, Types::Char))));
    let r = analyze("VAR_GLOBAL { INTEGER T[1] = [1, 2]; }");
    assert!(matches!(r, Err(SemanticError::ArraySizeMismatch(1, 2))));
    let r = analyze("VAR_GLOBAL { INTEGER A = Z; }");
    assert!(matches!(r, Err(SemanticError::UndeclaredInExpression(ref n)) if n == "Z"));
    let r = analyze("INSTRUCTION { READ(Q); }");
    assert!(matches!(r, Err(SemanticError::UndeclaredInRead(ref n)) if n == "Q"));
    let r = analyze(r#"INSTRUCTION { WRITE("x", Q); }"#);
    assert!(matches!(r, Err(SemanticError::UndefinedInWrite(ref n)) if n == "Q"));
    let r = analyze("INSTRUCTION { FOR (Q = 0 : 1 : 3) { } }");
    assert!(matches!(r, Err(SemanticError::UndefinedVariable(ref n)) if n == "Q"));
    let r = analyze("VAR_GLOBAL { INTEGER A; } DECLARATION { INTEGER A; }");
    assert!(matches!(r, Err(SemanticError::DuplicateVariableDeclaration(ref n)) if n == "A"));
    let r = analyze("VAR_GLOBAL { FLOAT F; } INSTRUCTION { F = 1.0 / 0.0; }");
    assert!(matches!(r, Err(SemanticError::DivisionByZero)));
    let r = analyze("VAR_GLOBAL { INTEGER A; } INSTRUCTION { IF (A > 'c') { } }");
    assert!(matches!(r, Err(SemanticError::IncompatibleCondition(Types::Integer, Types::Char))));
}

#[test]
fn checks_on_single_declarations() {
    use_rules();
}

fn use_rules() {
    let long = ("ABCDEFGHI".to_string(), (2, 5));
    let r = mining::semantic_rules::SemanticRules::validate_variable_declaration(&long, &Types::Integer, false, None);
    assert!(matches!(r, Err(SemanticError::IdentifierTooLong(ref n, (2, 5))) if n == "ABCDEFGHI"));
    let k = ("K".to_string(), (1, 1));
    let r = mining::semantic_rules::SemanticRules::validate_variable_declaration(&k, &Types::Integer, true, None);
    assert!(matches!(r, Err(SemanticError::UninitializedConstant(ref n, (1, 1))) if n == "K"));
    let v = TypeValue::Char(('c', (1, 1)));
    let r = mining::semantic_rules::SemanticRules::validate_variable_declaration(&k, &Types::Integer, true, Some(&v));
    assert!(matches!(r, Err(SemanticError::TypeMismatch(Types::Char, Types::Integer))));
    let r = mining::semantic_rules::SemanticRules::validate_array_declaration(
        &k,
        &Types::Array(Box::new(Types::Integer), 2),
        3,
    );
    assert!(matches!(r, Err(SemanticError::InvalidArrayType(ref n, (1, 1))) if n == "K"));
    assert_eq!(r.unwrap_err().message(), "Invalid array type for 'K' at (1:1)");
    let name = ("ABCDEFGH".to_string(), (1, 1));
    let r = mining::semantic_rules::SemanticRules::validate_array_declaration(&name, &Types::Char, 0);
    assert_eq!(r.unwrap_err().message(), "Array 'ABCDEFGH' must have a positive size at (1:1)");
    let r = mining::semantic_rules::SemanticRules::validate_array_declaration(&long, &Types::Char, 0);
    assert_eq!(r.unwrap_err().message(), "Identifier 'ABCDEFGHI' cannot exceed 8 characters at (2:5)");
    let r = mining::semantic_rules::SemanticRules::validate_variable_declaration(&k, &Types::Integer, true, None);
    assert_eq!(r.unwrap_err().message(), "Constant 'K' must be initialized at declaration at (1:1)");
    assert!(mining::semantic_rules::SemanticRules::validate_array_declaration(&k, &Types::Char, 3).is_ok());
}

#[test]
fn a_literal_array_has_no_value_in_an_expression() {
    let analyzer = SemanticAnalyzer::new();
    let e = Expr::Literal(TypeValue::Array(Vec::new()));
    assert!(matches!(analyzer.parse_expr(&e), Err(SemanticError::ArrayValueInExpression)));
    assert!(matches!(analyzer.infer_expression_type(&e), Err(SemanticError::ArrayValueInExpression)));
}

#[test]
fn semantic_error_messages() {
    let text = |e: SemanticError| e.message();
    let name = || "B".to_string();
    assert_eq!(text(SemanticError::UndeclaredVariable(name())), "Undeclared variable 'B'.");
    assert_eq!(
        text(SemanticError::TypeMismatch(Types::Array(Box::new(Types::Char), 5), Types::Integer)),
        "Cannot assign Array(Char, 5) to Integer"
    );
    assert_eq!(text(SemanticError::ConstantModification(name())), "Constant variable B cannot be modified");
    assert_eq!(
        text(SemanticError::ArraySizeMismatch(3, 5)),
        "Array overflow detected\nExpected a maximum of '3' elements, got assigned 5 elements."
    );
    assert_eq!(text(SemanticError::DuplicateVariableDeclaration(name())), "Duplicate identifier 'B'");
    assert_eq!(text(SemanticError::InvalidDeclaration(name())), "Invalid declaration: B");
    assert_eq!(text(SemanticError::SymbolTableError(name())), "Symbol 'B' not found in the table");
    assert_eq!(text(SemanticError::Generic("Incompatible types for arithmetic operation".to_string())), "Incompatible types for arithmetic operation");
    assert_eq!(
        text(SemanticError::IdentifierTooLong("VeryLongName".to_string(), (3, 4))),
        "Identifier 'VeryLongName' cannot exceed 8 characters at (3:4)"
    );
    assert_eq!(
        text(SemanticError::UninitializedConstant(name(), (2, 7))),
        "Constant 'B' must be initialized at declaration at (2:7)"
    );
    assert_eq!(
        text(SemanticError::ArraySizeNotPositive(name(), (1, 1))),
        "Array 'B' must have a positive size at (1:1)"
    );
    assert_eq!(text(SemanticError::InvalidArrayType(name(), (4, 2))), "Invalid array type for 'B' at (4:2)");
    assert_eq!(
        text(SemanticError::ArrayElementType(Types::Integer, Types::Float)),
        "Invalid Type for array assignment\nExpected 'Integer', got 'Float'"
    );
    assert_eq!(text(SemanticError::NonIntegerInitializerSize), "Can't use a Non-Integer value as an array's size");
    assert_eq!(text(SemanticError::NonPositiveArraySize), "Non-Positive Array size detected.");
    assert_eq!(text(SemanticError::NonIntegerArraySize), "Non-Integer Array size detected.");
    assert_eq!(text(SemanticError::DivisionByZero), "Division by zero");
    assert_eq!(text(SemanticError::ArithmeticOverflow(BinOp::Mul(1, 1))), "Arithmetic overflow in '*'");
    assert_eq!(text(SemanticError::InvalidOperation(BinOp::Sub(1, 1))), "Invalid Expression for operator '-'");
    assert_eq!(text(SemanticError::ArrayValueInExpression), "Cannot use array values in expression.");
    assert_eq!(text(SemanticError::UsedBeforeAssigned(name())), "Variable 'B' used before being Assigned");
    assert_eq!(text(SemanticError::NotAnArray(name())), "Index Assignment used with Non-Array variable 'B'.");
    assert_eq!(text(SemanticError::NegativeIndex), "Index of array can't be negative");
    assert_eq!(text(SemanticError::IndexOutOfBounds(3, -1)), "Index out of bounds, Array of size 3, Got -1.");
    assert_eq!(text(SemanticError::NonIntegerIndex), "Invalid Array size type.");
    assert_eq!(
        text(SemanticError::IncompatibleCondition(Types::Integer, Types::Char)),
        "Incompatible types in condition: Integer and Char"
    );
    assert_eq!(text(SemanticError::StepTypeMismatch), "Step type must match initialization type");
    assert_eq!(text(SemanticError::ReadIntoConstant(name())), "Cannot READ into constant 'B'.");
    assert_eq!(text(SemanticError::NoType(name())), "No type for variable 'B' in WRITE.");
    assert_eq!(text(SemanticError::UndeclaredInExpression(name())), "Undeclared Variable: \"B\"");
    assert_eq!(text(SemanticError::UndeclaredInRead(name())), "Undeclared variable 'B' inside READ instruction.");
    assert_eq!(text(SemanticError::UndefinedInWrite(name())), "Undefined variable 'B' in WRITE.");
    assert_eq!(text(SemanticError::UndefinedVariable(name())), "Undefined variable 'B'.");
}

#[test]
fn add_assign_is_checked_like_an_assignment() {
    let analyzer = analyze("VAR_GLOBAL { INTEGER N = 3; } INSTRUCTION { N += 4; }").unwrap();
    let n = analyzer.symbol_table().get(&"N".to_string()).unwrap();
    assert!(matches!(n.Value[0], Some(TypeValue::Integer((3, _)))));
    let r = analyze("VAR_GLOBAL { INTEGER N = 3; } INSTRUCTION { N += 'c'; }");
    assert!(matches!(r, Err(SemanticError::Generic(_))));
}

#[test]
fn each_entry_holds_at_most_one_value() {
    let analyzer = analyze(
        r#"VAR_GLOBAL { INTEGER X = 1, Y; CHAR W[5] = "Hello"; INTEGER T[3] = [1, 2, 3]; }
           DECLARATION { CONST FLOAT R = 2.5; }"#,
    )
    .unwrap();
    let table = analyzer.symbol_table();
    assert_eq!(table.len(), 5);
    for i in 0..table.len() {
        let entry = table.entry(i);
        assert!(entry.Value.len() <= 1);
        assert!(entry.printable());
    }
    let t = table.get(&"T".to_string()).unwrap();
    assert_eq!(t.Value.len(), 1);
    assert!(matches!(t.Value[0], Some(TypeValue::Integer((1, _)))));
    assert!(table.get(&"Y".to_string()).unwrap().Value.is_empty());
}
