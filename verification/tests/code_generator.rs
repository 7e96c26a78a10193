use mining::ast::{Expr, Program, TypeValue, Variable, Declaration, Type};
use mining::code_generator::CodeGenerator;
use mining::parser::ProgramParser;

#[test]
fn a_small_program_in_c() {
    let p = ProgramParser::new()
        .parse(
            r#"VAR_GLOBAL { INTEGER A = 1; CHAR S[6] = "Hi"; }
               DECLARATION { CONST FLOAT P = 3.14; }
               INSTRUCTION {
                   READ(A);
                   IF (A > 0) { WRITE("A is ", A); } ELSE { A = (A - 1) * 2; }
                   FOR (A = 0 : 1 : 3) { WRITE("x"); }
               }"#,
        )
        .unwrap();
    let mut g = CodeGenerator::new();
    let c = g.generate(&p).unwrap();
    let expected = [
        "#include <stdio.h>",
        "#include <stdbool.h>",
        "",
        "int A = 1;",
        "char S[] = \"Hi\";",
        "const float P = 3.14;",
        "int main() {",
        "    scanf(\"%d\", &A);;",
        "    if (A > 0) {",
        "        printf(\"A is %d \", A);",
        "    }",
        "    else {",
        "        A = ((A - 1) * 2);",
        "    }",
        "    for (A = 0; A < 3; A += 1) {",
        "        printf(\"x\");",
        "    }",
        "    return 0;",
        "}",
        "",
    ]
    .join("\n");
    assert_eq!(c, expected);
}

#[test]
fn conditions_and_arrays_in_c() {
    let p = ProgramParser::new()
        .parse("VAR_GLOBAL { INTEGER T[3] = [1, 2, 3]; } INSTRUCTION { IF (!(T[0] == 1) || T[1] != 2) { T[2] = 0; } }")
        .unwrap();
    let c = CodeGenerator::new().generate(&p).unwrap();
    assert!(c.contains("int T = {1, 2, 3};\n"));
    assert!(c.contains("    if ((!(T[0] == 1) || T[1] != 2)) {\n        T[2] = 0;\n    }\n"));
}

#[test]
fn an_empty_program_is_an_empty_main() {
    let c = CodeGenerator::new().generate(&Program::new(None, None, None)).unwrap();
    assert_eq!(c, "#include <stdio.h>\n#include <stdbool.h>\n\nint main() {\n    return 0;\n}\n");
}

#[test]
fn an_array_literal_has_no_c_form() {
    let decl = Declaration::Variable(
        Type::Integer,
        vec![Variable::Initialized(("A".to_string(), (1, 1)), Expr::Literal(TypeValue::Array(Vec::new())))],
    );
    let p = Program::new(Some(vec![decl]), None, None);
    let r = CodeGenerator::new().generate(&p);
    assert_eq!(r, Err("Cannot generate code for array literal".to_string()));
}

#[test]
fn output_accumulates_over_calls() {
    let mut g = CodeGenerator::new();
    let first = g.generate(&Program::new(None, None, None)).unwrap();
    let second = g.generate(&Program::new(None, None, None)).unwrap();
    assert_eq!(second, format!("{}{}", first, first));
}
