use mining::ast::{
    ArrayDecl, BinOp, Condition, Declaration, Expr, Instruction, LogOp, RelOp, Type, TypeValue, Variable,
    WriteElement,
};
use mining::lexer::{tokenize, Dialect};
use mining::parser::{ParseError, ProgramParser};

const DEFAULT_PROGRAM: &str = r#"
    VAR_GLOBAL {
    %% Testing global variables
    INTEGER Global1;
    FLOAT Global2;
    CHAR Global3;
}

DECLARATION {
    INTEGER Var1, Var2, Var3;
    FLOAT F1, F2;
    CHAR C1, C2;
    INTEGER Array1[10];
    FLOAT Array2[5];
    CHAR String1[8];
    CONST INTEGER MaxVal = 32767;
    CONST FLOAT Pi = 3.14159;
    CONST FLOAT NegPi = (-3.14159);
    CONST CHAR Grade = 'A';
}

INSTRUCTION {
    Var1 = (-15);
    Var3 = (Var1 + Var2) * 3 / 2;
    F2 = (F1 * 2.0) + (-1.5);
    Array1[0] = 100;
    WRITE("Please enter a number: ");
    READ(Var1);
    WRITE("You entered ", Var1, " which is ", Var1 , " for positive");
    IF (Var1 > 0 && Var1 < 100) {
        IF (Var1 >= 50) {
            WRITE("Number is >= 50");
        } ELSE {
            WRITE("Number is < 50");
        }
    } ELSE {
        IF (Var1 <= 0 || Var1 >= 100) {
            WRITE("Number is outside range");
        }
    }
    IF (!((Var1 > 0) && (Var2 < 0))) {
        WRITE("Complex logical condition");
    }
    FOR(Var1 = 1 : 1 : 10) {
        IF ((Var1 / 2) == 0) {
            WRITE("Even number: ", Var1);
        }
        FOR(Var2 = 0 : 2 : 6) {
            Array1[Var2] = Var1 * Var2;
        }
    }
    Var1 = (MaxVal + MinVal) / 2 * (1 + 2 * 3) / 4;
}
"#;

#[test]
fn the_example_program_parses() {
    let p = ProgramParser::new().parse(DEFAULT_PROGRAM).expect("parses");
    assert_eq!(p.global.as_ref().unwrap().len(), 3);
    assert_eq!(p.decls.as_ref().unwrap().len(), 10);
    assert_eq!(p.inst.as_ref().unwrap().len(), 11);
}

#[test]
fn sections_are_optional() {
    let p = ProgramParser::new().parse("").unwrap();
    assert!(p.global.is_none() && p.decls.is_none() && p.inst.is_none());
    let p = ProgramParser::new().parse("INSTRUCTION { }").unwrap();
    assert!(p.global.is_none() && p.decls.is_none());
    assert_eq!(p.inst.unwrap().len(), 0);
}

#[test]
fn sections_come_in_order() {
    let r = ProgramParser::new().parse("DECLARATION { } VAR_GLOBAL { }");
    assert_eq!(r.err(), Some(ParseError::UnexpectedToken { index: 3, line: 1, column: 17 }));
}

#[test]
fn missing_end_is_reported() {
    let r = ProgramParser::new().parse("INSTRUCTION { READ(X);");
    assert_eq!(r.err(), Some(ParseError::UnexpectedEnd));
}

#[test]
fn operators_associate_to_the_left_and_multiplication_binds_tighter() {
    let p = ProgramParser::new().parse("INSTRUCTION { X = A - B - C * D; }").unwrap();
    let inst = &p.inst.unwrap()[0];
    match inst {
        Instruction::Assign(a) => {
            assert_eq!(a.var.0, "X");
            assert!(a.index.is_none());
            match &a.expr {
                Expr::BinaryOp(l, BinOp::Sub(1, 25), r) => {
                    assert!(matches!(&**l, Expr::BinaryOp(_, BinOp::Sub(1, 21), _)));
                    assert!(matches!(&**r, Expr::BinaryOp(_, BinOp::Mul(1, 29), _)));
                },
                other => panic!("unexpected {:?}", other),
            }
        },
        other => panic!("unexpected {:?}", other),
    }
}

#[test]
fn declarations_of_each_kind() {
    let p = ProgramParser::new()
        .parse(r#"VAR_GLOBAL { INTEGER A, B = 2; CHAR S[6] = "Hi"; FLOAT V[2] = [1.5, 2.5]; CONST INTEGER K = 4; }"#)
        .unwrap();
    let ds = p.global.unwrap();
    assert_eq!(ds.len(), 4);
    match &ds[0] {
        Declaration::Variable(Type::Integer, vs) => {
            assert!(matches!(&vs[0], Variable::Simple((n, _)) if n == "A"));
            assert!(matches!(&vs[1], Variable::Initialized((n, _), Expr::Literal(TypeValue::Integer((2, _)))) if n == "B"));
        },
        other => panic!("unexpected {:?}", other),
    }
    match &ds[1] {
        Declaration::ADEC(Type::Char, arrs) => {
            assert!(matches!(&arrs[0], ArrayDecl::InitializedString((n, _), _, (s, _)) if n == "S" && s == "\"Hi\""));
        },
        other => panic!("unexpected {:?}", other),
    }
    match &ds[2] {
        Declaration::ADEC(Type::Float, arrs) => {
            assert!(matches!(&arrs[0], ArrayDecl::Initialized((n, _), _, vals) if n == "V" && vals.len() == 2));
        },
        other => panic!("unexpected {:?}", other),
    }
    match &ds[3] {
        Declaration::Constant(Type::Integer, cs) => {
            assert_eq!(cs[0].var.0, "K");
        },
        other => panic!("unexpected {:?}", other),
    }
}

#[test]
fn arrays_and_variables_do_not_mix_in_one_declaration() {
    assert!(ProgramParser::new().parse("VAR_GLOBAL { INTEGER A, B[3]; }").is_err());
    assert!(ProgramParser::new().parse("VAR_GLOBAL { INTEGER B[3], A; }").is_err());
}

#[test]
fn conditions_read_comparisons_before_parentheses() {
    let p = ProgramParser::new().parse("INSTRUCTION { IF ((A / 2) == 0 || !(B < C)) { } }").unwrap();
    match &p.inst.unwrap()[0] {
        Instruction::If(s) => {
            match &s.condition {
                Condition::Logic(l, LogOp::Or(..), r) => {
                    assert!(matches!(&**l, Condition::Basic(b) if matches!(b.operator, RelOp::Eq(..))));
                    assert!(matches!(&**r, Condition::Not(_)));
                },
                other => panic!("unexpected {:?}", other),
            }
            assert!(s.else_block.is_none());
        },
        other => panic!("unexpected {:?}", other),
    }
}

#[test]
fn write_strings_lose_their_quotes() {
    let p = ProgramParser::new().parse(r#"INSTRUCTION { WRITE("Total: ", T[2]); }"#).unwrap();
    match &p.inst.unwrap()[0] {
        Instruction::Write(w) => {
            assert!(matches!(&w.elements[0], WriteElement::String((s, _)) if s == "Total: "));
            assert!(matches!(&w.elements[1], WriteElement::Variable((n, _), Some(_)) if n == "T"));
        },
        other => panic!("unexpected {:?}", other),
    }
}

#[test]
fn for_loops_hold_start_step_and_bound() {
    let p = ProgramParser::new().parse("INSTRUCTION { FOR (I = 1 : 2 : 9) { READ(A[I]); } }").unwrap();
    match &p.inst.unwrap()[0] {
        Instruction::For(f) => {
            assert_eq!(f.init.var.0, "I");
            assert!(matches!(f.init.expr, Expr::Literal(TypeValue::Integer((1, _)))));
            assert!(matches!(f.step, Expr::Literal(TypeValue::Integer((2, _)))));
            assert!(matches!(f.condition, Expr::Literal(TypeValue::Integer((9, _)))));
            assert_eq!(f.body.len(), 1);
        },
        other => panic!("unexpected {:?}", other),
    }
}

#[test]
fn parsing_tokens_and_text_agree() {
    let text = "INSTRUCTION { X = 1; }";
    let toks = tokenize(Dialect::Standard, text).unwrap();
    let a = ProgramParser::new().parse_tokens(&toks).unwrap();
    let b = ProgramParser::new().parse(text).unwrap();
    assert_eq!(format!("{:?}", a), format!("{:?}", b));
}

#[test]
fn little_test() {
    let _expr = ProgramParser::new();
}

#[test]
fn add_assign_reads_as_an_addition() {
    let p = ProgramParser::new().parse("INSTRUCTION { X += 2; T[I] += X; }").unwrap();
    let is = p.inst.unwrap();
    match &is[0] {
        Instruction::Assign(a) => {
            assert_eq!(a.var.0, "X");
            match &a.expr {
                Expr::BinaryOp(l, BinOp::Add(1, 17), r) => {
                    assert!(matches!(&**l, Expr::Variable((n, (1, 15))) if n == "X"));
                    assert!(matches!(&**r, Expr::Literal(TypeValue::Integer((2, _)))));
                },
                other => panic!("unexpected {:?}", other),
            }
        },
        other => panic!("unexpected {:?}", other),
    }
    match &is[1] {
        Instruction::Assign(a) => {
            assert!(matches!(&a.index, Some(Expr::Variable((n, _))) if n == "I"));
            assert!(matches!(&a.expr, Expr::BinaryOp(l, BinOp::Add(..), _) if matches!(&**l, Expr::SUBS((n, _), _) if n == "T")));
        },
        other => panic!("unexpected {:?}", other),
    }
}
