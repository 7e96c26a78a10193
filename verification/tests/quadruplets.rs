use mining::ast::{BinOp, Expr, TypeValue};
use mining::error::CustomError;
use mining::quadruplets::{type_value_to_string, Operator, Quadruplet, QuadrupletGenerator};
use mining::token::Token;

#[test]
fn test_quadruplet_generation() {
    let mut generator = QuadrupletGenerator::new();

    let temp1 = generator.generate_temp();
    assert_eq!(temp1, "t1");
    let temp2 = generator.generate_temp();
    assert_eq!(temp2, "t2");

    generator.add_quadruplet(Quadruplet::new(
        Operator::Add,
        Some("a".to_string()),
        Some("b".to_string()),
        Some(temp1.clone()),
    ));

    assert!(!generator.has_errors());

    generator.add_quadruplet(Quadruplet::new(
        Operator::Multiply,
        Some(temp1),
        Some("2".to_string()),
        Some(temp2),
    ));

    let quadruplets = generator.get_quadruplets();
    assert_eq!(quadruplets.len(), 2);

    println!("{}", generator.format_quadruplets());
}

#[test]
fn test_error_handling() {
    let mut generator = QuadrupletGenerator::new();
    generator.add_error(CustomError::IdentifierTooLong("toolongident".to_string(), (1, 1)));
    assert!(generator.has_errors());
    assert_eq!(generator.get_errors().len(), 1);
}

#[test]
fn quadruplet_text_uses_underscore_for_missing_parts() {
    let q = Quadruplet::new(Operator::Assign, Some("x".to_string()), None, Some("t3".to_string()));
    assert_eq!(q.to_string(), "(Assign, x, _, t3)");
    let q = Quadruplet::new(Operator::Goto, None, None, None);
    assert_eq!(q.to_string(), "(Goto, _, _, _)");
}

#[test]
fn temporaries_are_never_reused() {
    let mut generator = QuadrupletGenerator::new();
    let mut names = Vec::new();
    for _ in 0..25 {
        names.push(generator.generate_temp());
    }
    assert_eq!(names[0], "t1");
    assert_eq!(names[9], "t10");
    assert_eq!(names[24], "t25");
    for i in 0..names.len() {
        for j in 0..names.len() {
            if i != j {
                assert_ne!(names[i], names[j]);
            }
        }
    }
}

fn var(name: &str) -> Expr {
    Expr::Variable((name.to_string(), (1, 1)))
}

fn int_lit(v: i16) -> Expr {
    Expr::Literal(TypeValue::Integer((v, (1, 1))))
}

#[test]
fn expression_code_puts_operands_before_their_operation() {
    // a + b * 2
    let e = Expr::BinaryOp(
        Box::new(var("a")),
        BinOp::Add(1, 3),
        Box::new(Expr::BinaryOp(Box::new(var("b")), BinOp::Mul(1, 7), Box::new(int_lit(2)))),
    );
    let mut generator = QuadrupletGenerator::new();
    let place = generator.generate_expression(&e).unwrap();
    assert_eq!(place, "t2");
    let quads: Vec<String> = generator.get_quadruplets().iter().map(|q| q.to_string()).collect();
    assert_eq!(quads, vec!["(Multiply, b, 2, t1)".to_string(), "(Add, a, t1, t2)".to_string()]);
}

#[test]
fn expression_code_for_an_indexed_variable() {
    // A[i - 1]
    let e = Expr::SUBS(
        ("A".to_string(), (1, 1)),
        Box::new(Expr::BinaryOp(Box::new(var("i")), BinOp::Sub(1, 4), Box::new(int_lit(1)))),
    );
    let mut generator = QuadrupletGenerator::new();
    assert_eq!(generator.generate_expression(&e).unwrap(), "t2");
    let quads: Vec<String> = generator.get_quadruplets().iter().map(|q| q.to_string()).collect();
    assert_eq!(quads, vec!["(Subtract, i, 1, t1)".to_string(), "(Assign, A[t1], _, t2)".to_string()]);
}

#[test]
fn a_variable_or_literal_needs_no_code() {
    let mut generator = QuadrupletGenerator::new();
    assert_eq!(generator.generate_expression(&var("Count")).unwrap(), "Count");
    assert_eq!(generator.generate_expression(&int_lit(-42)).unwrap(), "-42");
    assert_eq!(generator.get_quadruplets().len(), 0);
}

#[test]
fn literals_as_operands() {
    assert_eq!(type_value_to_string(&TypeValue::Integer((-32768, (1, 1)))), "-32768");
    assert_eq!(type_value_to_string(&TypeValue::Integer((0, (1, 1)))), "0");
    assert_eq!(type_value_to_string(&TypeValue::Char(('Z', (1, 1)))), "Z");
    assert_eq!(
        type_value_to_string(&TypeValue::Float((mining::ast::FloatValue::Literal("3.14".to_string()), (1, 1)))),
        "3.14"
    );
    assert_eq!(type_value_to_string(&TypeValue::Array(Vec::new())), "Array");
}

#[test]
fn listing_numbers_each_quadruplet() {
    let mut generator = QuadrupletGenerator::new();
    generator.add_quadruplet(Quadruplet::new(Operator::Read, None, None, Some("x".to_string())));
    assert_eq!(
        generator.format_quadruplets(),
        "\nGenerated Quadruplets:\n----------------------\n0: (Read, _, _, x)\n----------------------\n\n"
    );
}

#[test]
fn operators_of_tokens() {
    assert_eq!(Operator::from(Token::Plus), Operator::Add);
    assert_eq!(Operator::from(Token::GreaterEqual), Operator::GreaterThanOrEqual);
    assert_eq!(Operator::from(Token::Not), Operator::LogicalNot);
    assert_eq!(Operator::from(Token::For), Operator::For);
    assert_eq!(Operator::from(Token::Write).name(), "Write");
}
