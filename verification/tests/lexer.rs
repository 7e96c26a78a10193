use mining::error::CustomError;
use mining::lexer::{tokenize, validate_identifier, validate_integer, Dialect, Lexer};
use mining::token::Token;

#[test]
fn test_lexical_error() {
    let program = r#"
        VAR_GLOBAL {
            INTEGER 123InvalidName;
        }
    "#;
    let mut lexer = Lexer::new(Dialect::Standard, program);
    while let Some(token) = lexer.next() {
        if token.is_err() {
            assert!(true, "Lexical error detected as expected");
            return;
        }
    }
    panic!("Expected a lexical error but none occurred");
}

#[test]
fn test_keywords_and_types() {
    let mut lexer = Lexer::new(Dialect::Basic, "VAR_GLOBAL DECLARATION INSTRUCTION INTEGER FLOAT CHAR");
    assert_eq!(lexer.next(), Some(Ok(Token::VarGlobal)));
    assert_eq!(lexer.next(), Some(Ok(Token::Declaration)));
    assert_eq!(lexer.next(), Some(Ok(Token::Instruction)));
    assert_eq!(lexer.next(), Some(Ok(Token::IntegerType)));
    assert_eq!(lexer.next(), Some(Ok(Token::FloatType)));
    assert_eq!(lexer.next(), Some(Ok(Token::CharType)));
}

#[test]
fn test_full_program() {
    let mut lexer = Lexer::new(
        Dialect::Basic,
        "
            VAR_GLOBAL {
                INTEGER V,X, W;
                FLOAT Y;
                CHAR Name[10];
            }
            DECLARATION {
                CONST INTEGER D = 5;
                CONST FLOAT R = .6;
            }
            INSTRUCTION {
                N = 10;
                IF (X > 0) {
                    WRITE(\"X is positive\");
                } ELSE {
                    WRITE(\"x is non-positive\");
                }
                FOR (I = 0:  2 : N) {
                    WRITE(I);
                }
            }
        ",
    );
    while let Some(token) = lexer.next() {
        match token {
            Ok(token) => println!("{:#?}", token),
            Err(e) => println!("some error occurred: {:?}", e),
        }
    }
}

#[test]
fn test_invalid_identifiers_and_overflows() {
    let mut lexer = Lexer::new(Dialect::Basic, "VERYLONGID");
    assert_eq!(lexer.next(), Some(Err(CustomError::IdentifierTooLong("VERYLONGID".to_string(), (1, 1)))));

    let mut lexer = Lexer::new(Dialect::Basic, "2147483648");
    assert_eq!(lexer.next(), Some(Err(CustomError::IntegerOverflow("2147483648".to_string(), (1, 1)))));
}

#[test]
fn tokens_carry_their_line_and_column() {
    let toks = tokenize(Dialect::Standard, "A = 1;\n  B = -2.5;").unwrap();
    let got: Vec<(Token, usize, usize)> = toks.into_iter().map(|t| (t.token, t.line, t.column)).collect();
    assert_eq!(
        got,
        vec![
            (Token::Identifier("A".to_string()), 1, 1),
            (Token::Assign, 1, 3),
            (Token::Integer(1), 1, 5),
            (Token::Semicolon, 1, 6),
            (Token::Identifier("B".to_string()), 2, 3),
            (Token::Assign, 2, 5),
            (Token::Float("-2.5".to_string()), 2, 7),
            (Token::Semicolon, 2, 11),
        ]
    );
}

#[test]
fn comments_and_blanks_are_skipped() {
    let toks = tokenize(Dialect::Standard, "%% a comment\nREAD(X); %% another").unwrap();
    let got: Vec<Token> = toks.into_iter().map(|t| t.token).collect();
    assert_eq!(
        got,
        vec![Token::Read, Token::OpenParen, Token::Identifier("X".to_string()), Token::CloseParen, Token::Semicolon]
    );
}

#[test]
fn longest_match_wins() {
    let got: Vec<Token> = tokenize(Dialect::Standard, ">= == != <= && || VAR_GLOBALX")
        .unwrap()
        .into_iter()
        .map(|t| t.token)
        .collect();
    assert_eq!(
        got,
        vec![
            Token::GreaterEqual,
            Token::Equal,
            Token::NotEqual,
            Token::LessEqual,
            Token::And,
            Token::Or,
            Token::VarGlobal,
            Token::Identifier("X".to_string()),
        ]
    );
}

#[test]
fn unrecognized_characters_are_reported_where_they_are() {
    assert_eq!(tokenize(Dialect::Standard, "A = 1;\n  $"), Err(CustomError::UnrecognizedToken((2, 3))));
}

#[test]
fn characters_and_strings() {
    let got: Vec<Token> = tokenize(Dialect::Standard, "'x' \"say \\\"hi\\\"\"")
        .unwrap()
        .into_iter()
        .map(|t| t.token)
        .collect();
    assert_eq!(got, vec![Token::Char('x'), Token::StringLiteral("\"say \\\"hi\\\"\"".to_string())]);
}

#[test]
fn negative_integers_only_in_the_standard_dialect() {
    let std_toks: Vec<Token> = tokenize(Dialect::Standard, "-5").unwrap().into_iter().map(|t| t.token).collect();
    assert_eq!(std_toks, vec![Token::Integer(-5)]);
    let basic_toks: Vec<Token> = tokenize(Dialect::Basic, "-5").unwrap().into_iter().map(|t| t.token).collect();
    assert_eq!(basic_toks, vec![Token::Minus, Token::Integer(5)]);
}

#[test]
fn integer_limits() {
    assert_eq!(validate_integer("32767", (1, 1)), Ok(32767));
    assert_eq!(validate_integer("-32768", (1, 1)), Ok(-32768));
    assert_eq!(
        validate_integer("32768", (4, 2)),
        Err(CustomError::IntegerOverflow("32768".to_string(), (4, 2)))
    );
    assert_eq!(
        validate_integer("-32769", (1, 1)),
        Err(CustomError::IntegerOverflow("-32769".to_string(), (1, 1)))
    );
}

#[test]
fn identifiers_of_eight_characters_are_the_longest() {
    assert_eq!(validate_identifier("ABCDEFGH", (1, 1)), Ok("ABCDEFGH".to_string()));
    assert_eq!(
        validate_identifier("ABCDEFGHI", (3, 7)),
        Err(CustomError::IdentifierTooLong("ABCDEFGHI".to_string(), (3, 7)))
    );
    assert!(tokenize(Dialect::Standard, "Abc Defghijk").is_ok());
    assert_eq!(
        tokenize(Dialect::Standard, "Abc Defghijkl Lmn"),
        Err(CustomError::IdentifierTooLong("Defghijkl".to_string(), (1, 5)))
    );
}

#[test]
fn lexer_reports_where_each_token_starts() {
    let mut lexer = Lexer::new(Dialect::Standard, "IF\n   (X)");
    assert_eq!(lexer.next(), Some(Ok(Token::If)));
    assert_eq!(lexer.span(), (1, 1));
    assert_eq!(lexer.next(), Some(Ok(Token::OpenParen)));
    assert_eq!(lexer.span(), (2, 4));
    assert_eq!(lexer.next(), Some(Ok(Token::Identifier("X".to_string()))));
    assert_eq!(lexer.next(), Some(Ok(Token::CloseParen)));
    assert_eq!(lexer.next(), None);
}

#[test]
fn error_messages() {
    assert_eq!(CustomError::UnrecognizedToken((2, 7)).message(), "UnrecognizedToken at (7:2)");
    assert_eq!(
        CustomError::IdentifierTooLong("LONGNAMEX".to_string(), (3, 4)).message(),
        "Identifier too long: LONGNAMEX at (3:4)"
    );
    assert_eq!(CustomError::UnknownError.message(), "Unknown error");
}

#[test]
fn lexing_the_same_text_twice_gives_the_same_tokens() {
    let text = "VAR_GLOBAL { FLOAT F = -0.5; CHAR C = 'q'; } INSTRUCTION { WRITE(\"F:\", F); }";
    assert_eq!(tokenize(Dialect::Standard, text), tokenize(Dialect::Standard, text));
    assert_eq!(tokenize(Dialect::Standard, text).unwrap().len(), 23);
}
