use pratt_calculator::lexer::{AtomType, Lexer, Token};
use pratt_calculator::LexError;

#[test]
fn test_lex_number() {
    // Create the test lexer
    let mut test_lexer = Lexer::new("3.14");
    // Run the lexer
    let lexed_tokens = test_lexer.lex().expect("Lexing failed");
    // Test that the token created is correct
    let test_token = match lexed_tokens.get(0) {
        Some(t) => t,
        None => panic!("Lexing returned an empty vector"),
    };
    // Check that the lexed token is correct
    match test_token {
        Token::Atom(atom_type) => match atom_type {
            AtomType::Number(text) => {
                let n: f64 = text.parse().expect("Number token holds no number");
                if (n - 3.14f64) > 0.0000001f64 {
                    panic!("Lexer returned incorrect value of number");
                }
            }
            _ => panic!("Lexing returned incorrect AtomType"),
        },
        _ => panic!("Lexing returned incorrect token type"),
    }
}

#[test]
fn test_lex_variable() {
    let mut test_lexer = Lexer::new("myvariable");
    let lexed_tokens = test_lexer.lex().expect("Lexing failed");
    let test_token = match lexed_tokens.get(0) {
        Some(t) => t,
        None => panic!("Lexing returned an empty vector"),
    };
    match test_token {
        Token::Atom(atom_type) => match atom_type {
            AtomType::Variable(varname) => {
                assert_eq!(varname, "myvariable");
            }
            _ => panic!("Lexing returned incorrect AtomType"),
        },
        _ => panic!("Lexing returned incorrect token type"),
    }
}

#[test]
fn test_lex_op() {
    let mut test_lexer = Lexer::new("+");
    let lexed_tokens = test_lexer.lex().expect("Lexing failed");
    let test_token = match lexed_tokens.get(0) {
        Some(t) => t,
        None => panic!("Lexing returned an empty vector"),
    };
    match test_token {
        Token::Op(operator) => {
            assert_eq!(operator, &'+');
        }
        _ => panic!("Lexer returned incorrect token type"),
    }
}

#[test]
fn test_lex_series() {
    let mut test_lexer = Lexer::new("(3.14)* 5+a/ myvariable");
    let lexed_tokens = test_lexer.lex().expect("Lexing failed");
    let expected_tokens: Vec<Token> = vec![
        Token::Op('('),
        Token::Atom(AtomType::Number("3.14".to_string())),
        Token::Op(')'),
        Token::Op('*'),
        Token::Atom(AtomType::Number("5".to_string())),
        Token::Op('+'),
        Token::Atom(AtomType::Variable("a".to_string())),
        Token::Op('/'),
        Token::Atom(AtomType::Variable("myvariable".to_string())),
        Token::Eof,
    ];
    assert_eq!(lexed_tokens, expected_tokens);
}

#[test]
fn test_lex_unexpected_character() {
    let mut test_lexer = Lexer::new("3 # 4");
    match test_lexer.lex() {
        Err(LexError::UnexpectedCharacter(c)) => assert_eq!(c, '#'),
        other => panic!("expected an unexpected-character error, got {:?}", other),
    }
}

#[test]
fn test_lex_two_decimal_points() {
    let mut test_lexer = Lexer::new("3.1.4");
    match test_lexer.lex() {
        Err(LexError::MultipleDecimalPoints) => {}
        other => panic!("expected a multiple-decimal-points error, got {:?}", other),
    }
}

#[test]
fn test_lex_identifier_with_digits_and_underscore() {
    let mut test_lexer = Lexer::new("my_var2");
    let lexed_tokens = test_lexer.lex().expect("Lexing failed");
    assert_eq!(
        lexed_tokens,
        vec![
            Token::Atom(AtomType::Variable("my_var2".to_string())),
            Token::Eof
        ]
    );
}

#[test]
fn test_lex_whitespace_only() {
    let mut test_lexer = Lexer::new(" \t ");
    let lexed_tokens = test_lexer.lex().expect("Lexing failed");
    assert_eq!(lexed_tokens, vec![Token::Eof]);
}
