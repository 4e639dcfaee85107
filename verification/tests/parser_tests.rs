use pratt_calculator::interpreter::interpret_to_tree_string;
use pratt_calculator::parser::{PrattParser, SExpr, SExprAtom};
use pratt_calculator::{InterpretError, ParseError};

#[test]
fn test_atom_parsing() {
    let program = "3.14";
    let parsed_res = PrattParser::parse(program).expect("Parsing failed");
    match parsed_res {
        SExpr::Atom(seatom) => match seatom {
            SExprAtom::Number(text) => {
                let num: f64 = text.parse().expect("Number leaf holds no number");
                if num != 3.14f64 {
                    panic!("Incorrect atom value found!");
                }
            }
            _ => panic!("Incorrect atom type found!"),
        },
        _ => panic!("Incorrect S-expression type found!"),
    }
}

#[test]
fn test_simple_expression_parsing() {
    let program = "3 + 4";
    let parsed_res = PrattParser::parse(program).expect("Parsing failed");
    let expected = "(+ 3 4)";
    assert_eq!(parsed_res.to_tree_string(), expected);
}

#[test]
fn test_operator_precedence() {
    let program = "3+5*6";
    let parsed_res = PrattParser::parse(program).expect("Parsing failed");
    let expected = "(+ 3 (* 5 6))";
    assert_eq!(parsed_res.to_tree_string(), expected);
}

#[test]
fn test_exponent_right_associativity_tree() {
    let tree = interpret_to_tree_string("2^3^2").expect("Parsing failed");
    assert_eq!(tree, "(^ 2 (^ 3 2))");
}

#[test]
fn test_assignment_right_associativity_tree() {
    let tree = interpret_to_tree_string("a=b=c").expect("Parsing failed");
    assert_eq!(tree, "(= a (= b c))");
}

#[test]
fn test_subtraction_left_associativity_tree() {
    let tree = interpret_to_tree_string("3-4-5").expect("Parsing failed");
    assert_eq!(tree, "(- (- 3 4) 5)");
}

#[test]
fn test_postfix_binds_tighter_than_prefix_tree() {
    let tree = interpret_to_tree_string("-3!").expect("Parsing failed");
    assert_eq!(tree, "(- (! 3))");
}

#[test]
fn test_parenthesis_grouping_tree() {
    let tree = interpret_to_tree_string("(3+4)*2").expect("Parsing failed");
    assert_eq!(tree, "(* (+ 3 4) 2)");
}

#[test]
fn test_canonical_number_formatting() {
    let tree = interpret_to_tree_string("007 + 0.50").expect("Parsing failed");
    assert_eq!(tree, "(+ 7 0.5)");
    let tree = interpret_to_tree_string("5. * 0.0").expect("Parsing failed");
    assert_eq!(tree, "(* 5 0)");
}

#[test]
fn test_unmatched_parenthesis_is_parse_error() {
    match PrattParser::parse("(3+4") {
        Err(InterpretError::Parse(ParseError::UnmatchedParenthesis)) => {}
        other => panic!("expected an unmatched-parenthesis error, got {:?}", other),
    }
}

#[test]
fn test_dangling_prefix_is_parse_error() {
    match PrattParser::parse("3++") {
        Err(InterpretError::Parse(ParseError::UnexpectedEndOfInput)) => {}
        other => panic!("expected an unexpected-end error, got {:?}", other),
    }
}

#[test]
fn test_empty_input_is_parse_error() {
    match PrattParser::parse("") {
        Err(InterpretError::Parse(ParseError::UnexpectedEndOfInput)) => {}
        other => panic!("expected an unexpected-end error, got {:?}", other),
    }
}

#[test]
fn test_operator_without_prefix_role_is_parse_error() {
    match PrattParser::parse("*3") {
        Err(InterpretError::Parse(ParseError::InvalidOperator(c))) => assert_eq!(c, '*'),
        other => panic!("expected an invalid-operator error, got {:?}", other),
    }
}
