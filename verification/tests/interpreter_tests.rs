use pratt_calculator::parser::{SExpr, SExprAtom};
use pratt_calculator::{
    EvalError, InterpretError, Interpreter, LexError, ParseError, Reply, Request, RoundResult,
};

/// Perform one primitive numeric operation that the library asked for.
fn perform(req: &Request) -> Reply {
    match req {
        Request::Literal(text) => {
            Reply::Bits(text.parse::<f64>().expect("literal text").to_bits())
        }
        Request::Binary(op, a, b) => {
            let x = f64::from_bits(*a);
            let y = f64::from_bits(*b);
            let r = match op {
                '+' => x + y,
                '-' => x - y,
                '*' => x * y,
                '/' => x / y,
                '^' => x.powf(y),
                _ => panic!("unknown operator request"),
            };
            Reply::Bits(r.to_bits())
        }
        Request::Negate(a) => Reply::Bits((-f64::from_bits(*a)).to_bits()),
        Request::Truncate(a) => Reply::Int(f64::from_bits(*a) as i32 as i64),
        Request::IntToFloat(i) => Reply::Bits((*i as f64).to_bits()),
        Request::MulByInt(a, i) => Reply::Bits((f64::from_bits(*a) * (*i as f64)).to_bits()),
    }
}

/// Drive one whole interpretation: answer each request until the library
/// finishes with a value or an error.
fn run(session: &mut Interpreter, input: &str) -> Result<f64, InterpretError> {
    let mut replies: Vec<Reply> = Vec::new();
    loop {
        match session.interpret(input, &replies) {
            RoundResult::Value(bits) => return Ok(f64::from_bits(bits)),
            RoundResult::Need(req) => replies.push(perform(&req)),
            RoundResult::Error(e) => return Err(e),
        }
    }
}

#[test]
fn test_atom() {
    let mut test_interpreter = Interpreter::new();
    assert_eq!(run(&mut test_interpreter, "3").unwrap(), 3f64);
}

#[test]
fn test_binary_operator() {
    let mut test_interpreter = Interpreter::new();
    assert_eq!(run(&mut test_interpreter, "3+4").unwrap(), 7f64);
    assert_eq!(run(&mut test_interpreter, "3*4").unwrap(), 12f64);
    assert_eq!(run(&mut test_interpreter, "2^3").unwrap(), 8f64);
}

#[test]
fn test_postfix_operator() {
    let mut test_interpreter = Interpreter::new();
    assert_eq!(run(&mut test_interpreter, "3!").unwrap(), 6f64);
}

#[test]
fn test_variable_assignment() {
    let mut test_interpreter = Interpreter::new();
    assert_eq!(run(&mut test_interpreter, "a=3").unwrap(), 3f64);
    assert_eq!(run(&mut test_interpreter, "a+4").unwrap(), 7f64);
}

#[test]
fn test_literal_round_trip() {
    let mut session = Interpreter::new();
    for n in [3.14f64, 0.5f64, 42f64, 1000000.25f64, 0f64] {
        let text = format!("{}", n);
        assert_eq!(run(&mut session, &text).unwrap(), n);
    }
    // A negative literal reads as prefix negation of the positive literal.
    assert_eq!(run(&mut session, "-2.75").unwrap(), -2.75f64);
}

#[test]
fn test_exponent_right_associativity_value() {
    let mut session = Interpreter::new();
    let v = run(&mut session, "2^3^2").unwrap();
    assert_eq!(v, 512f64);
    assert_ne!(v, 64f64);
}

#[test]
fn test_subtraction_left_associativity_value() {
    let mut session = Interpreter::new();
    assert_eq!(run(&mut session, "3-4-5").unwrap(), -6f64);
}

#[test]
fn test_parenthesis_value() {
    let mut session = Interpreter::new();
    assert_eq!(run(&mut session, "(3+4)*2").unwrap(), 14f64);
}

#[test]
fn test_unbound_variable_fails() {
    let mut session = Interpreter::new();
    match run(&mut session, "b") {
        Err(InterpretError::Eval(EvalError::UnboundVariable(name))) => {
            assert_eq!(name, "b");
        }
        Ok(v) => panic!("an unbound variable returned the value {}", v),
        Err(other) => panic!("expected an unbound-variable error, got {:?}", other),
    }
}

#[test]
fn test_factorial_values() {
    let mut session = Interpreter::new();
    assert_eq!(run(&mut session, "3!").unwrap(), 6f64);
    assert_eq!(run(&mut session, "0!").unwrap(), 1f64);
    // Postfix `!` binds tighter than prefix `-`: this is -(3!).
    assert_eq!(run(&mut session, "-3!").unwrap(), -6f64);
    // The sign-preserving extension: the factorial of a negative operand.
    assert_eq!(run(&mut session, "(0-4)!").unwrap(), -24f64);
    // Truncation toward zero before the product.
    assert_eq!(run(&mut session, "3.9!").unwrap(), 6f64);
}

#[test]
fn test_errors_are_tagged_by_stage() {
    let mut session = Interpreter::new();
    assert!(matches!(
        run(&mut session, "3.1.4"),
        Err(InterpretError::Lex(LexError::MultipleDecimalPoints))
    ));
    assert!(matches!(
        run(&mut session, "(3+4"),
        Err(InterpretError::Parse(ParseError::UnmatchedParenthesis))
    ));
    assert!(matches!(
        run(&mut session, "3++"),
        Err(InterpretError::Parse(ParseError::UnexpectedEndOfInput))
    ));
    assert!(matches!(
        run(&mut session, "c+1"),
        Err(InterpretError::Eval(EvalError::UnboundVariable(_)))
    ));
}

#[test]
fn test_division_by_zero_does_not_raise() {
    let mut session = Interpreter::new();
    assert_eq!(run(&mut session, "1/0").unwrap(), f64::INFINITY);
    assert!(run(&mut session, "0/0").unwrap().is_nan());
}

#[test]
fn test_invalid_assignment_target() {
    let mut session = Interpreter::new();
    match run(&mut session, "3=4") {
        Err(InterpretError::Eval(EvalError::InvalidAssignmentTarget)) => {}
        other => panic!("expected an invalid-assignment error, got {:?}", other),
    }
}

#[test]
fn test_nested_assignment_is_right_associative() {
    let mut session = Interpreter::new();
    assert_eq!(run(&mut session, "a=b=5").unwrap(), 5f64);
    assert_eq!(run(&mut session, "a").unwrap(), 5f64);
    assert_eq!(run(&mut session, "b").unwrap(), 5f64);
}

#[test]
fn test_assignment_persists_despite_later_error() {
    let mut session = Interpreter::new();
    assert!(run(&mut session, "(a=3)+b").is_err());
    assert_eq!(run(&mut session, "a").unwrap(), 3f64);
}

#[test]
fn test_assignment_inside_expression() {
    let mut session = Interpreter::new();
    assert_eq!(run(&mut session, "(a=3)+a").unwrap(), 6f64);
}

#[test]
fn test_unicode_letters_continue_identifiers() {
    let mut session = Interpreter::new();
    assert_eq!(run(&mut session, "h\u{e9}llo=3").unwrap(), 3f64);
    assert_eq!(run(&mut session, "h\u{e9}llo+1").unwrap(), 4f64);
}

#[test]
fn test_prefix_plus_and_minus() {
    let mut session = Interpreter::new();
    assert_eq!(run(&mut session, "+5").unwrap(), 5f64);
    assert_eq!(run(&mut session, "-5").unwrap(), -5f64);
    assert_eq!(run(&mut session, "--5").unwrap(), 5f64);
}

#[test]
fn test_fractional_exponent() {
    let mut session = Interpreter::new();
    assert_eq!(run(&mut session, "9^0.5").unwrap(), 3f64);
}

#[test]
fn test_mismatched_reply_is_reported() {
    let mut session = Interpreter::new();
    // The literal request must be answered with a value, not an integer.
    let replies = vec![Reply::Int(7)];
    match session.interpret("3", &replies) {
        RoundResult::Error(InterpretError::Eval(EvalError::ReplyMismatch)) => {}
        other => panic!("expected a reply-mismatch error, got {:?}", other),
    }
}

#[test]
fn test_malformed_tree_is_reported() {
    let mut session = Interpreter::new();
    // A tree that no parse produces: `*` applied to one operand.
    let tree = SExpr::Unary(
        '*',
        Box::new(SExpr::Atom(SExprAtom::Number("1".to_string()))),
    );
    let replies: Vec<Reply> = Vec::new();
    match session.interpret_sexpr(tree, &replies) {
        RoundResult::Error(InterpretError::Eval(EvalError::MalformedTree)) => {}
        other => panic!("expected a malformed-tree error, got {:?}", other),
    }
}

#[test]
fn test_unfinished_round_changes_nothing() {
    let mut session = Interpreter::new();
    // The first round only asks for the literal; the store must not hold
    // the assignment yet.
    let replies: Vec<Reply> = Vec::new();
    match session.interpret("x=3", &replies) {
        RoundResult::Need(Request::Literal(text)) => assert_eq!(text, "3"),
        other => panic!("expected a literal request, got {:?}", other),
    }
    assert!(matches!(
        run(&mut session, "x"),
        Err(InterpretError::Eval(EvalError::UnboundVariable(_)))
    ));
}

#[test]
fn test_finished_round_ignores_extra_replies() {
    let mut session = Interpreter::new();
    // The literal's reply finishes the evaluation; anything appended after
    // that never changes a finished round.
    let replies = vec![Reply::Bits(3f64.to_bits()), Reply::Int(9)];
    match session.interpret("3", &replies) {
        RoundResult::Value(bits) => assert_eq!(f64::from_bits(bits), 3f64),
        other => panic!("expected the finished value, got {:?}", other),
    }
}

#[test]
fn test_trailing_tokens_are_left_unconsumed() {
    // Parsing stops at a token with no operator role here and returns the
    // expression so far, leaving the rest unconsumed.
    let mut session = Interpreter::new();
    assert_eq!(run(&mut session, "3 4").unwrap(), 3f64);
    assert_eq!(run(&mut session, "(3+4))").unwrap(), 7f64);
}

#[test]
fn test_larger_factorial_product() {
    let mut session = Interpreter::new();
    assert_eq!(run(&mut session, "10!").unwrap(), 3628800f64);
}

#[test]
fn test_whole_pipeline_expression() {
    let mut session = Interpreter::new();
    assert_eq!(
        run(&mut session, "x = (1 + 2) * 3 - 4 / 2").unwrap(),
        7f64
    );
    assert_eq!(run(&mut session, "x ^ 2 + x!").unwrap(), 5089f64);
}
