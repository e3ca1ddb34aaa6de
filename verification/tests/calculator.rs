use infix_calculator::{BinOp, EvalStep, ParseError, RPNQueue};

/// Runs an evaluation plan over a floating-point operand stack, the
/// part of evaluation that stays outside the verified library.
fn run_steps(steps: Vec<EvalStep>) -> f64 {
    let mut stack: Vec<f64> = Vec::new();
    for step in steps {
        match step {
            EvalStep::Literal(t) => stack.push(t.parse::<f64>().unwrap()),
            EvalStep::Operator(op) => {
                let second = stack.pop().unwrap();
                let first = stack.pop().unwrap();
                let value = match op {
                    BinOp::Add => first + second,
                    BinOp::Sub => first - second,
                    BinOp::Mul => first * second,
                    BinOp::Div => first / second,
                };
                stack.push(value);
            }
        }
    }
    stack.pop().unwrap()
}

fn eval_infix(input: &str) -> Result<f64, ParseError> {
    let queue = RPNQueue::from_infix_string(input)?;
    let steps = queue.eval_steps()?;
    Ok(run_steps(steps))
}

fn tokens(input: &str) -> Vec<String> {
    RPNQueue::from_infix_string(input).unwrap().0
}

#[test]
fn binary_operations_match_native_arithmetic() {
    assert_eq!(tokens("10 + 25"), vec!["10".to_string(), "25".to_string(), "+".to_string()]);
    assert_eq!(eval_infix("10 + 25").unwrap(), 35.0);
    assert_eq!(eval_infix("10 - 25").unwrap(), -15.0);
    assert_eq!(eval_infix("10 * 25").unwrap(), 250.0);
    assert_eq!(eval_infix("10 / 25").unwrap(), 0.4);
    assert_eq!(eval_infix("10 / 4").unwrap(), 2.5);
}

#[test]
fn division_by_zero_follows_ieee() {
    let v = eval_infix("9 / 0").unwrap();
    assert!(v.is_infinite() && v > 0.0);
    assert!(eval_infix("0 / 0").unwrap().is_nan());
}

#[test]
fn parentheses_override_precedence() {
    assert_eq!(eval_infix("2 * (3 + 4)").unwrap(), 14.0);
    assert_eq!(eval_infix("2 * 3 + 4").unwrap(), 10.0);
}

#[test]
fn equal_precedence_associates_left() {
    // The converter pops a stacked operator whose precedence is greater
    // than or equal to the incoming one, so operators of equal
    // precedence group left to right: (10 - 2) - 3, not 10 - (2 - 3).
    assert_eq!(
        tokens("10 - 2 - 3"),
        vec![
            "10".to_string(),
            "2".to_string(),
            "-".to_string(),
            "3".to_string(),
            "-".to_string(),
        ]
    );
    assert_eq!(eval_infix("10 - 2 - 3").unwrap(), 5.0);
}

#[test]
fn whitespace_does_not_change_the_result() {
    assert_eq!(tokens("1+3-(4/5)"), tokens("1 + 3 - (4 / 5)"));
    assert_eq!(eval_infix("1+3-(4/5)").unwrap(), 3.2);
    assert_eq!(eval_infix("1 + 3 - (4 / 5)").unwrap(), 3.2);
    assert_eq!(eval_infix("\t1 +\n3 - ( 4 / 5 )\r\n").unwrap(), 3.2);
}

#[test]
fn decimal_literals_parse() {
    assert_eq!(eval_infix("1.5 + 2.25").unwrap(), 3.75);
    assert_eq!(eval_infix("7. + .5").unwrap(), 7.5);
}

#[test]
fn invalid_character_is_reported() {
    assert_eq!(
        RPNQueue::from_infix_string("3 + x").unwrap_err(),
        ParseError::InvalidToken('x')
    );
    assert_eq!(
        RPNQueue::from_infix_string("1e5").unwrap_err(),
        ParseError::InvalidToken('e')
    );
}

#[test]
fn missing_operands_are_reported() {
    assert_eq!(eval_infix("+").unwrap_err(), ParseError::InsufficientOperands);
    assert_eq!(eval_infix("").unwrap_err(), ParseError::InsufficientOperands);
    assert_eq!(eval_infix("1 +").unwrap_err(), ParseError::InsufficientOperands);
}

#[test]
fn invalid_numbers_are_reported() {
    assert_eq!(
        eval_infix("1.2.3").unwrap_err(),
        ParseError::InvalidNumber("1.2.3".to_string())
    );
    let lone_dot = RPNQueue(vec![".".to_string()]);
    assert_eq!(
        lone_dot.eval_steps().unwrap_err(),
        ParseError::InvalidNumber(".".to_string())
    );
    let exponent = RPNQueue(vec!["1e5".to_string()]);
    assert_eq!(
        exponent.eval_steps().unwrap_err(),
        ParseError::InvalidNumber("1e5".to_string())
    );
}

#[test]
fn conversion_is_repeatable() {
    let first = RPNQueue::from_infix_string("1 + 3 - (4 / 5)").unwrap();
    let second = RPNQueue::from_infix_string("1 + 3 - (4 / 5)").unwrap();
    assert_eq!(first.0, second.0);
}

#[test]
fn mixed_expression_evaluates() {
    assert_eq!(
        tokens("1.0 + 3 - (4 / 5)"),
        vec![
            "1.0".to_string(),
            "3".to_string(),
            "+".to_string(),
            "4".to_string(),
            "5".to_string(),
            "/".to_string(),
            "-".to_string(),
        ]
    );
    assert_eq!(eval_infix("1.0 + 3 - (4 / 5)").unwrap(), 3.2);
}

#[test]
fn unmatched_parentheses_are_tolerated() {
    // A `)` with no stacked `(` is a silent no-op.
    assert_eq!(tokens("1)"), vec!["1".to_string()]);
    assert_eq!(eval_infix("1)").unwrap(), 1.0);
    // A leftover `(` is discarded when the stack is drained: no
    // grouping symbol reaches the output.
    assert_eq!(tokens("(1"), vec!["1".to_string()]);
    assert_eq!(eval_infix("(1").unwrap(), 1.0);
}

#[test]
fn extra_operands_are_ignored() {
    assert_eq!(eval_infix("1 2 3 +").unwrap(), 5.0);
}

#[test]
fn five_by_five_operations() {
    assert_eq!(eval_infix("5 + 5").unwrap(), 10.0);
    assert_eq!(eval_infix("5 - 5").unwrap(), 0.0);
    assert_eq!(eval_infix("5 * 5").unwrap(), 25.0);
    assert_eq!(eval_infix("5 / 5").unwrap(), 1.0);
    let bad_operator = RPNQueue(vec!["5".to_string(), "5".to_string(), "o".to_string()]);
    assert_eq!(
        bad_operator.eval_steps().unwrap_err(),
        ParseError::InvalidNumber("o".to_string())
    );
}

#[test]
fn plan_lists_pushes_and_operators_in_order() {
    let queue = RPNQueue::from_infix_string("2 * (3 + 4)").unwrap();
    let steps = queue.eval_steps().unwrap();
    assert_eq!(
        steps,
        vec![
            EvalStep::Literal("2".to_string()),
            EvalStep::Literal("3".to_string()),
            EvalStep::Literal("4".to_string()),
            EvalStep::Operator(BinOp::Add),
            EvalStep::Operator(BinOp::Mul),
        ]
    );
}
