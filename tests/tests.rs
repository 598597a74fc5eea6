use math_expression_parser::ast::{build_expr, parse_expression, BuildError, Decimal, Expr, ParseError};
use math_expression_parser::evaluation::{plan_of, prepare, Guard, Plan, Step};
use math_expression_parser::grammar::{Expected, Grammar, Node, Rule, SyntaxError};

fn approx_eq(a: f64, b: f64, eps: f64) -> bool {
    (a - b).abs() <= eps
}

fn value(d: &Decimal) -> f64 {
    let text: String = d.text_chars().iter().collect();
    text.parse::<f64>().unwrap()
}

fn holds(g: Guard, stack: &[f64]) -> bool {
    let top = stack[stack.len() - 1];
    match g {
        Guard::NonZeroDivisor | Guard::NonZeroDegree => top != 0.0,
        Guard::PositiveLnArgument => top > 0.0,
        Guard::LogArguments => {
            let v = stack[stack.len() - 2];
            !(v <= 0.0 || top <= 0.0 || top == 1.0)
        }
    }
}

fn run(plan: &Plan) -> Result<f64, Guard> {
    let mut stack: Vec<f64> = Vec::new();
    let mut next = 0;
    for step in &plan.steps {
        match *step {
            Step::Push => {
                stack.push(value(&plan.literals[next]));
                next += 1;
            }
            Step::Swap => {
                let n = stack.len();
                stack.swap(n - 1, n - 2);
            }
            Step::Check(g) => {
                if !holds(g, &stack) {
                    return Err(g);
                }
            }
            Step::Sin | Step::Cos | Step::Tan | Step::Exp | Step::Ln => {
                let x = stack.pop().unwrap();
                stack.push(match *step {
                    Step::Sin => x.sin(),
                    Step::Cos => x.cos(),
                    Step::Tan => x.tan(),
                    Step::Exp => x.exp(),
                    _ => x.ln(),
                });
            }
            _ => {
                let b = stack.pop().unwrap();
                let a = stack.pop().unwrap();
                stack.push(match *step {
                    Step::Add => a + b,
                    Step::Sub => a - b,
                    Step::Mul => a * b,
                    Step::Div => a / b,
                    Step::Pow => a.powf(b),
                    Step::Root => a.powf(1.0 / b),
                    _ => a.ln() / b.ln(),
                });
            }
        }
    }
    Ok(stack.pop().unwrap())
}

fn eval_expr(e: &Expr) -> Result<f64, Guard> {
    run(&plan_of(e))
}

fn parse_and_eval(input: &str) -> Result<f64, String> {
    let plan = prepare(input).map_err(|e| format!("{:?}", e))?;
    run(&plan).map_err(|g| format!("{:?}", g))
}

fn num_value(e: &Expr) -> Option<f64> {
    match e {
        Expr::Num(d) => Some(value(d)),
        _ => None,
    }
}

#[test]
fn parse_sum() {
    let e = parse_expression("(12+34)").unwrap();
    assert!(matches!(e, Expr::Add(_, _)));
}

#[test]
fn parse_num_integer() {
    let e = parse_expression("123").unwrap();
    assert!(matches!(num_value(&e), Some(n) if (n - 123.0).abs() < 1e-12));
}

#[test]
fn parse_num_decimal() {
    let e = parse_expression("3.14").unwrap();
    assert!(matches!(num_value(&e), Some(n) if (n - 3.14).abs() < 1e-12));
}

#[test]
fn parse_plus_and_eval() {
    let e = parse_expression("(12+34)").unwrap();
    assert!(matches!(e, Expr::Add(_, _)));
    let v = eval_expr(&e).unwrap();
    assert_eq!(v, 46.0);
}

#[test]
fn parse_minus_and_eval() {
    let e = parse_expression("(5-3)").unwrap();
    assert!(matches!(e, Expr::Sub(_, _)));
    let v = eval_expr(&e).unwrap();
    assert_eq!(v, 2.0);
}

#[test]
fn parse_multiply_and_eval() {
    let e = parse_expression("(2*3)").unwrap();
    assert!(matches!(e, Expr::Mul(_, _)));
    let v = eval_expr(&e).unwrap();
    assert_eq!(v, 6.0);
}

#[test]
fn parse_divide_and_eval() {
    let e = parse_expression("(10/2)").unwrap();
    assert!(matches!(e, Expr::Div(_, _)));
    let v = eval_expr(&e).unwrap();
    assert_eq!(v, 5.0);
}

#[test]
fn divide_by_zero_error() {
    let res = parse_and_eval("(1/0)");
    assert!(res.is_err());
}

#[test]
fn parse_sin_and_eval() {
    let e = parse_expression("sin(0)").unwrap();
    assert!(matches!(e, Expr::Sin(_)));
    let v = eval_expr(&e).unwrap();
    assert!(approx_eq(v, 0.0, 1e-12));
}

#[test]
fn parse_cos_and_eval() {
    let e = parse_expression("cos(0)").unwrap();
    assert!(matches!(e, Expr::Cos(_)));
    let v = eval_expr(&e).unwrap();
    assert!(approx_eq(v, 1.0, 1e-12));
}

#[test]
fn parse_tan_and_eval() {
    let e = parse_expression("tan(0)").unwrap();
    assert!(matches!(e, Expr::Tan(_)));
    let v = eval_expr(&e).unwrap();
    assert!(approx_eq(v, 0.0, 1e-12));
}

#[test]
fn parse_exp_and_eval() {
    let e = parse_expression("exp(1)").unwrap();
    assert!(matches!(e, Expr::Exp(_)));
    let v = eval_expr(&e).unwrap();
    assert!(approx_eq(v, std::f64::consts::E, 1e-12));
}

#[test]
fn parse_pow_and_eval() {
    let e = parse_expression("pow(2,3)").unwrap();
    assert!(matches!(e, Expr::Pow(_, _)));
    let v = eval_expr(&e).unwrap();
    assert!(approx_eq(v, 8.0, 1e-12));
}

#[test]
fn parse_root_and_eval() {
    let e = parse_expression("root(27,3)").unwrap();
    assert!(matches!(e, Expr::Root(_, _)));
    let v = eval_expr(&e).unwrap();
    assert!(approx_eq(v, 3.0, 1e-12));
}

#[test]
fn parse_log_and_eval() {
    let e = parse_expression("log(8,2)").unwrap();
    assert!(matches!(e, Expr::Log(_, _)));
    let v = eval_expr(&e).unwrap();
    assert!(approx_eq(v, 3.0, 1e-12));
}

#[test]
fn parse_ln_and_eval() {
    let e = parse_expression("ln(2.718281828459045)").unwrap();
    assert!(matches!(e, Expr::Ln(_)));
    let v = eval_expr(&e).unwrap();
    assert!(approx_eq(v, 1.0, 1e-12));
}

#[test]
fn nested_expression_eval() {
    // ((1+2)*(3+4)) == 3 * 7 == 21
    let v = parse_and_eval("((1+2)*(3+4))").unwrap();
    assert_eq!(v, 21.0);
}

#[test]
fn invalid_ln_and_log_errors() {
    assert!(parse_and_eval("ln(0)").is_err());
    assert!(parse_and_eval("ln(-1)").is_err());
    assert!(parse_and_eval("log(0,2)").is_err());
    assert!(parse_and_eval("log(8,1)").is_err());
}

// Further cases.

#[test]
fn sum_has_two_number_children() {
    let e = parse_expression("(12+34)").unwrap();
    match e {
        Expr::Add(a, b) => {
            assert_eq!(num_value(&a), Some(12.0));
            assert_eq!(num_value(&b), Some(34.0));
        }
        _ => panic!("not a sum"),
    }
}

#[test]
fn literal_digits_are_kept() {
    let e = parse_expression("-12.50").unwrap();
    match e {
        Expr::Num(d) => {
            assert!(d.negative);
            assert_eq!(d.int_digits, vec![1, 2]);
            assert_eq!(d.frac_digits, vec![5, 0]);
            let text: String = d.text_chars().iter().collect();
            assert_eq!(text, "-12.50");
        }
        _ => panic!("not a number"),
    }
}

#[test]
fn division_by_zero_is_its_own_guard() {
    assert_eq!(parse_and_eval("(1/0)"), Err("NonZeroDivisor".to_string()));
    assert_eq!(parse_and_eval("root(8,0)"), Err("NonZeroDegree".to_string()));
    assert_eq!(parse_and_eval("ln(0)"), Err("PositiveLnArgument".to_string()));
    assert_eq!(parse_and_eval("log(-2,10)"), Err("LogArguments".to_string()));
    assert_eq!(parse_and_eval("log(8,0)"), Err("LogArguments".to_string()));
}

#[test]
fn divisor_is_checked_before_dividend() {
    // The divisor fails first, so the dividend's own failure is never reached.
    assert_eq!(parse_and_eval("(ln(0)/(1/0))"), Err("NonZeroDivisor".to_string()));
    // A logarithm evaluates both arguments before its own check.
    assert_eq!(parse_and_eval("log(ln(0),1)"), Err("PositiveLnArgument".to_string()));
    // A root checks its degree before evaluating the value.
    assert_eq!(parse_and_eval("root(ln(0),0)"), Err("NonZeroDegree".to_string()));
}

#[test]
fn division_plan_order() {
    let plan = prepare("(6/3)").unwrap();
    assert_eq!(
        plan.steps,
        vec![
            Step::Push,
            Step::Check(Guard::NonZeroDivisor),
            Step::Push,
            Step::Swap,
            Step::Div
        ]
    );
    assert_eq!(value(&plan.literals[0]), 3.0);
    assert_eq!(value(&plan.literals[1]), 6.0);
    assert_eq!(run(&plan), Ok(2.0));
}

#[test]
fn root_and_log_argument_roles() {
    assert!(approx_eq(parse_and_eval("root(16,4)").unwrap(), 2.0, 1e-12));
    assert!(approx_eq(parse_and_eval("log(100,10)").unwrap(), 2.0, 1e-12));
    assert!(approx_eq(parse_and_eval("pow(2,10)").unwrap(), 1024.0, 1e-9));
}

#[test]
fn repeated_evaluation_gives_same_value() {
    let a = parse_and_eval("(pow(2,0.5)*sin(1))").unwrap();
    let b = parse_and_eval("(pow(2,0.5)*sin(1))").unwrap();
    assert_eq!(a.to_bits(), b.to_bits());
}

#[test]
fn blanks_between_tokens() {
    assert_eq!(parse_and_eval("  ( 1 + 2 )  "), Ok(3.0));
    assert_eq!(parse_and_eval("pow ( 2 , 3 )\t"), Ok(8.0));
    assert_eq!(parse_and_eval("(2*-3)"), Ok(-6.0));
}

#[test]
fn syntax_errors_give_position() {
    let err = |s: &str| match parse_expression(s) {
        Err(ParseError::Syntax(e)) => e,
        other => panic!("unexpected {:?}", other),
    };
    assert_eq!(err("1+2"), SyntaxError { position: 1, expected: Expected::EndOfInput });
    assert_eq!(err("(1 2)"), SyntaxError { position: 3, expected: Expected::Operator });
    assert_eq!(err("(1+2"), SyntaxError { position: 4, expected: Expected::CloseParen });
    assert_eq!(err("sin 0"), SyntaxError { position: 4, expected: Expected::OpenParen });
    assert_eq!(err("pow(2)"), SyntaxError { position: 5, expected: Expected::Comma });
    assert_eq!(err("sqrt(4)"), SyntaxError { position: 0, expected: Expected::Expression });
    assert_eq!(err(""), SyntaxError { position: 0, expected: Expected::Expression });
    assert_eq!(err("1."), SyntaxError { position: 1, expected: Expected::EndOfInput });
    assert_eq!(err("- 1"), SyntaxError { position: 0, expected: Expected::Expression });
}

#[test]
fn concrete_tree_shape() {
    let n = Grammar::parse("(1+2)").unwrap();
    assert_eq!(n.rule, Rule::Input);
    assert_eq!((n.start, n.end), (0, 5));
    let e = n.first.unwrap();
    assert_eq!(e.rule, Rule::Expression);
    let plus = e.first.unwrap();
    assert_eq!(plus.rule, Rule::Plus);
    let left = plus.first.unwrap();
    let num = left.first.unwrap();
    assert_eq!((num.rule, num.start, num.end), (Rule::Num, 1, 2));
}

#[test]
fn malformed_tree_is_reported() {
    let s: Vec<char> = "x".chars().collect();
    let num = Node { rule: Rule::Num, start: 0, end: 1, first: None, second: None };
    assert_eq!(
        build_expr(&num, &s).unwrap_err(),
        BuildError::MalformedNumber { start: 0, end: 1 }
    );
    let empty = Node { rule: Rule::Expression, start: 0, end: 0, first: None, second: None };
    assert_eq!(build_expr(&empty, &s).unwrap_err(), BuildError::EmptyExpression);
    let plus = Node { rule: Rule::Plus, start: 0, end: 0, first: None, second: None };
    assert_eq!(build_expr(&plus, &s).unwrap_err(), BuildError::MissingLeft);
    let one = Node { rule: Rule::Num, start: 0, end: 0, first: None, second: None };
    let half = Node { rule: Rule::Plus, start: 0, end: 0, first: Some(Box::new(one)), second: None };
    assert_eq!(build_expr(&half, &s).unwrap_err(), BuildError::MissingRight);
    let sin = Node { rule: Rule::Sin, start: 0, end: 0, first: None, second: None };
    assert_eq!(build_expr(&sin, &s).unwrap_err(), BuildError::MissingArgument);
}
