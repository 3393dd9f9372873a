use calculator::ast::{BinaryOp, Expr};
use calculator::chars::{factorial, is_identifier_continue, is_identifier_start, is_number};
use calculator::env::{Builtin, CalcError, Env, EvalError, Outcome, Plan, Step};
use calculator::lexer::{scan, Token};
use calculator::parser::{parse, ParseError};
use calculator::ast::{Stmt, UnaryOp};
use calculator::symbols::Namespace;

fn value_of(plan: &Plan, inputs: &[f64]) -> f64 {
    let mut vals: Vec<f64> = Vec::new();
    for step in &plan.steps {
        let v = match step {
            Step::Number(text) => text.parse::<f64>().unwrap(),
            Step::Stored(bits) => f64::from_bits(*bits),
            Step::Input(k) => inputs[*k],
            Step::Neg(j) => -vals[*j],
            Step::Factorial(j) => factorial(vals[*j] as u32) as f64,
            Step::Binary(op, j, k) => {
                let (a, b) = (vals[*j], vals[*k]);
                match op {
                    BinaryOp::Plus => a + b,
                    BinaryOp::Sub => a - b,
                    BinaryOp::Mult => a * b,
                    BinaryOp::Div => a / b,
                    BinaryOp::Square => a.powf(b),
                }
            }
            Step::Builtin(f, j) => {
                let a = vals[*j];
                match f {
                    Builtin::Ln => a.ln(),
                    Builtin::Lg => a.log10(),
                    Builtin::Sin => a.sin(),
                    Builtin::Cos => a.cos(),
                    Builtin::Tan => a.tan(),
                    Builtin::Asin => a.asin(),
                    Builtin::Acos => a.acos(),
                    Builtin::Atan => a.atan(),
                    Builtin::Sqrt => a.sqrt(),
                    Builtin::Abs => a.abs(),
                    Builtin::Sinh => a.sinh(),
                    Builtin::Cosh => a.cosh(),
                    Builtin::Floor => a.floor(),
                    Builtin::ToRad => a.to_radians(),
                }
            }
        };
        vals.push(v);
    }
    vals[plan.result]
}

/// Runs a line the way a front end does: computes values and stores assignments.
fn run(env: &mut Env, line: &str) -> Option<f64> {
    match env.run(line) {
        Outcome::Value(plan) => Some(value_of(&plan, &[])),
        Outcome::Assign(key, plan) => {
            let v = value_of(&plan, &[]);
            env.store(key, v.to_bits());
            None
        }
        _ => None,
    }
}

fn eval(line: &str) -> Option<f64> {
    let mut env = Env::new();
    run(&mut env, line)
}

#[test]
fn round_trip_arithmetic() {
    let values = [0.0, 1.0, 2.5, 3.0, 7.25, 1e10, 123456.789, 0.1];
    for a in values {
        for b in values {
            let expr = |op: &str| format!("{} {} {}", a, op, b);
            assert_eq!(eval(&expr("+")).unwrap(), a + b);
            assert_eq!(eval(&expr("-")).unwrap(), a - b);
            assert_eq!(eval(&expr("*")).unwrap(), a * b);
            let d = eval(&expr("/")).unwrap();
            let n = a / b;
            assert!(d == n || (d.is_nan() && n.is_nan()));
        }
    }
    assert_eq!(eval("1 / 0"), Some(f64::INFINITY));
    assert_eq!(eval("-1 / 0"), Some(f64::NEG_INFINITY));
    assert!(eval("0 / 0").unwrap().is_nan());
}

#[test]
fn power_matches_powf() {
    for (a, b) in [(2.0f64, 10.0f64), (2.5, 0.5), (9.0, 0.5), (10.0, 3.0), (1.5, 2.25)] {
        let r = eval(&format!("{} ^ {}", a, b)).unwrap();
        assert_eq!(r.to_bits(), a.powf(b).to_bits());
    }
}

#[test]
fn precedence() {
    assert_eq!(eval("2+3*4"), Some(14.0));
    assert_eq!(eval("(2+3)*4"), Some(20.0));
    assert_eq!(eval("2^3^2"), Some(64.0));
    assert_eq!(eval("10 - 4 - 3"), Some(3.0));
    assert_eq!(eval("12 / 3 / 2"), Some(2.0));
}

#[test]
fn unary_chaining() {
    assert_eq!(eval("--5"), Some(5.0));
    assert_eq!(eval("-5!"), Some(-120.0));
}

#[test]
fn factorial_wraps_at_32_bits() {
    assert_eq!(eval("13!"), Some(1932053504.0));
    assert_eq!(factorial(13), 1932053504);
    assert_eq!(factorial(12), 479001600);
    assert_eq!(factorial(0), 1);
    assert_eq!(factorial(1), 1);
    assert_eq!(eval("5!"), Some(120.0));
}

#[test]
fn function_definition_and_call() {
    let mut env = Env::new();
    assert!(matches!(env.run("fun sq(x) = x * x"), Outcome::Defined(_)));
    assert_eq!(run(&mut env, "sq(5)"), Some(25.0));
    assert!(matches!(env.run("fun sq(x) = x + 1"), Outcome::Defined(_)));
    assert_eq!(run(&mut env, "sq(5)"), Some(6.0));
    assert!(matches!(env.run("fun add(a, b) = a + b"), Outcome::Defined(_)));
    assert_eq!(run(&mut env, "add(2, sq(3))"), Some(6.0));
    assert!(matches!(env.run("fun sub(a b) = a - b"), Outcome::Defined(_)));
    assert_eq!(run(&mut env, "sub(10 4)"), Some(6.0));
}

#[test]
fn variable_persistence() {
    let mut env = Env::new();
    assert_eq!(run(&mut env, "x = 3"), None);
    assert_eq!(run(&mut env, "x + 1"), Some(4.0));
    assert!(matches!(env.run("fun x(a) = a * 10"), Outcome::Defined(_)));
    assert_eq!(run(&mut env, "x(2)"), Some(20.0));
    assert_eq!(run(&mut env, "x"), Some(3.0));
    assert_eq!(run(&mut env, "x = x + 1"), None);
    assert_eq!(run(&mut env, "x"), Some(4.0));
}

#[test]
fn undefined_symbol() {
    let mut env = Env::new();
    match env.run("undefined_name") {
        Outcome::Failed(CalcError::Eval(EvalError::UndefinedVariable(k))) => {
            assert_eq!(env.name_of(k), Some("undefined_name"));
        }
        other => panic!("unexpected {:?}", other),
    }
    assert!(matches!(env.run("nothing(1)"), Outcome::Failed(CalcError::Eval(EvalError::UndefinedFunction(_)))));
    assert!(matches!(env.run("y = undefined_name"), Outcome::Failed(_)));
    assert!(matches!(env.run("y"), Outcome::Failed(CalcError::Eval(EvalError::UndefinedVariable(_)))));
}

#[test]
fn argument_count_mismatch() {
    assert!(matches!(Env::new().run("sqrt()"), Outcome::Failed(CalcError::Eval(EvalError::ArgCount(0)))));
    assert!(matches!(Env::new().run("sqrt(1, 2)"), Outcome::Failed(CalcError::Eval(EvalError::ArgCount(2)))));
    let mut env = Env::new();
    env.run("fun two(a, b) = a + b");
    assert!(matches!(env.run("two(1)"), Outcome::Failed(CalcError::Eval(EvalError::InsufficientArgs))));
}

#[test]
fn builtin_correctness() {
    assert_eq!(eval("sqrt(4)"), Some(2.0));
    assert!(eval("sin(0)").unwrap().abs() < 1e-12);
    assert!((eval("ln(E)").unwrap() - 1.0).abs() < 1e-12);
    assert!((eval("cos(PI)").unwrap() + 1.0).abs() < 1e-12);
    assert_eq!(eval("lg(1000)"), Some(3.0));
    assert_eq!(eval("abs(-2.5)"), Some(2.5));
    assert_eq!(eval("floor(2.7)"), Some(2.0));
    assert!((eval("to_rad(180)").unwrap() - std::f64::consts::PI).abs() < 1e-12);
    assert_eq!(eval("PI"), Some(std::f64::consts::PI));
    assert_eq!(eval("E"), Some(std::f64::consts::E));
}

#[test]
fn parse_errors() {
    let mut env = Env::new();
    assert!(matches!(env.run(""), Outcome::Nothing));
    assert!(matches!(env.run("   # only a comment"), Outcome::Nothing));
    assert!(matches!(env.run("1 +"), Outcome::Failed(CalcError::Parse(ParseError::ExpectExpression))));
    assert!(matches!(env.run("(1 + 2"), Outcome::Failed(CalcError::Parse(ParseError::MissingRightParen))));
    assert!(matches!(env.run("1 2"), Outcome::Failed(CalcError::Parse(ParseError::TrailingInput))));
    assert!(matches!(env.run("$"), Outcome::Failed(CalcError::Parse(ParseError::InvalidChar))));
    assert!(matches!(env.run("1 + $"), Outcome::Failed(CalcError::Parse(ParseError::InvalidSyntax))));
    assert!(matches!(env.run("fun (x) = x"), Outcome::Failed(CalcError::Parse(ParseError::ExpectName))));
    assert!(matches!(env.run("fun f x = x"), Outcome::Failed(CalcError::Parse(ParseError::ExpectLeftParen(_)))));
    assert!(matches!(env.run("fun f(x) x"), Outcome::Failed(CalcError::Parse(ParseError::ExpectEq))));
    assert!(matches!(env.run("%nope(1)"), Outcome::Failed(CalcError::Parse(ParseError::UnknownMagic(_)))));
}

#[test]
fn comments_and_newline() {
    assert_eq!(eval("1 + 2 # three\n"), Some(3.0));
    assert_eq!(eval("# note\n 4 * 2\n"), Some(8.0));
    assert_eq!(eval("3.25 + 0.75"), Some(4.0));
}

#[test]
fn plot_plans() {
    let mut env = Env::new();
    env.run("fun f(x) = x * x");
    match env.run("%plot2d(f, 0, 3, 1)") {
        Outcome::Plot(p) => {
            assert_eq!(value_of(&p.start, &[]), 0.0);
            assert_eq!(value_of(&p.end, &[]), 3.0);
            assert_eq!(value_of(&p.step, &[]), 1.0);
            let body = p.body.unwrap();
            assert_eq!(value_of(&body, &[2.0]), 4.0);
        }
        other => panic!("unexpected {:?}", other),
    }
    assert!(matches!(env.run("%plot2d(g, 0, 3, 1)"), Outcome::Failed(CalcError::UndefinedPlotFunction(_))));
}

#[test]
fn recursion_is_bounded() {
    let mut env = Env::new();
    env.run("fun r(x) = r(x)");
    assert!(matches!(env.run("r(1)"), Outcome::Failed(CalcError::Eval(EvalError::TooDeep))));
}

#[test]
fn call_shape() {
    let mut env = Env::new();
    env.run("fun f(a, b) = a - b");
    match env.run("f(1, 2)") {
        Outcome::Value(p) => assert_eq!(value_of(&p, &[]), -1.0),
        other => panic!("unexpected {:?}", other),
    }
    let _ = Expr::Literal { value: calculator::ast::Valuable::Arg(0) };
}

#[test]
fn unicode_identifiers() {
    assert!(is_identifier_start('é'));
    assert!(is_identifier_start('_'));
    assert!(!is_identifier_start('1'));
    assert!(is_identifier_continue('1'));
    assert!(is_number('7'));
    assert!(!is_number('x'));
    let mut env = Env::new();
    assert_eq!(run(&mut env, "été = 2"), None);
    assert_eq!(run(&mut env, "été + 1"), Some(3.0));
}

#[test]
fn parser_on_tokens() {
    assert!(matches!(parse(&vec![], 0), Err(ParseError::EmptyInput)));
    assert!(matches!(parse(&vec![Token::LeftParen], 0), Err(ParseError::UnexpectedEnd)));
    let mut ns = Namespace::new();
    let toks = scan("-x!", &mut ns);
    assert_eq!(toks.len(), 4);
    assert!(matches!(toks[3], Token::Eof));
    match parse(&toks, usize::MAX) {
        Ok(Stmt::Expr { expr }) => match *expr {
            Expr::Unary { op: UnaryOp::Minus, operand } => {
                assert!(matches!(*operand, Expr::Unary { op: UnaryOp::Ftl, .. }))
            }
            other => panic!("unexpected {:?}", other),
        },
        other => panic!("unexpected {:?}", other),
    }
    let toks = scan("2 ^ 3 ^ 2", &mut ns);
    match parse(&toks, usize::MAX) {
        Ok(Stmt::Expr { expr }) => match *expr {
            Expr::Binary { left, op: BinaryOp::Square, .. } => {
                assert!(matches!(*left, Expr::Binary { op: BinaryOp::Square, .. }))
            }
            other => panic!("unexpected {:?}", other),
        },
        other => panic!("unexpected {:?}", other),
    }
}

#[test]
fn interning_is_stable() {
    let mut ns = Namespace::new();
    let a = ns.intern("alpha");
    let b = ns.intern("beta");
    assert_ne!(a, b);
    assert_eq!(ns.intern("alpha"), a);
    assert_eq!(ns.lookup("beta"), Some(b));
    assert_eq!(ns.lookup("gamma"), None);
    assert_eq!(ns.name_of(a), Some("alpha"));
    assert_eq!(ns.name_of(99), None);
}
