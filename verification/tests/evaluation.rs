use std::f64::consts;

use calculator::context::Context;
use calculator::error::Error;
use calculator::evaluation::{Request, StepResult};
use calculator::item::{AngleUnit, Function, Trigonometric};
use calculator::token::Operator;

// A driver for the evaluation machine: the library decides everything and
// asks for one numeric operation at a time; this carries the operations
// out on real binary64 values.

fn compute(text: &str, request: Request) -> u64 {
    match request {
        Request::Parse(span) => text[span.0..span.1].parse::<f64>().unwrap().to_bits(),
        Request::Convert(value) => (value as f64).to_bits(),
        Request::Apply(function, bits) => apply(function, f64::from_bits(bits)).to_bits(),
        Request::Binary(operator, left, right) => {
            binary(operator, f64::from_bits(left), f64::from_bits(right)).to_bits()
        }
    }
}

fn apply(function: Function, value: f64) -> f64 {
    match function {
        Function::Trigonometric(kind, unit) => trigonometric(kind, unit, value),
        Function::AbsoluteValue => value.abs(),
        Function::SquareRoot => value.sqrt(),
        Function::CubeRoot => value.cbrt(),
        Function::NaturalLogarithm => value.ln(),
        Function::BinaryLogarithm => value.log2(),
        Function::DecimalLogarithm => value.log10(),
        Function::UnaryMinus => -value,
    }
}

fn to_radians(unit: AngleUnit, value: f64) -> f64 {
    match unit {
        AngleUnit::Radians => value,
        AngleUnit::Degrees => value.to_radians(),
    }
}

fn from_radians(unit: AngleUnit, value: f64) -> f64 {
    match unit {
        AngleUnit::Radians => value,
        AngleUnit::Degrees => value.to_degrees(),
    }
}

fn trigonometric(kind: Trigonometric, unit: AngleUnit, value: f64) -> f64 {
    match kind {
        Trigonometric::Sine => to_radians(unit, value).sin(),
        Trigonometric::Cosine => to_radians(unit, value).cos(),
        Trigonometric::Tangent => to_radians(unit, value).tan(),
        Trigonometric::InverseSine => from_radians(unit, value.asin()),
        Trigonometric::InverseCosine => from_radians(unit, value.acos()),
        Trigonometric::InverseTangent => from_radians(unit, value.atan()),
    }
}

fn binary(operator: Operator, left: f64, right: f64) -> f64 {
    match operator {
        Operator::Add => left + right,
        Operator::Minus => left - right,
        Operator::Multiply => left * right,
        Operator::Divide => left / right,
        Operator::Modulo => left % right,
        Operator::Power => left.powf(right),
    }
}

fn run_with(text: &str, context: &Context) -> Result<f64, (Error, usize, usize)> {
    let mut machine = match calculator::begin_evaluation(text.as_bytes()) {
        Ok(machine) => machine,
        Err(error) => return Err((error.node, error.span.0, error.span.1)),
    };
    loop {
        match machine.step(context) {
            StepResult::Working => {}
            StepResult::Compute(request) => {
                let bits = compute(text, request);
                machine.provide(bits);
            }
            StepResult::Finished(bits) => return Ok(f64::from_bits(bits)),
            StepResult::Failed(error) => return Err((error.node, error.span.0, error.span.1)),
        }
    }
}

fn run(text: &str) -> Result<f64, (Error, usize, usize)> {
    let context = Context::new();
    run_with(text, &context)
}

fn eval(text: &str) -> f64 {
    run(text).unwrap()
}

#[test]
fn test_arithmetic() {
    assert_eq!(eval("1 + 2"), 3.0);
    assert_eq!(eval("1 - 2"), -1.0);
    assert_eq!(eval("1 * 2"), 2.0);
    assert_eq!(eval("1 / 2"), 0.5);
    assert_eq!(eval("10 ^ -2"), 0.01);
}

#[test]
fn test_unary_minus() {
    assert_eq!(eval("1 - -1"), 2.0);
    assert_eq!(eval("-1"), -1.0);
    assert_eq!(eval("1 --- 1"), 0.0);
    assert_eq!(eval("-1 -- -1"), -2.0);
}

#[test]
fn test_functions() {
    assert_eq!(eval("abs -1"), 1.0);
    assert_eq!(eval("sin asin 1"), 1.0);
    assert_eq!(eval("sin' asin' 1"), 1.0);
    assert_eq!(eval("sqrt -1 + 1;;"), 0.0);
}

#[test]
fn precedence_and_associativity() {
    assert_eq!(eval("2 + 3 * 4"), 14.0);
    assert_eq!(eval("2 * 3 ^ 2"), 18.0);
    assert_eq!(eval("100 - 10 - 1"), 89.0);
    // Equal precedence associates to the left: (2 ^ 2) ^ 3, not 2 ^ (2 ^ 3).
    assert_eq!(eval("2 ^ 2 ^ 3"), 64.0);
    assert_eq!(eval("7 % 4 % 2"), 1.0);
}

#[test]
fn implicit_multiplication() {
    assert_eq!(eval("2(3)"), 6.0);
    assert_eq!(eval("(2)3"), 6.0);
    assert_eq!(eval("(2)(3)"), 6.0);
    assert_eq!(eval("2 (3) 4"), 24.0);
}

#[test]
fn constants() {
    assert_eq!(eval("pi"), consts::PI);
    assert_eq!(eval("e"), consts::E);
    assert_eq!(eval("2 * pi"), 2.0 * consts::PI);
}

#[test]
fn radix_literals() {
    assert_eq!(eval("0x0a"), 10.0);
    assert_eq!(eval("0b1010"), 10.0);
    assert_eq!(eval("0o12"), 10.0);
    assert_eq!(eval("0xff + 1"), 256.0);
}

#[test]
fn grouping_markers() {
    // One marker bundles the two trailing units; two bundle three.
    assert_eq!(eval("2 * 3 + 4;"), 14.0);
    assert_eq!(eval("2 ^ 1 + 1;"), 4.0);
    assert_eq!(eval("2 ^ 1 + 1;;"), 3.0);
}

#[test]
fn zero_division_span() {
    // The span is exactly the zero's byte range.
    assert_eq!(run("1 / 0"), Err((Error::ZeroDivision, 4, 5)));
    assert_eq!(run("1 % 0"), Err((Error::ZeroDivision, 4, 5)));
    // A negative zero divisor still compares equal to zero.
    assert_eq!(run("1 / -0"), Err((Error::ZeroDivision, 4, 6)));
    // A bracketed divisor's span covers its inner units.
    assert_eq!(run("10 / (5 - 5)"), Err((Error::ZeroDivision, 6, 11)));
}

#[test]
fn negative_root() {
    assert_eq!(run("sqrt -1"), Err((Error::NegativeRoot, 5, 7)));
    assert_eq!(run("cbrt -8"), Err((Error::NegativeRoot, 5, 7)));
    assert_eq!(eval("sqrt 4"), 2.0);
}

#[test]
fn mismatched_brackets() {
    assert_eq!(run("(1 + 2"), Err((Error::MismatchedBracket, 6, 7)));
    assert_eq!(run(")"), Err((Error::MismatchedBracket, 0, 1)));
    assert_eq!(run("()"), Err((Error::EmptyBrackets, 1, 2)));
}

#[test]
fn structural_errors() {
    assert_eq!(run(""), Err((Error::ExpectedValued, 0, 1)));
    assert_eq!(run("1 +"), Err((Error::ExpectedValued, 3, 4)));
    assert_eq!(run("1 * * 2"), Err((Error::ExpectedValued, 4, 5)));
    assert_eq!(run("1 2"), Err((Error::ExpectedOperator, 2, 3)));
    assert_eq!(run("1 sin 2"), Err((Error::ExpectedOperator, 2, 5)));
}

#[test]
fn overreaching_marker() {
    // Three marker bytes ask for four units; only two are there.
    assert_eq!(run("1 + 2;;;"), Err((Error::InvalidCoalesce, 5, 8)));
    assert_eq!(run(";"), Err((Error::InvalidCoalesce, 0, 1)));
    // A marker right after an operator has no completed unit to bundle.
    assert_eq!(run("1+2+;3"), Err((Error::ExpectedValued, 4, 5)));
}

#[test]
fn back_references() {
    let mut context = Context::new();
    context.push_value(1.5f64.to_bits());
    context.push_value(2.5f64.to_bits());
    context.push_value(3.5f64.to_bits());
    // The bare prefix is the most recent value; each further marker byte
    // reaches one step further back.
    assert_eq!(run_with("$", &context), Ok(3.5));
    assert_eq!(run_with("$$", &context), Ok(2.5));
    assert_eq!(run_with("$$$", &context), Ok(1.5));
    assert_eq!(
        run_with("$$$$", &context),
        Err((Error::InvalidEvaluationOffset, 0, 4))
    );
    let empty = Context::new();
    assert_eq!(
        run_with("$", &empty),
        Err((Error::InvalidEvaluationOffset, 0, 1))
    );
}

#[test]
fn named_slots() {
    let mut context = Context::new();
    for index in 0..11 {
        context.push_value((index as f64).to_bits());
    }
    assert_eq!(run_with("$0", &context), Ok(0.0));
    assert_eq!(run_with("$2 + $3", &context), Ok(5.0));
    // Slot keys are hexadecimal: the eleventh value sits under the key `a`.
    assert_eq!(run_with("$a", &context), Ok(10.0));
    assert_eq!(
        run_with("$b", &context),
        Err((Error::UndefinedVariable(b"b".to_vec()), 0, 2))
    );
    // Only the canonical form addresses a slot.
    assert_eq!(
        run_with("$00", &context),
        Err((Error::UndefinedVariable(b"00".to_vec()), 0, 3))
    );
}

#[test]
fn idempotent_reruns() {
    let mut context = Context::new();
    context.push_value(4.0f64.to_bits());
    // Re-running the same text against an unmodified context repeats the
    // same result.
    let first = run_with("$ * 2 + 1", &context);
    let second = run_with("$ * 2 + 1", &context);
    assert_eq!(first, Ok(9.0));
    assert_eq!(first, second);
    // Committing after success assigns monotonic, never-reused keys, and
    // identically used contexts assign identical keys.
    let mut twin = Context::new();
    twin.push_value(4.0f64.to_bits());
    let key_a = context.push_value(9.0f64.to_bits());
    let key_b = twin.push_value(9.0f64.to_bits());
    assert_eq!(key_a, key_b);
    assert_eq!(key_a, 1);
    let next = context.push_value(0.0f64.to_bits());
    assert!(next > key_a);
}

#[test]
fn evaluation_does_not_touch_context() {
    let mut context = Context::new();
    context.push_value(7.0f64.to_bits());
    // A failing evaluation commits nothing: the history is intact and the
    // next key is unchanged.
    assert!(run_with("$ / 0", &context).is_err());
    assert_eq!(run_with("$", &context), Ok(7.0));
    assert_eq!(context.push_value(1.0f64.to_bits()), 1);
}
