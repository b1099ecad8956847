use rscheme::interpreter::{EvalError, Interpreter, Value};
use rscheme::model::Primitive;
use rscheme::parser::{parse, tokenize};
use rscheme::primitives::{Exact, Inexact};
use rscheme::text::is_inexact_string;

/// A host that computes with the floating point of the platform.
#[derive(Clone, Copy, Default)]
struct Floats;

fn operand_of(value: &Value) -> Option<f64> {
    match value {
        Value::Int(i) => Some(*i as f64),
        Value::Bool(b) => Some(if *b { 1.0 } else { 0.0 }),
        Value::Float(text) => text.parse::<f64>().ok(),
        _ => None,
    }
}

fn written(x: f64) -> Value {
    Value::Float(format!("{:?}", x))
}

fn error(message: &str) -> EvalError {
    EvalError { message: message.to_string() }
}

impl Inexact for Floats {
    fn compute(&self, op: Primitive, args: &Vec<Value>) -> Result<Value, EvalError> {
        let mut numbers: Vec<f64> = Vec::new();
        for arg in args {
            match operand_of(arg) {
                Some(x) => numbers.push(x),
                None => return Err(error("Invalid number")),
            }
        }
        match op {
            Primitive::Add => Ok(written(numbers.iter().rev().fold(0.0, |acc, x| x + acc))),
            Primitive::Multiply => Ok(written(numbers.iter().rev().fold(1.0, |acc, x| x * acc))),
            Primitive::Subtract if numbers.len() == 1 => Ok(written(-numbers[0])),
            Primitive::Subtract => Ok(written(numbers[1..].iter().fold(numbers[0], |acc, x| acc - x))),
            Primitive::Divide => {
                let (first, rest) = if numbers.len() == 1 {
                    (1.0, &numbers[..])
                } else {
                    (numbers[0], &numbers[1..])
                };
                let mut acc = first;
                for x in rest {
                    if *x == 0.0 {
                        return Err(error("Invalid division by zero"));
                    }
                    acc = acc / x;
                }
                Ok(written(acc))
            }
            Primitive::Power => Ok(written(numbers[0].powf(numbers[1]))),
            Primitive::Greater => Ok(Value::Bool(numbers[0] > numbers[1])),
            Primitive::GreaterEqual => Ok(Value::Bool(numbers[0] >= numbers[1])),
            Primitive::Less => Ok(Value::Bool(numbers[0] < numbers[1])),
            Primitive::LessEqual => Ok(Value::Bool(numbers[0] <= numbers[1])),
            Primitive::Equal => Ok(Value::Bool(numbers[0] == numbers[1])),
            Primitive::Sin => Ok(written(numbers[0].sin())),
            Primitive::Cos => Ok(written(numbers[0].cos())),
            Primitive::Tan => Ok(written(numbers[0].tan())),
            Primitive::Asin => Ok(written(numbers[0].asin())),
            Primitive::Acos => Ok(written(numbers[0].acos())),
            Primitive::Atan => Ok(written(numbers[0].atan())),
            Primitive::Exp => Ok(written(numbers[0].exp())),
            Primitive::Log => Ok(written(numbers[0].ln())),
            Primitive::Log10 => Ok(written(numbers[0].log10())),
            _ => Err(error("Invalid operation")),
        }
    }
}

fn run(source: &str, interpreter: &mut Interpreter<Floats>) -> Result<Value, EvalError> {
    match parse(tokenize(source.to_string())) {
        Ok(node) => interpreter.eval(node),
        Err(err) => Err(EvalError { message: err.message }),
    }
}

fn show(source: &str, interpreter: &mut Interpreter<Floats>) -> String {
    match run(source, interpreter) {
        Ok(value) => value.to_string(),
        Err(err) => format!("error: {}", err.message),
    }
}

fn once(source: &str) -> String {
    show(source, &mut Interpreter::with_host(Floats))
}

fn number(source: &str) -> f64 {
    match run(source, &mut Interpreter::new()) {
        Ok(Value::Float(text)) => match text.parse::<f64>() {
            Ok(x) => x,
            Err(_) => panic!("{} is no number", text),
        },
        Ok(other) => panic!("{} is no inexact number", other.to_string()),
        Err(err) => panic!("{}", err.message),
    }
}

#[test]
fn an_inexact_operand_makes_the_result_inexact() {
    assert_eq!(number("(+ 1 2.0)"), 3.0);
    assert_eq!(number("(+ 2.0 1)"), 3.0);
    assert_eq!(number("(* 2.5 2)"), 5.0);
    assert_eq!(number("(- 1 0.5)"), 0.5);
    assert_eq!(number("(/ 1 4.0)"), 0.25);
    assert_eq!(number("(+ 1 2 0.5)"), 3.5);
    assert_eq!(number("(+ #t 0.5)"), 1.5);
    assert_eq!(number("(- 2.5)"), -2.5);
    assert!(matches!(run("(+ 1 2)", &mut Interpreter::new()), Ok(Value::Int(3))));
    assert!(matches!(run("(+ #t 1)", &mut Interpreter::new()), Ok(Value::Int(2))));
    assert!(matches!(run("(* 2 3 4)", &mut Interpreter::new()), Ok(Value::Int(24))));
}

#[test]
fn the_host_answers_at_any_depth() {
    assert_eq!(number("(if #t (+ 1 2.0) 0)"), 3.0);
    assert_eq!(number("((lambda (x) (* x 1.5)) 2)"), 3.0);
    assert_eq!(once("(list (+ 1 2.5))"), "(3.5)");
    assert_eq!(once("(map (lambda (x) (/ x 2.0)) (list 1 2 3))"), "(0.5 1.0 1.5)");
    assert_eq!(number("(begin (define half 0.5) (+ half (* half 2)))"), 1.5);
    let mut interpreter = Interpreter::with_host(Floats);
    assert_eq!(
        show("(define (mean a b) (/ (+ a b) 2.0))", &mut interpreter),
        "()"
    );
    assert_eq!(show("(mean 1 2)", &mut interpreter), "1.5");
}

#[test]
fn inexact_numbers_are_compared() {
    assert_eq!(once("(< 1 2.5)"), "#t");
    assert_eq!(once("(> 1 2.5)"), "#f");
    assert_eq!(once("(>= 2.5 2.5)"), "#t");
    assert_eq!(once("(<= 3 2.5)"), "#f");
    assert_eq!(once("(= 2.0 2)"), "#t");
    assert_eq!(once("(= 2.5 2)"), "#f");
    assert_eq!(once("(< #t 2.5)"), "error: Invalid types for '<'");
}

#[test]
fn division_by_an_inexact_zero_is_an_error() {
    assert_eq!(once("(/ 1 0.0)"), "error: Invalid division by zero");
    assert_eq!(once("(/ 1.5 0)"), "error: Invalid division by zero");
    assert_eq!(once("(/ 1 0)"), "error: Invalid division by zero");
}

#[test]
fn a_power_that_is_no_integer_is_inexact() {
    assert_eq!(number("(pow 2 -1)"), 0.5);
    assert_eq!(number("(pow 2.0 3)"), 8.0);
    assert_eq!(number("(pow 4 0.5)"), 2.0);
    assert!(matches!(run("(pow 2 10)", &mut Interpreter::new()), Ok(Value::Int(1024))));
}

#[test]
fn transcendental_functions() {
    assert_eq!(number("(sin 0)"), 0.0);
    assert_eq!(number("(cos 0)"), 1.0);
    assert_eq!(number("(exp 0)"), 1.0);
    assert_eq!(number("(log 1)"), 0.0);
    assert_eq!(number("(log10 100)"), 2.0);
    assert_eq!(number("(atan 0.0)"), 0.0);
    assert!((number("(sin (/ pi 2))") - 1.0).abs() < 1e-12);
    assert!((number("(log e)") - 1.0).abs() < 1e-12);
    assert_eq!(once("(sin)"), "error: 'sin' takes exactly one argument");
    assert_eq!(once("(sin 1 2)"), "error: 'sin' takes exactly one argument");
    assert_eq!(once("(sin (list))"), "error: Invalid type for 'sin'");
    assert_eq!(once("(cos x)"), "error: Invalid type for 'cos'");
    assert_eq!(once("sin"), "sin");
}

#[test]
fn what_is_no_number_is_not_handed_over() {
    assert_eq!(once("(+ 1.5 x)"), "error: Unknown symbol x");
    assert_eq!(once("(+ x 1.5)"), "error: Unknown symbol x");
    assert_eq!(once("(+ 1.5 (list))"), "error: Invalid types for '+'");
    assert_eq!(once("(< 1.5 (quote a))"), "error: Invalid types for '<'");
    assert_eq!(once("(car 1.5)"), "error: Invalid type for 'car'");
}

#[test]
fn an_inexact_result_reads_back_as_inexact() {
    let mut interpreter = Interpreter::with_host(Floats);
    let value = match run("(+ 1 2.0)", &mut interpreter) {
        Ok(value) => value,
        Err(_) => panic!("expected a value"),
    };
    assert_eq!(value.to_string(), "3.0");
    assert!(matches!(run(&value.to_string(), &mut interpreter), Ok(Value::Float(t)) if t == "3.0"));
}

#[test]
fn the_host_that_computes_nothing_refuses_inexact_numbers() {
    let mut interpreter = Interpreter::with_host(Exact);
    let node = match parse(tokenize("(+ 1 2.0)".to_string())) {
        Ok(node) => node,
        Err(_) => panic!("expected a node"),
    };
    match interpreter.eval(node) {
        Err(err) => assert_eq!(err.message, "Invalid types for '+'"),
        Ok(_) => panic!("expected an error"),
    }
}

#[test]
fn what_the_host_hands_back_is_the_text_of_an_inexact_number() {
    for source in [
        "(+ 1 2.0)",
        "(/ 1 3.0)",
        "(* 1e200 1e200)",
        "(- (* 1e200 1e200))",
        "(pow 10.0 21)",
        "(pow 10.0 -7)",
        "(sin 0)",
        "(log -1)",
        "pi",
        "e",
        "2.50",
    ] {
        match run(source, &mut Interpreter::new()) {
            Ok(Value::Float(text)) => assert!(is_inexact_string(&text), "{}", text),
            _ => panic!("{} gives no inexact number", source),
        }
    }
    assert!(is_inexact_string(&"3.0".to_string()));
    assert!(is_inexact_string(&"-.5e3".to_string()));
    assert!(is_inexact_string(&"NaN".to_string()));
    assert!(!is_inexact_string(&"3".to_string()));
    assert!(!is_inexact_string(&"-7".to_string()));
    assert!(!is_inexact_string(&"abc".to_string()));
    assert!(!is_inexact_string(&"".to_string()));
}
