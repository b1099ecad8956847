use rscheme::environment::{Environment, Lambda};
use rscheme::interpreter::{convert_to_node, EvalError, Interpreter, Value};
use rscheme::model::Primitive;
use rscheme::primitives::{Exact, Inexact};
use rscheme::parser::{parse, tokenize, Node};

fn run(source: &str, interpreter: &mut Interpreter) -> Result<Value, EvalError> {
    match parse(tokenize(source.to_string())) {
        Ok(node) => interpreter.eval(node),
        Err(err) => Err(EvalError { message: err.message }),
    }
}

fn show(source: &str, interpreter: &mut Interpreter) -> String {
    match run(source, interpreter) {
        Ok(value) => value.to_string(),
        Err(err) => format!("error: {}", err.message),
    }
}

fn once(source: &str) -> String {
    show(source, &mut Interpreter::<Exact>::new())
}

fn limited(depth: usize, steps: u64) -> Interpreter {
    Interpreter { env: Environment::new(None), depth, steps, host: Exact }
}

#[test]
fn numeric_promotion() {
    assert!(matches!(run("(+ #t 1)", &mut Interpreter::<Exact>::new()), Ok(Value::Int(2))));
    assert!(matches!(run("(* 2 3 4)", &mut Interpreter::<Exact>::new()), Ok(Value::Int(24))));
    assert!(run("(/ 1 0)", &mut Interpreter::<Exact>::new()).is_err());
    assert_eq!(once("(/ 1 0)"), "error: Invalid division by zero");
    assert_eq!(once("(+ #f #f)"), "0");
}

#[test]
fn inexact_literals_are_kept_as_written() {
    assert_eq!(once("2.50"), "2.50");
    assert_eq!(once("pi"), "3.141592653589793");
    assert_eq!(once("e"), "2.718281828459045");
    assert_eq!(once("1-2i"), "1+-2i");
    assert!(matches!(run("2.0", &mut Interpreter::<Exact>::new()), Ok(Value::Float(t)) if t == "2.0"));
}

#[test]
fn addition_and_multiplication_take_any_number_of_operands() {
    assert_eq!(once("(+)"), "0");
    assert_eq!(once("(*)"), "1");
    assert_eq!(once("(+ 5)"), "5");
    assert_eq!(once("(* #t)"), "1");
    assert_eq!(once("(+ 1 2 3 4 5)"), "15");
    assert_eq!(once("(* 1 2 3 4 5)"), "120");
    assert_eq!(once("(+ (quote a))"), "error: Invalid types for '+'");
}

#[test]
fn subtraction_and_division_fold_from_the_left() {
    assert_eq!(once("(- 5)"), "-5");
    assert_eq!(once("(- 10 1)"), "9");
    assert_eq!(once("(- 10 1 2 3)"), "4");
    assert_eq!(once("(/ 2)"), "0");
    assert_eq!(once("(/ 1)"), "1");
    assert_eq!(once("(/ -1)"), "-1");
    assert_eq!(once("(/ 100 5)"), "20");
    assert_eq!(once("(/ 100 5 2)"), "10");
    assert_eq!(once("(/ 100 3 0)"), "error: Invalid division by zero");
    assert_eq!(once("(/ 0)"), "error: Invalid division by zero");
    assert_eq!(once("(-)"), "error: '-' takes at least one argument");
    assert_eq!(once("(/)"), "error: '/' takes at least one argument");
}

#[test]
fn division_rounds_toward_zero() {
    assert_eq!(once("(/ 7 2)"), "3");
    assert_eq!(once("(/ -7 2)"), "-3");
    assert_eq!(once("(/ 7 -2)"), "-3");
    assert_eq!(once("(/ -7 -2)"), "3");
    assert_eq!(once("(/ 1 2)"), "0");
    assert_eq!(once("(/ -2147483648 2)"), "-1073741824");
}

#[test]
fn integer_overflow_is_an_error() {
    assert_eq!(once("(+ 2147483647 1)"), "error: Integer overflow in '+'");
    assert_eq!(once("(+ 2147483646 1)"), "2147483647");
    assert_eq!(once("(- -2147483648 1)"), "error: Integer overflow in '-'");
    assert_eq!(once("(- -2147483648)"), "error: Integer overflow in '-'");
    assert_eq!(once("(* 65536 32768)"), "error: Integer overflow in '*'");
    assert_eq!(once("(* -65536 32768)"), "-2147483648");
    assert_eq!(once("(/ -2147483648 -1)"), "error: Integer overflow in '/'");
}

#[test]
fn powers_of_integers() {
    assert_eq!(once("(pow 2 10)"), "1024");
    assert_eq!(once("(pow 2 0)"), "1");
    assert_eq!(once("(pow 0 0)"), "1");
    assert_eq!(once("(pow 0 5)"), "0");
    assert_eq!(once("(pow -3 3)"), "-27");
    assert_eq!(once("(pow 2 30)"), "1073741824");
    assert_eq!(once("(pow 2 31)"), "error: Integer overflow in 'pow'");
    assert_eq!(once("(pow -2 31)"), "-2147483648");
    assert_eq!(once("(pow -2 32)"), "error: Integer overflow in 'pow'");
    assert_eq!(once("(pow 1 2147483647)"), "1");
    assert_eq!(once("(pow -1 2147483647)"), "-1");
    assert_eq!(once("(pow -1 2147483646)"), "1");
    assert_eq!(once("(pow 46341 2)"), "error: Integer overflow in 'pow'");
    assert_eq!(once("(pow 2)"), "error: 'pow' takes exactly two arguments");
    assert_eq!(once("(pow 2 x)"), "error: Unknown symbol x");
}

#[test]
fn comparisons_of_integers() {
    assert_eq!(once("(> 2 1)"), "#t");
    assert_eq!(once("(> 1 1)"), "#f");
    assert_eq!(once("(>= 1 1)"), "#t");
    assert_eq!(once("(< 1 2)"), "#t");
    assert_eq!(once("(< 2 2)"), "#f");
    assert_eq!(once("(<= 2 2)"), "#t");
    assert_eq!(once("(<= 3 2)"), "#f");
    assert_eq!(once("(< 1)"), "error: '<' takes exactly two arguments");
    assert_eq!(once("(< 1 2 3)"), "error: '<' takes exactly two arguments");
    assert_eq!(once("(< #t 1)"), "error: Invalid types for '<'");
    assert_eq!(once("(>= a 1)"), "error: Unknown symbol a");
    assert_eq!(once("(>= 1 b)"), "error: Unknown symbol b");
}

#[test]
fn equality_of_integers_literals_and_lists() {
    assert_eq!(once("(= 1 1)"), "#t");
    assert_eq!(once("(= 1 2)"), "#f");
    assert_eq!(once("(equal? 3 3)"), "#t");
    assert_eq!(once("(= (quote a) (quote a))"), "#t");
    assert_eq!(once("(= (quote a) (quote b))"), "#f");
    assert_eq!(once("(= (list 1 2) (list 1 2))"), "#t");
    assert_eq!(once("(= (list 1 2) (list 1 3))"), "#f");
    assert_eq!(once("(= (list 1 2) (list 1))"), "#f");
    assert_eq!(once("(equal? (list 1 (list 2 3)) (list 1 (list 2 3)))"), "#t");
    assert_eq!(once("(= (list) (quote ()))"), "#t");
    assert_eq!(once("(= #t #t)"), "error: Invalid types for '='");
    assert_eq!(once("(= 1 (list 1))"), "error: Invalid types for '='");
    assert_eq!(once("(= x 1)"), "error: Unknown symbol x");
    assert_eq!(once("(equal? 1)"), "error: '=' takes exactly two arguments");
}

#[test]
fn symbols_are_values_until_an_operation_needs_a_number() {
    assert!(matches!(run("x", &mut Interpreter::<Exact>::new()), Ok(Value::Symbol(s)) if s == "x"));
    assert_eq!(once("(list x y)"), "(x y)");
    assert_eq!(once("(+ x 1)"), "error: Unknown symbol x");
    assert_eq!(once("(+ 1 x)"), "error: Unknown symbol x");
    assert_eq!(once("(+ x y)"), "error: Unknown symbol x");
    assert_eq!(once("(+ (list) y)"), "error: Unknown symbol y");
    assert_eq!(once("(/ x 0)"), "error: Invalid division by zero");
}

#[test]
fn calls_of_what_is_no_function() {
    assert_eq!(once("(foo 1 2)"), "error: Unknown function foo");
    assert_eq!(once("(1 2)"), "error: Invalid function call");
    assert_eq!(once("(#t)"), "error: Invalid function call");
    assert_eq!(once("((list 1) 2)"), "error: Invalid function call");
    assert_eq!(once("()"), "error: Invalid function call");
    assert_eq!(once("((car (list)) 1)"), "error: 'car' requires a non-empty list");
}

#[test]
fn negation() {
    assert_eq!(once("(not #t)"), "#f");
    assert_eq!(once("(not #f)"), "#t");
    assert_eq!(once("(not 1)"), "error: Invalid type for 'not'");
    assert_eq!(once("(not x)"), "error: Invalid type for 'not'");
    assert_eq!(once("(not)"), "error: 'not' takes exactly one argument");
}

#[test]
fn short_circuit() {
    assert!(matches!(
        run("(and #f (car (quote ())))", &mut Interpreter::<Exact>::new()),
        Ok(Value::Bool(false))
    ));
    assert!(matches!(
        run("(or #t (car (quote ())))", &mut Interpreter::<Exact>::new()),
        Ok(Value::Bool(true))
    ));
    assert_eq!(once("(and #t (car (quote ())))"), "error: 'car' requires a non-empty list");
    assert_eq!(once("(and #t #t #f (undefined-function))"), "#f");
    assert_eq!(once("(or #f #f #t (undefined-function))"), "#t");
}

#[test]
fn short_circuit_skips_side_effects() {
    let mut interpreter = Interpreter::<Exact>::new();
    assert_eq!(show("(and #f (define x 1))", &mut interpreter), "#f");
    assert_eq!(show("x", &mut interpreter), "x");
    assert_eq!(show("(or (> 1 2) (< 1 2) (define y 1))", &mut interpreter), "#t");
    assert_eq!(show("y", &mut interpreter), "y");
}

#[test]
fn connectives_without_a_decision() {
    assert_eq!(once("(and)"), "#t");
    assert_eq!(once("(or)"), "#f");
    assert_eq!(once("(and #t #t)"), "#t");
    assert_eq!(once("(or #f #f)"), "#f");
    assert_eq!(once("(and 1)"), "error: Invalid type for 'and'");
    assert_eq!(once("(or (list))"), "error: Invalid type for 'or'");
    assert_eq!(once("(and x)"), "error: Unknown symbol x");
}

#[test]
fn list_operations() {
    assert_eq!(once("(list)"), "()");
    assert_eq!(once("(list 1 (+ 1 1) (list 3))"), "(1 2 (3))");
    assert_eq!(once("(car (list 1 2 3))"), "1");
    assert_eq!(once("(cdr (list 1 2 3))"), "(2 3)");
    assert_eq!(once("(cdr (list 1))"), "()");
    assert_eq!(once("(cons 1 (list 2 3))"), "(1 2 3)");
    assert_eq!(once("(cons (list 1) (list))"), "((1))");
    assert_eq!(once("(append (list 1) (list 2 3) (list) (list 4))"), "(1 2 3 4)");
    assert_eq!(once("(append)"), "()");
    assert_eq!(once("(length (list 1 2 3))"), "3");
    assert_eq!(once("(length (list))"), "0");
    assert_eq!(once("(empty? (list))"), "#t");
    assert_eq!(once("(empty? (list 1))"), "#f");
    assert_eq!(once("(null? (quote ()))"), "#t");
    assert_eq!(once("(null? (list 0))"), "#f");
}

#[test]
fn list_operations_refuse_other_values() {
    assert_eq!(once("(car (list))"), "error: 'car' requires a non-empty list");
    assert_eq!(once("(cdr (list))"), "error: 'cdr' requires a non-empty list");
    assert_eq!(once("(car 1)"), "error: Invalid type for 'car'");
    assert_eq!(once("(cdr #t)"), "error: Invalid type for 'cdr'");
    assert_eq!(once("(cons 1 2)"), "error: Invalid type for 'cons'");
    assert_eq!(once("(append (list 1) 2 x)"), "error: Invalid type for 'append'");
    assert_eq!(once("(length 5)"), "error: Invalid type for 'length'");
    assert_eq!(once("(empty? 5)"), "error: Invalid type for 'empty?'");
    assert_eq!(once("(null? 5)"), "error: Invalid type for 'empty?'");
    assert_eq!(once("(car)"), "error: 'car' takes exactly one argument");
    assert_eq!(once("(cdr 1 2)"), "error: 'cdr' takes exactly one argument");
    assert_eq!(once("(cons 1)"), "error: 'cons' takes exactly two arguments");
    assert_eq!(once("(length)"), "error: 'length' takes exactly one argument");
}

#[test]
fn arity_is_checked_before_the_arguments() {
    let mut interpreter = Interpreter::<Exact>::new();
    assert_eq!(
        show("(car (define x 1) (define y 2))", &mut interpreter),
        "error: 'car' takes exactly one argument"
    );
    assert_eq!(show("x", &mut interpreter), "x");
}

#[test]
fn arguments_are_evaluated_from_left_to_right() {
    let mut interpreter = Interpreter::<Exact>::new();
    assert_eq!(
        show("(list (define x 1) (car (list)) (define y 2))", &mut interpreter),
        "error: 'car' requires a non-empty list"
    );
    assert_eq!(show("x", &mut interpreter), "1");
    assert_eq!(show("y", &mut interpreter), "y");
}

#[test]
fn quoting() {
    match run("(quote (a b c))", &mut Interpreter::<Exact>::new()) {
        Ok(Value::List(items)) => {
            assert_eq!(items.len(), 3);
            assert!(matches!(&items[0], Value::Literal(s) if s == "a"));
            assert!(matches!(&items[1], Value::Literal(s) if s == "b"));
            assert!(matches!(&items[2], Value::Literal(s) if s == "c"));
            assert_eq!(Value::List(items).to_string(), "(a b c)");
        }
        _ => panic!("expected a list"),
    }
}

#[test]
fn quote_evaluates_nothing() {
    assert_eq!(once("(quote (+ 1 2))"), "(+ 1 2)");
    assert_eq!(once("(quote x)"), "x");
    assert!(matches!(run("(quote 1)", &mut Interpreter::<Exact>::new()), Ok(Value::Literal(s)) if s == "1"));
    assert!(matches!(run("(quote #t)", &mut Interpreter::<Exact>::new()), Ok(Value::Literal(s)) if s == "#t"));
    assert_eq!(once("(quote (1 (2 #t) \"s\" 2.5 ()))"), "(1 (2 #t) \"s\" 2.5 ())");
    assert_eq!(once("'(a (b) c)"), "(a (b) c)");
    assert_eq!(once("(car '(a b))"), "a");
    assert_eq!(once("(quote)"), "error: 'quote' takes exactly one argument");
    assert_eq!(once("(quote a b)"), "error: 'quote' takes exactly one argument");
}

#[test]
fn conditionals() {
    assert_eq!(once("(if #t 1 2)"), "1");
    assert_eq!(once("(if #f 1 2)"), "2");
    assert_eq!(once("(if #t 1 (car (list)))"), "1");
    assert_eq!(once("(if 1 2 3)"), "error: 'if' requires a boolean test");
    assert_eq!(once("(if (car (list)) 2 3)"), "error: 'car' requires a non-empty list");
    assert_eq!(once("(if x 2 3)"), "error: 'if' requires a boolean test");
    assert_eq!(once("(if #t 1)"), "error: 'if' takes exactly three arguments");
    assert_eq!(once("(if)"), "error: 'if' takes exactly three arguments");
}

#[test]
fn one_reduction_of_a_conditional_leaves_the_branch() {
    let mut interpreter = Interpreter::<Exact>::new();
    let node = parse(tokenize("(if (> 2 1) (+ 1 1) (+ 2 2))".to_string()));
    let node = match node {
        Ok(node) => node,
        Err(_) => panic!("expected a node"),
    };
    match interpreter.eval_node_wrapped(&node) {
        Ok(Value::NodeWrapper(next)) => assert_eq!(next.to_string(), "(+ 1 1)"),
        _ => panic!("expected a branch"),
    }
    assert!(matches!(interpreter.eval_node(&node), Ok(Value::Int(2))));
}

#[test]
fn definitions() {
    let mut interpreter = Interpreter::<Exact>::new();
    assert_eq!(show("(define x 1)", &mut interpreter), "()");
    assert_eq!(show("(define x 2)", &mut interpreter), "()");
    assert_eq!(show("x", &mut interpreter), "2");
    assert_eq!(show("(set! x (+ x 1))", &mut interpreter), "()");
    assert_eq!(show("x", &mut interpreter), "3");
    assert_eq!(show("(set! fresh 7)", &mut interpreter), "()");
    assert_eq!(show("fresh", &mut interpreter), "7");
    assert_eq!(show("(define 1 2)", &mut interpreter), "error: Can't define 1");
    assert_eq!(show("(define \"s\" 2)", &mut interpreter), "error: Can't define \"s\"");
    assert_eq!(show("(define () 2)", &mut interpreter), "error: Can't define ()");
    assert_eq!(show("(define (1 x) 2)", &mut interpreter), "error: Can't define (1 x)");
    assert_eq!(show("(define x)", &mut interpreter), "error: 'define' takes exactly two arguments");
    assert_eq!(show("(define x 1 2)", &mut interpreter), "error: 'define' takes exactly two arguments");
    assert_eq!(show("(define y (car (list)))", &mut interpreter), "error: 'car' requires a non-empty list");
    assert_eq!(show("y", &mut interpreter), "y");
}

#[test]
fn definitions_of_procedures() {
    let mut interpreter = Interpreter::<Exact>::new();
    assert_eq!(show("(define (square x) (* x x))", &mut interpreter), "()");
    assert_eq!(show("(square 7)", &mut interpreter), "49");
    assert_eq!(show("square", &mut interpreter), "(lambda (x) ((* x x)))");
    assert_eq!(show("(define (three) 3)", &mut interpreter), "()");
    assert_eq!(show("(three)", &mut interpreter), "3");
    assert_eq!(show("(define (f x) (define y 10) (+ x y))", &mut interpreter), "()");
    assert_eq!(show("(f 5)", &mut interpreter), "15");
    assert_eq!(show("f", &mut interpreter), "(lambda (x) ((begin (define y 10) (+ x y))))");
}

#[test]
fn sequences_work_in_their_own_scope() {
    let mut interpreter = Interpreter::<Exact>::new();
    assert_eq!(show("(define x 1)", &mut interpreter), "()");
    assert_eq!(show("(begin (define x 5) (define y 6) (+ x y))", &mut interpreter), "11");
    assert_eq!(show("x", &mut interpreter), "1");
    assert_eq!(show("y", &mut interpreter), "y");
    assert_eq!(show("(begin)", &mut interpreter), "()");
    assert_eq!(show("(begin 1 2 3)", &mut interpreter), "3");
    assert_eq!(show("(begin 1 (car (list)) 3)", &mut interpreter), "error: 'car' requires a non-empty list");
    assert_eq!(show("(begin (if #t 1 2))", &mut interpreter), "1");
}

#[test]
fn procedures() {
    assert_eq!(once("((lambda (x y) (- x y)) 5 3)"), "2");
    assert_eq!(once("((lambda () 7))"), "7");
    assert_eq!(once("(lambda (x) x)"), "(lambda (x) (x))");
    assert_eq!(once("(lambda (x y) (+ x y))"), "(lambda (x y) ((+ x y)))");
    assert_eq!(once("((lambda (x) (define y 1) (+ x y)) 2)"), "3");
    assert_eq!(once("(lambda (x))"), "error: 'lambda' takes at least two arguments");
    assert_eq!(once("(lambda x x)"), "error: 'lambda' requires a parameter list");
    assert_eq!(once("((lambda (1) 2) 3)"), "error: Invalid parameter 1");
    assert_eq!(once("((lambda (x (y)) 2) 3 4)"), "error: Invalid parameter (y)");
}

#[test]
fn parameters_give_way_to_values_through_nested_lists() {
    assert_eq!(once("((lambda (x) (list x (list x (list x)))) 1)"), "(1 (1 (1)))");
    assert_eq!(once("((lambda (x) (quote (x y))) 1)"), "(1 y)");
    assert_eq!(once("((lambda (x x) x) 1 2)"), "1");
}

#[test]
fn arity() {
    let mut interpreter = Interpreter::<Exact>::new();
    assert_eq!(show("(define f (lambda (x y) x))", &mut interpreter), "()");
    assert_eq!(show("(f 1)", &mut interpreter), "error: f expects 2 params, got 1");
    assert_eq!(show("(f 1 2 3)", &mut interpreter), "error: f expects 2 params, got 3");
    assert_eq!(show("(f)", &mut interpreter), "error: f expects 2 params, got 0");
    assert_eq!(show("(f 1 2)", &mut interpreter), "1");
    assert_eq!(
        show("((lambda (x) x))", &mut interpreter),
        "error: (lambda (x) x) expects 1 params, got 0"
    );
    assert_eq!(
        show("((lambda () 1) 2 3 4 5 6 7 8 9 10 11 12)", &mut interpreter),
        "error: (lambda () 1) expects 0 params, got 11"
    );
}

#[test]
fn arity_is_checked_before_any_argument_is_evaluated() {
    let mut interpreter = Interpreter::<Exact>::new();
    assert_eq!(show("(define f (lambda (x) x))", &mut interpreter), "()");
    assert_eq!(
        show("(f (define a 1) (define b 2))", &mut interpreter),
        "error: f expects 1 params, got 2"
    );
    assert_eq!(show("a", &mut interpreter), "a");
}

#[test]
fn eval_lambda_takes_the_whole_call() {
    let mut interpreter = Interpreter::<Exact>::new();
    let lambda = Lambda::new(
        vec![Node::Symbol("x".to_string()), Node::Symbol("y".to_string())],
        Node::List(vec![
            Node::Symbol("+".to_string()),
            Node::Symbol("x".to_string()),
            Node::Symbol("y".to_string()),
        ]),
    );
    let call = vec![Node::Symbol("add".to_string()), Node::Int(2), Node::Int(3)];
    assert!(matches!(interpreter.eval_lambda(lambda.clone(), &call), Ok(Value::Int(5))));
    let short = vec![Node::Symbol("add".to_string()), Node::Int(2)];
    match interpreter.eval_lambda(lambda.clone(), &short) {
        Err(err) => assert_eq!(err.message, "add expects 2 params, got 1"),
        Ok(_) => panic!("expected an error"),
    }
    match interpreter.eval_lambda(lambda, &Vec::new()) {
        Err(err) => assert_eq!(err.message, "Invalid function call"),
        Ok(_) => panic!("expected an error"),
    }
}

#[test]
fn closures_and_combinators() {
    let mut interpreter = Interpreter::<Exact>::new();
    assert_eq!(
        show("(define compose (lambda (f g) (lambda (x) (f (g x)))))", &mut interpreter),
        "()"
    );
    assert_eq!(show("(define twice (lambda (x) (* 2 x)))", &mut interpreter), "()");
    assert!(matches!(run("((compose twice twice) 5)", &mut interpreter), Ok(Value::Int(20))));
}

#[test]
fn list_processing() {
    let mut interpreter = Interpreter::<Exact>::new();
    assert_eq!(
        show(
            "(define fib (lambda (n) (if (< n 2) 1 (+ (fib (- n 1)) (fib (- n 2))))))",
            &mut interpreter
        ),
        "()"
    );
    assert_eq!(
        show(
            "(define range (lambda (a b) (if (>= a b) (quote ()) (cons a (range (+ a 1) b)))))",
            &mut interpreter
        ),
        "()"
    );
    assert_eq!(show("(range 0 10)", &mut interpreter), "(0 1 2 3 4 5 6 7 8 9)");
    assert_eq!(
        show("(map fib (range 0 10))", &mut interpreter),
        "(1 1 2 3 5 8 13 21 34 55)"
    );
}

#[test]
fn map_calls_built_in_operations_and_procedures() {
    assert_eq!(once("(map car (list (list 1 2) (list 3 4)))"), "(1 3)");
    assert_eq!(once("(map (lambda (x) (* x x)) (list 1 2 3))"), "(1 4 9)");
    assert_eq!(once("(map not (list #t #f))"), "(#f #t)");
    assert_eq!(once("(map - (list 1 2))"), "(-1 -2)");
    assert_eq!(once("(map car (list))"), "()");
    assert_eq!(once("(map (lambda (x) (if (> x 1) 1 0)) (list 1 2 3))"), "(0 1 1)");
}

#[test]
fn map_stops_at_the_first_failure() {
    assert_eq!(once("(map car (list (list 1) 2 (list 3)))"), "error: Invalid type for 'car'");
    assert_eq!(once("(map car (list (list 1) (list)))"), "error: 'car' requires a non-empty list");
    assert_eq!(once("(map 1 (list 1))"), "error: Invalid type for 'map'");
    assert_eq!(once("(map undefined (list 1))"), "error: Invalid type for 'map'");
    assert_eq!(once("(map car 1)"), "error: Invalid type for 'map'");
    assert_eq!(once("(map car)"), "error: 'map' takes exactly two arguments");
    assert_eq!(
        once("(map (lambda (x y) x) (list 1))"),
        "error: (lambda (x y) (x)) expects 2 params, got 1"
    );
}

#[test]
fn tail_recursion() {
    let mut interpreter = Interpreter::<Exact>::new();
    assert_eq!(
        show(
            "(define count (lambda (n acc) (if (= n 0) acc (count (- n 1) (+ acc 1)))))",
            &mut interpreter
        ),
        "()"
    );
    assert_eq!(show("(count 50000 0)", &mut interpreter), "50000");
}

#[test]
fn tail_recursion_by_accumulator() {
    let mut interpreter = Interpreter::<Exact>::new();
    assert_eq!(
        show(
            "(define fact (lambda (n acc) (if (<= n 1) acc (fact (- n 1) (* n acc)))))",
            &mut interpreter
        ),
        "()"
    );
    assert_eq!(show("(fact 12 1)", &mut interpreter), "479001600");
    assert_eq!(show("(fact 13 1)", &mut interpreter), "error: Integer overflow in '*'");
}

#[test]
fn deep_recursion_ends_in_an_error() {
    let mut interpreter = Interpreter::<Exact>::new();
    assert_eq!(
        show(
            "(define count (lambda (n) (if (= n 0) 0 (+ 1 (count (- n 1))))))",
            &mut interpreter
        ),
        "()"
    );
    assert_eq!(show("(count 100)", &mut interpreter), "100");
    assert_eq!(show("(count 100000)", &mut interpreter), "error: Recursion limit exceeded");
    assert_eq!(show("(count 10)", &mut interpreter), "10");
}

#[test]
fn the_depth_limit_counts_nested_evaluations() {
    assert_eq!(show("1", &mut limited(1, 10)), "1");
    assert_eq!(show("1", &mut limited(0, 10)), "error: Recursion limit exceeded");
    assert_eq!(show("(+ 1 1)", &mut limited(2, 10)), "2");
    assert_eq!(show("(+ 1 1)", &mut limited(1, 10)), "error: Recursion limit exceeded");
    assert_eq!(show("(+ 1 (+ 1 1))", &mut limited(3, 10)), "3");
    assert_eq!(
        show("(+ 1 (+ 1 (+ 1 1)))", &mut limited(3, 10)),
        "error: Recursion limit exceeded"
    );
    assert_eq!(show("((lambda (x) x) 1)", &mut limited(3, 10)), "1");
    assert_eq!(
        show("((lambda (x) x) 1)", &mut limited(2, 10)),
        "error: Recursion limit exceeded"
    );
}

#[test]
fn the_step_limit_ends_a_loop() {
    let mut interpreter = limited(50, 1000);
    assert_eq!(show("(define (spin) (if #t (spin) 0))", &mut interpreter), "()");
    assert_eq!(show("(spin)", &mut interpreter), "error: Step limit exceeded");
    assert_eq!(show("(+ 1 1)", &mut interpreter), "2");
    assert_eq!(show("1", &mut limited(5, 0)), "error: Step limit exceeded");
    assert_eq!(show("(if #t 1 2)", &mut limited(5, 1)), "error: Step limit exceeded");
    assert_eq!(show("(if #t 1 2)", &mut limited(5, 2)), "1");
}

#[test]
fn limits_stay_as_they_were() {
    let mut interpreter = limited(7, 9);
    assert_eq!(show("(+ 1 (* 2 3))", &mut interpreter), "7");
    assert_eq!(interpreter.depth, 7);
    assert_eq!(interpreter.steps, 9);
    assert_eq!(show("(car (list))", &mut interpreter), "error: 'car' requires a non-empty list");
    assert_eq!(interpreter.depth, 7);
    assert_eq!(interpreter.steps, 9);
}

#[test]
fn values_are_written() {
    assert_eq!(once("car"), "car");
    assert_eq!(once("set!"), "set!");
    assert_eq!(once("null?"), "null?");
    assert_eq!(once("(define x 1)"), "()");
    assert_eq!(once("\"a b\""), "a b");
    assert_eq!(once("(list #t #f -5 (list))"), "(#t #f -5 ())");
    assert_eq!(Value::Void.to_string(), "()");
    assert_eq!(Value::Int(-2147483648).to_string(), "-2147483648");
    assert_eq!(Value::Function("+".to_string(), rscheme::model::Primitive::Add).to_string(), "+");
    assert_eq!(Value::NodeWrapper(Node::Symbol("x".to_string())).to_string(), "x");
    assert_eq!(Value::Complex("1".to_string(), "2".to_string()).to_string(), "1+2i");
}

#[test]
fn errors_are_shown_with_their_kind() {
    match run("(car (list))", &mut Interpreter::<Exact>::new()) {
        Err(err) => assert_eq!(err.to_string(), "EvalError: 'car' requires a non-empty list"),
        Ok(_) => panic!("expected an error"),
    }
}

#[test]
fn a_value_stands_as_a_node() {
    let node = convert_to_node(Value::Int(5));
    assert!(matches!(&node, Node::ValueWrapper(v) if matches!(**v, Value::Int(5))));
    assert!(matches!(Interpreter::<Exact>::new().eval(node), Ok(Value::Int(5))));
    let call = Node::List(vec![
        Node::Symbol("+".to_string()),
        convert_to_node(Value::Int(2)),
        convert_to_node(Value::Bool(true)),
    ]);
    assert!(matches!(Interpreter::<Exact>::new().eval(call), Ok(Value::Int(3))));
}

#[test]
fn an_operator_may_be_computed() {
    assert_eq!(once("((if #t + -) 5 3)"), "8");
    assert_eq!(once("((if #f + -) 5 3)"), "2");
    assert_eq!(once("((car (list car cdr)) (list 1 2))"), "1");
}

#[test]
fn scopes_resolve_names_innermost_first() {
    let mut outer = Environment::new_empty(None);
    outer.set("x".to_string(), Value::Int(1));
    outer.set("y".to_string(), Value::Int(2));
    let mut inner = Environment::new_empty(Some(Box::new(outer)));
    assert!(matches!(inner.get(&"x".to_string()), Some(Value::Int(1))));
    inner.set("x".to_string(), Value::Int(10));
    assert!(matches!(inner.get(&"x".to_string()), Some(Value::Int(10))));
    assert!(matches!(inner.get(&"y".to_string()), Some(Value::Int(2))));
    assert!(inner.get(&"z".to_string()).is_none());
    inner.set("x".to_string(), Value::Int(11));
    assert!(matches!(inner.get(&"x".to_string()), Some(Value::Int(11))));
    assert_eq!(inner.env.len(), 1);
    match &inner.outer {
        Some(outer) => assert!(matches!(outer.get(&"x".to_string()), Some(Value::Int(1)))),
        None => panic!("expected an outer scope"),
    }
}

#[test]
fn the_root_scope_holds_the_built_in_operations() {
    let root = Environment::new(None);
    for name in [
        "begin", "+", "-", "*", "/", "pow", "define", "set!", ">", ">=", "<", "<=", "=", "equal?",
        "not", "and", "or", "list", "car", "cdr", "cons", "append", "length", "empty?", "null?",
        "if", "map", "quote", "lambda",
    ] {
        match root.get(&name.to_string()) {
            Some(Value::Function(registered, _)) => assert_eq!(registered, name),
            _ => panic!("{} is missing", name),
        }
    }
    assert!(matches!(root.get(&"pi".to_string()), Some(Value::Float(_))));
    for name in ["sin", "cos", "tan", "asin", "acos", "atan", "exp", "log", "log10"] {
        match root.get(&name.to_string()) {
            Some(Value::Function(registered, _)) => assert_eq!(registered, name),
            _ => panic!("{} is missing", name),
        }
    }
    assert!(root.get(&"sinh".to_string()).is_none());
    let mut scope = Environment::new_empty(None);
    scope.set("car".to_string(), Value::Int(1));
    scope.initialize();
    assert!(matches!(scope.get(&"car".to_string()), Some(Value::Function(_, _))));
}

#[test]
fn an_evaluator_over_given_scopes() {
    let mut env = Environment::new(None);
    env.set("answer".to_string(), Value::Int(42));
    let mut interpreter = Interpreter::new_with_env(env);
    assert_eq!(show("(+ answer 1)", &mut interpreter), "43");
}

#[test]
fn integers_and_truth_values_read_back() {
    for source in ["0", "7", "-7", "2147483647", "-2147483648", "#t", "#f"] {
        let mut interpreter = Interpreter::<Exact>::new();
        let value = match run(source, &mut interpreter) {
            Ok(value) => value,
            Err(_) => panic!("expected a value"),
        };
        let again = match run(&value.to_string(), &mut interpreter) {
            Ok(value) => value,
            Err(_) => panic!("expected a value"),
        };
        assert_eq!(value.to_string(), source);
        assert!(rscheme::model::same_value(&value, &again));
    }
}

#[test]
fn quoted_lists_read_back() {
    let mut interpreter = Interpreter::<Exact>::new();
    let value = match run("(quote (a b c))", &mut interpreter) {
        Ok(value) => value,
        Err(_) => panic!("expected a value"),
    };
    let text = format!("(quote {})", value.to_string());
    let again = match run(&text, &mut interpreter) {
        Ok(value) => value,
        Err(_) => panic!("expected a value"),
    };
    assert!(rscheme::model::same_value(&value, &again));
    let shorthand = match run(&format!("'{}", value.to_string()), &mut interpreter) {
        Ok(value) => value,
        Err(_) => panic!("expected a value"),
    };
    assert!(rscheme::model::same_value(&value, &shorthand));
}

#[test]
fn values_compare_by_structure() {
    let a = Value::List(vec![Value::Int(1), Value::Literal("x".to_string())]);
    let b = a.clone();
    let c = Value::List(vec![Value::Int(1), Value::Literal("y".to_string())]);
    assert!(rscheme::model::same_value(&a, &b));
    assert!(!rscheme::model::same_value(&a, &c));
    assert!(!rscheme::model::same_value(&Value::Int(1), &Value::Literal("1".to_string())));
}

#[test]
fn arguments_are_evaluated_in_one_call() {
    let mut interpreter = Interpreter::<Exact>::new();
    let nodes = vec![
        Node::Int(1),
        Node::List(vec![Node::Symbol("+".to_string()), Node::Int(1), Node::Int(1)]),
        Node::Symbol("free".to_string()),
    ];
    match interpreter.eval_args(&nodes) {
        Ok(values) => {
            assert_eq!(values.len(), 3);
            assert!(matches!(values[0], Value::Int(1)));
            assert!(matches!(values[1], Value::Int(2)));
            assert!(matches!(&values[2], Value::Symbol(s) if s == "free"));
        }
        Err(_) => panic!("expected values"),
    }
    let failing = vec![Node::Int(1), Node::List(vec![Node::Int(2)])];
    match interpreter.eval_args(&failing) {
        Err(err) => assert_eq!(err.message, "Invalid function call"),
        Ok(_) => panic!("expected an error"),
    }
}

#[test]
fn a_built_in_operation_is_called_with_nodes() {
    let mut interpreter = Interpreter::<Exact>::new();
    let args = vec![Node::Int(6), Node::Int(7)];
    assert!(matches!(
        interpreter.apply_primitive(rscheme::model::Primitive::Multiply, &args),
        Ok(Value::Int(42))
    ));
    let quoted = vec![Node::List(vec![Node::Symbol("x".to_string()), Node::Int(1)])];
    match interpreter.apply_primitive(rscheme::model::Primitive::Quote, &quoted) {
        Ok(value) => assert_eq!(value.to_string(), "(x 1)"),
        Err(_) => panic!("expected a value"),
    }
}

#[test]
fn a_copy_of_an_evaluator_has_scopes_of_its_own() {
    let mut first = Interpreter::<Exact>::new();
    assert_eq!(show("(define x 1)", &mut first), "()");
    let mut second = first.clone();
    assert_eq!(show("(define x 2)", &mut second), "()");
    assert_eq!(show("x", &mut first), "1");
    assert_eq!(show("x", &mut second), "2");
    assert_eq!(second.depth, first.depth);
    assert_eq!(second.steps, first.steps);
}

#[test]
fn a_procedure_sees_the_scopes_of_its_caller() {
    let mut interpreter = Interpreter::<Exact>::new();
    assert_eq!(show("(define (get-y) y)", &mut interpreter), "()");
    assert_eq!(show("(get-y)", &mut interpreter), "y");
    assert_eq!(show("(define y 5)", &mut interpreter), "()");
    assert_eq!(show("(get-y)", &mut interpreter), "5");
    assert_eq!(show("(begin (define y 6) (get-y))", &mut interpreter), "6");
}

#[test]
fn a_definition_inside_a_procedure_is_given_up_with_its_scope() {
    let mut interpreter = Interpreter::<Exact>::new();
    assert_eq!(show("(define (f) (define inner 1))", &mut interpreter), "()");
    assert_eq!(show("(f)", &mut interpreter), "()");
    assert_eq!(show("inner", &mut interpreter), "inner");
}

#[test]
fn a_host_is_asked_with_the_operation_and_the_values() {
    struct Recorder;
    impl Inexact for Recorder {
        fn compute(&self, op: Primitive, args: &Vec<Value>) -> Result<Value, EvalError> {
            let texts: Vec<String> = args.iter().map(|v| v.to_string()).collect();
            Ok(Value::Literal(format!("{:?} {}", op, texts.join(","))))
        }
    }
    let mut interpreter = Interpreter::with_host(Recorder);
    let ask = |source: &str, interpreter: &mut Interpreter<Recorder>| -> String {
        match parse(tokenize(source.to_string())) {
            Ok(node) => match interpreter.eval(node) {
                Ok(value) => value.to_string(),
                Err(err) => format!("error: {}", err.message),
            },
            Err(err) => format!("error: {}", err.message),
        }
    };
    assert_eq!(ask("(+ 1 (* 2 3) 2.5)", &mut interpreter), "Add 1,6,2.5");
    assert_eq!(ask("(< 2.5 1)", &mut interpreter), "Less 2.5,1");
    assert_eq!(ask("(pow 2 -1)", &mut interpreter), "Power 2,-1");
    assert_eq!(ask("(log10 7)", &mut interpreter), "Log10 7");
    assert_eq!(ask("(= 1+2i 1)", &mut interpreter), "Equal 1+2i,1");
    assert_eq!(ask("(+ 1 2)", &mut interpreter), "3");
    assert_eq!(ask("(list 2.5)", &mut interpreter), "(2.5)");
}
