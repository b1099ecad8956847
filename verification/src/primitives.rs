//! The built-in operations that work on values alone: arithmetic on exact
//! integers, comparisons, the list operations, and the hand-over of what
//! meets an inexact number to a host.

use crate::model::{
    lemma_list_value_view, result_view, same_values, values_view, EvalError, Primitive, Value,
    ValueView,
};
use crate::text::{from_chars, is_inexact_text, push_str};
use vstd::prelude::*;

verus! {

// ---------------------------------------------------------------------
// Messages
// ---------------------------------------------------------------------
/// The name of an operation between single quotes.
pub open spec fn quoted_name(op: Primitive) -> Seq<char> {
    seq!['\''] + op.name() + seq!['\'']
}

/// The complaints about the number of arguments of an operation.
pub open spec fn exactly_one(op: Primitive) -> Seq<char> {
    quoted_name(op) + " takes exactly one argument"@
}

pub open spec fn exactly_two(op: Primitive) -> Seq<char> {
    quoted_name(op) + " takes exactly two arguments"@
}

pub open spec fn exactly_three(op: Primitive) -> Seq<char> {
    quoted_name(op) + " takes exactly three arguments"@
}

pub open spec fn at_least_one(op: Primitive) -> Seq<char> {
    quoted_name(op) + " takes at least one argument"@
}

pub open spec fn at_least_two(op: Primitive) -> Seq<char> {
    quoted_name(op) + " takes at least two arguments"@
}

/// The complaint about operands of a kind that an operation of several
/// operands does not work on.
pub open spec fn invalid_types(op: Primitive) -> Seq<char> {
    "Invalid types for "@ + quoted_name(op)
}

/// The complaint about a value of a kind that an operation does not work
/// on.
pub open spec fn invalid_type(op: Primitive) -> Seq<char> {
    "Invalid type for "@ + quoted_name(op)
}

/// The complaint about a result that 32 bits do not hold.
pub open spec fn overflow(op: Primitive) -> Seq<char> {
    "Integer overflow in "@ + quoted_name(op)
}

/// The complaint about an empty list where an item is asked for.
pub open spec fn empty_list(op: Primitive) -> Seq<char> {
    quoted_name(op) + " requires a non-empty list"@
}

/// The complaint about a name that no scope binds, where a value is
/// needed.
pub open spec fn unknown_symbol(name: Seq<char>) -> Seq<char> {
    "Unknown symbol "@ + name
}

/// The complaint about a zero divisor.
pub open spec fn division_by_zero() -> Seq<char> {
    "Invalid division by zero"@
}

/// The complaint about a negative exponent, whose power is no integer.
pub open spec fn negative_exponent() -> Seq<char> {
    "'pow' requires a non-negative exponent"@
}

/// An error whose message names an operation.
pub fn op_error(prefix: &str, op: Primitive, suffix: &str) -> (e: EvalError)
    ensures
        e.message@ == prefix@ + quoted_name(op) + suffix@,
{
    let mut out: Vec<char> = Vec::new();
    push_str(&mut out, prefix);
    out.push('\'');
    push_str(&mut out, op.name_str());
    out.push('\'');
    push_str(&mut out, suffix);
    assert(out@ =~= prefix@ + quoted_name(op) + suffix@);
    EvalError { message: from_chars(&out) }
}

/// An error with a fixed message and a text after it.
pub fn text_error(prefix: &str, tail: &str) -> (e: EvalError)
    ensures
        e.message@ == prefix@ + tail@,
{
    EvalError { message: String::from_str(prefix).concat(tail) }
}

proof fn lemma_empty_text()
    ensures
        ""@ == Seq::<char>::empty(),
{
    reveal_strlit("");
    assert(""@ =~= Seq::<char>::empty());
}

fn wrong_types(op: Primitive) -> (e: EvalError)
    ensures
        e.message@ == invalid_types(op),
{
    proof {
        lemma_empty_text();
    }
    let e = op_error("Invalid types for ", op, "");
    assert(e.message@ =~= invalid_types(op));
    e
}

/// The error of an operation that was given a value of another kind than
/// it works on.
pub fn wrong_type(op: Primitive) -> (e: EvalError)
    ensures
        e.message@ == invalid_type(op),
{
    proof {
        lemma_empty_text();
    }
    let e = op_error("Invalid type for ", op, "");
    assert(e.message@ =~= invalid_type(op));
    e
}

fn too_large(op: Primitive) -> (e: EvalError)
    ensures
        e.message@ == overflow(op),
{
    proof {
        lemma_empty_text();
    }
    let e = op_error("Integer overflow in ", op, "");
    assert(e.message@ =~= overflow(op));
    e
}

/// An error whose message begins with the name of an operation.
pub fn suffix_error(op: Primitive, suffix: &str) -> (e: EvalError)
    ensures
        e.message@ == quoted_name(op) + suffix@,
{
    proof {
        lemma_empty_text();
    }
    let e = op_error("", op, suffix);
    assert(e.message@ =~= quoted_name(op) + suffix@);
    e
}

// ---------------------------------------------------------------------
// Arity
// ---------------------------------------------------------------------
/// The functions of one number that only inexact numbers answer.
pub open spec fn is_transcendental(op: Primitive) -> bool {
    op == Primitive::Sin || op == Primitive::Cos || op == Primitive::Tan || op == Primitive::Asin
        || op == Primitive::Acos || op == Primitive::Atan || op == Primitive::Exp || op
        == Primitive::Log || op == Primitive::Log10
}

/// Whether an operation takes exactly one argument.
pub open spec fn is_unary(op: Primitive) -> bool {
    op == Primitive::Not || op == Primitive::Car || op == Primitive::Cdr || op == Primitive::Length
        || op == Primitive::IsEmpty || is_transcendental(op)
}

/// Whether an operation takes exactly two arguments.
pub open spec fn is_binary(op: Primitive) -> bool {
    op == Primitive::Power || op == Primitive::Greater || op == Primitive::GreaterEqual || op
        == Primitive::Less || op == Primitive::LessEqual || op == Primitive::Equal || op
        == Primitive::Cons
}

/// The complaint about the number of arguments of a strict operation, if
/// there is one.
pub open spec fn arity_error(op: Primitive, n: nat) -> Option<Seq<char>> {
    if is_unary(op) && n != 1 {
        Some(exactly_one(op))
    } else if is_binary(op) && n != 2 {
        Some(exactly_two(op))
    } else if (op == Primitive::Subtract || op == Primitive::Divide) && n == 0 {
        Some(at_least_one(op))
    } else {
        None
    }
}

/// Checks the number of arguments of a strict operation.
pub fn check_arity(op: Primitive, n: usize) -> (r: Option<EvalError>)
    ensures
        match r {
            Some(e) => arity_error(op, n as nat) == Some(e.message@),
            None => arity_error(op, n as nat) is None,
        },
{
    match op {
        Primitive::Not
        | Primitive::Car
        | Primitive::Cdr
        | Primitive::Length
        | Primitive::IsEmpty
        | Primitive::Sin
        | Primitive::Cos
        | Primitive::Tan
        | Primitive::Asin
        | Primitive::Acos
        | Primitive::Atan
        | Primitive::Exp
        | Primitive::Log
        | Primitive::Log10 => {
            if n != 1 {
                Some(suffix_error(op, " takes exactly one argument"))
            } else {
                None
            }
        },
        Primitive::Power
        | Primitive::Greater
        | Primitive::GreaterEqual
        | Primitive::Less
        | Primitive::LessEqual
        | Primitive::Equal
        | Primitive::Cons => {
            if n != 2 {
                Some(suffix_error(op, " takes exactly two arguments"))
            } else {
                None
            }
        },
        Primitive::Subtract | Primitive::Divide => {
            if n == 0 {
                Some(suffix_error(op, " takes at least one argument"))
            } else {
                None
            }
        },
        _ => None,
    }
}

// ---------------------------------------------------------------------
// Arithmetic
// ---------------------------------------------------------------------
/// The integer that a value stands for in arithmetic: a truth value counts
/// as one or zero.
pub open spec fn operand(v: ValueView) -> Option<i32> {
    match v {
        ValueView::Int(i) => Some(i),
        ValueView::Bool(b) => Some(
            if b {
                1i32
            } else {
                0i32
            },
        ),
        _ => None,
    }
}

/// The absolute value.
pub open spec fn magnitude(i: int) -> int {
    if i < 0 {
        -i
    } else {
        i
    }
}

/// The quotient rounded toward zero.
pub open spec fn quotient(x: int, y: int) -> int {
    let m = magnitude(x) / magnitude(y);
    if (x < 0) != (y < 0) {
        -m
    } else {
        m
    }
}

/// `x` to the power `n`.
pub open spec fn power(x: int, n: nat) -> int
    decreases n,
{
    if n == 0 {
        1
    } else {
        x * power(x, (n - 1) as nat)
    }
}

/// What an arithmetic operation makes of two integers.
pub open spec fn int_result(op: Primitive, x: int, y: int) -> int {
    match op {
        Primitive::Add => x + y,
        Primitive::Subtract => x - y,
        Primitive::Multiply => x * y,
        Primitive::Divide => quotient(x, y),
        _ => power(
            x,
            if y >= 0 {
                y as nat
            } else {
                0
            },
        ),
    }
}

/// An integer result, if 32 bits hold it.
pub open spec fn ranged(op: Primitive, r: int) -> Result<ValueView, Seq<char>> {
    if i32::MIN <= r <= i32::MAX {
        Ok(ValueView::Int(r as i32))
    } else {
        Err(overflow(op))
    }
}

/// The operations that compute a number from two numbers.
pub open spec fn is_arithmetic(op: Primitive) -> bool {
    op == Primitive::Add || op == Primitive::Subtract || op == Primitive::Multiply || op
        == Primitive::Divide || op == Primitive::Power
}

/// What an arithmetic operation makes of two values. A zero divisor is
/// refused first, then a name that no scope binds, then any operand that is
/// no exact integer. An operation that is no arithmetic refuses every
/// operand.
pub open spec fn binary_result(op: Primitive, a: ValueView, b: ValueView) -> Result<
    ValueView,
    Seq<char>,
> {
    if !is_arithmetic(op) {
        Err(invalid_types(op))
    } else if op == Primitive::Divide && operand(b) == Some(0i32) {
        Err(division_by_zero())
    } else if operand(a) is Some && operand(b) is Some {
        if op == Primitive::Power && operand(b)->0 < 0 {
            Err(negative_exponent())
        } else {
            ranged(op, int_result(op, operand(a)->0 as int, operand(b)->0 as int))
        }
    } else if a is Symbol {
        Err(unknown_symbol(a->Symbol_0))
    } else if b is Symbol {
        Err(unknown_symbol(b->Symbol_0))
    } else {
        Err(invalid_types(op))
    }
}

/// What an arithmetic operation makes of a single operand.
pub open spec fn single_result(op: Primitive, a: ValueView) -> Result<ValueView, Seq<char>> {
    if operand(a) is Some {
        Ok(ValueView::Int(operand(a)->0))
    } else if a is Symbol {
        Err(unknown_symbol(a->Symbol_0))
    } else {
        Err(invalid_types(op))
    }
}

/// The neutral element of an operation.
pub open spec fn neutral(op: Primitive) -> i32 {
    if op == Primitive::Multiply || op == Primitive::Divide {
        1i32
    } else {
        0i32
    }
}

/// The operands combined from the right: of more than two the first with
/// what the rest gives. No operand gives the neutral element.
pub open spec fn folded_right(op: Primitive, vals: Seq<ValueView>) -> Result<ValueView, Seq<char>>
    decreases vals.len(),
{
    if vals.len() == 0 {
        Ok(ValueView::Int(neutral(op)))
    } else if vals.len() == 1 {
        single_result(op, vals[0])
    } else if vals.len() == 2 {
        binary_result(op, vals[0], vals[1])
    } else {
        match folded_right(op, vals.drop_first()) {
            Err(e) => Err(e),
            Ok(r) => binary_result(op, vals[0], r),
        }
    }
}

/// The operands combined from the left, starting with `acc`.
pub open spec fn folded_left(op: Primitive, acc: ValueView, vals: Seq<ValueView>) -> Result<
    ValueView,
    Seq<char>,
>
    decreases vals.len(),
{
    if vals.len() == 0 {
        Ok(acc)
    } else {
        match binary_result(op, acc, vals[0]) {
            Err(e) => Err(e),
            Ok(r) => folded_left(op, r, vals.drop_first()),
        }
    }
}

/// Subtraction and division: of one operand the negation or the
/// reciprocal, of more the first combined with each further one in turn.
pub open spec fn chained(op: Primitive, vals: Seq<ValueView>) -> Result<ValueView, Seq<char>> {
    if vals.len() == 0 {
        Err(at_least_one(op))
    } else if vals.len() == 1 {
        binary_result(op, ValueView::Int(neutral(op)), vals[0])
    } else {
        folded_left(op, vals[0], vals.drop_first())
    }
}

fn int_operand(v: &Value) -> (r: Option<i32>)
    ensures
        r == operand(v@),
{
    match v {
        Value::Int(i) => Some(*i),
        Value::Bool(b) => Some(
            if *b {
                1
            } else {
                0
            },
        ),
        _ => None,
    }
}

fn unknown(name: &String) -> (e: EvalError)
    ensures
        e.message@ == unknown_symbol(name@),
{
    text_error("Unknown symbol ", name.as_str())
}

fn magnitude_of(x: i32) -> (m: u64)
    ensures
        m == magnitude(x as int),
{
    if x < 0 {
        (-(x as i64)) as u64
    } else {
        x as u64
    }
}

proof fn lemma_power_step(x: int, k: nat)
    ensures
        power(x, k + 1) == x * power(x, k),
{
}

proof fn lemma_power_zero(n: nat)
    requires
        n > 0,
    ensures
        power(0, n) == 0,
{
}

proof fn lemma_power_one(n: nat)
    ensures
        power(1, n) == 1,
    decreases n,
{
    if n > 0 {
        lemma_power_one((n - 1) as nat);
    }
}

proof fn lemma_power_minus_one(n: nat)
    ensures
        power(-1, n) == if n % 2 == 0 {
            1int
        } else {
            -1int
        },
    decreases n,
{
    if n > 0 {
        lemma_power_minus_one((n - 1) as nat);
    }
}

/// Once a power of a base of magnitude two or more has left the 32-bit
/// range, every higher power lies outside it too.
proof fn lemma_power_escapes(x: int, k: nat, n: nat)
    requires
        x >= 2 || x <= -2,
        k <= n,
        magnitude(power(x, k)) >= 0x8000_0000,
        power(x, k) != i32::MIN || k < n,
    ensures
        !(i32::MIN <= power(x, n) <= i32::MAX),
        k < n ==> magnitude(power(x, n)) >= 0x1_0000_0000,
    decreases n - k,
{
    if k < n {
        let p = power(x, k);
        let q = power(x, k + 1);
        assert(q == x * p);
        assert(magnitude(q) >= 0x1_0000_0000) by (nonlinear_arith)
            requires
                q == x * p,
                x >= 2 || x <= -2,
                magnitude(p) >= 0x8000_0000,
        ;
        if k + 1 < n {
            lemma_power_escapes(x, k + 1, n);
        }
    }
}

/// Raises `x` to the power `n`, if 32 bits hold the result.
#[verifier::loop_isolation(false)]
fn int_power(x: i32, n: i32) -> (r: Option<i32>)
    requires
        n >= 0,
    ensures
        match r {
            Some(v) => v == power(x as int, n as nat),
            None => !(i32::MIN <= power(x as int, n as nat) <= i32::MAX),
        },
{
    if n == 0 {
        return Some(1);
    }
    if x == 0 {
        proof {
            lemma_power_zero(n as nat);
        }
        return Some(0);
    }
    if x == 1 {
        proof {
            lemma_power_one(n as nat);
        }
        return Some(1);
    }
    if x == -1 {
        proof {
            lemma_power_minus_one(n as nat);
        }
        return Some(
            if n % 2 == 0 {
                1
            } else {
                -1
            },
        );
    }
    let mut acc: i64 = 1;
    let mut k: i32 = 0;
    while k < n
        invariant
            0 <= k <= n,
            acc == power(x as int, k as nat),
            i32::MIN <= acc <= i32::MAX,
        decreases n - k,
    {
        proof {
            lemma_power_step(x as int, k as nat);
            assert(-0x4000_0000_0000_0000 <= acc * x <= 0x4000_0000_0000_0000) by (nonlinear_arith)
                requires
                    -0x8000_0000 <= acc <= 0x8000_0000,
                    -0x8000_0000 <= x <= 0x8000_0000,
            ;
        }
        let ghost prev = acc as int;
        acc = acc * (x as i64);
        k = k + 1;
        assert(acc == power(x as int, k as nat)) by (nonlinear_arith)
            requires
                power(x as int, k as nat) == (x as int) * prev,
                acc == prev * (x as int),
        ;
        if acc > 0x7FFF_FFFF || acc < -0x8000_0000 {
            proof {
                lemma_power_escapes(x as int, k as nat, n as nat);
            }
            return None;
        }
    }
    Some(acc as i32)
}

/// Applies an arithmetic operation to two operands.
pub fn apply_binary(op: Primitive, a: &Value, b: &Value) -> (r: Result<Value, EvalError>)
    ensures
        result_view(r) == binary_result(op, a@, b@),
{
    match op {
        Primitive::Add
        | Primitive::Subtract
        | Primitive::Multiply
        | Primitive::Divide
        | Primitive::Power => {},
        _ => {
            return Err(wrong_types(op));
        },
    }
    let x = int_operand(a);
    let y = int_operand(b);
    proof {
        lemma_empty_text();
        assert("Invalid division by zero"@ + ""@ =~= division_by_zero());
        assert("'pow' requires a non-negative exponent"@ + ""@ =~= negative_exponent());
    }
    if let Primitive::Divide = op {
        if let Some(0) = y {
            return Err(text_error("Invalid division by zero", ""));
        }
    }
    match (x, y) {
        (Some(i), Some(j)) => {
            let wide: i64 = match op {
                Primitive::Add => i as i64 + j as i64,
                Primitive::Subtract => i as i64 - j as i64,
                Primitive::Multiply => {
                    assert(-0x4000_0000_0000_0000 <= i * j <= 0x4000_0000_0000_0000)
                        by (nonlinear_arith)
                        requires
                            -0x8000_0000 <= i <= 0x8000_0000,
                            -0x8000_0000 <= j <= 0x8000_0000,
                    ;
                    (i as i64) * (j as i64)
                },
                Primitive::Divide => {
                    let m = magnitude_of(i) / magnitude_of(j);
                    if (i < 0) != (j < 0) {
                        -(m as i64)
                    } else {
                        m as i64
                    }
                },
                _ => {
                    if j < 0 {
                        return Err(text_error("'pow' requires a non-negative exponent", ""));
                    }
                    match int_power(i, j) {
                        Some(v) => v as i64,
                        None => {
                            return Err(too_large(op));
                        },
                    }
                },
            };
            if wide > 0x7FFF_FFFF || wide < -0x8000_0000 {
                Err(too_large(op))
            } else {
                Ok(Value::Int(wide as i32))
            }
        },
        _ => {
            if let Value::Symbol(name) = a {
                Err(unknown(name))
            } else if let Value::Symbol(name) = b {
                Err(unknown(name))
            } else {
                Err(wrong_types(op))
            }
        },
    }
}

fn apply_single(op: Primitive, a: &Value) -> (r: Result<Value, EvalError>)
    ensures
        result_view(r) == single_result(op, a@),
{
    match int_operand(a) {
        Some(i) => Ok(Value::Int(i)),
        None => {
            if let Value::Symbol(name) = a {
                Err(unknown(name))
            } else {
                Err(wrong_types(op))
            }
        },
    }
}

fn neutral_of(op: Primitive) -> (r: i32)
    ensures
        r == neutral(op),
{
    match op {
        Primitive::Multiply | Primitive::Divide => 1,
        _ => 0,
    }
}

/// Adds or multiplies the operands.
pub fn fold_right(op: Primitive, vals: &Vec<Value>) -> (r: Result<Value, EvalError>)
    ensures
        result_view(r) == folded_right(op, values_view(vals@)),
{
    let n = vals.len();
    let ghost all = values_view(vals@);
    if n == 0 {
        return Ok(Value::Int(neutral_of(op)));
    }
    if n == 1 {
        assert(all[0] == vals@[0]@);
        return apply_single(op, &vals[0]);
    }
    assert(all.subrange(n - 2, n as int).len() == 2);
    assert(all.subrange(n - 2, n as int)[0] == vals@[n - 2]@);
    assert(all.subrange(n - 2, n as int)[1] == vals@[n - 1]@);
    let mut acc = match apply_binary(op, &vals[n - 2], &vals[n - 1]) {
        Ok(v) => v,
        Err(e) => {
            proof {
                lemma_fold_right_fails(op, all, n - 2);
            }
            return Err(e);
        },
    };
    let mut i: usize = n - 2;
    while i > 0
        invariant
            i + 2 <= n,
            n == vals.len(),
            all == values_view(vals@),
            folded_right(op, all.subrange(i as int, n as int)) == Ok::<ValueView, Seq<char>>(acc@),
        decreases i,
    {
        i -= 1;
        let ghost part = all.subrange(i as int, n as int);
        assert(part.drop_first() =~= all.subrange(i + 1, n as int));
        assert(part[0] == vals@[i as int]@);
        match apply_binary(op, &vals[i], &acc) {
            Ok(v) => {
                acc = v;
            },
            Err(e) => {
                proof {
                    lemma_fold_right_fails(op, all, i as int);
                }
                return Err(e);
            },
        }
    }
    assert(all.subrange(0, n as int) =~= all);
    Ok(acc)
}

/// A failure of the operands from position `i` on is the failure of all.
proof fn lemma_fold_right_fails(op: Primitive, vals: Seq<ValueView>, i: int)
    requires
        0 <= i,
        i + 2 <= vals.len(),
        folded_right(op, vals.subrange(i, vals.len() as int)) is Err,
    ensures
        folded_right(op, vals) == folded_right(op, vals.subrange(i, vals.len() as int)),
    decreases i,
{
    if i > 0 {
        let part = vals.subrange(i - 1, vals.len() as int);
        assert(part.drop_first() =~= vals.subrange(i, vals.len() as int));
        lemma_fold_right_fails(op, vals, i - 1);
    } else {
        assert(vals.subrange(0, vals.len() as int) =~= vals);
    }
}

/// Subtracts or divides the operands.
pub fn chain(op: Primitive, vals: &Vec<Value>) -> (r: Result<Value, EvalError>)
    ensures
        result_view(r) == chained(op, values_view(vals@)),
{
    let n = vals.len();
    let ghost all = values_view(vals@);
    if n == 0 {
        return Err(suffix_error(op, " takes at least one argument"));
    }
    if n == 1 {
        let unit = Value::Int(neutral_of(op));
        return apply_binary(op, &unit, &vals[0]);
    }
    let mut acc = vals[0].clone();
    let mut i: usize = 1;
    assert(all.drop_first() =~= all.subrange(1, n as int));
    while i < n
        invariant
            1 <= i <= n,
            n == vals.len(),
            all == values_view(vals@),
            folded_left(op, acc@, all.subrange(i as int, n as int)) == folded_left(
                op,
                all[0],
                all.subrange(1, n as int),
            ),
        decreases n - i,
    {
        let ghost part = all.subrange(i as int, n as int);
        assert(part.drop_first() =~= all.subrange(i + 1, n as int));
        assert(part[0] == vals@[i as int]@);
        match apply_binary(op, &acc, &vals[i]) {
            Ok(v) => {
                acc = v;
            },
            Err(e) => {
                return Err(e);
            },
        }
        i += 1;
    }
    Ok(acc)
}

// ---------------------------------------------------------------------
// Comparisons
// ---------------------------------------------------------------------
/// How an order relation holds of two integers.
pub open spec fn ordered(op: Primitive, x: int, y: int) -> bool {
    match op {
        Primitive::Greater => x > y,
        Primitive::GreaterEqual => x >= y,
        Primitive::Less => x < y,
        _ => x <= y,
    }
}

/// What an order relation makes of two values: it holds of integers only.
pub open spec fn order_result(op: Primitive, a: ValueView, b: ValueView) -> Result<
    ValueView,
    Seq<char>,
> {
    match (a, b) {
        (ValueView::Int(x), ValueView::Int(y)) => Ok(ValueView::Bool(ordered(op, x as int, y as int))),
        (ValueView::Symbol(name), _) => Err(unknown_symbol(name)),
        (_, ValueView::Symbol(name)) => Err(unknown_symbol(name)),
        _ => Err(invalid_types(op)),
    }
}

/// Whether two values are equal: two integers, two literals, or two lists
/// alike in every element.
pub open spec fn equal_result(a: ValueView, b: ValueView) -> Result<ValueView, Seq<char>> {
    match (a, b) {
        (ValueView::Int(x), ValueView::Int(y)) => Ok(ValueView::Bool(x == y)),
        (ValueView::Literal(x), ValueView::Literal(y)) => Ok(ValueView::Bool(x == y)),
        (ValueView::List(x), ValueView::List(y)) => Ok(ValueView::Bool(x == y)),
        (ValueView::Symbol(name), _) => Err(unknown_symbol(name)),
        (_, ValueView::Symbol(name)) => Err(unknown_symbol(name)),
        _ => Err(invalid_types(Primitive::Equal)),
    }
}

/// Decides an order relation of two values.
pub fn order(op: Primitive, a: &Value, b: &Value) -> (r: Result<Value, EvalError>)
    ensures
        result_view(r) == order_result(op, a@, b@),
{
    match (a, b) {
        (Value::Int(x), Value::Int(y)) => {
            let holds = match op {
                Primitive::Greater => *x > *y,
                Primitive::GreaterEqual => *x >= *y,
                Primitive::Less => *x < *y,
                _ => *x <= *y,
            };
            Ok(Value::Bool(holds))
        },
        (Value::Symbol(name), _) => Err(unknown(name)),
        (_, Value::Symbol(name)) => Err(unknown(name)),
        _ => Err(wrong_types(op)),
    }
}

/// Decides whether two values are equal.
pub fn equal(a: &Value, b: &Value) -> (r: Result<Value, EvalError>)
    ensures
        result_view(r) == equal_result(a@, b@),
{
    match (a, b) {
        (Value::Int(x), Value::Int(y)) => Ok(Value::Bool(*x == *y)),
        (Value::Literal(x), Value::Literal(y)) => Ok(Value::Bool(*x == *y)),
        (Value::List(x), Value::List(y)) => {
            proof {
                lemma_list_value_view(*x);
                lemma_list_value_view(*y);
            }
            Ok(Value::Bool(same_values(x, y)))
        },
        (Value::Symbol(name), _) => Err(unknown(name)),
        (_, Value::Symbol(name)) => Err(unknown(name)),
        _ => Err(wrong_types(Primitive::Equal)),
    }
}

// ---------------------------------------------------------------------
// Lists and truth values
// ---------------------------------------------------------------------
/// The lists of a sequence, one after the other. A value that is no list
/// is refused.
pub open spec fn appended(vals: Seq<ValueView>) -> Result<ValueView, Seq<char>>
    decreases vals.len(),
{
    if vals.len() == 0 {
        Ok(ValueView::List(Seq::empty()))
    } else {
        match (appended(vals.drop_last()), vals.last()) {
            (Ok(ValueView::List(head)), ValueView::List(tail)) => Ok(ValueView::List(head + tail)),
            (Err(e), _) => Err(e),
            _ => Err(invalid_type(Primitive::Append)),
        }
    }
}

/// What an operation with one operand makes of it.
pub open spec fn unary_result(op: Primitive, a: ValueView) -> Result<ValueView, Seq<char>> {
    match op {
        Primitive::Not => match a {
            ValueView::Bool(b) => Ok(ValueView::Bool(!b)),
            _ => Err(invalid_type(op)),
        },
        Primitive::Car => match a {
            ValueView::List(items) => if items.len() > 0 {
                Ok(items[0])
            } else {
                Err(empty_list(op))
            },
            _ => Err(invalid_type(op)),
        },
        Primitive::Cdr => match a {
            ValueView::List(items) => if items.len() > 0 {
                Ok(ValueView::List(items.drop_first()))
            } else {
                Err(empty_list(op))
            },
            _ => Err(invalid_type(op)),
        },
        Primitive::Length => match a {
            ValueView::List(items) => ranged(op, items.len() as int),
            _ => Err(invalid_type(op)),
        },
        _ => match a {
            ValueView::List(items) => Ok(ValueView::Bool(items.len() == 0)),
            _ => Err(invalid_type(op)),
        },
    }
}

// ---------------------------------------------------------------------
// Inexact numbers
// ---------------------------------------------------------------------
/// What a host computes, as a function of the operation and the values of
/// its arguments.
pub type Host = spec_fn(Primitive, Seq<ValueView>) -> Result<ValueView, Seq<char>>;

/// The part of evaluation that works on inexact numbers. The library
/// computes on exact integers; whatever meets an inexact number, and the
/// functions that only inexact numbers answer, it hands to a host, at
/// whatever depth the call stands.
pub trait Inexact: Sized {
    /// What this host computes for an operation and the values of its
    /// arguments: a function of the host and of these alone.
    open spec fn computed(&self, op: Primitive, args: Seq<ValueView>) -> Result<
        ValueView,
        Seq<char>,
    > {
        arbitrary::<spec_fn(Self, Primitive, Seq<ValueView>) -> Result<ValueView, Seq<char>>>()(
            *self,
            op,
            args,
        )
    }

    /// Computes an operation on the values of its arguments. An inexact
    /// number that it hands back holds a text that reads as that number
    /// again.
    fn compute(&self, op: Primitive, args: &Vec<Value>) -> (r: Result<Value, EvalError>)
        ensures
            result_view(r) == self.computed(op, values_view(args@)),
            r matches Ok(Value::Float(t)) ==> is_inexact_text(t@),
    ;
}

/// The host that computes nothing: it refuses every operation. It serves
/// where no inexact number is to be computed.
#[derive(Clone, Copy)]
pub struct Exact;

impl Inexact for Exact {
    open spec fn computed(&self, op: Primitive, args: Seq<ValueView>) -> Result<
        ValueView,
        Seq<char>,
    > {
        Err(invalid_types(op))
    }

    fn compute(&self, op: Primitive, args: &Vec<Value>) -> (r: Result<Value, EvalError>) {
        Err(wrong_types(op))
    }
}

impl Default for Exact {
    fn default() -> (r: Self)
        ensures
            r == Exact,
    {
        Exact
    }
}

/// What a host computes.
pub open spec fn model_of<H: Inexact>(host: H) -> Host {
    |op: Primitive, args: Seq<ValueView>| host.computed(op, args)
}

/// The order relations and equality.
pub open spec fn compares(op: Primitive) -> bool {
    op == Primitive::Greater || op == Primitive::GreaterEqual || op == Primitive::Less || op
        == Primitive::LessEqual || op == Primitive::Equal
}

/// An inexact number: a real or a complex one.
pub open spec fn is_inexact(v: ValueView) -> bool {
    v is Float || v is Complex
}

/// What an operation takes for a number: integers and inexact numbers, and
/// in arithmetic the truth values too.
pub open spec fn is_number(op: Primitive, v: ValueView) -> bool {
    v is Int || is_inexact(v) || (is_arithmetic(op) && v is Bool)
}

pub open spec fn all_numbers(op: Primitive, vals: Seq<ValueView>) -> bool {
    forall|i: int| 0 <= i < vals.len() ==> is_number(op, #[trigger] vals[i])
}

pub open spec fn some_inexact(vals: Seq<ValueView>) -> bool {
    exists|i: int| 0 <= i < vals.len() && is_inexact(#[trigger] vals[i])
}

/// A power with a negative exponent, which is no integer.
pub open spec fn negative_power(op: Primitive, vals: Seq<ValueView>) -> bool {
    op == Primitive::Power && vals.len() == 2 && operand(vals[1]) is Some && operand(vals[1])->0
        < 0
}

/// The calls that the host answers: a transcendental function of one
/// integer or real number; and arithmetic or a comparison of numbers of
/// which one at least is inexact, or whose result is no integer.
pub open spec fn handed_over(op: Primitive, vals: Seq<ValueView>) -> bool {
    if is_transcendental(op) {
        vals.len() == 1 && (vals[0] is Int || vals[0] is Float)
    } else {
        (is_arithmetic(op) || compares(op)) && all_numbers(op, vals) && (some_inexact(vals)
            || negative_power(op, vals))
    }
}

/// What a strict operation makes of the values of its arguments: what the
/// host computes where the call is handed over, and else what the
/// operation makes of exact values.
pub open spec fn strict_result(host: Host, op: Primitive, vals: Seq<ValueView>) -> Result<
    ValueView,
    Seq<char>,
> {
    if arity_error(op, vals.len()) is Some {
        Err(arity_error(op, vals.len())->0)
    } else if handed_over(op, vals) {
        host(op, vals)
    } else if is_transcendental(op) {
        Err(invalid_type(op))
    } else if op == Primitive::Add || op == Primitive::Multiply {
        folded_right(op, vals)
    } else if op == Primitive::Subtract || op == Primitive::Divide {
        chained(op, vals)
    } else if op == Primitive::Power {
        binary_result(op, vals[0], vals[1])
    } else if op == Primitive::Greater || op == Primitive::GreaterEqual || op == Primitive::Less
        || op == Primitive::LessEqual {
        order_result(op, vals[0], vals[1])
    } else if op == Primitive::Equal {
        equal_result(vals[0], vals[1])
    } else if op == Primitive::Cons {
        match vals[1] {
            ValueView::List(items) => Ok(ValueView::List(seq![vals[0]] + items)),
            _ => Err(invalid_type(op)),
        }
    } else if op == Primitive::MakeList {
        Ok(ValueView::List(vals))
    } else if op == Primitive::Append {
        appended(vals)
    } else if is_unary(op) {
        unary_result(op, vals[0])
    } else {
        Err(invalid_type(op))
    }
}

fn copy_from(items: &Vec<Value>, from: usize, out: &mut Vec<Value>)
    requires
        from <= items.len(),
    ensures
        values_view(final(out)@) == values_view(old(out)@) + values_view(items@).subrange(
            from as int,
            items@.len() as int,
        ),
{
    let mut i: usize = from;
    let ghost base = values_view(out@);
    let ghost all = values_view(items@);
    assert(values_view(out@) =~= base + all.subrange(from as int, from as int));
    while i < items.len()
        invariant
            from <= i <= items.len(),
            all == values_view(items@),
            values_view(out@) == base + all.subrange(from as int, i as int),
        decreases items.len() - i,
    {
        let ghost before = values_view(out@);
        out.push(items[i].clone());
        assert(values_view(out@) =~= before.push(items@[i as int]@));
        i += 1;
        assert(base + all.subrange(from as int, i as int) =~= before.push(items@[i - 1]@));
    }
}

fn append_all(vals: &Vec<Value>) -> (r: Result<Value, EvalError>)
    ensures
        result_view(r) == appended(values_view(vals@)),
{
    let mut out: Vec<Value> = Vec::new();
    let mut i: usize = 0;
    let ghost all = values_view(vals@);
    assert(all.subrange(0, 0) =~= Seq::<ValueView>::empty());
    assert(values_view(out@) =~= Seq::<ValueView>::empty());
    while i < vals.len()
        invariant
            i <= vals.len(),
            all == values_view(vals@),
            appended(all.subrange(0, i as int)) == Ok::<ValueView, Seq<char>>(
                ValueView::List(values_view(out@)),
            ),
        decreases vals.len() - i,
    {
        let ghost part = all.subrange(0, i + 1);
        assert(part.drop_last() =~= all.subrange(0, i as int));
        assert(part.last() == vals@[i as int]@);
        match &vals[i] {
            Value::List(items) => {
                proof {
                    lemma_list_value_view(*items);
                }
                let ghost before = values_view(out@);
                copy_from(items, 0, &mut out);
                assert(values_view(items@).subrange(0, items@.len() as int) =~= values_view(
                    items@,
                ));
            },
            _ => {
                proof {
                    lemma_append_fails(all, i + 1);
                }
                return Err(wrong_type(Primitive::Append));
            },
        }
        i += 1;
    }
    assert(all.subrange(0, vals.len() as int) =~= all);
    proof {
        lemma_list_value_view(out);
    }
    Ok(Value::List(out))
}

/// A failure of the first `k` values is the failure of all.
proof fn lemma_append_fails(vals: Seq<ValueView>, k: int)
    requires
        0 <= k <= vals.len(),
        appended(vals.subrange(0, k)) is Err,
    ensures
        appended(vals) == appended(vals.subrange(0, k)),
    decreases vals.len() - k,
{
    if k < vals.len() {
        let part = vals.subrange(0, k + 1);
        assert(part.drop_last() =~= vals.subrange(0, k));
        lemma_append_fails(vals, k + 1);
    } else {
        assert(vals.subrange(0, k) =~= vals);
    }
}

fn apply_unary(op: Primitive, a: &Value) -> (r: Result<Value, EvalError>)
    requires
        is_unary(op),
    ensures
        result_view(r) == unary_result(op, a@),
{
    match op {
        Primitive::Not => match a {
            Value::Bool(b) => Ok(Value::Bool(!*b)),
            _ => Err(wrong_type(op)),
        },
        Primitive::Car => match a {
            Value::List(items) => {
                proof {
                    lemma_list_value_view(*items);
                }
                if items.len() > 0 {
                    Ok(items[0].clone())
                } else {
                    Err(suffix_error(op, " requires a non-empty list"))
                }
            },
            _ => Err(wrong_type(op)),
        },
        Primitive::Cdr => match a {
            Value::List(items) => {
                proof {
                    lemma_list_value_view(*items);
                }
                if items.len() > 0 {
                    let mut out: Vec<Value> = Vec::new();
                    assert(values_view(out@) =~= Seq::<ValueView>::empty());
                    copy_from(items, 1, &mut out);
                    proof {
                        lemma_list_value_view(out);
                        assert(values_view(out@) =~= values_view(items@).drop_first());
                    }
                    Ok(Value::List(out))
                } else {
                    Err(suffix_error(op, " requires a non-empty list"))
                }
            },
            _ => Err(wrong_type(op)),
        },
        Primitive::Length => match a {
            Value::List(items) => {
                proof {
                    lemma_list_value_view(*items);
                }
                if items.len() > 0x7FFF_FFFF {
                    Err(too_large(op))
                } else {
                    Ok(Value::Int(items.len() as i32))
                }
            },
            _ => Err(wrong_type(op)),
        },
        _ => match a {
            Value::List(items) => {
                proof {
                    lemma_list_value_view(*items);
                }
                Ok(Value::Bool(items.len() == 0))
            },
            _ => Err(wrong_type(op)),
        },
    }
}

/// Tells whether a call is the host's to answer.
fn is_handed_over(op: Primitive, vals: &Vec<Value>) -> (r: bool)
    ensures
        r == handed_over(op, values_view(vals@)),
{
    let ghost all = values_view(vals@);
    let transcendental = match op {
        Primitive::Sin
        | Primitive::Cos
        | Primitive::Tan
        | Primitive::Asin
        | Primitive::Acos
        | Primitive::Atan
        | Primitive::Exp
        | Primitive::Log
        | Primitive::Log10 => true,
        _ => false,
    };
    if transcendental {
        if vals.len() != 1 {
            return false;
        }
        assert(all[0] == vals@[0]@);
        return match &vals[0] {
            Value::Int(_) => true,
            Value::Float(_) => true,
            _ => false,
        };
    }
    let arithmetic = match op {
        Primitive::Add
        | Primitive::Subtract
        | Primitive::Multiply
        | Primitive::Divide
        | Primitive::Power => true,
        _ => false,
    };
    let comparing = match op {
        Primitive::Greater
        | Primitive::GreaterEqual
        | Primitive::Less
        | Primitive::LessEqual
        | Primitive::Equal => true,
        _ => false,
    };
    if !arithmetic && !comparing {
        return false;
    }
    let mut inexact = false;
    let mut i: usize = 0;
    while i < vals.len()
        invariant
            i <= vals.len(),
            all == values_view(vals@),
            arithmetic == is_arithmetic(op),
            forall|j: int| 0 <= j < i ==> is_number(op, #[trigger] all[j]),
            inexact ==> some_inexact(all),
            !inexact ==> forall|j: int| 0 <= j < i ==> !is_inexact(#[trigger] all[j]),
        decreases vals.len() - i,
    {
        assert(all[i as int] == vals@[i as int]@);
        match &vals[i] {
            Value::Int(_) => {},
            Value::Float(_) => {
                assert(is_inexact(all[i as int]));
                inexact = true;
            },
            Value::Complex(_, _) => {
                assert(is_inexact(all[i as int]));
                inexact = true;
            },
            Value::Bool(_) => {
                if !arithmetic {
                    assert(!is_number(op, all[i as int]));
                    return false;
                }
            },
            _ => {
                assert(!is_number(op, all[i as int]));
                return false;
            },
        }
        i += 1;
    }
    if inexact {
        return true;
    }
    match op {
        Primitive::Power => {
            if vals.len() != 2 {
                return false;
            }
            assert(all[1] == vals@[1]@);
            match int_operand(&vals[1]) {
                Some(j) => j < 0,
                None => false,
            }
        },
        _ => false,
    }
}

/// Applies a strict operation to the values of its arguments.
pub fn apply_strict<H: Inexact>(host: &H, op: Primitive, vals: Vec<Value>) -> (r: Result<
    Value,
    EvalError,
>)
    ensures
        result_view(r) == strict_result(model_of(*host), op, values_view(vals@)),
{
    if let Some(e) = check_arity(op, vals.len()) {
        return Err(e);
    }
    if is_handed_over(op, &vals) {
        return host.compute(op, &vals);
    }
    let ghost all = values_view(vals@);
    match op {
        Primitive::Add | Primitive::Multiply => fold_right(op, &vals),
        Primitive::Subtract | Primitive::Divide => chain(op, &vals),
        Primitive::Power => {
            assert(all[0] == vals@[0]@ && all[1] == vals@[1]@);
            apply_binary(op, &vals[0], &vals[1])
        },
        Primitive::Greater | Primitive::GreaterEqual | Primitive::Less | Primitive::LessEqual => {
            assert(all[0] == vals@[0]@ && all[1] == vals@[1]@);
            order(op, &vals[0], &vals[1])
        },
        Primitive::Equal => {
            assert(all[0] == vals@[0]@ && all[1] == vals@[1]@);
            equal(&vals[0], &vals[1])
        },
        Primitive::Cons => {
            assert(all[0] == vals@[0]@ && all[1] == vals@[1]@);
            match &vals[1] {
                Value::List(items) => {
                    let mut out: Vec<Value> = Vec::new();
                    out.push(vals[0].clone());
                    assert(values_view(out@) =~= seq![all[0]]);
                    copy_from(items, 0, &mut out);
                    proof {
                        lemma_list_value_view(*items);
                        lemma_list_value_view(out);
                        assert(values_view(items@).subrange(0, items@.len() as int) =~= values_view(
                            items@,
                        ));
                    }
                    Ok(Value::List(out))
                },
                _ => Err(wrong_type(op)),
            }
        },
        Primitive::MakeList => {
            proof {
                lemma_list_value_view(vals);
            }
            Ok(Value::List(vals))
        },
        Primitive::Append => append_all(&vals),
        Primitive::Not | Primitive::Car | Primitive::Cdr | Primitive::Length | Primitive::IsEmpty => {
            assert(all[0] == vals@[0]@);
            apply_unary(op, &vals[0])
        },
        _ => Err(wrong_type(op)),
    }
}

} // verus!
