//! What evaluation means, as functions on the models of nodes, values and
//! scopes.
//!
//! Two limits make every evaluation end. `depth` is how deep evaluations
//! may still nest: each evaluation of a subexpression and each body of a
//! procedure uses one level. `steps` is how many reductions one evaluation
//! may make in its own loop; a call in tail position is such a reduction,
//! so it uses a step and no level.
//!
//! `host` is what computes on inexact numbers: evaluation hands it every
//! strict call that meets one, and is exact about everything else.

use crate::environment::{bound, lookup, nested, Scope};
use crate::model::{node_text, LambdaView, NodeView, Primitive, ValueView};
use crate::primitives::{
    arity_error, Host, at_least_two, exactly_one, exactly_three, exactly_two, invalid_type,
    strict_result, unknown_symbol,
};
use crate::text::nat_text;
use vstd::prelude::*;

verus! {

/// What an evaluation leaves: its result, and the scopes as they are then.
pub struct Outcome {
    pub result: Result<ValueView, Seq<char>>,
    pub env: Seq<Scope>,
}

/// What the evaluation of several expressions leaves.
pub struct Outcomes {
    pub result: Result<Seq<ValueView>, Seq<char>>,
    pub env: Seq<Scope>,
}

/// An evaluation that yields a value.
pub open spec fn done(v: ValueView, env: Seq<Scope>) -> Outcome {
    Outcome { result: Ok(v), env }
}

/// An evaluation that fails.
pub open spec fn failed(message: Seq<char>, env: Seq<Scope>) -> Outcome {
    Outcome { result: Err(message), env }
}

/// The complaint about evaluations that nest deeper than the limit.
pub open spec fn depth_error() -> Seq<char> {
    "Recursion limit exceeded"@
}

/// The complaint about an evaluation that makes more reductions than the
/// limit.
pub open spec fn step_error() -> Seq<char> {
    "Step limit exceeded"@
}

/// The complaint about a call of what is neither an operation nor a
/// procedure.
pub open spec fn invalid_call() -> Seq<char> {
    "Invalid function call"@
}

/// The complaint about a call of a name that no scope binds.
pub open spec fn unknown_function(name: Seq<char>) -> Seq<char> {
    "Unknown function "@ + name
}

/// The complaint about a parameter that is no symbol.
pub open spec fn invalid_parameter(param: NodeView) -> Seq<char> {
    "Invalid parameter "@ + node_text(param)
}

/// The complaint about a definition of what is no name.
pub open spec fn cannot_define(target: NodeView) -> Seq<char> {
    "Can't define "@ + node_text(target)
}

/// The complaint about a test that is no truth value.
pub open spec fn boolean_test() -> Seq<char> {
    "'if' requires a boolean test"@
}

/// The complaint about a `lambda` without a list of parameters.
pub open spec fn parameter_list() -> Seq<char> {
    "'lambda' requires a parameter list"@
}

/// The complaint about a call with the wrong number of arguments: the
/// callee as it is written, the number of its parameters and the number of
/// arguments given.
pub open spec fn arity_mismatch(callee: NodeView, expected: nat, actual: nat) -> Seq<char> {
    node_text(callee) + " expects "@ + nat_text(expected) + " params, got "@ + nat_text(actual)
}

// ---------------------------------------------------------------------
// Forms that need no evaluation
// ---------------------------------------------------------------------
/// The value of a quoted node: a list becomes the list of its quoted
/// elements, anything else the literal of its text.
pub open spec fn quoted(n: NodeView) -> ValueView
    decreases n,
{
    match n {
        NodeView::List(children) => ValueView::List(
            Seq::new(
                children.len(),
                |i: int|
                    if 0 <= i < children.len() {
                        quoted(children[i])
                    } else {
                        ValueView::Void
                    },
            ),
        ),
        _ => ValueView::Literal(node_text(n)),
    }
}

/// The position of the first parameter from `i` on that is the symbol
/// `label`.
pub open spec fn param_index(params: Seq<NodeView>, label: Seq<char>, i: int) -> Option<int>
    decreases params.len() - i,
{
    if i < 0 || i >= params.len() {
        None
    } else if params[i] == NodeView::Symbol(label) {
        Some(i)
    } else {
        param_index(params, label, i + 1)
    }
}

/// A body in which every symbol that names a parameter has given way to
/// the value of that parameter, through every nested list.
pub open spec fn substituted(node: NodeView, params: Seq<NodeView>, values: Seq<ValueView>) -> NodeView
    decreases node,
{
    match node {
        NodeView::List(children) => NodeView::List(
            Seq::new(
                children.len(),
                |i: int|
                    if 0 <= i < children.len() {
                        substituted(children[i], params, values)
                    } else {
                        NodeView::Bool(false)
                    },
            ),
        ),
        NodeView::Symbol(label) => match param_index(params, label, 0) {
            Some(k) => if k < values.len() {
                NodeView::ValueWrapper(Box::new(values[k]))
            } else {
                node
            },
            None => node,
        },
        _ => node,
    }
}

/// The name of the operation that evaluates forms in turn.
pub open spec fn begin_word() -> Seq<char> {
    seq!['b', 'e', 'g', 'i', 'n']
}

/// The body that one or more forms make: a single form itself, several
/// forms a `begin` around them.
pub open spec fn body_of(forms: Seq<NodeView>) -> NodeView {
    if forms.len() == 1 {
        forms[0]
    } else {
        NodeView::List(seq![NodeView::Symbol(begin_word())] + forms)
    }
}

/// The procedure that `(lambda (params...) body...)` makes.
pub open spec fn lambda_result(args: Seq<NodeView>) -> Result<ValueView, Seq<char>> {
    if args.len() < 2 {
        Err(at_least_two(Primitive::MakeLambda))
    } else {
        match args[0] {
            NodeView::List(params) => Ok(
                ValueView::Lambda(
                    LambdaView { params, body: body_of(args.subrange(1, args.len() as int)) },
                ),
            ),
            _ => Err(parameter_list()),
        }
    }
}

/// The name of a parameter.
pub open spec fn param_name(param: NodeView) -> Seq<char> {
    match param {
        NodeView::Symbol(name) => name,
        _ => Seq::empty(),
    }
}

/// The scopes after each parameter is bound to its value in the innermost
/// one, in order.
pub open spec fn bound_params(scopes: Seq<Scope>, params: Seq<NodeView>, values: Seq<ValueView>) -> Seq<
    Scope,
>
    decreases values.len(),
{
    if values.len() == 0 || values.len() > params.len() {
        scopes
    } else {
        bound(
            bound_params(scopes, params, values.drop_last()),
            param_name(params[values.len() - 1]),
            values.last(),
        )
    }
}

// ---------------------------------------------------------------------
// Evaluation
// ---------------------------------------------------------------------
/// The full evaluation of a node: reductions follow one another until the
/// result is no expression in tail position any more.
pub open spec fn eval(host: Host, depth: nat, steps: nat, env: Seq<Scope>, node: NodeView) -> Outcome
    decreases depth, 0nat, 0nat,
{
    if depth == 0 {
        failed(depth_error(), env)
    } else {
        run(host, (depth - 1) as nat, steps, steps, env, node)
    }
}

/// The reductions of one evaluation, of which `left` may still be made.
pub open spec fn run(host: Host, depth: nat, steps: nat, left: nat, env: Seq<Scope>, node: NodeView) -> Outcome
    decreases depth, 20nat, left,
{
    if left == 0 {
        failed(step_error(), env)
    } else {
        let o = step(host, depth, steps, env, node);
        match o.result {
            Ok(ValueView::NodeWrapper(next)) => run(host, depth, steps, (left - 1) as nat, o.env, next),
            _ => o,
        }
    }
}

/// One reduction. A literal is its own value; a symbol is the value that
/// the scopes give it, or itself where none does; a list is a call of what
/// its first element evaluates to.
pub open spec fn step(host: Host, depth: nat, steps: nat, env: Seq<Scope>, node: NodeView) -> Outcome
    decreases depth, 10nat, 0nat,
{
    match node {
        NodeView::ValueWrapper(v) => done(*v, env),
        NodeView::Int(i) => done(ValueView::Int(i), env),
        NodeView::Float(t) => done(ValueView::Float(t), env),
        NodeView::Complex(re, im) => done(ValueView::Complex(re, im), env),
        NodeView::Bool(b) => done(ValueView::Bool(b), env),
        NodeView::String(s) => done(ValueView::Literal(s), env),
        NodeView::Symbol(name) => match lookup(env, name) {
            Some(v) => done(v, env),
            None => done(ValueView::Symbol(name), env),
        },
        NodeView::List(children) => if children.len() == 0 {
            failed(invalid_call(), env)
        } else {
            let o = eval(host, depth, steps, env, children[0]);
            match o.result {
                Err(e) => o,
                Ok(ValueView::Symbol(name)) => failed(unknown_function(name), o.env),
                Ok(ValueView::Function(_, p)) => apply_primitive(
                    host, depth,
                    steps,
                    o.env,
                    p,
                    children.subrange(1, children.len() as int),
                ),
                Ok(ValueView::Lambda(l)) => apply_lambda(host, depth, steps, o.env, l, children),
                Ok(ValueView::NodeWrapper(n)) => eval(
                    host, depth,
                    steps,
                    o.env,
                    NodeView::List(children.update(0, n)),
                ),
                Ok(_) => failed(invalid_call(), o.env),
            }
        },
    }
}

/// The values of the nodes from position `i` on, evaluated from left to
/// right, after the values `acc`. The first failure ends it.
pub open spec fn eval_args(
    host: Host, depth: nat,
    steps: nat,
    env: Seq<Scope>,
    nodes: Seq<NodeView>,
    i: nat,
    acc: Seq<ValueView>,
) -> Outcomes
    decreases depth, 5nat, nodes.len() - i,
{
    if i >= nodes.len() {
        Outcomes { result: Ok(acc), env }
    } else {
        let o = eval(host, depth, steps, env, nodes[i as int]);
        match o.result {
            Err(e) => Outcomes { result: Err(e), env: o.env },
            Ok(v) => eval_args(host, depth, steps, o.env, nodes, i + 1, acc.push(v)),
        }
    }
}

/// The values of the arguments of a call of a procedure, the parameters
/// from position `i` on. A parameter that is no symbol ends it, before
/// its argument is evaluated.
pub open spec fn bind_params(
    host: Host, depth: nat,
    steps: nat,
    env: Seq<Scope>,
    params: Seq<NodeView>,
    nodes: Seq<NodeView>,
    i: nat,
    acc: Seq<ValueView>,
) -> Outcomes
    decreases depth, 6nat, params.len() - i,
{
    if i >= params.len() || i + 1 >= nodes.len() {
        Outcomes { result: Ok(acc), env }
    } else if !(params[i as int] is Symbol) {
        Outcomes { result: Err(invalid_parameter(params[i as int])), env }
    } else {
        let o = eval(host, depth, steps, env, nodes[i as int + 1]);
        match o.result {
            Err(e) => Outcomes { result: Err(e), env: o.env },
            Ok(v) => bind_params(host, depth, steps, o.env, params, nodes, i + 1, acc.push(v)),
        }
    }
}

/// The call of a procedure. `nodes` is the whole call: the callee, then the
/// arguments, as many as the procedure has parameters. The arguments are
/// evaluated in the caller's scopes. The body, with the values in place of
/// the parameters, is reduced once in a new scope that lies inside the
/// scopes as they were before the arguments were evaluated, and that scope
/// is given up afterwards.
pub open spec fn apply_lambda(
    host: Host, depth: nat,
    steps: nat,
    env: Seq<Scope>,
    l: LambdaView,
    nodes: Seq<NodeView>,
) -> Outcome
    decreases depth, 7nat, 0nat,
{
    if nodes.len() == 0 {
        failed(invalid_call(), env)
    } else if nodes.len() - 1 != l.params.len() {
        failed(arity_mismatch(nodes[0], l.params.len(), (nodes.len() - 1) as nat), env)
    } else {
        let b = bind_params(host, depth, steps, env, l.params, nodes, 0, Seq::empty());
        match b.result {
            Err(e) => failed(e, b.env),
            Ok(values) => if depth == 0 {
                failed(depth_error(), b.env)
            } else {
                let o = step(
                    host, (depth - 1) as nat,
                    steps,
                    bound_params(nested(env), l.params, values),
                    substituted(l.body, l.params, values),
                );
                Outcome { result: o.result, env: b.env }
            },
        }
    }
}

/// `and` and `or`: the arguments from position `i` on are evaluated from
/// left to right until one decides, and no further. `and` is decided by
/// the first false argument, `or` by the first true one.
pub open spec fn connective(
    host: Host, depth: nat,
    steps: nat,
    env: Seq<Scope>,
    op: Primitive,
    args: Seq<NodeView>,
    i: nat,
) -> Outcome
    decreases depth, 8nat, args.len() - i,
{
    if i >= args.len() {
        done(ValueView::Bool(op == Primitive::And), env)
    } else {
        let o = eval(host, depth, steps, env, args[i as int]);
        match o.result {
            Err(e) => o,
            Ok(ValueView::Bool(b)) => if b == (op == Primitive::And) {
                connective(host, depth, steps, o.env, op, args, i + 1)
            } else {
                done(ValueView::Bool(b), o.env)
            },
            Ok(ValueView::Symbol(name)) => failed(unknown_symbol(name), o.env),
            Ok(_) => failed(invalid_type(op), o.env),
        }
    }
}

/// The forms of a `begin` from position `i` on, evaluated in turn; the
/// value of the last one counts, `last` where none is left.
pub open spec fn sequence(
    host: Host, depth: nat,
    steps: nat,
    env: Seq<Scope>,
    forms: Seq<NodeView>,
    i: nat,
    last: ValueView,
) -> Outcome
    decreases depth, 8nat, forms.len() - i,
{
    if i >= forms.len() {
        done(last, env)
    } else {
        let o = eval(host, depth, steps, env, forms[i as int]);
        match o.result {
            Err(e) => o,
            Ok(v) => sequence(host, depth, steps, o.env, forms, i + 1, v),
        }
    }
}

/// The call of `f` with one value as its argument.
pub open spec fn call_of(f: ValueView, item: ValueView) -> NodeView {
    NodeView::List(
        seq![NodeView::ValueWrapper(Box::new(f)), NodeView::ValueWrapper(Box::new(item))],
    )
}

/// `map` over the items from position `i` on: `f` is called with each, and
/// the first failure ends it.
pub open spec fn map_items(
    host: Host, depth: nat,
    steps: nat,
    env: Seq<Scope>,
    f: ValueView,
    items: Seq<ValueView>,
    i: nat,
    acc: Seq<ValueView>,
) -> Outcome
    decreases depth, 8nat, items.len() - i,
{
    if i >= items.len() {
        done(ValueView::List(acc), env)
    } else {
        let o = eval(host, depth, steps, env, call_of(f, items[i as int]));
        match o.result {
            Err(e) => o,
            Ok(v) => map_items(host, depth, steps, o.env, f, items, i + 1, acc.push(v)),
        }
    }
}

/// `define` and `set!`: the value of the second argument is bound to the
/// symbol that is the first, in the innermost scope. Where the first
/// argument is a list `(name params...)`, the name is bound to the
/// procedure with these parameters and the further arguments as its body.
pub open spec fn define(host: Host, depth: nat, steps: nat, env: Seq<Scope>, args: Seq<NodeView>) -> Outcome
    decreases depth, 8nat, 0nat,
{
    if args.len() < 2 {
        failed(exactly_two(Primitive::Define), env)
    } else {
        match args[0] {
            NodeView::Symbol(name) => if args.len() != 2 {
                failed(exactly_two(Primitive::Define), env)
            } else {
                let o = eval(host, depth, steps, env, args[1]);
                match o.result {
                    Err(e) => o,
                    Ok(v) => done(ValueView::Void, bound(o.env, name, v)),
                }
            },
            NodeView::List(signature) => if signature.len() > 0 && signature[0] is Symbol {
                done(
                    ValueView::Void,
                    bound(
                        env,
                        param_name(signature[0]),
                        ValueView::Lambda(
                            LambdaView {
                                params: signature.subrange(1, signature.len() as int),
                                body: body_of(args.subrange(1, args.len() as int)),
                            },
                        ),
                    ),
                )
            } else {
                failed(cannot_define(args[0]), env)
            },
            _ => failed(cannot_define(args[0]), env),
        }
    }
}

/// The call of a built-in operation with the nodes of its arguments. Each
/// operation decides which of them it evaluates: `quote` and `lambda`
/// none, `if` its test, `and` and `or` as many as they need. `if` hands
/// back the branch it chooses without evaluating it. `begin` works in a
/// scope of its own. Every other operation is strict: its arguments are
/// counted, then evaluated from left to right, then handed over.
pub open spec fn apply_primitive(
    host: Host, depth: nat,
    steps: nat,
    env: Seq<Scope>,
    op: Primitive,
    args: Seq<NodeView>,
) -> Outcome
    decreases depth, 9nat, 0nat,
{
    match op {
        Primitive::Quote => if args.len() != 1 {
            failed(exactly_one(op), env)
        } else {
            done(quoted(args[0]), env)
        },
        Primitive::MakeLambda => Outcome { result: lambda_result(args), env },
        Primitive::If => if args.len() != 3 {
            failed(exactly_three(op), env)
        } else {
            let o = eval(host, depth, steps, env, args[0]);
            match o.result {
                Err(e) => o,
                Ok(ValueView::Bool(b)) => done(
                    ValueView::NodeWrapper(
                        if b {
                            args[1]
                        } else {
                            args[2]
                        },
                    ),
                    o.env,
                ),
                Ok(_) => failed(boolean_test(), o.env),
            }
        },
        Primitive::Define => define(host, depth, steps, env, args),
        Primitive::And => connective(host, depth, steps, env, op, args, 0),
        Primitive::Or => connective(host, depth, steps, env, op, args, 0),
        Primitive::Begin => Outcome {
            result: sequence(host, depth, steps, nested(env), args, 0, ValueView::Void).result,
            env,
        },
        Primitive::MapList => if args.len() != 2 {
            failed(exactly_two(op), env)
        } else {
            let f = eval(host, depth, steps, env, args[0]);
            match f.result {
                Err(e) => f,
                Ok(fv) => {
                    let l = eval(host, depth, steps, f.env, args[1]);
                    match l.result {
                        Err(e) => l,
                        Ok(ValueView::List(items)) => if fv is Function || fv is Lambda {
                            map_items(host, depth, steps, l.env, fv, items, 0, Seq::empty())
                        } else {
                            failed(invalid_type(op), l.env)
                        },
                        Ok(_) => failed(invalid_type(op), l.env),
                    }
                },
            }
        },
        _ => if arity_error(op, args.len()) is Some {
            failed(arity_error(op, args.len())->0, env)
        } else {
            let a = eval_args(host, depth, steps, env, args, 0, Seq::empty());
            match a.result {
                Err(e) => failed(e, a.env),
                Ok(vals) => Outcome { result: strict_result(host, op, vals), env: a.env },
            }
        },
    }
}

} // verus!
