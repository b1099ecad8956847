//! The evaluator: one reduction at a time, a loop that follows tail calls,
//! and the built-in operations that decide which arguments they evaluate.

use crate::environment::{nested, Environment};
pub use crate::model::{EvalError, Value};
use crate::model::{
    clone_nodes, lemma_lambda_view, lemma_list_node_view, lemma_list_value_view, node_text,
    nodes_view, result_view, values_view, Lambda, Node, NodeView, Primitive, ValueView,
};
use crate::primitives::{
    apply_strict, check_arity, model_of, suffix_error, text_error, wrong_type, Exact, Inexact,
};
use crate::render::write_node;
use crate::semantics::{
    apply_lambda, apply_primitive, arity_mismatch, begin_word, bind_params, body_of,
    bound_params, call_of, connective, define, eval, eval_args, failed, lambda_result, map_items,
    param_index, quoted, run, sequence, step, step_error, substituted, Outcome, Outcomes,
};
use crate::text::{from_chars, push_nat, push_str};
use vstd::prelude::*;

verus! {

/// How deep evaluations may nest unless the caller sets another limit. Every
/// level of nesting uses the call stack of the machine, which the evaluator
/// cannot measure; beyond the limit an evaluation ends in an error, where
/// without one it would end the process. The default is the nesting that a
/// thread with a stack of 2 MB holds, the stack that threads have unless they
/// ask for more. Where the stack is larger, `depth` may be set higher.
pub const DEFAULT_DEPTH: usize = 1000;

/// How many reductions one evaluation may make unless the caller sets
/// another limit.
pub const DEFAULT_STEPS: u64 = 0xFFFF_FFFF_FFFF_FFFF;

/// An evaluator with its scopes, its two limits and the host that computes
/// on inexact numbers.
pub struct Interpreter<H: Inexact = Exact> {
    pub env: Environment,
    /// How deep evaluations may still nest.
    pub depth: usize,
    /// How many reductions one evaluation may make.
    pub steps: u64,
    /// What computes on inexact numbers.
    pub host: H,
}

impl<H: Inexact + Clone> Clone for Interpreter<H> {
    fn clone(&self) -> (r: Self)
        ensures
            r.env@ == self.env@,
            r.depth == self.depth,
            r.steps == self.steps,
    {
        Interpreter {
            env: self.env.clone(),
            depth: self.depth,
            steps: self.steps,
            host: self.host.clone(),
        }
    }
}

/// A value as a node.
pub fn convert_to_node(val: Value) -> (r: Node)
    ensures
        r@ == NodeView::ValueWrapper(Box::new(val@)),
{
    Node::ValueWrapper(Box::new(val))
}

/// The model of a result that holds several values.
pub open spec fn values_result_view(r: Result<Vec<Value>, EvalError>) -> Result<
    Seq<ValueView>,
    Seq<char>,
> {
    match r {
        Ok(v) => Ok(values_view(v@)),
        Err(e) => Err(e.message@),
    }
}

fn plain_error(text: &str) -> (e: EvalError)
    ensures
        e.message@ == text@,
{
    EvalError { message: String::from_str(text) }
}

fn node_error(prefix: &str, node: &Node) -> (e: EvalError)
    ensures
        e.message@ == prefix@ + node_text(node@),
{
    let mut out: Vec<char> = Vec::new();
    push_str(&mut out, prefix);
    write_node(node, &mut out);
    assert(out@ =~= prefix@ + node_text(node@));
    EvalError { message: from_chars(&out) }
}

fn arity_error_for(callee: &Node, expected: usize, actual: usize) -> (e: EvalError)
    ensures
        e.message@ == arity_mismatch(callee@, expected as nat, actual as nat),
{
    let mut out: Vec<char> = Vec::new();
    write_node(callee, &mut out);
    push_str(&mut out, " expects ");
    push_nat(&mut out, expected as u64);
    push_str(&mut out, " params, got ");
    push_nat(&mut out, actual as u64);
    assert(out@ =~= arity_mismatch(callee@, expected as nat, actual as nat));
    EvalError { message: from_chars(&out) }
}

/// The nodes of a call after the callee.
fn arguments(nodes: &Vec<Node>) -> (r: Vec<Node>)
    requires
        nodes@.len() > 0,
    ensures
        nodes_view(r@) == nodes_view(nodes@).subrange(1, nodes@.len() as int),
{
    let mut out: Vec<Node> = Vec::new();
    let mut i: usize = 1;
    while i < nodes.len()
        invariant
            1 <= i <= nodes.len(),
            out@.len() == i - 1,
            forall|j: int| 0 <= j < out@.len() ==> out@[j]@ == nodes@[j + 1]@,
        decreases nodes.len() - i,
    {
        out.push(nodes[i].clone());
        i += 1;
    }
    assert(nodes_view(out@) =~= nodes_view(nodes@).subrange(1, nodes@.len() as int));
    out
}

/// Quotes a node.
#[verifier::loop_isolation(false)]
pub fn quote(node: &Node) -> (r: Value)
    ensures
        r@ == quoted(node@),
    decreases node,
{
    match node {
        Node::List(children) => {
            proof {
                lemma_list_node_view(*children);
            }
            let mut out: Vec<Value> = Vec::new();
            let mut i: usize = 0;
            while i < children.len()
                invariant
                    i <= children.len(),
                    out@.len() == i,
                    forall|j: int| 0 <= j < i ==> out@[j]@ == quoted(children@[j]@),
                decreases children.len() - i,
            {
                out.push(quote(&children[i]));
                i += 1;
            }
            proof {
                lemma_list_value_view(out);
                assert(values_view(out@) =~= quoted(node@)->List_0);
            }
            Value::List(out)
        },
        _ => Value::Literal(node.to_string()),
    }
}

fn find_param(params: &Vec<Node>, label: &String) -> (r: Option<usize>)
    ensures
        match r {
            Some(k) => param_index(nodes_view(params@), label@, 0) == Some(k as int) && k
                < params@.len(),
            None => param_index(nodes_view(params@), label@, 0) is None,
        },
{
    let mut i: usize = 0;
    let ghost all = nodes_view(params@);
    while i < params.len()
        invariant
            i <= params.len(),
            all == nodes_view(params@),
            param_index(all, label@, i as int) == param_index(all, label@, 0),
        decreases params.len() - i,
    {
        assert(all[i as int] == params@[i as int]@);
        let hit = match &params[i] {
            Node::Symbol(p) => *p == *label,
            _ => false,
        };
        if hit {
            return Some(i);
        }
        i += 1;
    }
    None
}

/// Puts the values of the parameters in place of their names, through
/// every nested list of the body.
#[verifier::loop_isolation(false)]
pub fn inline_lambda_nodes(node: &Node, params: &Vec<Node>, values: &Vec<Value>) -> (r: Node)
    ensures
        r@ == substituted(node@, nodes_view(params@), values_view(values@)),
    decreases node,
{
    match node {
        Node::List(children) => {
            proof {
                lemma_list_node_view(*children);
            }
            let mut out: Vec<Node> = Vec::new();
            let mut i: usize = 0;
            while i < children.len()
                invariant
                    i <= children.len(),
                    out@.len() == i,
                    forall|j: int|
                        0 <= j < i ==> out@[j]@ == substituted(
                            children@[j]@,
                            nodes_view(params@),
                            values_view(values@),
                        ),
                decreases children.len() - i,
            {
                out.push(inline_lambda_nodes(&children[i], params, values));
                i += 1;
            }
            proof {
                lemma_list_node_view(out);
                assert(nodes_view(out@) =~= substituted(
                    node@,
                    nodes_view(params@),
                    values_view(values@),
                )->List_0);
            }
            Node::List(out)
        },
        Node::Symbol(label) => match find_param(params, label) {
            Some(k) => if k < values.len() {
                Node::ValueWrapper(Box::new(values[k].clone()))
            } else {
                node.clone()
            },
            None => node.clone(),
        },
        _ => node.clone(),
    }
}

/// Makes one body of the forms from position `from` on.
fn make_body(forms: &Vec<Node>, from: usize) -> (r: Node)
    requires
        from <= forms@.len(),
    ensures
        r@ == body_of(nodes_view(forms@).subrange(from as int, forms@.len() as int)),
{
    let ghost rest = nodes_view(forms@).subrange(from as int, forms@.len() as int);
    if forms.len() - from == 1 {
        assert(rest[0] == forms@[from as int]@);
        forms[from].clone()
    } else {
        let mut out: Vec<Node> = Vec::new();
        let mut word: Vec<char> = Vec::new();
        word.push('b');
        word.push('e');
        word.push('g');
        word.push('i');
        word.push('n');
        assert(word@ =~= begin_word());
        out.push(Node::Symbol(from_chars(&word)));
        let mut i: usize = from;
        while i < forms.len()
            invariant
                from <= i <= forms.len(),
                out@.len() == 1 + i - from,
                out@[0]@ == NodeView::Symbol(begin_word()),
                forall|j: int| 1 <= j < out@.len() ==> (#[trigger] out@[j])@ == forms@[from + j - 1]@,
            decreases forms.len() - i,
        {
            out.push(forms[i].clone());
            i += 1;
        }
        proof {
            lemma_list_node_view(out);
            assert(nodes_view(out@) =~= seq![NodeView::Symbol(begin_word())] + rest);
        }
        Node::List(out)
    }
}

/// Makes the procedure of `(lambda (params...) body...)`.
pub fn make_lambda(args: &Vec<Node>) -> (r: Result<Value, EvalError>)
    ensures
        result_view(r) == lambda_result(nodes_view(args@)),
{
    if args.len() < 2 {
        return Err(suffix_error(Primitive::MakeLambda, " takes at least two arguments"));
    }
    assert(nodes_view(args@)[0] == args@[0]@);
    match &args[0] {
        Node::List(params) => {
            proof {
                lemma_list_node_view(*params);
            }
            let l = Lambda::new(clone_nodes(params), make_body(args, 1));
            Ok(Value::Lambda(l))
        },
        _ => Err(plain_error("'lambda' requires a parameter list")),
    }
}

impl<H: Inexact + Default> Interpreter<H> {
    /// An evaluator whose one scope holds the built-in operations.
    pub fn new() -> (r: Interpreter<H>)
        ensures
            r.env@ == seq![crate::environment::root_scope()],
            r.depth == DEFAULT_DEPTH,
            r.steps == DEFAULT_STEPS,
            call_ensures(H::default, (), r.host),
    {
        let env = Environment::new(None);
        assert(env@ =~= seq![crate::environment::root_scope()]);
        Interpreter { env, depth: DEFAULT_DEPTH, steps: DEFAULT_STEPS, host: H::default() }
    }

    /// An evaluator over the given scopes.
    pub fn new_with_env(env: Environment) -> (r: Interpreter<H>)
        ensures
            r.env == env,
            r.depth == DEFAULT_DEPTH,
            r.steps == DEFAULT_STEPS,
            call_ensures(H::default, (), r.host),
    {
        Interpreter { env, depth: DEFAULT_DEPTH, steps: DEFAULT_STEPS, host: H::default() }
    }
}

impl<H: Inexact> Interpreter<H> {
    /// An evaluator with the given host, whose one scope holds the built-in
    /// operations.
    pub fn with_host(host: H) -> (r: Interpreter<H>)
        ensures
            r.env@ == seq![crate::environment::root_scope()],
            r.depth == DEFAULT_DEPTH,
            r.steps == DEFAULT_STEPS,
            r.host == host,
    {
        let env = Environment::new(None);
        assert(env@ =~= seq![crate::environment::root_scope()]);
        Interpreter { env, depth: DEFAULT_DEPTH, steps: DEFAULT_STEPS, host }
    }

    /// What an evaluation has left: its result, and the scopes of this
    /// evaluator.
    pub open spec fn outcome(&self, r: Result<Value, EvalError>) -> Outcome {
        Outcome { result: result_view(r), env: self.env@ }
    }

    /// What the evaluation of several expressions has left.
    pub open spec fn outcomes(&self, r: Result<Vec<Value>, EvalError>) -> Outcomes {
        Outcomes { result: values_result_view(r), env: self.env@ }
    }

    /// Evaluates an expression.
    pub fn eval(&mut self, tree: Node) -> (r: Result<Value, EvalError>)
        ensures
            final(self).outcome(r) == eval(
                model_of(old(self).host), old(self).depth as nat,
                old(self).steps as nat,
                old(self).env@,
                tree@,
            ),
            final(self).depth == old(self).depth,
            final(self).steps == old(self).steps,
        final(self).host == old(self).host,
    {
        self.eval_node(&tree)
    }

    /// Evaluates a node: reduces it until the result is no expression in
    /// tail position any more.
    #[verifier::loop_isolation(false)]
    pub fn eval_node(&mut self, node: &Node) -> (r: Result<Value, EvalError>)
        ensures
            final(self).outcome(r) == eval(
                model_of(old(self).host), old(self).depth as nat,
                old(self).steps as nat,
                old(self).env@,
                node@,
            ),
            final(self).depth == old(self).depth,
            final(self).steps == old(self).steps,
        final(self).host == old(self).host,
        decreases old(self).depth, 0nat, 0nat,
    {
        if self.depth == 0 {
            return Err(plain_error("Recursion limit exceeded"));
        }
        let ghost goal = eval(model_of(self.host), self.depth as nat, self.steps as nat, self.env@, node@);
        self.depth = self.depth - 1;
        let ghost d = self.depth as nat;
        let ghost s = self.steps as nat;
        let mut cur = node.clone();
        let mut left = self.steps;
        let mut finished = false;
        let mut result: Result<Value, EvalError> = Err(plain_error("Step limit exceeded"));
        while left > 0 && !finished
            invariant
                self.depth == d,
                self.steps == s,
                self.host == old(self).host,
                d + 1 == old(self).depth,
                finished ==> self.outcome(result) == goal,
                !finished ==> run(model_of(old(self).host), d, s, left as nat, self.env@, cur@) == goal,
                !finished ==> result_view(result) == Err::<ValueView, Seq<char>>(step_error()),
            decreases
                    left + if finished {
                        0int
                    } else {
                        1int
                    },
        {
            let r = self.eval_node_wrapped(&cur);
            match r {
                Ok(Value::NodeWrapper(next)) => {
                    cur = next;
                    left = left - 1;
                },
                other => {
                    result = other;
                    finished = true;
                },
            }
        }
        self.depth = self.depth + 1;
        result
    }

    /// Makes one reduction of a node. The result may be an expression in
    /// tail position that is still to be evaluated.
    pub fn eval_node_wrapped(&mut self, node: &Node) -> (r: Result<Value, EvalError>)
        ensures
            final(self).outcome(r) == step(
                model_of(old(self).host), old(self).depth as nat,
                old(self).steps as nat,
                old(self).env@,
                node@,
            ),
            final(self).depth == old(self).depth,
            final(self).steps == old(self).steps,
        final(self).host == old(self).host,
        decreases old(self).depth, 10nat, 0nat,
    {
        match node {
            Node::ValueWrapper(v) => Ok((**v).clone()),
            Node::Int(i) => Ok(Value::Int(*i)),
            Node::Float(t) => Ok(Value::Float(t.clone())),
            Node::Complex(re, im) => Ok(Value::Complex(re.clone(), im.clone())),
            Node::Bool(b) => Ok(Value::Bool(*b)),
            Node::String(s) => Ok(Value::Literal(s.clone())),
            Node::Symbol(name) => match self.env.get(name) {
                Some(v) => Ok(v.clone()),
                None => Ok(Value::Symbol(name.clone())),
            },
            Node::List(nodes) => {
                proof {
                    lemma_list_node_view(*nodes);
                }
                if nodes.len() == 0 {
                    return Err(plain_error("Invalid function call"));
                }
                assert(nodes_view(nodes@)[0] == nodes@[0]@);
                match self.eval_node(&nodes[0]) {
                    Err(e) => Err(e),
                    Ok(f) => match f {
                        Value::Symbol(name) => Err(
                            text_error("Unknown function ", name.as_str()),
                        ),
                        Value::Function(_, op) => {
                            let args = arguments(nodes);
                            self.apply_primitive(op, &args)
                        },
                        Value::Lambda(l) => self.eval_lambda(l, nodes),
                        Value::NodeWrapper(n) => {
                            let ghost nv = n@;
                            let mut again = clone_nodes(nodes);
                            again.set(0, n);
                            proof {
                                lemma_list_node_view(again);
                                assert(nodes_view(again@) =~= nodes_view(nodes@).update(0, nv));
                            }
                            self.eval_node(&Node::List(again))
                        },
                        _ => Err(plain_error("Invalid function call")),
                    },
                }
            },
        }
    }

    /// Evaluates nodes from left to right, up to the first failure.
    #[verifier::loop_isolation(false)]
    pub fn eval_args(&mut self, nodes: &Vec<Node>) -> (r: Result<Vec<Value>, EvalError>)
        ensures
            final(self).outcomes(r) == eval_args(
                model_of(old(self).host), old(self).depth as nat,
                old(self).steps as nat,
                old(self).env@,
                nodes_view(nodes@),
                0,
                Seq::empty(),
            ),
            final(self).depth == old(self).depth,
            final(self).steps == old(self).steps,
        final(self).host == old(self).host,
        decreases old(self).depth, 5nat, 0nat,
    {
        let ghost d = self.depth as nat;
        let ghost s = self.steps as nat;
        let ghost all = nodes_view(nodes@);
        let ghost goal = eval_args(model_of(old(self).host), d, s, self.env@, all, 0, Seq::empty());
        let mut vals: Vec<Value> = Vec::new();
        let mut i: usize = 0;
        assert(values_view(vals@) =~= Seq::<ValueView>::empty());
        while i < nodes.len()
            invariant
                i <= nodes.len(),
                self.depth == d,
                self.steps == s,
                self.host == old(self).host,
                d == old(self).depth,
                all == nodes_view(nodes@),
                eval_args(model_of(old(self).host), d, s, self.env@, all, i as nat, values_view(vals@)) == goal,
            decreases nodes.len() - i,
        {
            assert(all[i as int] == nodes@[i as int]@);
            let ghost before = values_view(vals@);
            match self.eval_node(&nodes[i]) {
                Err(e) => {
                    return Err(e);
                },
                Ok(v) => {
                    vals.push(v);
                    assert(values_view(vals@) =~= before.push(v@));
                },
            }
            i += 1;
        }
        Ok(vals)
    }

    /// Calls a built-in operation with the nodes of its arguments.
    pub fn apply_primitive(&mut self, op: Primitive, args: &Vec<Node>) -> (r: Result<
        Value,
        EvalError,
    >)
        ensures
            final(self).outcome(r) == apply_primitive(
                model_of(old(self).host), old(self).depth as nat,
                old(self).steps as nat,
                old(self).env@,
                op,
                nodes_view(args@),
            ),
            final(self).depth == old(self).depth,
            final(self).steps == old(self).steps,
        final(self).host == old(self).host,
        decreases old(self).depth, 9nat, 0nat,
    {
        let ghost all = nodes_view(args@);
        match op {
            Primitive::Quote => {
                if args.len() != 1 {
                    Err(suffix_error(op, " takes exactly one argument"))
                } else {
                    assert(all[0] == args@[0]@);
                    Ok(quote(&args[0]))
                }
            },
            Primitive::MakeLambda => make_lambda(args),
            Primitive::If => if_fn(self, args),
            Primitive::Define => def(self, args),
            Primitive::And => connect(self, op, args),
            Primitive::Or => connect(self, op, args),
            Primitive::Begin => begin(self, args),
            Primitive::MapList => map_list(self, args),
            _ => {
                if let Some(e) = check_arity(op, args.len()) {
                    return Err(e);
                }
                match self.eval_args(args) {
                    Err(e) => Err(e),
                    Ok(vals) => apply_strict(&self.host, op, vals),
                }
            },
        }
    }

    /// Calls a procedure. `nodes` is the whole call: the callee, then the
    /// arguments.
    #[verifier::loop_isolation(false)]
    pub fn eval_lambda(&mut self, lambda: Lambda, nodes: &Vec<Node>) -> (r: Result<
        Value,
        EvalError,
    >)
        ensures
            final(self).outcome(r) == apply_lambda(
                model_of(old(self).host), old(self).depth as nat,
                old(self).steps as nat,
                old(self).env@,
                lambda@,
                nodes_view(nodes@),
            ),
            nodes@.len() > 0 && nodes@.len() - 1 != lambda.params@.len() ==> final(self).outcome(r)
                == failed(
                arity_mismatch(
                    nodes@[0]@,
                    lambda.params@.len(),
                    (nodes@.len() - 1) as nat,
                ),
                old(self).env@,
            ),
            final(self).depth == old(self).depth,
            final(self).steps == old(self).steps,
        final(self).host == old(self).host,
        decreases old(self).depth, 7nat, 0nat,
    {
        let ghost d = self.depth as nat;
        let ghost s = self.steps as nat;
        let ghost env0 = self.env@;
        let ghost all = nodes_view(nodes@);
        let ghost params = nodes_view(lambda.params@);
        proof {
            lemma_lambda_view(lambda);
        }
        if nodes.len() == 0 {
            return Err(plain_error("Invalid function call"));
        }
        if nodes.len() - 1 != lambda.params.len() {
            assert(all[0] == nodes@[0]@);
            return Err(arity_error_for(&nodes[0], lambda.params.len(), nodes.len() - 1));
        }
        let ghost goal = bind_params(model_of(old(self).host), d, s, env0, params, all, 0, Seq::empty());
        let mut scope = Environment::new_empty(Some(Box::new(self.env.clone())));
        assert(scope@ =~= nested(env0));
        let mut values: Vec<Value> = Vec::new();
        let mut i: usize = 0;
        assert(values_view(values@) =~= Seq::<ValueView>::empty());
        while i < lambda.params.len()
            invariant
                i <= lambda.params.len(),
                nodes.len() == lambda.params.len() + 1,
                values@.len() == i,
                self.depth == d,
                self.steps == s,
                self.host == old(self).host,
                d == old(self).depth,
                all == nodes_view(nodes@),
                params == nodes_view(lambda.params@),
                bind_params(model_of(old(self).host), d, s, self.env@, params, all, i as nat, values_view(values@)) == goal,
                scope@ == bound_params(nested(env0), params, values_view(values@)),
            decreases lambda.params.len() - i,
        {
            assert(params[i as int] == lambda.params@[i as int]@);
            assert(all[i + 1] == nodes@[i + 1]@);
            let ghost before = values_view(values@);
            match &lambda.params[i] {
                Node::Symbol(name) => {
                    match self.eval_node(&nodes[i + 1]) {
                        Err(e) => {
                            return Err(e);
                        },
                        Ok(v) => {
                            scope.set(name.clone(), v.clone());
                            values.push(v);
                            proof {
                                let now = values_view(values@);
                                assert(now =~= before.push(v@));
                                assert(now.drop_last() =~= before);
                                assert(scope@ == bound_params(nested(env0), params, now));
                            }
                        },
                    }
                },
                other => {
                    return Err(node_error("Invalid parameter ", other));
                },
            }
            i += 1;
        }
        if self.depth == 0 {
            return Err(plain_error("Recursion limit exceeded"));
        }
        let body = inline_lambda_nodes(&lambda.body, &lambda.params, &values);
        core::mem::swap(&mut self.env, &mut scope);
        self.depth = self.depth - 1;
        let r = self.eval_node_wrapped(&body);
        self.depth = self.depth + 1;
        self.env = scope;
        r
    }
}

/// `if`: evaluates the test and hands back the branch it chooses, still to
/// be evaluated.
pub fn if_fn<H: Inexact>(interpreter: &mut Interpreter<H>, xs: &Vec<Node>) -> (r: Result<Value, EvalError>)
    ensures
        final(interpreter).outcome(r) == apply_primitive(
            model_of(old(interpreter).host), old(interpreter).depth as nat,
            old(interpreter).steps as nat,
            old(interpreter).env@,
            Primitive::If,
            nodes_view(xs@),
        ),
        final(interpreter).depth == old(interpreter).depth,
        final(interpreter).steps == old(interpreter).steps,
        final(interpreter).host == old(interpreter).host,
    decreases old(interpreter).depth, 8nat, 0nat,
{
    if xs.len() != 3 {
        return Err(suffix_error(Primitive::If, " takes exactly three arguments"));
    }
    let ghost all = nodes_view(xs@);
    assert(all[0] == xs@[0]@ && all[1] == xs@[1]@ && all[2] == xs@[2]@);
    match interpreter.eval_node(&xs[0]) {
        Err(e) => Err(e),
        Ok(Value::Bool(test)) => {
            if test {
                Ok(Value::NodeWrapper(xs[1].clone()))
            } else {
                Ok(Value::NodeWrapper(xs[2].clone()))
            }
        },
        Ok(_) => Err(plain_error("'if' requires a boolean test")),
    }
}

/// `define` and `set!`: binds a name in the innermost scope.
pub fn def<H: Inexact>(interpreter: &mut Interpreter<H>, xs: &Vec<Node>) -> (r: Result<Value, EvalError>)
    ensures
        final(interpreter).outcome(r) == define(
            model_of(old(interpreter).host), old(interpreter).depth as nat,
            old(interpreter).steps as nat,
            old(interpreter).env@,
            nodes_view(xs@),
        ),
        final(interpreter).depth == old(interpreter).depth,
        final(interpreter).steps == old(interpreter).steps,
        final(interpreter).host == old(interpreter).host,
    decreases old(interpreter).depth, 8nat, 0nat,
{
    if xs.len() < 2 {
        return Err(suffix_error(Primitive::Define, " takes exactly two arguments"));
    }
    let ghost all = nodes_view(xs@);
    assert(all[0] == xs@[0]@ && all[1] == xs@[1]@);
    match &xs[0] {
        Node::Symbol(name) => {
            if xs.len() != 2 {
                return Err(suffix_error(Primitive::Define, " takes exactly two arguments"));
            }
            match interpreter.eval_node(&xs[1]) {
                Err(e) => Err(e),
                Ok(v) => {
                    interpreter.env.set(name.clone(), v);
                    Ok(Value::Void)
                },
            }
        },
        Node::List(signature) => {
            proof {
                lemma_list_node_view(*signature);
            }
            if signature.len() == 0 {
                return Err(node_error("Can't define ", &xs[0]));
            }
            assert(nodes_view(signature@)[0] == signature@[0]@);
            match &signature[0] {
                Node::Symbol(name) => {
                    let l = Lambda::new(arguments(signature), make_body(xs, 1));
                    interpreter.env.set(name.clone(), Value::Lambda(l));
                    Ok(Value::Void)
                },
                _ => Err(node_error("Can't define ", &xs[0])),
            }
        },
        _ => Err(node_error("Can't define ", &xs[0])),
    }
}

/// `and` and `or`: evaluates the arguments from left to right until one
/// decides.
#[verifier::loop_isolation(false)]
pub fn connect<H: Inexact>(interpreter: &mut Interpreter<H>, op: Primitive, xs: &Vec<Node>) -> (r: Result<
    Value,
    EvalError,
>)
    ensures
        final(interpreter).outcome(r) == connective(
            model_of(old(interpreter).host), old(interpreter).depth as nat,
            old(interpreter).steps as nat,
            old(interpreter).env@,
            op,
            nodes_view(xs@),
            0,
        ),
        final(interpreter).depth == old(interpreter).depth,
        final(interpreter).steps == old(interpreter).steps,
        final(interpreter).host == old(interpreter).host,
    decreases old(interpreter).depth, 8nat, 0nat,
{
    let ghost d = interpreter.depth as nat;
    let ghost s = interpreter.steps as nat;
    let ghost all = nodes_view(xs@);
    let ghost goal = connective(model_of(old(interpreter).host), d, s, interpreter.env@, op, all, 0);
    let neutral = match op {
        Primitive::And => true,
        _ => false,
    };
    let mut i: usize = 0;
    while i < xs.len()
        invariant
            i <= xs.len(),
            interpreter.depth == d,
            interpreter.steps == s,
                interpreter.host == old(interpreter).host,
            d == old(interpreter).depth,
            all == nodes_view(xs@),
            neutral == (op == Primitive::And),
            connective(model_of(old(interpreter).host), d, s, interpreter.env@, op, all, i as nat) == goal,
        decreases xs.len() - i,
    {
        assert(all[i as int] == xs@[i as int]@);
        match interpreter.eval_node(&xs[i]) {
            Err(e) => {
                return Err(e);
            },
            Ok(Value::Bool(b)) => {
                if b != neutral {
                    return Ok(Value::Bool(b));
                }
            },
            Ok(Value::Symbol(name)) => {
                return Err(text_error("Unknown symbol ", name.as_str()));
            },
            Ok(_) => {
                return Err(wrong_type(op));
            },
        }
        i += 1;
    }
    Ok(Value::Bool(neutral))
}

/// `begin`: evaluates the forms in turn, in a scope of their own, and
/// hands back the value of the last.
#[verifier::loop_isolation(false)]
pub fn begin<H: Inexact>(interpreter: &mut Interpreter<H>, xs: &Vec<Node>) -> (r: Result<Value, EvalError>)
    ensures
        final(interpreter).outcome(r) == apply_primitive(
            model_of(old(interpreter).host), old(interpreter).depth as nat,
            old(interpreter).steps as nat,
            old(interpreter).env@,
            Primitive::Begin,
            nodes_view(xs@),
        ),
        final(interpreter).depth == old(interpreter).depth,
        final(interpreter).steps == old(interpreter).steps,
        final(interpreter).host == old(interpreter).host,
    decreases old(interpreter).depth, 8nat, 0nat,
{
    let ghost d = interpreter.depth as nat;
    let ghost s = interpreter.steps as nat;
    let ghost all = nodes_view(xs@);
    let mut scope = Environment::new_empty(Some(Box::new(interpreter.env.clone())));
    assert(scope@ =~= nested(interpreter.env@));
    let ghost goal = sequence(model_of(old(interpreter).host), d, s, scope@, all, 0, ValueView::Void);
    core::mem::swap(&mut interpreter.env, &mut scope);
    let mut last = Value::Void;
    let mut i: usize = 0;
    while i < xs.len()
        invariant
            i <= xs.len(),
            interpreter.depth == d,
            interpreter.steps == s,
                interpreter.host == old(interpreter).host,
            d == old(interpreter).depth,
            all == nodes_view(xs@),
            scope@ == old(interpreter).env@,
            sequence(model_of(old(interpreter).host), d, s, interpreter.env@, all, i as nat, last@).result == goal.result,
        decreases xs.len() - i,
    {
        assert(all[i as int] == xs@[i as int]@);
        match interpreter.eval_node(&xs[i]) {
            Err(e) => {
                interpreter.env = scope;
                return Err(e);
            },
            Ok(v) => {
                last = v;
            },
        }
        i += 1;
    }
    interpreter.env = scope;
    Ok(last)
}

/// `map`: calls a procedure or a built-in operation with each item of a
/// list, and hands back the list of the results.
#[verifier::loop_isolation(false)]
pub fn map_list<H: Inexact>(interpreter: &mut Interpreter<H>, xs: &Vec<Node>) -> (r: Result<Value, EvalError>)
    ensures
        final(interpreter).outcome(r) == apply_primitive(
            model_of(old(interpreter).host), old(interpreter).depth as nat,
            old(interpreter).steps as nat,
            old(interpreter).env@,
            Primitive::MapList,
            nodes_view(xs@),
        ),
        final(interpreter).depth == old(interpreter).depth,
        final(interpreter).steps == old(interpreter).steps,
        final(interpreter).host == old(interpreter).host,
    decreases old(interpreter).depth, 8nat, 0nat,
{
    if xs.len() != 2 {
        return Err(suffix_error(Primitive::MapList, " takes exactly two arguments"));
    }
    let ghost d = interpreter.depth as nat;
    let ghost s = interpreter.steps as nat;
    let ghost all = nodes_view(xs@);
    assert(all[0] == xs@[0]@ && all[1] == xs@[1]@);
    let f = match interpreter.eval_node(&xs[0]) {
        Err(e) => {
            return Err(e);
        },
        Ok(v) => v,
    };
    let list = match interpreter.eval_node(&xs[1]) {
        Err(e) => {
            return Err(e);
        },
        Ok(v) => v,
    };
    let callable = match &f {
        Value::Function(_, _) => true,
        Value::Lambda(_) => true,
        _ => false,
    };
    match list {
        Value::List(items) => {
            proof {
                lemma_list_value_view(items);
            }
            if !callable {
                return Err(wrong_type(Primitive::MapList));
            }
            let ghost iv = values_view(items@);
            let ghost goal = map_items(model_of(old(interpreter).host), d, s, interpreter.env@, f@, iv, 0, Seq::empty());
            let mut out: Vec<Value> = Vec::new();
            let mut i: usize = 0;
            assert(values_view(out@) =~= Seq::<ValueView>::empty());
            while i < items.len()
                invariant
                    i <= items.len(),
                    interpreter.depth == d,
                    interpreter.steps == s,
                interpreter.host == old(interpreter).host,
                    d == old(interpreter).depth,
                    iv == values_view(items@),
                    map_items(model_of(old(interpreter).host), d, s, interpreter.env@, f@, iv, i as nat, values_view(out@)) == goal,
                decreases items.len() - i,
            {
                assert(iv[i as int] == items@[i as int]@);
                let mut call: Vec<Node> = Vec::new();
                call.push(convert_to_node(f.clone()));
                call.push(convert_to_node(items[i].clone()));
                proof {
                    lemma_list_node_view(call);
                    assert(nodes_view(call@) =~= call_of(f@, iv[i as int])->List_0);
                }
                let ghost before = values_view(out@);
                match interpreter.eval_node(&Node::List(call)) {
                    Err(e) => {
                        return Err(e);
                    },
                    Ok(v) => {
                        out.push(v);
                        assert(values_view(out@) =~= before.push(v@));
                    },
                }
                i += 1;
            }
            proof {
                lemma_list_value_view(out);
            }
            Ok(Value::List(out))
        },
        _ => Err(wrong_type(Primitive::MapList)),
    }
}

} // verus!
