//! What holds of the reader and the evaluator on every input.

use crate::environment::{bound, lookup, Scope};
use crate::model::{value_text, LambdaView, NodeView, Primitive, ValueView};
use crate::primitives::{
    all_numbers, arity_error, compares, handed_over, is_arithmetic, is_inexact, strict_result,
    Host,
};
use crate::parser::{
    atom_node, atom_with, complex_pattern, initial_state, lex, parse_from, parse_tokens,
    plain_atom, quote_ends, regex_compiles, regex_groups, scan, settled, stands_alone,
    word_state, word_tokens, words_from, ParseState, TokenView,
};
use crate::semantics::{
    apply_lambda, apply_primitive, arity_mismatch, connective, done, eval, eval_args, failed,
    quoted, run, step, substituted, Outcome, Outcomes,
};
use crate::text::{
    all_digits, digit_char, digit_value, digits_value, has_sign, int_literal, int_text, is_digit,
    is_space, lemma_digits_value_push, nat_text, unsigned_part,
};
use vstd::prelude::*;

verus! {

// ---------------------------------------------------------------------
// Calls
// ---------------------------------------------------------------------
/// A call of a procedure with another number of arguments than it has
/// parameters fails, whatever the scopes and the limits, before any
/// argument is evaluated; the message names the callee, the number of
/// parameters and the number of arguments.
pub proof fn law_arity(
    host: Host, depth: nat,
    steps: nat,
    env: Seq<Scope>,
    l: LambdaView,
    nodes: Seq<NodeView>,
)
    requires
        nodes.len() > 0,
        nodes.len() - 1 != l.params.len(),
    ensures
        apply_lambda(host, depth, steps, env, l, nodes) == failed(
            arity_mismatch(nodes[0], l.params.len(), (nodes.len() - 1) as nat),
            env,
        ),
{
}

/// A list whose first element evaluates to a procedure is a call of it: with
/// the wrong number of arguments the reduction of the list fails with the
/// complaint about the numbers.
pub proof fn law_arity_of_call(
    host: Host, depth: nat,
    steps: nat,
    env: Seq<Scope>,
    children: Seq<NodeView>,
    l: LambdaView,
)
    requires
        children.len() > 0,
        eval(host, depth, steps, env, children[0]).result == Ok::<ValueView, Seq<char>>(
            ValueView::Lambda(l),
        ),
        children.len() - 1 != l.params.len(),
    ensures
        step(host, depth, steps, env, NodeView::List(children)).result == Err::<ValueView, Seq<char>>(
            arity_mismatch(children[0], l.params.len(), (children.len() - 1) as nat),
        ),
{
}

/// `and` and `or` stop at the first argument that decides: where the
/// argument at position `i` evaluates to false under `and`, or to true
/// under `or`, that is the result, and the arguments after it play no
/// part. Any two argument lists that agree at this position give the same.
pub proof fn law_short_circuit(
    host: Host, depth: nat,
    steps: nat,
    env: Seq<Scope>,
    op: Primitive,
    args: Seq<NodeView>,
    other: Seq<NodeView>,
    i: nat,
)
    requires
        op == Primitive::And || op == Primitive::Or,
        i < args.len(),
        i < other.len(),
        args[i as int] == other[i as int],
        eval(host, depth, steps, env, args[i as int]).result == Ok::<ValueView, Seq<char>>(
            ValueView::Bool(op == Primitive::Or),
        ),
    ensures
        connective(host, depth, steps, env, op, args, i) == done(
            ValueView::Bool(op == Primitive::Or),
            eval(host, depth, steps, env, args[i as int]).env,
        ),
        connective(host, depth, steps, env, op, args, i) == connective(host, depth, steps, env, op, other, i),
{
}

/// `if` evaluates its test and nothing else: the branch that the test
/// chooses is handed back as it is written, to be evaluated in tail
/// position, and the other branch plays no part.
pub proof fn law_if_defers(
    host: Host, depth: nat,
    steps: nat,
    env: Seq<Scope>,
    args: Seq<NodeView>,
    b: bool,
)
    requires
        args.len() == 3,
        eval(host, depth, steps, env, args[0]).result == Ok::<ValueView, Seq<char>>(ValueView::Bool(b)),
    ensures
        apply_primitive(host, depth, steps, env, Primitive::If, args) == done(
            ValueView::NodeWrapper(
                if b {
                    args[1]
                } else {
                    args[2]
                },
            ),
            eval(host, depth, steps, env, args[0]).env,
        ),
{
}

/// A call in tail position does not nest: where a reduction hands back an
/// expression, the evaluation goes on with that expression at the same
/// depth, one step further in its loop.
pub proof fn law_tail_call(
    host: Host, depth: nat,
    steps: nat,
    left: nat,
    env: Seq<Scope>,
    node: NodeView,
    next: NodeView,
)
    requires
        left > 0,
        step(host, depth, steps, env, node).result == Ok::<ValueView, Seq<char>>(
            ValueView::NodeWrapper(next),
        ),
    ensures
        run(host, depth, steps, left, env, node) == run(
            host, depth,
            steps,
            (left - 1) as nat,
            step(host, depth, steps, env, node).env,
            next,
        ),
{
}

/// A full evaluation never hands back an expression in tail position: an
/// evaluation that succeeds yields a value that is no `NodeWrapper`.
pub proof fn law_evaluation_is_complete(host: Host, depth: nat, steps: nat, env: Seq<Scope>, node: NodeView)
    ensures
        !(eval(host, depth, steps, env, node).result matches Ok(ValueView::NodeWrapper(_))),
{
    if depth > 0 {
        lemma_run_is_complete(host, (depth - 1) as nat, steps, steps, env, node);
    }
}

proof fn lemma_run_is_complete(host: Host, depth: nat, steps: nat, left: nat, env: Seq<Scope>, node: NodeView)
    ensures
        !(run(host, depth, steps, left, env, node).result matches Ok(ValueView::NodeWrapper(_))),
    decreases left,
{
    if left > 0 {
        let o = step(host, depth, steps, env, node);
        match o.result {
            Ok(ValueView::NodeWrapper(next)) => {
                lemma_run_is_complete(host, depth, steps, (left - 1) as nat, o.env, next);
            },
            _ => {},
        }
    }
}

// ---------------------------------------------------------------------
// Inexact numbers
// ---------------------------------------------------------------------
/// Arithmetic and comparisons of numbers of which one is inexact are the
/// host's to answer, however many operands there are.
pub proof fn law_inexact_operand_is_handed_over(op: Primitive, vals: Seq<ValueView>, i: int)
    requires
        is_arithmetic(op) || compares(op),
        all_numbers(op, vals),
        0 <= i < vals.len(),
        is_inexact(vals[i]),
    ensures
        handed_over(op, vals),
{
}

/// Where a call is handed over, its result is what the host computes for
/// the operation and the values of the arguments, and nothing else.
pub proof fn law_host_answers(host: Host, op: Primitive, vals: Seq<ValueView>)
    requires
        arity_error(op, vals.len()) is None,
        handed_over(op, vals),
    ensures
        strict_result(host, op, vals) == host(op, vals),
{
}

/// What is not handed over does not depend on the host: exact arithmetic
/// is the same under every host.
pub proof fn law_exact_results_need_no_host(
    first: Host,
    second: Host,
    op: Primitive,
    vals: Seq<ValueView>,
)
    requires
        !handed_over(op, vals),
    ensures
        strict_result(first, op, vals) == strict_result(second, op, vals),
{
}

/// The operations that evaluate their arguments themselves.
pub open spec fn is_special(op: Primitive) -> bool {
    op == Primitive::Quote || op == Primitive::MakeLambda || op == Primitive::If || op
        == Primitive::Define || op == Primitive::And || op == Primitive::Or || op
        == Primitive::Begin || op == Primitive::MapList
}

/// The host answers at any depth: wherever a call of a strict operation is
/// evaluated, with whatever limits and scopes, and its arguments evaluate
/// to values that are handed over, the call yields what the host computes
/// for them, and leaves the scopes as the arguments left them.
pub proof fn law_host_answers_at_any_depth(
    host: Host,
    depth: nat,
    steps: nat,
    env: Seq<Scope>,
    op: Primitive,
    args: Seq<NodeView>,
    vals: Seq<ValueView>,
)
    requires
        !is_special(op),
        arity_error(op, args.len()) is None,
        eval_args(host, depth, steps, env, args, 0, Seq::empty()).result == Ok::<
            Seq<ValueView>,
            Seq<char>,
        >(vals),
        vals.len() == args.len(),
        handed_over(op, vals),
    ensures
        apply_primitive(host, depth, steps, env, op, args) == (Outcome {
            result: host(op, vals),
            env: eval_args(host, depth, steps, env, args, 0, Seq::empty()).env,
        }),
{
}

/// The sum of an integer and an inexact number, as in `(+ 1 2.0)`, is
/// what the host computes for the addition of the two, wherever `+` names
/// the addition and the host hands back a value; the scopes stay as they
/// are.
pub proof fn law_integer_plus_inexact(
    host: Host,
    depth: nat,
    steps: nat,
    env: Seq<Scope>,
    name: Seq<char>,
    i: i32,
    t: Seq<char>,
)
    requires
        depth > 1,
        steps > 0,
        lookup(env, seq!['+']) == Some(ValueView::Function(name, Primitive::Add)),
        !(host(Primitive::Add, seq![ValueView::Int(i), ValueView::Float(t)]) matches Ok(
            ValueView::NodeWrapper(_),
        )),
    ensures
        eval(
            host,
            depth,
            steps,
            env,
            NodeView::List(
                seq![NodeView::Symbol(seq!['+']), NodeView::Int(i), NodeView::Float(t)],
            ),
        ) == (Outcome {
            result: host(Primitive::Add, seq![ValueView::Int(i), ValueView::Float(t)]),
            env,
        }),
{
    let d = (depth - 1) as nat;
    let d2 = (depth - 2) as nat;
    let plus = NodeView::Symbol(seq!['+']);
    let children = seq![plus, NodeView::Int(i), NodeView::Float(t)];
    let node = NodeView::List(children);
    let f = ValueView::Function(name, Primitive::Add);
    let args = children.subrange(1, 3);
    let vals = seq![ValueView::Int(i), ValueView::Float(t)];
    assert(step(host, d2, steps, env, plus) == done(f, env));
    assert(run(host, d2, steps, steps, env, plus) == done(f, env));
    assert(eval(host, d, steps, env, plus) == done(f, env));
    assert(args[0] == NodeView::Int(i) && args[1] == NodeView::Float(t));
    lemma_eval_literal(host, d, steps, env, args[0]);
    lemma_eval_literal(host, d, steps, env, args[1]);
    let none = Seq::<ValueView>::empty();
    let one = none.push(ValueView::Int(i));
    let two = one.push(ValueView::Float(t));
    assert(two =~= vals);
    assert(eval_args(host, d, steps, env, args, 2, two) == (Outcomes { result: Ok(two), env }));
    assert(eval_args(host, d, steps, env, args, 1, one) == eval_args(
        host,
        d,
        steps,
        env,
        args,
        2,
        two,
    ));
    assert(eval_args(host, d, steps, env, args, 0, none) == eval_args(
        host,
        d,
        steps,
        env,
        args,
        1,
        one,
    ));
    assert(is_inexact(vals[1]));
    assert(is_arithmetic(Primitive::Add));
    assert(all_numbers(Primitive::Add, vals));
    assert(handed_over(Primitive::Add, vals));
    assert(arity_error(Primitive::Add, 2) is None);
    assert(apply_primitive(host, d, steps, env, Primitive::Add, args) == (Outcome {
        result: host(Primitive::Add, vals),
        env,
    }));
    assert(children[0] == plus);
    assert(step(host, d, steps, env, node) == apply_primitive(
        host,
        d,
        steps,
        env,
        Primitive::Add,
        args,
    ));
    lemma_evaluation_of_a_value(host, d, steps, env, node);
}

/// Where a reduction yields a value, an evaluation with at least one step
/// yields the same, unless the value is an expression in tail position.
proof fn lemma_evaluation_of_a_value(
    host: Host,
    depth: nat,
    steps: nat,
    env: Seq<Scope>,
    node: NodeView,
)
    requires
        steps > 0,
    ensures
        !(step(host, depth, steps, env, node).result matches Ok(ValueView::NodeWrapper(_)))
            ==> eval(host, depth + 1, steps, env, node) == step(host, depth, steps, env, node),
{
    assert(run(host, depth, steps, steps, env, node) == eval(host, depth + 1, steps, env, node));
}

// ---------------------------------------------------------------------
// Quoting and substitution
// ---------------------------------------------------------------------
/// A value that is a literal, or a list of such values.
pub open spec fn is_literal_tree(v: ValueView) -> bool
    decreases v,
{
    match v {
        ValueView::Literal(_) => true,
        ValueView::List(items) => forall|i: int|
            0 <= i < items.len() ==> is_literal_tree(#[trigger] items[i]),
        _ => false,
    }
}

/// `quote` turns every node into literals and lists of literals, of the
/// shape of the node.
pub proof fn law_quote_yields_literals(node: NodeView)
    ensures
        is_literal_tree(quoted(node)),
        node matches NodeView::List(children) ==> quoted(node) matches ValueView::List(items)
            && items.len() == children.len(),
    decreases node,
{
    match node {
        NodeView::List(children) => {
            let items = quoted(node)->List_0;
            assert forall|i: int| 0 <= i < items.len() implies is_literal_tree(
                #[trigger] items[i],
            ) by {
                law_quote_yields_literals(children[i]);
            }
        },
        _ => {},
    }
}

/// Substitution keeps the structure of a body: a list stays a list of the
/// same length, and what names no parameter stays as it is. In particular
/// a procedure without parameters has its body evaluated as it is written.
pub proof fn law_substitution_keeps_structure(
    node: NodeView,
    params: Seq<NodeView>,
    values: Seq<ValueView>,
)
    ensures
        node matches NodeView::List(children) ==> substituted(node, params, values)
            matches NodeView::List(after) && after.len() == children.len(),
        node is Int || node is Float || node is Complex || node is Bool || node is String
            || node is ValueWrapper ==> substituted(node, params, values) == node,
        params.len() == 0 ==> substituted(node, params, values) == node,
    decreases node,
{
    if params.len() == 0 {
        match node {
            NodeView::List(children) => {
                let after = substituted(node, params, values)->List_0;
                assert forall|i: int| 0 <= i < children.len() implies after[i] == children[i] by {
                    law_substitution_keeps_structure(children[i], params, values);
                }
                assert(after =~= children);
            },
            _ => {},
        }
    }
}

// ---------------------------------------------------------------------
// Scopes
// ---------------------------------------------------------------------
/// A binding in the innermost scope hides every binding of the same name:
/// the name then resolves to the new value. No other name is touched, and
/// no scope around the innermost one changes.
pub proof fn law_shadowing(scopes: Seq<Scope>, name: Seq<char>, value: ValueView, other: Seq<char>)
    requires
        scopes.len() > 0,
    ensures
        lookup(bound(scopes, name, value), name) == Some(value),
        other != name ==> lookup(bound(scopes, name, value), other) == lookup(scopes, other),
        bound(scopes, name, value).drop_first() == scopes.drop_first(),
{
    let after = bound(scopes, name, value);
    assert(after.drop_first() =~= scopes.drop_first());
    assert(after[0] == scopes[0].insert(name, value));
}

// ---------------------------------------------------------------------
// Reading back what was written
// ---------------------------------------------------------------------
/// A word: one or more characters, none of them white space, a parenthesis
/// or a double quote, and not the quote sign alone.
pub open spec fn is_word(t: Seq<char>) -> bool {
    &&& t.len() > 0
    &&& t != seq!['\'']
    &&& forall|i: int|
        0 <= i < t.len() ==> !is_space(#[trigger] t[i]) && t[i] != '(' && t[i] != ')' && t[i]
            != '"'
}

proof fn lemma_words_of_word(t: Seq<char>, i: int)
    requires
        is_word(t),
        0 <= i <= t.len(),
    ensures
        words_from(t, i, t.subrange(0, i)) == seq![t],
    decreases t.len() - i,
{
    if i < t.len() {
        assert(!is_space(t[i]) && !stands_alone(t, i));
        assert(t.subrange(0, i).push(t[i]) =~= t.subrange(0, i + 1));
        lemma_words_of_word(t, i + 1);
    } else {
        assert(t.subrange(0, i) =~= t);
    }
}

/// The tokenizer makes one token of a word.
pub proof fn lemma_lex_word(t: Seq<char>)
    requires
        is_word(t),
    ensures
        lex(t) == seq![TokenView::NonParen(t)],
{
    lemma_words_of_word(t, 0);
    assert(t.subrange(0, 0) =~= Seq::<char>::empty());
    let words = seq![t];
    let st = initial_state();
    assert(t[0] != '(' && t[0] != ')' && t[0] != '"');
    assert(t != seq!['('] && t != seq![')'] && t != seq!['"']) by {
        assert(seq!['('][0] == '(' && seq![')'][0] == ')' && seq!['"'][0] == '"');
    }
    assert(settled(st.quotes) == st.quotes);
    assert(quote_ends(st.quotes) =~= Seq::<TokenView>::empty());
    assert(word_tokens(t, st) =~= seq![TokenView::NonParen(t)]);
    assert(scan(words, 1, word_state(t, st)) =~= Seq::<TokenView>::empty());
    assert(scan(words, 0, st) =~= seq![TokenView::NonParen(t)]);
}

/// The parser makes of a single word the node that the word writes.
pub proof fn lemma_parse_word(t: Seq<char>)
    ensures
        parse_tokens(seq![TokenView::NonParen(t)]) == atom_node(t),
{
    let tokens = seq![TokenView::NonParen(t)];
    let st = ParseState { outer: Seq::empty(), current: Seq::empty() };
    match atom_node(t) {
        Ok(n) => {
            let st1 = ParseState { current: st.current.push(n), ..st };
            assert(parse_from(tokens, 1, st1) == Ok::<Seq<NodeView>, Seq<char>>(st1.current));
            assert(parse_from(tokens, 0, st) == parse_from(tokens, 1, st1));
            assert(st1.current[0] == n);
        },
        Err(e) => {},
    }
}

proof fn lemma_digit_chars(d: int)
    requires
        0 <= d < 10,
    ensures
        is_digit(digit_char(d)),
        digit_value(digit_char(d)) == d,
{
}

proof fn lemma_nat_text(n: nat)
    ensures
        nat_text(n).len() > 0,
        all_digits(nat_text(n)),
        digits_value(nat_text(n)) == n,
    decreases n,
{
    if n < 10 {
        lemma_digit_chars(n as int);
        let t = nat_text(n);
        assert(t.drop_last() =~= Seq::<char>::empty());
        assert(t.last() == digit_char(n as int));
        assert(digits_value(Seq::<char>::empty()) == 0);
        assert(digits_value(t) == digits_value(t.drop_last()) * 10 + digit_value(t.last()));
    } else {
        lemma_nat_text(n / 10);
        lemma_digit_chars((n % 10) as int);
        lemma_digits_value_push(nat_text(n / 10), digit_char((n % 10) as int));
        let t = nat_text(n);
        assert forall|i: int| 0 <= i < t.len() implies is_digit(#[trigger] t[i]) by {
            if i < t.len() - 1 {
                assert(t[i] == nat_text(n / 10)[i]);
            }
        }
    }
}

/// The numeral of an integer is a word, and reads as that integer.
pub proof fn lemma_int_text(i: i32)
    ensures
        is_word(int_text(i as int)),
        !(int_text(i as int).last() == 'i'),
        int_text(i as int) != seq!['#', 't'],
        int_text(i as int) != seq!['#', 'f'],
        int_literal(int_text(i as int)) == Some(i),
{
    let t = int_text(i as int);
    if i < 0 {
        let m = nat_text((-i) as nat);
        lemma_nat_text((-i) as nat);
        assert(t[0] == '-');
        assert(has_sign(t));
        assert(unsigned_part(t) =~= m);
        assert forall|k: int| 0 <= k < t.len() implies !is_space(#[trigger] t[k]) && t[k] != '('
            && t[k] != ')' && t[k] != '"' by {
            if k > 0 {
                assert(t[k] == m[k - 1]);
                assert(is_digit(m[k - 1]));
            }
        }
        assert(t.last() == m.last());
        assert(is_digit(m[m.len() - 1]));
        assert(t.len() >= 2);
    } else {
        let m = nat_text(i as nat);
        lemma_nat_text(i as nat);
        assert(is_digit(m[0]));
        assert(!has_sign(t));
        assert(is_digit(m[m.len() - 1]));
        assert forall|k: int| 0 <= k < t.len() implies !is_space(#[trigger] t[k]) && t[k] != '('
            && t[k] != ')' && t[k] != '"' by {
            assert(is_digit(m[k]));
        }
    }
    assert(t != seq!['\'']) by {
        assert(seq!['\''][0] == '\'');
    }
    assert(t != seq!['#', 't']) by {
        assert(seq!['#', 't'][0] == '#');
    }
    assert(t != seq!['#', 'f']) by {
        assert(seq!['#', 'f'][0] == '#');
    }
}

/// An integer that is written, read and evaluated is the same integer:
/// the text of the value is one token, the token parses to the literal,
/// and the literal evaluates to the value, in any scopes and without
/// changing them.
pub proof fn law_int_round_trip(host: Host, depth: nat, steps: nat, env: Seq<Scope>, i: i32)
    requires
        depth > 0,
        steps > 0,
    ensures
        parse_tokens(lex(value_text(ValueView::Int(i)))) == Ok::<NodeView, Seq<char>>(
            NodeView::Int(i),
        ),
        eval(host, depth, steps, env, NodeView::Int(i)) == done(ValueView::Int(i), env),
{
    let t = int_text(i as int);
    lemma_int_text(i);
    lemma_lex_word(t);
    lemma_parse_word(t);
    assert(atom_with(t, regex_compiles(complex_pattern()), regex_groups(complex_pattern(), t))
        == Ok::<NodeView, Seq<char>>(plain_atom(t)));
    lemma_eval_literal(host, depth, steps, env, NodeView::Int(i));
}

/// A truth value that is written, read and evaluated is the same truth
/// value.
pub proof fn law_bool_round_trip(host: Host, depth: nat, steps: nat, env: Seq<Scope>, b: bool)
    requires
        depth > 0,
        steps > 0,
    ensures
        parse_tokens(lex(value_text(ValueView::Bool(b)))) == Ok::<NodeView, Seq<char>>(
            NodeView::Bool(b),
        ),
        eval(host, depth, steps, env, NodeView::Bool(b)) == done(ValueView::Bool(b), env),
{
    let t = value_text(ValueView::Bool(b));
    assert(t[0] == '#');
    assert(t.len() == 2);
    assert(t[1] == 't' || t[1] == 'f');
    assert(t != seq!['\'']) by {
        assert(seq!['\''].len() == 1);
    }
    assert(is_word(t));
    lemma_lex_word(t);
    lemma_parse_word(t);
    if b {
        assert(t =~= seq!['#', 't']);
    } else {
        assert(t =~= seq!['#', 'f']);
        assert(t != seq!['#', 't']) by {
            assert(seq!['#', 't'][1] == 't');
        }
    }
    lemma_eval_literal(host, depth, steps, env, NodeView::Bool(b));
}

/// The value of a literal node.
pub open spec fn literal_value(node: NodeView) -> ValueView {
    match node {
        NodeView::Int(i) => ValueView::Int(i),
        NodeView::Float(t) => ValueView::Float(t),
        NodeView::Complex(re, im) => ValueView::Complex(re, im),
        NodeView::Bool(b) => ValueView::Bool(b),
        NodeView::String(s) => ValueView::Literal(s),
        _ => ValueView::Void,
    }
}

/// A literal evaluates to itself and leaves the scopes as they are.
pub proof fn lemma_eval_literal(host: Host, depth: nat, steps: nat, env: Seq<Scope>, node: NodeView)
    requires
        depth > 0,
        steps > 0,
        node is Int || node is Float || node is Complex || node is Bool || node is String,
    ensures
        eval(host, depth, steps, env, node) == done(literal_value(node), env),
{
    let d = (depth - 1) as nat;
    assert(step(host, d, steps, env, node) == done(literal_value(node), env));
    assert(run(host, d, steps, steps, env, node) == step(host, d, steps, env, node));
}

} // verus!
