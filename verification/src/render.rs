//! Writing nodes and values as text.

use crate::model::{
    escaped, lemma_lambda_view, lemma_list_node_view, lemma_list_value_view, node_text,
    node_texts, nodes_view, value_text, value_texts, values_view, Lambda, Node, Value,
};
use crate::text::{from_chars, joined, push_int, push_str, to_chars};
use vstd::prelude::*;

verus! {

proof fn lemma_joined_step(parts: Seq<Seq<char>>, sep: Seq<char>, i: int)
    requires
        0 <= i < parts.len(),
    ensures
        joined(parts.subrange(0, i + 1), sep) == if i == 0 {
            parts[i]
        } else {
            joined(parts.subrange(0, i), sep) + sep + parts[i]
        },
{
    assert(parts.subrange(0, i + 1).drop_last() =~= parts.subrange(0, i));
    assert(parts.subrange(0, i + 1).last() == parts[i]);
}

fn write_escaped(s: &String, out: &mut Vec<char>)
    ensures
        final(out)@ == old(out)@ + escaped(s@),
{
    let chars = to_chars(s.as_str());
    let mut i: usize = 0;
    while i < chars.len()
        invariant
            i <= chars.len(),
            out@ == old(out)@ + escaped(chars@.subrange(0, i as int)),
        decreases chars.len() - i,
    {
        let c = chars[i];
        let ghost before = out@;
        if c == '"' {
            out.push('\\');
            out.push('"');
            assert(out@ =~= before + seq!['\\', '"']);
        } else {
            out.push(c);
        }
        i += 1;
        proof {
            let now = chars@.subrange(0, i as int);
            assert(now.drop_last() =~= chars@.subrange(0, i - 1));
            assert(now.last() == c);
            assert(out@ =~= old(out)@ + escaped(now));
        }
    }
    assert(chars@.subrange(0, chars.len() as int) =~= chars@);
}

/// Appends the texts of the nodes of `v`, a space between each two.
pub fn write_nodes(v: &Vec<Node>, out: &mut Vec<char>)
    ensures
        final(out)@ == old(out)@ + joined(node_texts(nodes_view(v@)), seq![' ']),
    decreases v, 1int,
{
    let ghost texts = node_texts(nodes_view(v@));
    let mut i: usize = 0;
    assert(texts.subrange(0, 0) =~= Seq::<Seq<char>>::empty());
    assert(out@ =~= old(out)@ + joined(texts.subrange(0, 0), seq![' ']));
    while i < v.len()
        invariant
            i <= v.len(),
            texts == node_texts(nodes_view(v@)),
            texts.len() == v.len(),
            out@ == old(out)@ + joined(texts.subrange(0, i as int), seq![' ']),
        decreases v.len() - i,
    {
        let ghost before = out@;
        if i > 0 {
            out.push(' ');
        }
        write_node(&v[i], out);
        proof {
            lemma_joined_step(texts, seq![' '], i as int);
            assert(texts[i as int] == node_text(v@[i as int]@));
            if i > 0 {
                assert(out@ =~= before + seq![' '] + texts[i as int]);
            }
            assert(out@ =~= old(out)@ + joined(texts.subrange(0, i + 1), seq![' ']));
        }
        i += 1;
    }
    assert(texts.subrange(0, v.len() as int) =~= texts);
}

/// Appends the texts of the values of `v`, a space between each two.
pub fn write_values(v: &Vec<Value>, out: &mut Vec<char>)
    ensures
        final(out)@ == old(out)@ + joined(value_texts(values_view(v@)), seq![' ']),
    decreases v, 1int,
{
    let ghost texts = value_texts(values_view(v@));
    let mut i: usize = 0;
    assert(texts.subrange(0, 0) =~= Seq::<Seq<char>>::empty());
    assert(out@ =~= old(out)@ + joined(texts.subrange(0, 0), seq![' ']));
    while i < v.len()
        invariant
            i <= v.len(),
            texts == value_texts(values_view(v@)),
            texts.len() == v.len(),
            out@ == old(out)@ + joined(texts.subrange(0, i as int), seq![' ']),
        decreases v.len() - i,
    {
        let ghost before = out@;
        if i > 0 {
            out.push(' ');
        }
        write_value(&v[i], out);
        proof {
            lemma_joined_step(texts, seq![' '], i as int);
            assert(texts[i as int] == value_text(v@[i as int]@));
            if i > 0 {
                assert(out@ =~= before + seq![' '] + texts[i as int]);
            }
            assert(out@ =~= old(out)@ + joined(texts.subrange(0, i + 1), seq![' ']));
        }
        i += 1;
    }
    assert(texts.subrange(0, v.len() as int) =~= texts);
}

fn write_truth(b: bool, out: &mut Vec<char>)
    ensures
        final(out)@ == old(out)@ + if b {
            seq!['#', 't']
        } else {
            seq!['#', 'f']
        },
{
    out.push('#');
    if b {
        out.push('t');
        assert(out@ =~= old(out)@ + seq!['#', 't']);
    } else {
        out.push('f');
        assert(out@ =~= old(out)@ + seq!['#', 'f']);
    }
}

fn write_complex(re: &String, im: &String, out: &mut Vec<char>)
    ensures
        final(out)@ == old(out)@ + (re@ + seq!['+'] + im@ + seq!['i']),
{
    push_str(out, re.as_str());
    out.push('+');
    push_str(out, im.as_str());
    out.push('i');
    assert(out@ =~= old(out)@ + (re@ + seq!['+'] + im@ + seq!['i']));
}

/// Appends the text of a node.
pub fn write_node(n: &Node, out: &mut Vec<char>)
    ensures
        final(out)@ == old(out)@ + node_text(n@),
    decreases n, 0int,
{
    match n {
        Node::Symbol(s) => push_str(out, s.as_str()),
        Node::Int(i) => push_int(out, *i),
        Node::Float(t) => push_str(out, t.as_str()),
        Node::Complex(re, im) => write_complex(re, im, out),
        Node::Bool(b) => write_truth(*b, out),
        Node::String(s) => {
            out.push('"');
            write_escaped(s, out);
            out.push('"');
            assert(out@ =~= old(out)@ + (seq!['"'] + escaped(s@) + seq!['"']));
        },
        Node::List(v) => {
            out.push('(');
            write_nodes(v, out);
            out.push(')');
            proof {
                lemma_list_node_view(*v);
                assert(out@ =~= old(out)@ + (seq!['('] + joined(
                    node_texts(nodes_view(v@)),
                    seq![' '],
                ) + seq![')']));
            }
        },
        Node::ValueWrapper(v) => write_value(v, out),
    }
}

fn write_lambda(l: &Lambda, out: &mut Vec<char>)
    ensures
        final(out)@ == old(out)@ + value_text(crate::model::ValueView::Lambda(l@)),
    decreases l, 0int,
{
    proof {
        reveal_strlit("(lambda (");
        reveal_strlit(") (");
        reveal_strlit("))");
        lemma_lambda_view(*l);
    }
    push_str(out, "(lambda (");
    let ghost a = out@;
    assert(a =~= old(out)@ + seq!['(', 'l', 'a', 'm', 'b', 'd', 'a', ' ', '(']);
    write_nodes(&l.params, out);
    let ghost b = out@;
    push_str(out, ") (");
    let ghost c = out@;
    assert(c =~= b + seq![')', ' ', '(']);
    write_node(&l.body, out);
    let ghost d = out@;
    push_str(out, "))");
    assert(out@ =~= d + seq![')', ')']);
    assert(out@ =~= old(out)@ + (seq!['(', 'l', 'a', 'm', 'b', 'd', 'a', ' ', '('] + joined(
        node_texts(l@.params),
        seq![' '],
    ) + seq![')', ' ', '('] + node_text(l@.body) + seq![')', ')']));
}

/// Appends the text of a value.
pub fn write_value(v: &Value, out: &mut Vec<char>)
    ensures
        final(out)@ == old(out)@ + value_text(v@),
    decreases v, 1int,
{
    match v {
        Value::Int(i) => push_int(out, *i),
        Value::Float(t) => push_str(out, t.as_str()),
        Value::Complex(re, im) => write_complex(re, im, out),
        Value::Bool(b) => write_truth(*b, out),
        Value::Symbol(s) => push_str(out, s.as_str()),
        Value::Literal(s) => push_str(out, s.as_str()),
        Value::List(items) => {
            out.push('(');
            write_values(items, out);
            out.push(')');
            proof {
                lemma_list_value_view(*items);
                assert(out@ =~= old(out)@ + (seq!['('] + joined(
                    value_texts(values_view(items@)),
                    seq![' '],
                ) + seq![')']));
            }
        },
        Value::Function(name, _) => push_str(out, name.as_str()),
        Value::Lambda(l) => write_lambda(l, out),
        Value::NodeWrapper(n) => write_node(n, out),
        Value::Void => {
            out.push('(');
            out.push(')');
            assert(out@ =~= old(out)@ + seq!['(', ')']);
        },
    }
}

impl Node {
    /// The node as text.
    pub fn to_string(&self) -> (r: String)
        ensures
            r@ == node_text(self@),
    {
        let mut out: Vec<char> = Vec::new();
        write_node(self, &mut out);
        assert(out@ =~= node_text(self@));
        from_chars(&out)
    }
}

impl Value {
    /// The value as text.
    pub fn to_string(&self) -> (r: String)
        ensures
            r@ == value_text(self@),
    {
        let mut out: Vec<char> = Vec::new();
        write_value(self, &mut out);
        assert(out@ =~= value_text(self@));
        from_chars(&out)
    }
}

} // verus!
