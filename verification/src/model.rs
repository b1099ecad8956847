//! The syntax trees that the reader builds, the values that evaluation
//! yields, and their mathematical models.

use crate::text::{int_text, joined};
use vstd::prelude::*;

verus! {

/// The built-in operations. A `Value::Function` names one of them.
#[derive(Clone, Copy, PartialEq, Eq, Structural, Debug)]
pub enum Primitive {
    Begin,
    Add,
    Subtract,
    Multiply,
    Divide,
    Power,
    Define,
    Greater,
    GreaterEqual,
    Less,
    LessEqual,
    Equal,
    Not,
    And,
    Or,
    MakeList,
    Car,
    Cdr,
    Cons,
    Append,
    Length,
    IsEmpty,
    If,
    MapList,
    Quote,
    MakeLambda,
    Sin,
    Cos,
    Tan,
    Asin,
    Acos,
    Atan,
    Exp,
    Log,
    Log10,
}

/// A parsed expression.
pub enum Node {
    Symbol(String),
    List(Vec<Node>),
    Int(i32),
    /// An inexact literal, kept as it was written: a text that writes an
    /// inexact number and no integer.
    Float(String),
    /// A complex literal: the texts of its real and imaginary parts.
    Complex(String, String),
    Bool(bool),
    String(String),
    /// A value that stands where an expression is expected.
    ValueWrapper(Box<Value>),
}

/// A user-defined procedure.
pub struct Lambda {
    pub params: Vec<Node>,
    pub body: Node,
}

/// The result of an evaluation.
pub enum Value {
    Int(i32),
    Float(String),
    Complex(String, String),
    Bool(bool),
    /// A name that no scope binds.
    Symbol(String),
    /// The text of a quoted atom.
    Literal(String),
    List(Vec<Value>),
    /// A built-in operation under the name it was registered with.
    Function(String, Primitive),
    Lambda(Lambda),
    /// An expression that is still to be evaluated, in tail position.
    NodeWrapper(Node),
    Void,
}

/// The model of a `Node`.
pub enum NodeView {
    Symbol(Seq<char>),
    List(Seq<NodeView>),
    Int(i32),
    Float(Seq<char>),
    Complex(Seq<char>, Seq<char>),
    Bool(bool),
    String(Seq<char>),
    ValueWrapper(Box<ValueView>),
}

/// The model of a `Lambda`.
pub struct LambdaView {
    pub params: Seq<NodeView>,
    pub body: NodeView,
}

/// The model of a `Value`.
pub enum ValueView {
    Int(i32),
    Float(Seq<char>),
    Complex(Seq<char>, Seq<char>),
    Bool(bool),
    Symbol(Seq<char>),
    Literal(Seq<char>),
    List(Seq<ValueView>),
    Function(Seq<char>, Primitive),
    Lambda(LambdaView),
    NodeWrapper(NodeView),
    Void,
}

/// The model of a node.
pub open spec fn node_view(n: Node) -> NodeView
    decreases n,
{
    match n {
        Node::Symbol(s) => NodeView::Symbol(s@),
        Node::List(v) => NodeView::List(
            Seq::new(
                v@.len(),
                |i: int|
                    if 0 <= i < v@.len() {
                        node_view(v@[i])
                    } else {
                        NodeView::Bool(false)
                    },
            ),
        ),
        Node::Int(i) => NodeView::Int(i),
        Node::Float(t) => NodeView::Float(t@),
        Node::Complex(re, im) => NodeView::Complex(re@, im@),
        Node::Bool(b) => NodeView::Bool(b),
        Node::String(s) => NodeView::String(s@),
        Node::ValueWrapper(b) => NodeView::ValueWrapper(Box::new(value_view(*b))),
    }
}

/// The model of a procedure.
pub open spec fn lambda_view(l: Lambda) -> LambdaView
    decreases l,
{
    LambdaView {
        params: Seq::new(
            l.params@.len(),
            |i: int|
                if 0 <= i < l.params@.len() {
                    node_view(l.params@[i])
                } else {
                    NodeView::Bool(false)
                },
        ),
        body: node_view(l.body),
    }
}

/// The model of a value.
pub open spec fn value_view(v: Value) -> ValueView
    decreases v,
{
    match v {
        Value::Int(i) => ValueView::Int(i),
        Value::Float(t) => ValueView::Float(t@),
        Value::Complex(re, im) => ValueView::Complex(re@, im@),
        Value::Bool(b) => ValueView::Bool(b),
        Value::Symbol(s) => ValueView::Symbol(s@),
        Value::Literal(s) => ValueView::Literal(s@),
        Value::List(l) => ValueView::List(
            Seq::new(
                l@.len(),
                |i: int|
                    if 0 <= i < l@.len() {
                        value_view(l@[i])
                    } else {
                        ValueView::Void
                    },
            ),
        ),
        Value::Function(name, p) => ValueView::Function(name@, p),
        Value::Lambda(l) => ValueView::Lambda(lambda_view(l)),
        Value::NodeWrapper(n) => ValueView::NodeWrapper(node_view(n)),
        Value::Void => ValueView::Void,
    }
}

impl View for Node {
    type V = NodeView;

    open spec fn view(&self) -> NodeView {
        node_view(*self)
    }
}

impl View for Value {
    type V = ValueView;

    open spec fn view(&self) -> ValueView {
        value_view(*self)
    }
}

impl View for Lambda {
    type V = LambdaView;

    open spec fn view(&self) -> LambdaView {
        lambda_view(*self)
    }
}

/// The models of a sequence of nodes.
pub open spec fn nodes_view(v: Seq<Node>) -> Seq<NodeView> {
    Seq::new(v.len(), |i: int| v[i]@)
}

/// The models of a sequence of values.
pub open spec fn values_view(v: Seq<Value>) -> Seq<ValueView> {
    Seq::new(v.len(), |i: int| v[i]@)
}

/// The model of a list node is the list of the models of its elements.
pub proof fn lemma_list_node_view(v: Vec<Node>)
    ensures
        Node::List(v)@ == NodeView::List(nodes_view(v@)),
{
    assert(Node::List(v)@->List_0 =~= nodes_view(v@));
}

/// The model of a list value is the list of the models of its items.
pub proof fn lemma_list_value_view(v: Vec<Value>)
    ensures
        Value::List(v)@ == ValueView::List(values_view(v@)),
{
    assert(Value::List(v)@->List_0 =~= values_view(v@));
}

/// The model of a procedure holds the models of its parameters and of its
/// body.
pub proof fn lemma_lambda_view(l: Lambda)
    ensures
        l@ == (LambdaView { params: nodes_view(l.params@), body: l.body@ }),
{
    assert(l@.params =~= nodes_view(l.params@));
}

/// A text in which every double quote is preceded by a backslash.
pub open spec fn escaped(s: Seq<char>) -> Seq<char>
    decreases s.len(),
{
    if s.len() == 0 {
        Seq::empty()
    } else if s.last() == '"' {
        escaped(s.drop_last()) + seq!['\\', '"']
    } else {
        escaped(s.drop_last()).push(s.last())
    }
}

/// The texts of the nodes of a sequence.
pub open spec fn node_texts(s: Seq<NodeView>) -> Seq<Seq<char>>
    decreases s,
{
    Seq::new(
        s.len(),
        |i: int|
            if 0 <= i < s.len() {
                node_text(s[i])
            } else {
                Seq::empty()
            },
    )
}

/// The texts of the values of a sequence.
pub open spec fn value_texts(s: Seq<ValueView>) -> Seq<Seq<char>>
    decreases s,
{
    Seq::new(
        s.len(),
        |i: int|
            if 0 <= i < s.len() {
                value_text(s[i])
            } else {
                Seq::empty()
            },
    )
}

/// How a node is written.
pub open spec fn node_text(n: NodeView) -> Seq<char>
    decreases n,
{
    match n {
        NodeView::Symbol(s) => s,
        NodeView::Int(i) => int_text(i as int),
        NodeView::Float(t) => t,
        NodeView::Complex(re, im) => re + seq!['+'] + im + seq!['i'],
        NodeView::Bool(b) => if b {
            seq!['#', 't']
        } else {
            seq!['#', 'f']
        },
        NodeView::String(s) => seq!['"'] + escaped(s) + seq!['"'],
        NodeView::List(children) => seq!['('] + joined(node_texts(children), seq![' ']) + seq![
            ')',
        ],
        NodeView::ValueWrapper(v) => value_text(*v),
    }
}

/// How a value is written: numbers as their literals, truth values as `#t`
/// and `#f`, a list in parentheses with single spaces between its elements,
/// a procedure as `(lambda (params) (body))`, a built-in operation by its
/// name, and the absent value as `()`.
pub open spec fn value_text(v: ValueView) -> Seq<char>
    decreases v,
{
    match v {
        ValueView::Int(i) => int_text(i as int),
        ValueView::Float(t) => t,
        ValueView::Complex(re, im) => re + seq!['+'] + im + seq!['i'],
        ValueView::Bool(b) => if b {
            seq!['#', 't']
        } else {
            seq!['#', 'f']
        },
        ValueView::Symbol(s) => s,
        ValueView::Literal(s) => s,
        ValueView::List(items) => seq!['('] + joined(value_texts(items), seq![' ']) + seq![')'],
        ValueView::Function(name, _) => name,
        ValueView::Lambda(l) => seq!['(', 'l', 'a', 'm', 'b', 'd', 'a', ' ', '('] + joined(
            node_texts(l.params),
            seq![' '],
        ) + seq![')', ' ', '('] + node_text(l.body) + seq![')', ')'],
        ValueView::NodeWrapper(n) => node_text(n),
        ValueView::Void => seq!['(', ')'],
    }
}

impl Primitive {
    /// The name that error messages give the operation.
    pub open spec fn name(self) -> Seq<char> {
        match self {
            Primitive::Begin => "begin"@,
            Primitive::Add => "+"@,
            Primitive::Subtract => "-"@,
            Primitive::Multiply => "*"@,
            Primitive::Divide => "/"@,
            Primitive::Power => "pow"@,
            Primitive::Define => "define"@,
            Primitive::Greater => ">"@,
            Primitive::GreaterEqual => ">="@,
            Primitive::Less => "<"@,
            Primitive::LessEqual => "<="@,
            Primitive::Equal => "="@,
            Primitive::Not => "not"@,
            Primitive::And => "and"@,
            Primitive::Or => "or"@,
            Primitive::MakeList => "list"@,
            Primitive::Car => "car"@,
            Primitive::Cdr => "cdr"@,
            Primitive::Cons => "cons"@,
            Primitive::Append => "append"@,
            Primitive::Length => "length"@,
            Primitive::IsEmpty => "empty?"@,
            Primitive::If => "if"@,
            Primitive::MapList => "map"@,
            Primitive::Quote => "quote"@,
            Primitive::MakeLambda => "lambda"@,
            Primitive::Sin => "sin"@,
            Primitive::Cos => "cos"@,
            Primitive::Tan => "tan"@,
            Primitive::Asin => "asin"@,
            Primitive::Acos => "acos"@,
            Primitive::Atan => "atan"@,
            Primitive::Exp => "exp"@,
            Primitive::Log => "log"@,
            Primitive::Log10 => "log10"@,
        }
    }

    /// The name that error messages give the operation.
    pub fn name_str(self) -> (r: &'static str)
        ensures
            r@ == self.name(),
    {
        match self {
            Primitive::Begin => "begin",
            Primitive::Add => "+",
            Primitive::Subtract => "-",
            Primitive::Multiply => "*",
            Primitive::Divide => "/",
            Primitive::Power => "pow",
            Primitive::Define => "define",
            Primitive::Greater => ">",
            Primitive::GreaterEqual => ">=",
            Primitive::Less => "<",
            Primitive::LessEqual => "<=",
            Primitive::Equal => "=",
            Primitive::Not => "not",
            Primitive::And => "and",
            Primitive::Or => "or",
            Primitive::MakeList => "list",
            Primitive::Car => "car",
            Primitive::Cdr => "cdr",
            Primitive::Cons => "cons",
            Primitive::Append => "append",
            Primitive::Length => "length",
            Primitive::IsEmpty => "empty?",
            Primitive::If => "if",
            Primitive::MapList => "map",
            Primitive::Quote => "quote",
            Primitive::MakeLambda => "lambda",
            Primitive::Sin => "sin",
            Primitive::Cos => "cos",
            Primitive::Tan => "tan",
            Primitive::Asin => "asin",
            Primitive::Acos => "acos",
            Primitive::Atan => "atan",
            Primitive::Exp => "exp",
            Primitive::Log => "log",
            Primitive::Log10 => "log10",
        }
    }
}

impl Lambda {
    /// A procedure with the given parameters and body.
    pub fn new(params: Vec<Node>, body: Node) -> (r: Lambda)
        ensures
            r@ == (LambdaView { params: nodes_view(params@), body: body@ }),
    {
        let r = Lambda { params, body };
        proof {
            lemma_lambda_view(r);
        }
        r
    }
}

/// Copies a sequence of nodes.
pub fn clone_nodes(v: &Vec<Node>) -> (r: Vec<Node>)
    ensures
        nodes_view(r@) == nodes_view(v@),
    decreases v, 1int,
{
    let mut out: Vec<Node> = Vec::new();
    let mut i: usize = 0;
    while i < v.len()
        invariant
            i <= v.len(),
            out@.len() == i,
            forall|j: int| 0 <= j < i ==> out@[j]@ == v@[j]@,
        decreases v.len() - i,
    {
        out.push(clone_node(&v[i]));
        i += 1;
    }
    assert(nodes_view(out@) =~= nodes_view(v@));
    out
}

/// Copies a sequence of values.
pub fn clone_values(v: &Vec<Value>) -> (r: Vec<Value>)
    ensures
        values_view(r@) == values_view(v@),
    decreases v, 1int,
{
    let mut out: Vec<Value> = Vec::new();
    let mut i: usize = 0;
    while i < v.len()
        invariant
            i <= v.len(),
            out@.len() == i,
            forall|j: int| 0 <= j < i ==> out@[j]@ == v@[j]@,
        decreases v.len() - i,
    {
        out.push(clone_value(&v[i]));
        i += 1;
    }
    assert(values_view(out@) =~= values_view(v@));
    out
}

/// Copies a node.
pub fn clone_node(n: &Node) -> (r: Node)
    ensures
        r@ == n@,
    decreases n, 0int,
{
    match n {
        Node::Symbol(s) => Node::Symbol(s.clone()),
        Node::List(v) => {
            let out = clone_nodes(v);
            proof {
                lemma_list_node_view(out);
                lemma_list_node_view(*v);
            }
            Node::List(out)
        },
        Node::Int(i) => Node::Int(*i),
        Node::Float(t) => Node::Float(t.clone()),
        Node::Complex(re, im) => Node::Complex(re.clone(), im.clone()),
        Node::Bool(b) => Node::Bool(*b),
        Node::String(s) => Node::String(s.clone()),
        Node::ValueWrapper(b) => Node::ValueWrapper(Box::new(clone_value(b))),
    }
}

/// Copies a procedure.
pub fn clone_lambda(l: &Lambda) -> (r: Lambda)
    ensures
        r@ == l@,
    decreases l, 0int,
{
    let r = Lambda { params: clone_nodes(&l.params), body: clone_node(&l.body) };
    proof {
        lemma_lambda_view(r);
        lemma_lambda_view(*l);
    }
    r
}

/// Copies a value.
pub fn clone_value(v: &Value) -> (r: Value)
    ensures
        r@ == v@,
    decreases v, 0int,
{
    match v {
        Value::Int(i) => Value::Int(*i),
        Value::Float(t) => Value::Float(t.clone()),
        Value::Complex(re, im) => Value::Complex(re.clone(), im.clone()),
        Value::Bool(b) => Value::Bool(*b),
        Value::Symbol(s) => Value::Symbol(s.clone()),
        Value::Literal(s) => Value::Literal(s.clone()),
        Value::List(items) => {
            let out = clone_values(items);
            proof {
                lemma_list_value_view(out);
                lemma_list_value_view(*items);
            }
            Value::List(out)
        },
        Value::Function(name, p) => Value::Function(name.clone(), *p),
        Value::Lambda(l) => Value::Lambda(clone_lambda(l)),
        Value::NodeWrapper(n) => Value::NodeWrapper(clone_node(n)),
        Value::Void => Value::Void,
    }
}

impl Clone for Node {
    fn clone(&self) -> (r: Self)
        ensures
            r@ == self@,
    {
        clone_node(self)
    }
}

impl Clone for Value {
    fn clone(&self) -> (r: Self)
        ensures
            r@ == self@,
    {
        clone_value(self)
    }
}

impl Clone for Lambda {
    fn clone(&self) -> (r: Self)
        ensures
            r@ == self@,
    {
        clone_lambda(self)
    }
}

/// Tells whether two sequences of nodes are alike, node by node.
pub fn same_nodes(a: &Vec<Node>, b: &Vec<Node>) -> (r: bool)
    ensures
        r == (nodes_view(a@) == nodes_view(b@)),
    decreases a, 1int,
{
    if a.len() != b.len() {
        assert(nodes_view(a@).len() != nodes_view(b@).len());
        return false;
    }
    let mut i: usize = 0;
    while i < a.len()
        invariant
            i <= a.len(),
            a.len() == b.len(),
            forall|j: int| 0 <= j < i ==> a@[j]@ == b@[j]@,
        decreases a.len() - i,
    {
        if !same_node(&a[i], &b[i]) {
            assert(nodes_view(a@)[i as int] != nodes_view(b@)[i as int]);
            return false;
        }
        i += 1;
    }
    assert(nodes_view(a@) =~= nodes_view(b@));
    true
}

/// Tells whether two sequences of values are alike, value by value.
pub fn same_values(a: &Vec<Value>, b: &Vec<Value>) -> (r: bool)
    ensures
        r == (values_view(a@) == values_view(b@)),
    decreases a, 1int,
{
    if a.len() != b.len() {
        assert(values_view(a@).len() != values_view(b@).len());
        return false;
    }
    let mut i: usize = 0;
    while i < a.len()
        invariant
            i <= a.len(),
            a.len() == b.len(),
            forall|j: int| 0 <= j < i ==> a@[j]@ == b@[j]@,
        decreases a.len() - i,
    {
        if !same_value(&a[i], &b[i]) {
            assert(values_view(a@)[i as int] != values_view(b@)[i as int]);
            return false;
        }
        i += 1;
    }
    assert(values_view(a@) =~= values_view(b@));
    true
}

/// Tells whether two nodes are alike in structure and content.
pub fn same_node(a: &Node, b: &Node) -> (r: bool)
    ensures
        r == (a@ == b@),
    decreases a, 0int,
{
    match (a, b) {
        (Node::Symbol(x), Node::Symbol(y)) => *x == *y,
        (Node::List(x), Node::List(y)) => {
            proof {
                lemma_list_node_view(*x);
                lemma_list_node_view(*y);
            }
            same_nodes(x, y)
        },
        (Node::Int(x), Node::Int(y)) => *x == *y,
        (Node::Float(x), Node::Float(y)) => *x == *y,
        (Node::Complex(x, z), Node::Complex(y, w)) => *x == *y && *z == *w,
        (Node::Bool(x), Node::Bool(y)) => *x == *y,
        (Node::String(x), Node::String(y)) => *x == *y,
        (Node::ValueWrapper(x), Node::ValueWrapper(y)) => same_value(x, y),
        _ => false,
    }
}

/// Tells whether two procedures are alike in parameters and body.
pub fn same_lambda(a: &Lambda, b: &Lambda) -> (r: bool)
    ensures
        r == (a@ == b@),
    decreases a, 0int,
{
    proof {
        lemma_lambda_view(*a);
        lemma_lambda_view(*b);
    }
    same_nodes(&a.params, &b.params) && same_node(&a.body, &b.body)
}

/// Tells whether two values are alike in structure and content.
pub fn same_value(a: &Value, b: &Value) -> (r: bool)
    ensures
        r == (a@ == b@),
    decreases a, 0int,
{
    match (a, b) {
        (Value::Int(x), Value::Int(y)) => *x == *y,
        (Value::Float(x), Value::Float(y)) => *x == *y,
        (Value::Complex(x, z), Value::Complex(y, w)) => *x == *y && *z == *w,
        (Value::Bool(x), Value::Bool(y)) => *x == *y,
        (Value::Symbol(x), Value::Symbol(y)) => *x == *y,
        (Value::Literal(x), Value::Literal(y)) => *x == *y,
        (Value::List(x), Value::List(y)) => {
            proof {
                lemma_list_value_view(*x);
                lemma_list_value_view(*y);
            }
            same_values(x, y)
        },
        (Value::Function(x, p), Value::Function(y, q)) => *x == *y && *p == *q,
        (Value::Lambda(x), Value::Lambda(y)) => same_lambda(x, y),
        (Value::NodeWrapper(x), Value::NodeWrapper(y)) => same_node(x, y),
        (Value::Void, Value::Void) => true,
        _ => false,
    }
}

/// Why an evaluation failed.
pub struct EvalError {
    pub message: String,
}

impl EvalError {
    /// The error as it is shown to a user.
    pub fn to_string(&self) -> (r: String)
        ensures
            r@ == "EvalError: "@ + self.message@,
    {
        String::from_str("EvalError: ").concat(self.message.as_str())
    }
}

/// The model of the result of an evaluation: the value's model, or the
/// message of the error.
pub open spec fn result_view(r: Result<Value, EvalError>) -> Result<ValueView, Seq<char>> {
    match r {
        Ok(v) => Ok(v@),
        Err(e) => Err(e.message@),
    }
}

} // verus!
