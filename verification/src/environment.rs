//! Scopes: names bound to values, each scope with an optional scope around
//! it.

pub use crate::interpreter::def;
pub use crate::model::Lambda;
use crate::model::{Primitive, Value, ValueView};
use vstd::prelude::*;

verus! {

/// The bindings of one scope.
pub type Scope = Map<Seq<char>, ValueView>;

/// A scope and the scopes around it.
pub struct Environment {
    /// The bindings of this scope. Where a name stands twice, the first
    /// binding counts.
    pub env: Vec<(String, Value)>,
    pub outer: Option<Box<Environment>>,
}

/// The models of a sequence of bindings.
pub open spec fn pairs_view(s: Seq<(String, Value)>) -> Seq<(Seq<char>, ValueView)> {
    Seq::new(s.len(), |i: int| (s[i].0@, s[i].1@))
}

/// The scope that a table of bindings stands for: of two bindings of one
/// name the earlier counts.
pub open spec fn table_map(t: Seq<(Seq<char>, ValueView)>) -> Scope
    decreases t.len(),
{
    if t.len() == 0 {
        Map::empty()
    } else {
        table_map(t.drop_first()).insert(t[0].0, t[0].1)
    }
}

/// The scopes of an environment, innermost first.
pub open spec fn env_view(e: Environment) -> Seq<Scope>
    decreases e,
{
    seq![table_map(pairs_view(e.env@))] + match e.outer {
        Some(o) => env_view(*o),
        None => Seq::empty(),
    }
}

impl View for Environment {
    type V = Seq<Scope>;

    open spec fn view(&self) -> Seq<Scope> {
        env_view(*self)
    }
}

/// The value that the innermost scope with a binding of `name` gives it.
pub open spec fn lookup(scopes: Seq<Scope>, name: Seq<char>) -> Option<ValueView>
    decreases scopes.len(),
{
    if scopes.len() == 0 {
        None
    } else if scopes[0].contains_key(name) {
        Some(scopes[0][name])
    } else {
        lookup(scopes.drop_first(), name)
    }
}

/// The scopes after `name` is bound in the innermost one.
pub open spec fn bound(scopes: Seq<Scope>, name: Seq<char>, value: ValueView) -> Seq<Scope> {
    if scopes.len() == 0 {
        scopes
    } else {
        scopes.update(0, scopes[0].insert(name, value))
    }
}

/// The scopes with a new, empty scope inside them.
pub open spec fn nested(scopes: Seq<Scope>) -> Seq<Scope> {
    seq![Map::<Seq<char>, ValueView>::empty()] + scopes
}

/// The binding of a built-in operation to its name.
pub open spec fn builtin(name: Seq<char>, p: Primitive) -> (Seq<char>, ValueView) {
    (name, ValueView::Function(name, p))
}

/// The built-in operations by name, and the two constants.
pub open spec fn root_table() -> Seq<(Seq<char>, ValueView)> {
    seq![
        builtin("quote"@, Primitive::Quote),
        builtin("lambda"@, Primitive::MakeLambda),
        builtin("if"@, Primitive::If),
        builtin("define"@, Primitive::Define),
        builtin("set!"@, Primitive::Define),
        builtin("begin"@, Primitive::Begin),
        builtin("+"@, Primitive::Add),
        builtin("-"@, Primitive::Subtract),
        builtin("*"@, Primitive::Multiply),
        builtin("/"@, Primitive::Divide),
        builtin("pow"@, Primitive::Power),
        builtin(">"@, Primitive::Greater),
        builtin(">="@, Primitive::GreaterEqual),
        builtin("<"@, Primitive::Less),
        builtin("<="@, Primitive::LessEqual),
        builtin("="@, Primitive::Equal),
        builtin("equal?"@, Primitive::Equal),
        builtin("not"@, Primitive::Not),
        builtin("and"@, Primitive::And),
        builtin("or"@, Primitive::Or),
        builtin("list"@, Primitive::MakeList),
        builtin("car"@, Primitive::Car),
        builtin("cdr"@, Primitive::Cdr),
        builtin("cons"@, Primitive::Cons),
        builtin("append"@, Primitive::Append),
        builtin("length"@, Primitive::Length),
        builtin("empty?"@, Primitive::IsEmpty),
        builtin("null?"@, Primitive::IsEmpty),
        builtin("map"@, Primitive::MapList),
        builtin("sin"@, Primitive::Sin),
        builtin("cos"@, Primitive::Cos),
        builtin("tan"@, Primitive::Tan),
        builtin("asin"@, Primitive::Asin),
        builtin("acos"@, Primitive::Acos),
        builtin("atan"@, Primitive::Atan),
        builtin("exp"@, Primitive::Exp),
        builtin("log"@, Primitive::Log),
        builtin("log10"@, Primitive::Log10),
        ("pi"@, ValueView::Float("3.141592653589793"@)),
        ("e"@, ValueView::Float("2.718281828459045"@)),
    ]
}

/// The scope of the built-in operations.
pub open spec fn root_scope() -> Scope {
    table_map(root_table())
}

proof fn lemma_table_first(t: Seq<(Seq<char>, ValueView)>, name: Seq<char>, i: int)
    requires
        0 <= i < t.len(),
        t[i].0 == name,
        forall|j: int| 0 <= j < i ==> (#[trigger] t[j]).0 != name,
    ensures
        table_map(t).contains_key(name),
        table_map(t)[name] == t[i].1,
    decreases i,
{
    if i > 0 {
        let rest = t.drop_first();
        assert(rest[i - 1] == t[i]);
        assert forall|j: int| 0 <= j < i - 1 implies (#[trigger] rest[j]).0 != name by {
            assert(rest[j] == t[j + 1]);
        }
        lemma_table_first(rest, name, i - 1);
        assert(t[0].0 != name);
    }
}

proof fn lemma_table_absent(t: Seq<(Seq<char>, ValueView)>, name: Seq<char>)
    requires
        forall|j: int| 0 <= j < t.len() ==> (#[trigger] t[j]).0 != name,
    ensures
        !table_map(t).contains_key(name),
    decreases t.len(),
{
    if t.len() > 0 {
        let rest = t.drop_first();
        assert forall|j: int| 0 <= j < rest.len() implies (#[trigger] rest[j]).0 != name by {
            assert(rest[j] == t[j + 1]);
        }
        lemma_table_absent(rest, name);
        assert(t[0].0 != name);
    }
}

proof fn lemma_table_update(
    t: Seq<(Seq<char>, ValueView)>,
    name: Seq<char>,
    i: int,
    value: ValueView,
)
    requires
        0 <= i < t.len(),
        t[i].0 == name,
        forall|j: int| 0 <= j < i ==> (#[trigger] t[j]).0 != name,
    ensures
        table_map(t.update(i, (name, value))) == table_map(t).insert(name, value),
    decreases i,
{
    let u = t.update(i, (name, value));
    if i == 0 {
        assert(u.drop_first() =~= t.drop_first());
        assert(table_map(u) =~= table_map(t).insert(name, value));
    } else {
        let rest = t.drop_first();
        assert(rest[i - 1] == t[i]);
        assert forall|j: int| 0 <= j < i - 1 implies (#[trigger] rest[j]).0 != name by {
            assert(rest[j] == t[j + 1]);
        }
        lemma_table_update(rest, name, i - 1, value);
        assert(u.drop_first() =~= rest.update(i - 1, (name, value)));
        assert(t[0].0 != name);
        assert(u[0] == t[0]);
        assert(table_map(u) =~= table_map(t).insert(name, value));
    }
}

proof fn lemma_table_push(t: Seq<(Seq<char>, ValueView)>, name: Seq<char>, value: ValueView)
    requires
        forall|j: int| 0 <= j < t.len() ==> (#[trigger] t[j]).0 != name,
    ensures
        table_map(t.push((name, value))) == table_map(t).insert(name, value),
    decreases t.len(),
{
    let u = t.push((name, value));
    if t.len() == 0 {
        assert(u.drop_first() =~= t);
        assert(table_map(u) =~= table_map(t).insert(name, value));
    } else {
        let rest = t.drop_first();
        assert forall|j: int| 0 <= j < rest.len() implies (#[trigger] rest[j]).0 != name by {
            assert(rest[j] == t[j + 1]);
        }
        lemma_table_push(rest, name, value);
        assert(u.drop_first() =~= rest.push((name, value)));
        assert(t[0].0 != name);
        assert(u[0] == t[0]);
        assert(table_map(u) =~= table_map(t).insert(name, value));
    }
}

/// Finds the first binding of `label`.
fn find(env: &Vec<(String, Value)>, label: &String) -> (r: Option<usize>)
    ensures
        match r {
            Some(i) => {
                &&& i < env@.len()
                &&& env@[i as int].0@ == label@
                &&& forall|j: int| 0 <= j < i ==> (#[trigger] env@[j]).0@ != label@
            },
            None => forall|j: int| 0 <= j < env@.len() ==> (#[trigger] env@[j]).0@ != label@,
        },
{
    let mut i: usize = 0;
    while i < env.len()
        invariant
            i <= env.len(),
            forall|j: int| 0 <= j < i ==> (#[trigger] env@[j]).0@ != label@,
        decreases env.len() - i,
    {
        if env[i].0 == *label {
            return Some(i);
        }
        i += 1;
    }
    None
}

fn clone_bindings(env: &Vec<(String, Value)>) -> (r: Vec<(String, Value)>)
    ensures
        pairs_view(r@) == pairs_view(env@),
{
    let mut out: Vec<(String, Value)> = Vec::new();
    let mut i: usize = 0;
    while i < env.len()
        invariant
            i <= env.len(),
            out@.len() == i,
            forall|j: int|
                0 <= j < i ==> (#[trigger] out@[j]).0@ == env@[j].0@ && out@[j].1@ == env@[j].1@,
        decreases env.len() - i,
    {
        out.push((env[i].0.clone(), env[i].1.clone()));
        i += 1;
    }
    assert(pairs_view(out@) =~= pairs_view(env@));
    out
}

fn entry(name: &str, p: Primitive) -> (r: (String, Value))
    ensures
        (r.0@, r.1@) == builtin(name@, p),
{
    (String::from_str(name), Value::Function(String::from_str(name), p))
}

fn constant(name: &str, text: &str) -> (r: (String, Value))
    ensures
        (r.0@, r.1@) == (name@, ValueView::Float(text@)),
{
    (String::from_str(name), Value::Float(String::from_str(text)))
}

impl Clone for Environment {
    fn clone(&self) -> (r: Self)
        ensures
            r@ == self@,
        decreases self,
    {
        let outer = match &self.outer {
            Some(o) => Some(Box::new((&**o).clone())),
            None => None,
        };
        Environment { env: clone_bindings(&self.env), outer }
    }
}

impl Environment {
    /// A scope that holds the built-in operations.
    pub fn new(outer: Option<Box<Environment>>) -> (r: Environment)
        ensures
            r@ == seq![root_scope()] + match outer {
                Some(o) => o@,
                None => Seq::empty(),
            },
    {
        let mut env = Environment { env: Vec::new(), outer };
        env.initialize();
        env
    }

    /// An empty scope.
    pub fn new_empty(outer: Option<Box<Environment>>) -> (r: Environment)
        ensures
            r@ == seq![Map::<Seq<char>, ValueView>::empty()] + match outer {
                Some(o) => o@,
                None => Seq::empty(),
            },
    {
        let r = Environment { env: Vec::new(), outer };
        assert(pairs_view(r.env@) =~= Seq::empty());
        r
    }

    /// Replaces the bindings of this scope by the built-in operations.
    pub fn initialize(&mut self)
        ensures
            final(self)@ == old(self)@.update(0, root_scope()),
            final(self).outer == old(self).outer,
    {
        let mut env: Vec<(String, Value)> = Vec::new();
        env.push(entry("quote", Primitive::Quote));
        env.push(entry("lambda", Primitive::MakeLambda));
        env.push(entry("if", Primitive::If));
        env.push(entry("define", Primitive::Define));
        env.push(entry("set!", Primitive::Define));
        env.push(entry("begin", Primitive::Begin));
        env.push(entry("+", Primitive::Add));
        env.push(entry("-", Primitive::Subtract));
        env.push(entry("*", Primitive::Multiply));
        env.push(entry("/", Primitive::Divide));
        env.push(entry("pow", Primitive::Power));
        env.push(entry(">", Primitive::Greater));
        env.push(entry(">=", Primitive::GreaterEqual));
        env.push(entry("<", Primitive::Less));
        env.push(entry("<=", Primitive::LessEqual));
        env.push(entry("=", Primitive::Equal));
        env.push(entry("equal?", Primitive::Equal));
        env.push(entry("not", Primitive::Not));
        env.push(entry("and", Primitive::And));
        env.push(entry("or", Primitive::Or));
        env.push(entry("list", Primitive::MakeList));
        env.push(entry("car", Primitive::Car));
        env.push(entry("cdr", Primitive::Cdr));
        env.push(entry("cons", Primitive::Cons));
        env.push(entry("append", Primitive::Append));
        env.push(entry("length", Primitive::Length));
        env.push(entry("empty?", Primitive::IsEmpty));
        env.push(entry("null?", Primitive::IsEmpty));
        env.push(entry("map", Primitive::MapList));
        env.push(entry("sin", Primitive::Sin));
        env.push(entry("cos", Primitive::Cos));
        env.push(entry("tan", Primitive::Tan));
        env.push(entry("asin", Primitive::Asin));
        env.push(entry("acos", Primitive::Acos));
        env.push(entry("atan", Primitive::Atan));
        env.push(entry("exp", Primitive::Exp));
        env.push(entry("log", Primitive::Log));
        env.push(entry("log10", Primitive::Log10));
        env.push(constant("pi", "3.141592653589793"));
        env.push(constant("e", "2.718281828459045"));
        assert(pairs_view(env@) =~= root_table());
        self.env = env;
        assert(self@ =~= old(self)@.update(0, root_scope()));
    }

    /// The value of `label` in the innermost scope that binds it.
    pub fn get(&self, label: &String) -> (r: Option<&Value>)
        ensures
            match r {
                Some(v) => lookup(self@, label@) == Some(v@),
                None => lookup(self@, label@) is None,
            },
        decreases self,
    {
        let ghost table = pairs_view(self.env@);
        let ghost rest: Seq<Scope> = match &self.outer {
            Some(o) => o@,
            None => Seq::empty(),
        };
        assert(self@.drop_first() =~= rest);
        assert(self@[0] == table_map(table));
        match find(&self.env, label) {
            Some(i) => {
                proof {
                    assert(table[i as int] == (self.env@[i as int].0@, self.env@[i as int].1@));
                    assert forall|j: int| 0 <= j < i implies (#[trigger] table[j]).0 != label@ by {
                        assert(self.env@[j].0@ != label@);
                    }
                    lemma_table_first(table, label@, i as int);
                }
                let pair = &self.env[i];
                let v = &pair.1;
                assert(v@ == table[i as int].1);
                assert(lookup(self@, label@) == Some(v@));
                Some(v)
            },
            None => {
                proof {
                    assert forall|j: int| 0 <= j < table.len() implies (#[trigger] table[j]).0
                        != label@ by {
                        assert(self.env@[j].0@ != label@);
                    }
                    lemma_table_absent(table, label@);
                }
                assert(lookup(self@, label@) == lookup(rest, label@));
                match &self.outer {
                    Some(o) => {
                        assert(rest == o@);
                        o.get(label)
                    },
                    None => None,
                }
            },
        }
    }

    /// Binds `label` in the innermost scope, in place of an earlier
    /// binding of the name there.
    pub fn set(&mut self, label: String, value: Value)
        ensures
            final(self)@ == bound(old(self)@, label@, value@),
            final(self).outer == old(self).outer,
    {
        let ghost table = pairs_view(self.env@);
        let ghost name = label@;
        let ghost v = value@;
        match find(&self.env, &label) {
            Some(i) => {
                proof {
                    assert forall|j: int| 0 <= j < i implies (#[trigger] table[j]).0 != name by {
                        assert(self.env@[j].0@ != name);
                    }
                    lemma_table_update(table, name, i as int, v);
                }
                self.env.set(i, (label, value));
                assert(pairs_view(self.env@) =~= table.update(i as int, (name, v)));
            },
            None => {
                proof {
                    assert forall|j: int| 0 <= j < table.len() implies (#[trigger] table[j]).0
                        != name by {
                        assert(self.env@[j].0@ != name);
                    }
                    lemma_table_push(table, name, v);
                }
                self.env.push((label, value));
                assert(pairs_view(self.env@) =~= table.push((name, v)));
            },
        }
        assert(self@ =~= bound(old(self)@, name, v));
    }
}

} // verus!
