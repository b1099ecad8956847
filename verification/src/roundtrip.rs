//! Reading back a quoted list: the text of a flat list of literals, put in
//! a `quote`, is tokenized, parsed and evaluated to the same list.

use crate::environment::{builtin, lookup, root_scope, root_table, table_map, Scope};
use crate::laws::{
    is_word, lemma_eval_literal, lemma_int_text, lemma_lex_word, lemma_parse_word, literal_value,
};
use crate::model::{node_text, value_text, value_texts, NodeView, Primitive, ValueView};
use crate::primitives::Host;
use crate::parser::{
    atom_node, atom_with, closed, complex_pattern, initial_state, lex, opened, parse_all,
    parse_from, parse_tokens, plain_atom, quote_ends, quote_word, regex_compiles, regex_groups,
    scan, settled, split_words, stands_alone, word_state, word_tokens, words_from, ParseState,
    TokenView,
};
use crate::semantics::{apply_primitive, done, eval, quoted, run, step};
use crate::text::{
    all_digits, ascii_lower, digit_run, has_sign, int_literal, int_text, is_decimal_number,
    is_digit, is_float_literal, is_inexact_text, is_space, joined, lowered, unsigned_part,
};
use vstd::prelude::*;

verus! {

// ---------------------------------------------------------------------
// Words of a text that is put together from pieces
// ---------------------------------------------------------------------
/// A text without a double quote.
pub open spec fn no_quotes(s: Seq<char>) -> bool {
    forall|i: int| 0 <= i < s.len() ==> #[trigger] s[i] != '"'
}

/// An opening or a closing parenthesis.
pub open spec fn is_paren(c: char) -> bool {
    c == '(' || c == ')'
}

/// A text before which a word ends: the empty text, or one that begins with
/// white space or a parenthesis.
pub open spec fn begins_apart(x: Seq<char>) -> bool {
    x.len() == 0 || is_space(x[0]) || is_paren(x[0])
}

proof fn lemma_words_shift(s: Seq<char>, i: int, j: int, cur: Seq<char>)
    requires
        0 <= i,
        0 <= j,
        i + j <= s.len(),
        no_quotes(s),
    ensures
        words_from(s, i + j, cur) == words_from(s.subrange(i, s.len() as int), j, cur),
    decreases s.len() - i - j,
{
    let t = s.subrange(i, s.len() as int);
    if i + j < s.len() {
        assert(t[j] == s[i + j]);
        assert(s[i + j] != '"');
        assert(stands_alone(s, i + j) == stands_alone(t, j));
        if is_space(s[i + j]) || stands_alone(s, i + j) {
            lemma_words_shift(s, i, j + 1, Seq::empty());
        } else {
            lemma_words_shift(s, i, j + 1, cur.push(s[i + j]));
        }
    }
}

proof fn lemma_words_after_paren(c: char, x: Seq<char>)
    requires
        is_paren(c),
        no_quotes(x),
    ensures
        split_words(seq![c] + x) == seq![seq![c]] + split_words(x),
        no_quotes(seq![c] + x),
        begins_apart(seq![c] + x),
{
    let s = seq![c] + x;
    assert(s[0] == c);
    assert(!is_space(c));
    assert(stands_alone(s, 0));
    assert forall|i: int| 0 <= i < s.len() implies #[trigger] s[i] != '"' by {
        if i > 0 {
            assert(s[i] == x[i - 1]);
        }
    }
    lemma_words_shift(s, 1, 0, Seq::empty());
    assert(s.subrange(1, s.len() as int) =~= x);
    assert(split_words(s) =~= seq![seq![c]] + split_words(x));
}

proof fn lemma_words_after_space(x: Seq<char>)
    requires
        no_quotes(x),
    ensures
        split_words(seq![' '] + x) == split_words(x),
        no_quotes(seq![' '] + x),
        begins_apart(seq![' '] + x),
{
    let s = seq![' '] + x;
    assert(s[0] == ' ');
    assert(is_space(' '));
    assert forall|i: int| 0 <= i < s.len() implies #[trigger] s[i] != '"' by {
        if i > 0 {
            assert(s[i] == x[i - 1]);
        }
    }
    lemma_words_shift(s, 1, 0, Seq::empty());
    assert(s.subrange(1, s.len() as int) =~= x);
    assert(split_words(s) =~= split_words(x));
}

proof fn lemma_word_then(w: Seq<char>, x: Seq<char>, k: int)
    requires
        is_word(w),
        no_quotes(x),
        begins_apart(x),
        0 <= k <= w.len(),
    ensures
        words_from(w + x, k, w.subrange(0, k)) == seq![w] + split_words(x),
        no_quotes(w + x),
    decreases w.len() - k,
{
    let s = w + x;
    assert forall|i: int| 0 <= i < s.len() implies #[trigger] s[i] != '"' by {
        if i < w.len() {
            assert(s[i] == w[i]);
        } else {
            assert(s[i] == x[i - w.len()]);
        }
    }
    if k < w.len() {
        assert(s[k] == w[k]);
        assert(!is_space(w[k]) && !stands_alone(s, k));
        assert(w.subrange(0, k).push(s[k]) =~= w.subrange(0, k + 1));
        lemma_word_then(w, x, k + 1);
    } else {
        assert(w.subrange(0, k) =~= w);
        assert(s.subrange(w.len() as int, s.len() as int) =~= x);
        if x.len() == 0 {
            assert(s.len() == k);
            assert(split_words(x) =~= Seq::<Seq<char>>::empty());
            assert(words_from(s, k, w) =~= seq![w] + split_words(x));
        } else {
            assert(s[k] == x[0]);
            assert(s[k] != '"');
            lemma_words_shift(s, k, 1, Seq::empty());
            if is_space(x[0]) {
                assert(words_from(s, k, w) =~= seq![w] + split_words(x));
            } else {
                assert(stands_alone(s, k));
                assert(stands_alone(x, 0));
                assert(words_from(s, k, w) =~= seq![w] + split_words(x));
            }
        }
    }
}

proof fn lemma_words_after_word(w: Seq<char>, x: Seq<char>)
    requires
        is_word(w),
        no_quotes(x),
        begins_apart(x),
    ensures
        split_words(w + x) == seq![w] + split_words(x),
        no_quotes(w + x),
{
    lemma_word_then(w, x, 0);
    assert(w.subrange(0, 0) =~= Seq::<char>::empty());
}

/// Texts that are words, each of them.
pub open spec fn all_words(texts: Seq<Seq<char>>) -> bool {
    forall|i: int| 0 <= i < texts.len() ==> is_word(#[trigger] texts[i])
}

/// The words of words that single spaces join are these words.
proof fn lemma_words_of_joined(texts: Seq<Seq<char>>, x: Seq<char>)
    requires
        all_words(texts),
        no_quotes(x),
        begins_apart(x),
    ensures
        split_words(joined(texts, seq![' ']) + x) == texts + split_words(x),
        no_quotes(joined(texts, seq![' ']) + x),
    decreases texts.len(),
{
    let sep = seq![' '];
    if texts.len() == 0 {
        assert(joined(texts, sep) + x =~= x);
        assert(texts + split_words(x) =~= split_words(x));
    } else if texts.len() == 1 {
        assert(is_word(texts[0]));
        lemma_words_after_word(texts[0], x);
        assert(texts =~= seq![texts[0]]);
    } else {
        let head = texts.drop_last();
        let last = texts.last();
        assert(is_word(texts[texts.len() - 1]));
        assert forall|i: int| 0 <= i < head.len() implies is_word(#[trigger] head[i]) by {
            assert(head[i] == texts[i]);
        }
        lemma_words_after_word(last, x);
        let y = sep + (last + x);
        lemma_words_after_space(last + x);
        lemma_words_of_joined(head, y);
        assert(joined(texts, sep) + x =~= joined(head, sep) + y);
        assert(head + (seq![last] + split_words(x)) =~= texts + split_words(x));
    }
}

// ---------------------------------------------------------------------
// Tokens of words among which no quote sign stands
// ---------------------------------------------------------------------
/// A parenthesis or a word.
pub open spec fn is_simple(w: Seq<char>) -> bool {
    w == seq!['('] || w == seq![')'] || is_word(w)
}

/// The token of a parenthesis or a word.
pub open spec fn token_of(w: Seq<char>) -> TokenView {
    if w == seq!['('] {
        TokenView::OpenParen
    } else if w == seq![')'] {
        TokenView::CloseParen
    } else {
        TokenView::NonParen(w)
    }
}

proof fn lemma_scan_simple(words: Seq<Seq<char>>, i: int)
    requires
        0 <= i <= words.len(),
        forall|k: int| 0 <= k < words.len() ==> is_simple(#[trigger] words[k]),
    ensures
        scan(words, i, initial_state()) == Seq::new(
            (words.len() - i) as nat,
            |j: int| token_of(words[i + j]),
        ),
    decreases words.len() - i,
{
    let st = initial_state();
    let target = Seq::new((words.len() - i) as nat, |j: int| token_of(words[i + j]));
    if i < words.len() {
        let w = words[i];
        assert(is_simple(w));
        lemma_scan_simple(words, i + 1);
        let empty = Seq::<nat>::empty();
        assert(settled(empty) == empty);
        assert(closed(empty) == empty);
        assert(opened(empty) == empty);
        assert(quote_ends(empty) =~= Seq::<TokenView>::empty());
        assert(seq!['\''][0] == '\'' && seq!['"'][0] == '"' && seq!['('][0] == '(' && seq![
            ')',
        ][0] == ')');
        if is_word(w) {
            assert(w[0] != '(' && w[0] != ')' && w[0] != '"');
            assert(w != seq!['('] && w != seq![')'] && w != seq!['"'] && w != seq!['\'']);
        } else {
            assert(w.len() == 1);
            assert(w != seq!['"'] && w != seq!['\'']);
        }
        assert(word_tokens(w, st) =~= seq![token_of(w)]);
        assert(word_state(w, st) == st);
        assert(scan(words, i, st) =~= target);
    } else {
        assert(scan(words, i, st) =~= target);
    }
}

// ---------------------------------------------------------------------
// The tree of a quoted list of symbols
// ---------------------------------------------------------------------
/// A word that the reader takes for a node that is written as the word
/// is: a name, and a number or a truth value in the form in which it is
/// written out.
pub open spec fn reads_back(t: Seq<char>) -> bool {
    is_word(t) && atom_node(t) is Ok && node_text(atom_node(t)->Ok_0) == t
}

/// Texts that read back as they are written, each of them.
pub open spec fn all_read_back(texts: Seq<Seq<char>>) -> bool {
    forall|i: int| 0 <= i < texts.len() ==> reads_back(#[trigger] texts[i])
}

/// The nodes that the reader takes the given words for.
pub open spec fn atoms(texts: Seq<Seq<char>>) -> Seq<NodeView> {
    Seq::new(texts.len(), |i: int| atom_node(texts[i])->Ok_0)
}

/// The reader takes no word for a list.
proof fn lemma_atom_is_no_list(t: Seq<char>)
    requires
        atom_node(t) is Ok,
    ensures
        !(atom_node(t)->Ok_0 is List),
{
}

/// The list of the literals of the given texts.
pub open spec fn literals(texts: Seq<Seq<char>>) -> ValueView {
    ValueView::List(Seq::new(texts.len(), |i: int| ValueView::Literal(texts[i])))
}

/// A text as the one argument of `quote`.
pub open spec fn quote_form(text: Seq<char>) -> Seq<char> {
    seq!['('] + quote_word() + seq![' '] + text + seq![')']
}

/// The expression `(quote (names...))`.
pub open spec fn quote_node(texts: Seq<Seq<char>>) -> NodeView {
    NodeView::List(seq![NodeView::Symbol(quote_word()), NodeView::List(atoms(texts))])
}

proof fn lemma_quote_is_a_symbol()
    ensures
        is_word(quote_word()),
        atom_node(quote_word()) == Ok::<NodeView, Seq<char>>(NodeView::Symbol(quote_word())),
{
    let t = quote_word();
    assert(t[0] == 'q' && t[1] == 'u' && t[2] == 'o' && t[3] == 't' && t[4] == 'e');
    assert(t.len() == 5);
    assert(t != seq!['\'']) by {
        assert(seq!['\''].len() == 1);
    }
    assert(t != seq!['#', 't'] && t != seq!['#', 'f']) by {
        assert(seq!['#', 't'].len() == 2 && seq!['#', 'f'].len() == 2);
    }
    assert(is_word(t));
    assert(unsigned_part(t) == t);
    assert(!is_digit(t[0]));
    assert(!all_digits(t));
    assert(int_literal(t) is None);
    assert(lowered(t).len() == 5);
    assert(seq!['i', 'n', 'f'].len() == 3);
    assert(seq!['n', 'a', 'n'].len() == 3);
    assert(seq!['i', 'n', 'f', 'i', 'n', 'i', 't', 'y'].len() == 8);
    assert(digit_run(t, 0) == 0);
    assert(!is_decimal_number(t));
    assert(!is_float_literal(t));
}

/// The words of the quote form of a list of words.
proof fn lemma_quote_form_words(texts: Seq<Seq<char>>)
    requires
        all_words(texts),
    ensures
        split_words(quote_form(seq!['('] + joined(texts, seq![' ']) + seq![')'])) == seq![
            seq!['('],
            quote_word(),
            seq!['('],
        ] + texts + seq![seq![')'], seq![')']],
{
    let sep = seq![' '];
    let empty = Seq::<char>::empty();
    let close1 = seq![')'];
    let close2 = seq![')'] + close1;
    let body = joined(texts, sep) + close2;
    let list = seq!['('] + body;
    let spaced = sep + list;
    let named = quote_word() + spaced;
    let whole = seq!['('] + named;
    assert(no_quotes(empty));
    assert(split_words(empty) =~= Seq::<Seq<char>>::empty());
    assert(close1 =~= seq![')'] + empty);
    lemma_words_after_paren(')', empty);
    lemma_words_after_paren(')', close1);
    lemma_words_of_joined(texts, close2);
    lemma_words_after_paren('(', body);
    lemma_words_after_space(list);
    lemma_quote_is_a_symbol();
    lemma_words_after_word(quote_word(), spaced);
    lemma_words_after_paren('(', named);
    assert(whole =~= quote_form(seq!['('] + joined(texts, sep) + seq![')']));
    assert(split_words(whole) =~= seq![seq!['('], quote_word(), seq!['(']] + texts + seq![
        seq![')'],
        seq![')'],
    ]);
}

proof fn lemma_parse_atoms(
    tokens: Seq<TokenView>,
    texts: Seq<Seq<char>>,
    from: int,
    k: int,
    st: ParseState,
)
    requires
        all_read_back(texts),
        0 <= from,
        0 <= k <= texts.len(),
        from + texts.len() <= tokens.len(),
        forall|j: int|
            0 <= j < texts.len() ==> #[trigger] tokens[from + j] == TokenView::NonParen(texts[j]),
    ensures
        parse_from(tokens, from + k, ParseState { current: st.current + atoms(texts).subrange(0, k), ..st })
            == parse_from(
            tokens,
            from + texts.len(),
            ParseState { current: st.current + atoms(texts), ..st },
        ),
    decreases texts.len() - k,
{
    let here = ParseState { current: st.current + atoms(texts).subrange(0, k), ..st };
    if k < texts.len() {
        assert(tokens[from + k] == TokenView::NonParen(texts[k]));
        assert(reads_back(texts[k]));
        let node = atom_node(texts[k])->Ok_0;
        let next = ParseState { current: here.current.push(node), ..here };
        assert(parse_from(tokens, from + k, here) == parse_from(tokens, from + k + 1, next));
        assert(here.current.push(node) =~= st.current + atoms(texts).subrange(0, k + 1));
        lemma_parse_atoms(tokens, texts, from, k + 1, st);
    } else {
        assert(atoms(texts).subrange(0, k) =~= atoms(texts));
    }
}

/// The tokens of the quote form of a list of words parse to the quote
/// expression.
proof fn lemma_parse_quote_form(texts: Seq<Seq<char>>)
    requires
        all_read_back(texts),
    ensures
        parse_tokens(
            seq![
                TokenView::OpenParen,
                TokenView::NonParen(quote_word()),
                TokenView::OpenParen,
            ] + Seq::new(texts.len(), |i: int| TokenView::NonParen(texts[i])) + seq![
                TokenView::CloseParen,
                TokenView::CloseParen,
            ],
        ) == Ok::<NodeView, Seq<char>>(quote_node(texts)),
{
    let n = texts.len() as int;
    let tokens = seq![TokenView::OpenParen, TokenView::NonParen(quote_word()), TokenView::OpenParen]
        + Seq::new(texts.len(), |i: int| TokenView::NonParen(texts[i])) + seq![
        TokenView::CloseParen,
        TokenView::CloseParen,
    ];
    lemma_quote_is_a_symbol();
    let none = Seq::<NodeView>::empty();
    let s0 = ParseState { outer: Seq::empty(), current: none };
    let s1 = ParseState { outer: seq![none], current: none };
    let s2 = ParseState { outer: seq![none], current: seq![NodeView::Symbol(quote_word())] };
    let s3 = ParseState { outer: seq![none, s2.current], current: none };
    let s4 = ParseState { outer: s3.outer, current: atoms(texts) };
    let s5 = ParseState {
        outer: seq![none],
        current: seq![NodeView::Symbol(quote_word()), NodeView::List(atoms(texts))],
    };
    let s6 = ParseState { outer: Seq::empty(), current: seq![quote_node(texts)] };
    assert(tokens.len() == n + 5);
    assert(tokens[0] == TokenView::OpenParen);
    assert(tokens[1] == TokenView::NonParen(quote_word()));
    assert(tokens[2] == TokenView::OpenParen);
    assert(tokens[n + 3] == TokenView::CloseParen);
    assert(tokens[n + 4] == TokenView::CloseParen);
    assert(s0.outer.push(s0.current) =~= s1.outer);
    assert(parse_from(tokens, 0, s0) == parse_from(tokens, 1, s1));
    assert(s1.current.push(NodeView::Symbol(quote_word())) =~= s2.current);
    assert(parse_from(tokens, 1, s1) == parse_from(tokens, 2, s2));
    assert(s2.outer.push(s2.current) =~= s3.outer);
    assert(parse_from(tokens, 2, s2) == parse_from(tokens, 3, s3));
    assert forall|j: int| 0 <= j < n implies #[trigger] tokens[3 + j] == TokenView::NonParen(
        texts[j],
    ) by {}
    lemma_parse_atoms(tokens, texts, 3, 0, s3);
    assert(s3.current + atoms(texts).subrange(0, 0) =~= s3.current);
    assert(s3.current + atoms(texts) =~= s4.current);
    assert(parse_from(tokens, 3, s3) == parse_from(tokens, 3 + n, s4));
    assert(s4.outer.drop_last() =~= s5.outer);
    assert(s4.outer.last().push(NodeView::List(s4.current)) =~= s5.current);
    assert(parse_from(tokens, n + 3, s4) == parse_from(tokens, n + 4, s5));
    assert(s5.outer.drop_last() =~= s6.outer);
    assert(s5.outer.last().push(NodeView::List(s5.current)) =~= s6.current);
    assert(parse_from(tokens, n + 4, s5) == parse_from(tokens, n + 5, s6));
    assert(parse_from(tokens, n + 5, s6) == Ok::<Seq<NodeView>, Seq<char>>(s6.current));
    assert(parse_all(tokens) == Ok::<Seq<NodeView>, Seq<char>>(s6.current));
    assert(s6.current[0] == quote_node(texts));
}

/// Where `quote` names the quoting operation, the quote expression of a
/// list of names evaluates to the list of their literals.
proof fn lemma_eval_quote_node(
    host: Host, depth: nat,
    steps: nat,
    env: Seq<Scope>,
    texts: Seq<Seq<char>>,
    name: Seq<char>,
)
    requires
        depth > 1,
        steps > 0,
        all_read_back(texts),
        lookup(env, quote_word()) == Some(ValueView::Function(name, Primitive::Quote)),
    ensures
        eval(host, depth, steps, env, quote_node(texts)) == done(literals(texts), env),
{
    let d1 = (depth - 1) as nat;
    let d2 = (depth - 2) as nat;
    let f = ValueView::Function(name, Primitive::Quote);
    let head = NodeView::Symbol(quote_word());
    let list = NodeView::List(atoms(texts));
    let children = seq![head, list];
    assert(step(host, d2, steps, env, head) == done(f, env));
    assert(run(host, d2, steps, steps, env, head) == done(f, env));
    assert(eval(host, d1, steps, env, head) == done(f, env));
    let args = children.subrange(1, 2);
    assert(args.len() == 1);
    assert(args[0] == list);
    assert(quoted(list)->List_0 =~= literals(texts)->List_0) by {
        assert forall|i: int| 0 <= i < texts.len() implies #[trigger] quoted(list)->List_0[i]
            == literals(texts)->List_0[i] by {
            let node = atom_node(texts[i])->Ok_0;
            assert(reads_back(texts[i]));
            lemma_atom_is_no_list(texts[i]);
            assert(atoms(texts)[i] == node);
            assert(quoted(node) == ValueView::Literal(texts[i]));
        }
    }
    assert(quoted(list) == literals(texts));
    assert(apply_primitive(host, d1, steps, env, Primitive::Quote, args) == done(literals(texts), env));
    assert(children[0] == head);
    assert(step(host, d1, steps, env, quote_node(texts)) == done(literals(texts), env));
    assert(run(host, d1, steps, steps, env, quote_node(texts)) == done(literals(texts), env));
}

/// The scope of the built-in operations binds `quote` to the quoting
/// operation, so a quoted list reads back in every new evaluator.
pub proof fn law_root_knows_quote()
    ensures
        lookup(seq![root_scope()], quote_word()) == Some(
            ValueView::Function(quote_word(), Primitive::Quote),
        ),
{
    reveal_strlit("quote");
    assert("quote"@ =~= quote_word());
    let t = root_table();
    assert(t[0] == builtin("quote"@, Primitive::Quote));
    assert(table_map(t) == table_map(t.drop_first()).insert(t[0].0, t[0].1));
    let scopes = seq![root_scope()];
    assert(scopes[0].contains_key(quote_word()));
}

/// The numeral of every integer reads back as it is written.
pub proof fn law_numerals_read_back(i: i32)
    ensures
        reads_back(int_text(i as int)),
        atom_node(int_text(i as int)) == Ok::<NodeView, Seq<char>>(NodeView::Int(i)),
{
    let t = int_text(i as int);
    lemma_int_text(i);
    assert(atom_with(t, regex_compiles(complex_pattern()), regex_groups(complex_pattern(), t))
        == Ok::<NodeView, Seq<char>>(plain_atom(t)));
}

/// A number or a truth value that is written, read and evaluated is the
/// same value, where the reader takes its text for the literal that is
/// written so. An inexact number is kept as its text, so it is the same
/// text that comes back.
pub proof fn law_literal_round_trip(host: Host, depth: nat, steps: nat, env: Seq<Scope>, t: Seq<char>)
    requires
        depth > 0,
        steps > 0,
        reads_back(t),
        atom_node(t)->Ok_0 is Int || atom_node(t)->Ok_0 is Float || atom_node(t)->Ok_0 is Bool,
    ensures
        value_text(literal_value(atom_node(t)->Ok_0)) == t,
        parse_tokens(lex(value_text(literal_value(atom_node(t)->Ok_0)))) == atom_node(t),
        eval(host, depth, steps, env, atom_node(t)->Ok_0) == done(
            literal_value(atom_node(t)->Ok_0),
            env,
        ),
{
    let n = atom_node(t)->Ok_0;
    assert(value_text(literal_value(n)) == node_text(n));
    lemma_lex_word(t);
    lemma_parse_word(t);
    lemma_eval_literal(host, depth, steps, env, n);
}

/// A letter of the Latin alphabet.
pub open spec fn is_letter(c: char) -> bool {
    0x41 <= c as u32 <= 0x5A || 0x61 <= c as u32 <= 0x7A
}

/// The characters that numerals are written with.
pub open spec fn is_numeral_char(c: char) -> bool {
    is_digit(c) || is_letter(c) || c == '.' || c == '+' || c == '-'
}

proof fn lemma_digit_run(s: Seq<char>, i: int)
    requires
        0 <= i <= s.len(),
    ensures
        i + digit_run(s, i) <= s.len(),
        forall|j: int| i <= j < i + digit_run(s, i) ==> is_digit(#[trigger] s[j]),
    decreases s.len() - i,
{
    if i < s.len() && is_digit(s[i]) {
        lemma_digit_run(s, i + 1);
    }
}

proof fn lemma_lowered_letter(c: char, low: char)
    requires
        ascii_lower(c) == low,
        0x61 <= low as u32 <= 0x7A,
    ensures
        is_letter(c),
        low != 'i' ==> c != 'i',
{
}

/// The characters of a decimal number are numeral characters, and the last
/// of them is a digit or the point.
proof fn lemma_decimal_chars(b: Seq<char>)
    requires
        is_decimal_number(b),
    ensures
        b.len() > 0,
        forall|j: int| 0 <= j < b.len() ==> is_numeral_char(#[trigger] b[j]),
        is_digit(b.last()) || b.last() == '.',
{
    let whole = digit_run(b, 0) as int;
    lemma_digit_run(b, 0);
    let point = whole < b.len() && b[whole] == '.';
    let after_point = if point {
        whole + 1
    } else {
        whole
    };
    let fraction = if point {
        digit_run(b, after_point) as int
    } else {
        0
    };
    if point {
        lemma_digit_run(b, after_point);
    }
    let mantissa_end = after_point + fraction;
    if mantissa_end == b.len() {
        assert forall|j: int| 0 <= j < b.len() implies is_numeral_char(#[trigger] b[j]) by {
            if j < whole {
            } else if point && j == whole {
            } else {
                assert(is_digit(b[j]));
            }
        }
        if fraction > 0 {
            assert(is_digit(b[b.len() - 1]));
        } else if point {
            assert(b[b.len() - 1] == '.');
        } else {
            assert(is_digit(b[b.len() - 1]));
        }
    } else {
        let exponent = mantissa_end + 1;
        let digits_at = if exponent < b.len() && (b[exponent] == '+' || b[exponent] == '-') {
            exponent + 1
        } else {
            exponent
        };
        assert(digits_at <= b.len());
        lemma_digit_run(b, digits_at);
        lemma_lowered_letter(b[mantissa_end], 'e');
        assert forall|j: int| 0 <= j < b.len() implies is_numeral_char(#[trigger] b[j]) by {
            if j < whole {
            } else if point && j == whole {
            } else if j < mantissa_end {
                assert(is_digit(b[j]));
            } else if j == mantissa_end {
            } else if j < digits_at {
            } else {
                assert(is_digit(b[j]));
            }
        }
        assert(is_digit(b[b.len() - 1]));
    }
}

/// The characters of `inf`, `infinity` and `nan`, in any case of letters,
/// are letters, and the last of them is no `i`.
proof fn lemma_special_chars(b: Seq<char>)
    requires
        lowered(b) == seq!['i', 'n', 'f'] || lowered(b) == seq![
            'i',
            'n',
            'f',
            'i',
            'n',
            'i',
            't',
            'y',
        ] || lowered(b) == seq!['n', 'a', 'n'],
    ensures
        b.len() > 0,
        forall|j: int| 0 <= j < b.len() ==> is_numeral_char(#[trigger] b[j]),
        b.last() != 'i',
{
    let low = lowered(b);
    assert(low.len() == b.len());
    assert forall|j: int| 0 <= j < b.len() implies is_numeral_char(#[trigger] b[j]) by {
        assert(low[j] == ascii_lower(b[j]));
        lemma_lowered_letter(b[j], low[j]);
    }
    let k = b.len() - 1;
    assert(low[k] == ascii_lower(b[k]));
    lemma_lowered_letter(b[k], low[k]);
}

/// Every text of an inexact number is a word that the reader takes for
/// the inexact number of that text.
pub proof fn law_inexact_texts_read_back(t: Seq<char>)
    requires
        is_inexact_text(t),
    ensures
        is_word(t),
        atom_node(t) == Ok::<NodeView, Seq<char>>(NodeView::Float(t)),
        reads_back(t),
{
    let b = unsigned_part(t);
    if is_decimal_number(b) {
        lemma_decimal_chars(b);
    } else {
        lemma_special_chars(b);
    }
    assert(t.len() > 0);
    assert(t.last() == b.last());
    assert forall|j: int| 0 <= j < t.len() implies is_numeral_char(#[trigger] t[j]) by {
        if has_sign(t) {
            if j > 0 {
                assert(t[j] == b[j - 1]);
            }
        }
    }
    assert(is_numeral_char(t[0]));
    assert(is_numeral_char(t[t.len() - 1]));
    assert(t != seq!['\'']) by {
        assert(seq!['\''][0] == '\'');
    }
    assert(t != seq!['#', 't'] && t != seq!['#', 'f']) by {
        assert(seq!['#', 't'][0] == '#' && seq!['#', 'f'][0] == '#');
    }
    assert forall|j: int| 0 <= j < t.len() implies !is_space(#[trigger] t[j]) && t[j] != '('
        && t[j] != ')' && t[j] != '"' by {
        assert(is_numeral_char(t[j]));
    }
    assert(t.last() != 'i');
    assert(atom_with(t, regex_compiles(complex_pattern()), regex_groups(complex_pattern(), t))
        == Ok::<NodeView, Seq<char>>(plain_atom(t)));
}

/// The reader makes inexact numbers of such texts only: every inexact
/// literal that it reads holds the text that was read, and that text is
/// the text of an inexact number.
pub proof fn law_reader_makes_inexact_texts(t: Seq<char>, x: Seq<char>)
    requires
        atom_node(t) == Ok::<NodeView, Seq<char>>(NodeView::Float(x)),
    ensures
        x == t,
        is_inexact_text(t),
{
}

/// An inexact number that is written, read and evaluated is the same
/// inexact number, and never an integer: this holds of every text that an
/// inexact number holds.
pub proof fn law_float_round_trip(
    host: Host,
    depth: nat,
    steps: nat,
    env: Seq<Scope>,
    t: Seq<char>,
)
    requires
        depth > 0,
        steps > 0,
        is_inexact_text(t),
    ensures
        parse_tokens(lex(value_text(ValueView::Float(t)))) == Ok::<NodeView, Seq<char>>(
            NodeView::Float(t),
        ),
        eval(host, depth, steps, env, NodeView::Float(t)) == done(ValueView::Float(t), env),
{
    law_inexact_texts_read_back(t);
    lemma_lex_word(t);
    lemma_parse_word(t);
    lemma_eval_literal(host, depth, steps, env, NodeView::Float(t));
}

/// A flat list of literals that is written, put in a `quote`, read and
/// evaluated is the same list, where every literal is a word that reads
/// back as it is written and `quote` names the quoting operation.
pub proof fn law_list_round_trip(
    host: Host, depth: nat,
    steps: nat,
    env: Seq<Scope>,
    texts: Seq<Seq<char>>,
    name: Seq<char>,
)
    requires
        depth > 1,
        steps > 0,
        all_read_back(texts),
        lookup(env, quote_word()) == Some(ValueView::Function(name, Primitive::Quote)),
    ensures
        parse_tokens(lex(quote_form(value_text(literals(texts))))) == Ok::<NodeView, Seq<char>>(
            quote_node(texts),
        ),
        eval(host, depth, steps, env, quote_node(texts)) == done(literals(texts), env),
{
    let sep = seq![' '];
    assert(all_words(texts));
    assert(value_texts(literals(texts)->List_0) =~= texts);
    assert(value_text(literals(texts)) == seq!['('] + joined(texts, sep) + seq![')']);
    lemma_quote_form_words(texts);
    lemma_quote_is_a_symbol();
    let words = seq![seq!['('], quote_word(), seq!['(']] + texts + seq![seq![')'], seq![')']];
    assert forall|k: int| 0 <= k < words.len() implies is_simple(#[trigger] words[k]) by {
        if 3 <= k < 3 + texts.len() {
            assert(words[k] == texts[k - 3]);
        }
    }
    lemma_scan_simple(words, 0);
    let tokens = seq![TokenView::OpenParen, TokenView::NonParen(quote_word()), TokenView::OpenParen]
        + Seq::new(texts.len(), |i: int| TokenView::NonParen(texts[i])) + seq![
        TokenView::CloseParen,
        TokenView::CloseParen,
    ];
    assert(scan(words, 0, initial_state()) =~= tokens) by {
        assert(seq!['('][0] == '(' && seq![')'][0] == ')');
        assert(quote_word()[0] == 'q');
        assert forall|j: int| 0 <= j < words.len() implies token_of(#[trigger] words[j])
            == tokens[j] by {
            if 3 <= j < 3 + texts.len() {
                assert(words[j] == texts[j - 3]);
                assert(is_word(texts[j - 3]));
                assert(texts[j - 3][0] != '(' && texts[j - 3][0] != ')');
            }
        }
    }
    lemma_parse_quote_form(texts);
    lemma_eval_quote_node(host, depth, steps, env, texts, name);
}

} // verus!
