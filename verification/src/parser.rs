//! The reader: text to tokens, tokens to one syntax tree.

pub use crate::model::Node;
use crate::model::{lemma_list_node_view, nodes_view, NodeView};
use crate::text::{
    from_chars, int_literal, is_float_literal, is_float_text, is_space, is_space_char, joined,
    parse_int, push_all, to_chars,
};
use vstd::prelude::*;

verus! {

/// A lexical unit of a program text.
pub enum Token {
    OpenParen,
    CloseParen,
    /// The contents of a string literal.
    String(String),
    /// Any other word: a name, a number, `#t` or `#f`.
    NonParen(String),
}

/// The model of a `Token`.
pub enum TokenView {
    OpenParen,
    CloseParen,
    String(Seq<char>),
    NonParen(Seq<char>),
}

impl View for Token {
    type V = TokenView;

    open spec fn view(&self) -> TokenView {
        match self {
            Token::OpenParen => TokenView::OpenParen,
            Token::CloseParen => TokenView::CloseParen,
            Token::String(s) => TokenView::String(s@),
            Token::NonParen(s) => TokenView::NonParen(s@),
        }
    }
}

/// The models of a sequence of tokens.
pub open spec fn tokens_view(v: Seq<Token>) -> Seq<TokenView> {
    Seq::new(v.len(), |i: int| v[i]@)
}

/// Why a text is no expression.
pub struct ParseError {
    pub message: String,
}

impl ParseError {
    /// The error as it is shown to a user.
    pub fn to_string(&self) -> (r: String)
        ensures
            r@ == "ParseError: "@ + self.message@,
    {
        let mut out = to_chars("ParseError: ");
        let tail = to_chars(self.message.as_str());
        push_all(&mut out, &tail);
        from_chars(&out)
    }
}

// ---------------------------------------------------------------------
// Words
// ---------------------------------------------------------------------
/// A parenthesis is a word by itself, and so is a double quote that no
/// backslash precedes.
pub open spec fn stands_alone(s: Seq<char>, i: int) -> bool {
    s[i] == '(' || s[i] == ')' || (s[i] == '"' && !(i > 0 && s[i - 1] == '\\'))
}

/// The word `cur`, unless it is empty.
pub open spec fn finished(cur: Seq<char>) -> Seq<Seq<char>> {
    if cur.len() == 0 {
        Seq::empty()
    } else {
        seq![cur]
    }
}

/// The words of `s` from position `i` on, where `cur` holds the characters
/// of the word that position `i` continues.
pub open spec fn words_from(s: Seq<char>, i: int, cur: Seq<char>) -> Seq<Seq<char>>
    decreases s.len() - i,
{
    if i < 0 || i >= s.len() {
        finished(cur)
    } else if is_space(s[i]) {
        finished(cur) + words_from(s, i + 1, Seq::empty())
    } else if stands_alone(s, i) {
        finished(cur) + seq![seq![s[i]]] + words_from(s, i + 1, Seq::empty())
    } else {
        words_from(s, i + 1, cur.push(s[i]))
    }
}

/// The words of a text: white space separates them, and the characters that
/// stand alone are words of their own.
pub open spec fn split_words(s: Seq<char>) -> Seq<Seq<char>> {
    words_from(s, 0, Seq::empty())
}

/// The texts of a sequence of character vectors.
pub open spec fn texts(v: Seq<Vec<char>>) -> Seq<Seq<char>> {
    Seq::new(v.len(), |i: int| v[i]@)
}

fn split(chars: &Vec<char>) -> (words: Vec<Vec<char>>)
    ensures
        texts(words@) == split_words(chars@),
{
    let mut words: Vec<Vec<char>> = Vec::new();
    let mut cur: Vec<char> = Vec::new();
    let mut i: usize = 0;
    assert(texts(words@) + words_from(chars@, 0, cur@) =~= split_words(chars@));
    while i < chars.len()
        invariant
            i <= chars.len(),
            split_words(chars@) == texts(words@) + words_from(chars@, i as int, cur@),
        decreases chars.len() - i,
    {
        let c = chars[i];
        let alone = c == '(' || c == ')' || (c == '"' && !(i > 0 && chars[i - 1] == '\\'));
        let ghost before = texts(words@);
        let ghost word = cur@;
        if is_space_char(c) || alone {
            if cur.len() > 0 {
                words.push(cur);
                cur = Vec::new();
            }
            assert(texts(words@) =~= before + finished(word));
            if alone {
                let mut w: Vec<char> = Vec::new();
                w.push(c);
                assert(w@ =~= seq![c]);
                words.push(w);
                assert(texts(words@) =~= before + finished(word) + seq![seq![c]]);
            }
            assert(cur@ =~= Seq::<char>::empty());
        } else {
            cur.push(c);
        }
        i += 1;
    }
    let ghost before = texts(words@);
    let ghost word = cur@;
    if cur.len() > 0 {
        words.push(cur);
    }
    assert(texts(words@) =~= before + finished(word));
    words
}

// ---------------------------------------------------------------------
// Tokens
// ---------------------------------------------------------------------
/// What the tokenizer remembers between two words.
pub struct LexState {
    /// For each quote that is still open, innermost last, how many
    /// parentheses have been opened and not closed since it began.
    pub quotes: Seq<nat>,
    /// Whether a string literal is being read.
    pub in_string: bool,
    /// The words of the string literal read so far.
    pub pending: Seq<Seq<char>>,
}

/// What the tokenizer remembers before the first word: nothing.
pub open spec fn initial_state() -> LexState {
    LexState { quotes: Seq::empty(), in_string: false, pending: Seq::empty() }
}

/// A word in which every backslash followed by a double quote has become a
/// double quote.
pub open spec fn unescaped(s: Seq<char>) -> Seq<char>
    decreases s.len(),
{
    if s.len() == 0 {
        Seq::empty()
    } else if s.len() >= 2 && s[0] == '\\' && s[1] == '"' {
        seq!['"'] + unescaped(s.subrange(2, s.len() as int))
    } else {
        seq![s[0]] + unescaped(s.drop_first())
    }
}

/// The open quotes once a datum is complete: each quote whose datum it
/// completes ends, innermost first.
pub open spec fn settled(q: Seq<nat>) -> Seq<nat>
    decreases q.len(),
{
    if q.len() > 0 && q.last() == 0 {
        settled(q.drop_last())
    } else {
        q
    }
}

/// The open quotes after an opening parenthesis.
pub open spec fn opened(q: Seq<nat>) -> Seq<nat> {
    if q.len() > 0 {
        q.drop_last().push(q.last() + 1)
    } else {
        q
    }
}

/// The open quotes after a closing parenthesis, before any quote ends: a
/// quote that still waits for its datum is given up, and the parenthesis
/// counts for the quote around it.
pub open spec fn closed(q: Seq<nat>) -> Seq<nat>
    decreases q.len(),
{
    if q.len() == 0 {
        q
    } else if q.last() == 0 {
        closed(q.drop_last())
    } else {
        q.drop_last().push((q.last() - 1) as nat)
    }
}

/// `n` closing parentheses.
pub open spec fn closings(n: int) -> Seq<TokenView> {
    Seq::new(
        if n > 0 {
            n as nat
        } else {
            0
        },
        |i: int| TokenView::CloseParen,
    )
}

/// The closing parentheses that end the quotes whose datum is complete.
pub open spec fn quote_ends(q: Seq<nat>) -> Seq<TokenView> {
    closings(q.len() - settled(q).len())
}

/// The name that the quote sign stands for.
pub open spec fn quote_word() -> Seq<char> {
    seq!['q', 'u', 'o', 't', 'e']
}

/// The tokens that one word adds.
pub open spec fn word_tokens(w: Seq<char>, st: LexState) -> Seq<TokenView> {
    if st.in_string {
        if w == seq!['"'] {
            seq![TokenView::String(joined(st.pending, seq![' ']))] + quote_ends(st.quotes)
        } else {
            Seq::empty()
        }
    } else if w == seq!['('] {
        seq![TokenView::OpenParen]
    } else if w == seq![')'] {
        seq![TokenView::CloseParen] + quote_ends(closed(st.quotes))
    } else if w == seq!['\''] {
        seq![TokenView::OpenParen, TokenView::NonParen(quote_word())]
    } else if w == seq!['"'] {
        Seq::empty()
    } else {
        seq![TokenView::NonParen(w)] + quote_ends(st.quotes)
    }
}

/// What the tokenizer remembers after one word.
pub open spec fn word_state(w: Seq<char>, st: LexState) -> LexState {
    if st.in_string {
        if w == seq!['"'] {
            LexState { quotes: settled(st.quotes), in_string: false, pending: Seq::empty() }
        } else {
            LexState { pending: st.pending.push(unescaped(w)), ..st }
        }
    } else if w == seq!['('] {
        LexState { quotes: opened(st.quotes), ..st }
    } else if w == seq![')'] {
        LexState { quotes: settled(closed(st.quotes)), ..st }
    } else if w == seq!['\''] {
        LexState { quotes: st.quotes.push(0), ..st }
    } else if w == seq!['"'] {
        LexState { in_string: true, pending: Seq::empty(), ..st }
    } else {
        LexState { quotes: settled(st.quotes), ..st }
    }
}

/// The tokens of the words from position `i` on.
pub open spec fn scan(words: Seq<Seq<char>>, i: int, st: LexState) -> Seq<TokenView>
    decreases words.len() - i,
{
    if i < 0 || i >= words.len() {
        Seq::empty()
    } else {
        word_tokens(words[i], st) + scan(words, i + 1, word_state(words[i], st))
    }
}

/// The tokens of a text. Parentheses are tokens of their own. A `'` that
/// stands as a word opens a list that begins with `quote` and closes by
/// itself after the next datum. Between two double quotes the words form
/// one string, a single space between each two; a string that never ends
/// is dropped.
pub open spec fn lex(s: Seq<char>) -> Seq<TokenView> {
    scan(split_words(s), 0, initial_state())
}

fn unescape(w: &Vec<char>) -> (r: Vec<char>)
    ensures
        r@ == unescaped(w@),
{
    let mut out: Vec<char> = Vec::new();
    let mut i: usize = 0;
    assert(w@.subrange(0, w@.len() as int) =~= w@);
    while i < w.len()
        invariant
            i <= w.len(),
            out@ + unescaped(w@.subrange(i as int, w@.len() as int)) == unescaped(w@),
        decreases w.len() - i,
    {
        let ghost rest = w@.subrange(i as int, w@.len() as int);
        if w[i] == '\\' && i + 1 < w.len() && w[i + 1] == '"' {
            assert(rest[0] == '\\' && rest[1] == '"');
            assert(rest.subrange(2, rest.len() as int) =~= w@.subrange(i + 2, w@.len() as int));
            let ghost old_out = out@;
            out.push('"');
            i += 2;
            assert(out@ + unescaped(w@.subrange(i as int, w@.len() as int)) =~= old_out
                + unescaped(rest));
        } else {
            proof {
                assert(rest[0] == w@[i as int]);
                if rest.len() >= 2 {
                    assert(rest[1] == w@[i + 1]);
                }
                assert(rest.drop_first() =~= w@.subrange(i + 1, w@.len() as int));
            }
            let ghost old_out = out@;
            out.push(w[i]);
            i += 1;
            assert(out@ + unescaped(w@.subrange(i as int, w@.len() as int)) =~= old_out
                + unescaped(rest));
        }
    }
    assert(out@ =~= unescaped(w@));
    out
}

fn join_words(parts: &Vec<Vec<char>>) -> (r: Vec<char>)
    ensures
        r@ == joined(texts(parts@), seq![' ']),
{
    let mut out: Vec<char> = Vec::new();
    let mut i: usize = 0;
    let ghost all = texts(parts@);
    assert(all.subrange(0, 0) =~= Seq::<Seq<char>>::empty());
    while i < parts.len()
        invariant
            i <= parts.len(),
            all == texts(parts@),
            out@ == joined(all.subrange(0, i as int), seq![' ']),
        decreases parts.len() - i,
    {
        let ghost before = out@;
        if i > 0 {
            out.push(' ');
        }
        push_all(&mut out, &parts[i]);
        proof {
            let now = all.subrange(0, i + 1);
            assert(now.drop_last() =~= all.subrange(0, i as int));
            assert(now.last() == parts@[i as int]@);
            if i > 0 {
                assert(out@ =~= before + seq![' '] + parts@[i as int]@);
            } else {
                assert(out@ =~= parts@[i as int]@);
            }
        }
        i += 1;
    }
    assert(all.subrange(0, parts.len() as int) =~= all);
    out
}

/// The open quotes as the specification counts them.
pub open spec fn counts(q: Seq<usize>) -> Seq<nat> {
    Seq::new(q.len(), |i: int| q[i] as nat)
}

/// Ends the quotes whose datum is complete, and appends their closing
/// parentheses.
fn settle(quotes: &mut Vec<usize>, tokens: &mut Vec<Token>)
    ensures
        counts(final(quotes)@) == settled(counts(old(quotes)@)),
        tokens_view(final(tokens)@) == tokens_view(old(tokens)@) + quote_ends(counts(old(quotes)@)),
        forall|k: int|
            0 <= k < final(quotes)@.len() ==> final(quotes)@[k] == old(quotes)@[k],
        final(quotes)@.len() <= old(quotes)@.len(),
{
    let ghost start = counts(quotes@);
    let ghost base = tokens_view(tokens@);
    assert(tokens_view(tokens@) =~= base + closings(0));
    while quotes.len() > 0 && quotes[quotes.len() - 1] == 0
        invariant
            quotes@.len() <= old(quotes)@.len(),
            start == counts(old(quotes)@),
            forall|k: int| 0 <= k < quotes@.len() ==> quotes@[k] == old(quotes)@[k],
            settled(counts(quotes@)) == settled(start),
            tokens_view(tokens@) == base + closings(start.len() - quotes@.len()),
        decreases quotes.len(),
    {
        let ghost q0 = counts(quotes@);
        let ghost t0 = tokens_view(tokens@);
        quotes.pop();
        tokens.push(Token::CloseParen);
        proof {
            assert(counts(quotes@) =~= q0.drop_last());
            assert(q0.last() == 0);
            assert(tokens_view(tokens@) =~= t0.push(TokenView::CloseParen));
            assert(t0.push(TokenView::CloseParen) =~= base + closings(
                start.len() - quotes@.len(),
            ));
        }
    }
    proof {
        let q = counts(quotes@);
        if q.len() > 0 {
            assert(q.last() == quotes@[quotes@.len() - 1]);
        }
        assert(settled(q) == q);
    }
}

/// Counts a closing parenthesis for the innermost quote that has begun its
/// datum, giving up those that have not.
fn close_quotes(quotes: &mut Vec<usize>)
    ensures
        counts(final(quotes)@) == closed(counts(old(quotes)@)),
        final(quotes)@.len() <= old(quotes)@.len(),
        forall|k: int|
            0 <= k < final(quotes)@.len() ==> final(quotes)@[k] <= old(quotes)@[k],
{
    let ghost start = counts(quotes@);
    while quotes.len() > 0 && quotes[quotes.len() - 1] == 0
        invariant
            quotes@.len() <= old(quotes)@.len(),
            forall|k: int| 0 <= k < quotes@.len() ==> quotes@[k] == old(quotes)@[k],
            closed(counts(quotes@)) == closed(start),
        decreases quotes.len(),
    {
        let ghost q0 = counts(quotes@);
        quotes.pop();
        proof {
            assert(counts(quotes@) =~= q0.drop_last());
            assert(q0.last() == 0);
        }
    }
    let n = quotes.len();
    if n > 0 {
        let ghost q0 = counts(quotes@);
        let top = quotes[n - 1];
        assert(q0.last() == top);
        quotes.pop();
        quotes.push(top - 1);
        assert(counts(quotes@) =~= q0.drop_last().push((q0.last() - 1) as nat));
    } else {
        assert(counts(quotes@) =~= Seq::<nat>::empty());
    }
}

fn is_single(w: &Vec<char>, c: char) -> (r: bool)
    ensures
        r == (w@ == seq![c]),
{
    if w.len() == 1 && w[0] == c {
        assert(w@ =~= seq![c]);
        true
    } else {
        if w.len() == 1 {
            assert(w@[0] != seq![c][0]);
        }
        false
    }
}

fn quote_name() -> (r: String)
    ensures
        r@ == quote_word(),
{
    let mut v: Vec<char> = Vec::new();
    v.push('q');
    v.push('u');
    v.push('o');
    v.push('t');
    v.push('e');
    assert(v@ =~= quote_word());
    from_chars(&v)
}

fn scan_words(words: &Vec<Vec<char>>) -> (tokens: Vec<Token>)
    ensures
        tokens_view(tokens@) == scan(texts(words@), 0, initial_state()),
{
    let mut tokens: Vec<Token> = Vec::new();
    let mut quotes: Vec<usize> = Vec::new();
    let mut in_string = false;
    let mut pending: Vec<Vec<char>> = Vec::new();
    let mut i: usize = 0;
    let ghost all = texts(words@);
    let ghost mut st = initial_state();
    assert(tokens_view(tokens@) + scan(all, 0, st) =~= scan(all, 0, initial_state()));
    assert(counts(quotes@) =~= st.quotes);
    assert(texts(pending@) =~= st.pending);
    while i < words.len()
        invariant
            i <= words.len(),
            all == texts(words@),
            st.quotes == counts(quotes@),
            st.in_string == in_string,
            st.pending == texts(pending@),
            forall|k: int| 0 <= k < quotes@.len() ==> quotes@[k] <= i,
            tokens_view(tokens@) + scan(all, i as int, st) == scan(all, 0, initial_state()),
        decreases words.len() - i,
    {
        let w = &words[i];
        let ghost t0 = tokens_view(tokens@);
        let ghost word = all[i as int];
        assert(word == w@);
        let ghost added = word_tokens(word, st);
        let ghost next = word_state(word, st);
        if in_string {
            if is_single(w, '"') {
                let text = join_words(&pending);
                tokens.push(Token::String(from_chars(&text)));
                let ghost t1 = tokens_view(tokens@);
                assert(t1 =~= t0 + seq![TokenView::String(joined(st.pending, seq![' ']))]);
                settle(&mut quotes, &mut tokens);
                pending = Vec::new();
                in_string = false;
                assert(texts(pending@) =~= next.pending);
            } else {
                let ghost so_far = texts(pending@);
                pending.push(unescape(w));
                assert(texts(pending@) =~= so_far.push(unescaped(word)));
            }
        } else if is_single(w, '(') {
            tokens.push(Token::OpenParen);
            let n = quotes.len();
            if n > 0 {
                let ghost q0 = counts(quotes@);
                let top = quotes[n - 1];
                quotes.pop();
                quotes.push(top + 1);
                assert(counts(quotes@) =~= q0.drop_last().push(q0.last() + 1));
            }
        } else if is_single(w, ')') {
            tokens.push(Token::CloseParen);
            let ghost t1 = tokens_view(tokens@);
            assert(t1 =~= t0 + seq![TokenView::CloseParen]);
            close_quotes(&mut quotes);
            settle(&mut quotes, &mut tokens);
        } else if is_single(w, '\'') {
            tokens.push(Token::OpenParen);
            tokens.push(Token::NonParen(quote_name()));
            let ghost q0 = counts(quotes@);
            quotes.push(0);
            assert(counts(quotes@) =~= q0.push(0));
        } else if is_single(w, '"') {
            in_string = true;
            pending = Vec::new();
            assert(texts(pending@) =~= next.pending);
        } else {
            tokens.push(Token::NonParen(from_chars(w)));
            let ghost t1 = tokens_view(tokens@);
            assert(t1 =~= t0 + seq![TokenView::NonParen(word)]);
            settle(&mut quotes, &mut tokens);
        }
        proof {
            assert(tokens_view(tokens@) =~= t0 + added);
            assert(counts(quotes@) == next.quotes);
            assert(scan(all, i as int, st) == added + scan(all, i + 1, next));
            assert(tokens_view(tokens@) + scan(all, i + 1, next) =~= t0 + scan(
                all,
                i as int,
                st,
            ));
            st = next;
        }
        i += 1;
    }
    assert(tokens_view(tokens@) =~= scan(all, 0, initial_state()));
    tokens
}

/// Turns a program text into its tokens.
pub fn tokenize(program: String) -> (tokens: Vec<Token>)
    ensures
        tokens_view(tokens@) == lex(program@),
{
    let chars = to_chars(program.as_str());
    let words = split(&chars);
    scan_words(&words)
}

// ---------------------------------------------------------------------
// Atoms
// ---------------------------------------------------------------------
/// The error of the `regex` crate, for a pattern that does not compile.
#[verifier::external_type_specification]
#[verifier::external_body]
pub struct ExRegexError(regex::Error);

/// Whether `regex::Regex::new` accepts the pattern.
pub uninterp spec fn regex_compiles(pattern: Seq<char>) -> bool;

/// What `regex::Regex::captures` finds in a text for an accepted pattern:
/// nothing, or for each group of the first match the text it matched, if it
/// took part in the match.
pub uninterp spec fn regex_groups(pattern: Seq<char>, text: Seq<char>) -> Option<
    Seq<Option<Seq<char>>>,
>;

/// The texts of the groups of a match.
pub open spec fn group_texts(groups: Seq<Option<String>>) -> Seq<Option<Seq<char>>> {
    Seq::new(
        groups.len(),
        |i: int|
            match groups[i] {
                Some(s) => Some(s@),
                None => None,
            },
    )
}

/// The models of what a search found.
pub open spec fn found_view(found: Option<Vec<Option<String>>>) -> Option<Seq<Option<Seq<char>>>> {
    match found {
        Some(groups) => Some(group_texts(groups@)),
        None => None,
    }
}

/// Compiles `pattern` with `regex::Regex::new` and searches `text` with
/// `regex::Regex::captures`. The contract gives both results their names:
/// the error comes exactly for a pattern that does not compile, and
/// otherwise the groups of the first match are handed out as texts.
#[verifier::external_body]
fn regex_captures(pattern: &str, text: &str) -> (r: Result<
    Option<Vec<Option<String>>>,
    regex::Error,
>)
    ensures
        r is Ok == regex_compiles(pattern@),
        r matches Ok(found) ==> found_view(found) == regex_groups(pattern@, text@),
{
    let re = regex::Regex::new(pattern)?;
    let found = re.captures(text);
    Ok(found.map(|c| c.iter().map(|g| g.map(|m| m.as_str().to_string())).collect()))
}

/// The pattern of a complex literal: a real part, a signed imaginary part
/// and a final `i`.
pub open spec fn complex_pattern() -> Seq<char> {
    r"^(\d*\.?\d*)([\+-]\d*\.?\d*)i$"@
}

fn complex_pattern_str() -> (r: &'static str)
    ensures
        r@ == complex_pattern(),
{
    r"^(\d*\.?\d*)([\+-]\d*\.?\d*)i$"
}

/// The model of a result of the reader.
pub open spec fn node_result_view(r: Result<Node, ParseError>) -> Result<NodeView, Seq<char>> {
    match r {
        Ok(n) => Ok(n@),
        Err(e) => Err(e.message@),
    }
}

/// The complaint about a complex literal whose parts are no numbers.
pub open spec fn malformed_complex(text: Seq<char>) -> Seq<char> {
    "Error parsing complex constant "@ + text
}

/// The text of the real part of a complex literal: `0` where none is
/// written.
pub open spec fn real_part(group: Option<Seq<char>>) -> Seq<char> {
    match group {
        Some(t) => if t.len() == 0 {
            seq!['0']
        } else {
            t
        },
        None => seq!['0'],
    }
}

/// The text of the imaginary part of a complex literal: a bare sign stands
/// for one, and a leading plus sign is not kept.
pub open spec fn imaginary_part(group: Option<Seq<char>>) -> Seq<char> {
    match group {
        Some(t) => if t == seq!['+'] {
            seq!['1']
        } else if t == seq!['-'] {
            seq!['-', '1']
        } else if t.len() > 0 && t[0] == '+' {
            t.drop_first()
        } else {
            t
        },
        None => seq!['1'],
    }
}

/// The complex literal that the groups of a match of the complex pattern
/// write: the whole match, the real part and the imaginary part. Both parts
/// have to be inexact literals.
pub open spec fn complex_node(text: Seq<char>, groups: Seq<Option<Seq<char>>>) -> Result<
    NodeView,
    Seq<char>,
> {
    if groups.len() == 3 && is_float_literal(real_part(groups[1])) && is_float_literal(
        imaginary_part(groups[2]),
    ) {
        Ok(NodeView::Complex(real_part(groups[1]), imaginary_part(groups[2])))
    } else {
        Err(malformed_complex(text))
    }
}

/// What a word is when it is no complex literal: an integer if it reads as
/// one, else an inexact number if it reads as one, else a symbol.
pub open spec fn plain_atom(text: Seq<char>) -> NodeView {
    match int_literal(text) {
        Some(v) => NodeView::Int(v),
        None => if is_float_literal(text) {
            NodeView::Float(text)
        } else {
            NodeView::Symbol(text)
        },
    }
}

/// Whether a word ends in `i`, as every complex literal does.
pub open spec fn ends_in_i(text: Seq<char>) -> bool {
    text.len() > 0 && text.last() == 'i'
}

/// The complaint about a complex pattern that does not compile.
pub open spec fn bad_pattern() -> Seq<char> {
    "Complex pattern rejected"@
}

/// What a word is, given what a search for the complex pattern found in it.
/// Only words that end in `i` are offered to the pattern.
pub open spec fn atom_with(
    text: Seq<char>,
    compiles: bool,
    found: Option<Seq<Option<Seq<char>>>>,
) -> Result<NodeView, Seq<char>> {
    if text == seq!['#', 't'] {
        Ok(NodeView::Bool(true))
    } else if text == seq!['#', 'f'] {
        Ok(NodeView::Bool(false))
    } else if ends_in_i(text) && !compiles {
        Err(bad_pattern())
    } else if ends_in_i(text) && found is Some {
        complex_node(text, found->0)
    } else {
        Ok(plain_atom(text))
    }
}

/// The node that a word writes: a truth value, a complex literal, an
/// integer, an inexact number or a symbol, in this order of preference.
pub open spec fn atom_node(text: Seq<char>) -> Result<NodeView, Seq<char>> {
    atom_with(text, regex_compiles(complex_pattern()), regex_groups(complex_pattern(), text))
}

fn parse_error(prefix: &str, tail: &str) -> (e: ParseError)
    ensures
        e.message@ == prefix@ + tail@,
{
    ParseError { message: String::from_str(prefix).concat(tail) }
}

fn plain_error(text: &str) -> (e: ParseError)
    ensures
        e.message@ == text@,
{
    ParseError { message: String::from_str(text) }
}

fn chars_equal(a: &Vec<char>, b: &str) -> (r: bool)
    ensures
        r == (a@ == b@),
{
    let w = to_chars(b);
    if a.len() != w.len() {
        return false;
    }
    let mut i: usize = 0;
    while i < a.len()
        invariant
            i <= a.len(),
            a.len() == w.len(),
            w@ == b@,
            forall|j: int| 0 <= j < i ==> a@[j] == w@[j],
        decreases a.len() - i,
    {
        if a[i] != w[i] {
            assert(a@[i as int] != b@[i as int]);
            return false;
        }
        i += 1;
    }
    assert(a@ =~= w@);
    true
}

fn real_text(group: &Option<String>) -> (r: Vec<char>)
    ensures
        r@ == real_part(
            match group {
                Some(s) => Some(s@),
                None => None,
            },
        ),
{
    let mut zero: Vec<char> = Vec::new();
    zero.push('0');
    assert(zero@ =~= seq!['0']);
    match group {
        Some(s) => {
            let t = to_chars(s.as_str());
            if t.len() == 0 {
                zero
            } else {
                t
            }
        },
        None => zero,
    }
}

fn imaginary_text(group: &Option<String>) -> (r: Vec<char>)
    ensures
        r@ == imaginary_part(
            match group {
                Some(s) => Some(s@),
                None => None,
            },
        ),
{
    let mut one: Vec<char> = Vec::new();
    one.push('1');
    assert(one@ =~= seq!['1']);
    match group {
        Some(s) => {
            let t = to_chars(s.as_str());
            if is_single(&t, '+') {
                one
            } else if is_single(&t, '-') {
                let mut r: Vec<char> = Vec::new();
                r.push('-');
                r.push('1');
                assert(r@ =~= seq!['-', '1']);
                r
            } else if t.len() > 0 && t[0] == '+' {
                let mut r: Vec<char> = Vec::new();
                let mut i: usize = 1;
                while i < t.len()
                    invariant
                        1 <= i <= t.len(),
                        r@ == t@.subrange(1, i as int),
                    decreases t.len() - i,
                {
                    r.push(t[i]);
                    i += 1;
                }
                assert(r@ =~= t@.drop_first());
                r
            } else {
                t
            }
        },
        None => one,
    }
}

/// Builds a complex literal from the groups that the complex pattern
/// matched in `text`.
pub fn complex_from_groups(text: &String, groups: &Vec<Option<String>>) -> (r: Result<
    Node,
    ParseError,
>)
    ensures
        node_result_view(r) == complex_node(text@, group_texts(groups@)),
{
    if groups.len() != 3 {
        return Err(parse_error("Error parsing complex constant ", text.as_str()));
    }
    let re = real_text(&groups[1]);
    let im = imaginary_text(&groups[2]);
    if is_float_text(&re) && is_float_text(&im) {
        Ok(Node::Complex(from_chars(&re), from_chars(&im)))
    } else {
        Err(parse_error("Error parsing complex constant ", text.as_str()))
    }
}

/// Reads a word that is no complex literal.
pub fn read_plain_atom(text: &String) -> (n: Node)
    ensures
        n@ == plain_atom(text@),
{
    let chars = to_chars(text.as_str());
    match parse_int(&chars) {
        Some(v) => Node::Int(v),
        None => if is_float_text(&chars) {
            Node::Float(text.clone())
        } else {
            Node::Symbol(text.clone())
        },
    }
}

/// Reads a word, given what a search for the complex pattern found in it.
pub fn read_atom_with(text: &String, found: Result<Option<Vec<Option<String>>>, ()>) -> (r: Result<
    Node,
    ParseError,
>)
    ensures
        node_result_view(r) == atom_with(
            text@,
            found is Ok,
            match found {
                Ok(f) => found_view(f),
                Err(_) => None,
            },
        ),
{
    let chars = to_chars(text.as_str());
    proof {
        reveal_strlit("#t");
        reveal_strlit("#f");
        assert("#t"@ =~= seq!['#', 't']);
        assert("#f"@ =~= seq!['#', 'f']);
    }
    if chars_equal(&chars, "#t") {
        return Ok(Node::Bool(true));
    }
    if chars_equal(&chars, "#f") {
        return Ok(Node::Bool(false));
    }
    let offered = chars.len() > 0 && chars[chars.len() - 1] == 'i';
    if offered {
        match found {
            Err(_) => {
                return Err(plain_error("Complex pattern rejected"));
            },
            Ok(Some(groups)) => {
                return complex_from_groups(text, &groups);
            },
            Ok(None) => {},
        }
    }
    Ok(read_plain_atom(text))
}

/// Reads a word.
pub fn parse_atom(text: &String) -> (r: Result<Node, ParseError>)
    ensures
        node_result_view(r) == atom_node(text@),
{
    let searched = regex_captures(complex_pattern_str(), text.as_str());
    let found = match searched {
        Ok(f) => Ok(f),
        Err(_) => Err(()),
    };
    read_atom_with(text, found)
}

// ---------------------------------------------------------------------
// Trees
// ---------------------------------------------------------------------
/// The lists that are being read: the unfinished lists around the current
/// one, outermost first, and the nodes of the current one.
pub struct ParseState {
    pub outer: Seq<Seq<NodeView>>,
    pub current: Seq<NodeView>,
}

/// The complaint about tokens that end inside a list, or hold no node.
pub open spec fn unexpected_end() -> Seq<char> {
    "Unexpected end of input"@
}

/// The complaint about a closing parenthesis that closes no list.
pub open spec fn unexpected_close() -> Seq<char> {
    "Unexpected close paren"@
}

/// The complaint about more than one expression.
pub open spec fn several_forms() -> Seq<char> {
    "Only one outer level permitted"@
}

/// The top-level nodes that the tokens from position `i` on complete. An
/// opening parenthesis begins a list, the matching closing one ends it; a
/// closing parenthesis without a list to end is an error, as is a list
/// that the tokens leave open, and a word that no node can be read from.
pub open spec fn parse_from(tokens: Seq<TokenView>, i: int, st: ParseState) -> Result<
    Seq<NodeView>,
    Seq<char>,
>
    decreases tokens.len() - i,
{
    if i < 0 || i >= tokens.len() {
        if st.outer.len() > 0 {
            Err(unexpected_end())
        } else {
            Ok(st.current)
        }
    } else {
        match tokens[i] {
            TokenView::OpenParen => parse_from(
                tokens,
                i + 1,
                ParseState { outer: st.outer.push(st.current), current: Seq::empty() },
            ),
            TokenView::CloseParen => if st.outer.len() == 0 {
                Err(unexpected_close())
            } else {
                parse_from(
                    tokens,
                    i + 1,
                    ParseState {
                        outer: st.outer.drop_last(),
                        current: st.outer.last().push(NodeView::List(st.current)),
                    },
                )
            },
            TokenView::String(s) => parse_from(
                tokens,
                i + 1,
                ParseState { current: st.current.push(NodeView::String(s)), ..st },
            ),
            TokenView::NonParen(t) => match atom_node(t) {
                Ok(n) => parse_from(
                    tokens,
                    i + 1,
                    ParseState { current: st.current.push(n), ..st },
                ),
                Err(e) => Err(e),
            },
        }
    }
}

/// The top-level nodes of a token sequence.
pub open spec fn parse_all(tokens: Seq<TokenView>) -> Result<Seq<NodeView>, Seq<char>> {
    parse_from(tokens, 0, ParseState { outer: Seq::empty(), current: Seq::empty() })
}

/// The one node of a token sequence. No node and more than one node are
/// errors.
pub open spec fn parse_tokens(tokens: Seq<TokenView>) -> Result<NodeView, Seq<char>> {
    match parse_all(tokens) {
        Err(e) => Err(e),
        Ok(nodes) => if nodes.len() > 1 {
            Err(several_forms())
        } else if nodes.len() == 0 {
            Err(unexpected_end())
        } else {
            Ok(nodes[0])
        },
    }
}

/// The models of the unfinished lists.
pub open spec fn lists_view(v: Seq<Vec<Node>>) -> Seq<Seq<NodeView>> {
    Seq::new(v.len(), |i: int| nodes_view(v[i]@))
}

/// The model of a result that holds several nodes.
pub open spec fn nodes_result_view(r: Result<Vec<Node>, ParseError>) -> Result<
    Seq<NodeView>,
    Seq<char>,
> {
    match r {
        Ok(v) => Ok(nodes_view(v@)),
        Err(e) => Err(e.message@),
    }
}

/// Reads the top-level nodes of a token sequence.
pub fn parse_nodes(tokens: &Vec<Token>) -> (r: Result<Vec<Node>, ParseError>)
    ensures
        nodes_result_view(r) == parse_all(tokens_view(tokens@)),
{
    let mut outer: Vec<Vec<Node>> = Vec::new();
    let mut current: Vec<Node> = Vec::new();
    let mut i: usize = 0;
    let ghost all = tokens_view(tokens@);
    let ghost mut st = ParseState { outer: Seq::empty(), current: Seq::empty() };
    assert(lists_view(outer@) =~= st.outer);
    assert(nodes_view(current@) =~= st.current);
    while i < tokens.len()
        invariant
            i <= tokens.len(),
            all == tokens_view(tokens@),
            st.outer == lists_view(outer@),
            st.current == nodes_view(current@),
            parse_from(all, i as int, st) == parse_all(all),
        decreases tokens.len() - i,
    {
        let ghost o0 = lists_view(outer@);
        let ghost c0 = nodes_view(current@);
        assert(all[i as int] == tokens@[i as int]@);
        match &tokens[i] {
            Token::OpenParen => {
                outer.push(current);
                current = Vec::new();
                proof {
                    assert(lists_view(outer@) =~= o0.push(c0));
                    assert(nodes_view(current@) =~= Seq::<NodeView>::empty());
                    st = ParseState { outer: o0.push(c0), current: Seq::empty() };
                }
            },
            Token::CloseParen => {
                match outer.pop() {
                    None => {
                        return Err(plain_error("Unexpected close paren"));
                    },
                    Some(up) => {
                        let ghost up0 = nodes_view(up@);
                        assert(up0 == o0.last());
                        let mut up = up;
                        let inner = Node::List(current);
                        proof {
                            lemma_list_node_view(current);
                        }
                        up.push(inner);
                        current = up;
                        proof {
                            assert(lists_view(outer@) =~= o0.drop_last());
                            assert(nodes_view(current@) =~= up0.push(NodeView::List(c0)));
                            st = ParseState {
                                outer: o0.drop_last(),
                                current: up0.push(NodeView::List(c0)),
                            };
                        }
                    },
                }
            },
            Token::String(s) => {
                current.push(Node::String(s.clone()));
                proof {
                    assert(nodes_view(current@) =~= c0.push(NodeView::String(s@)));
                    st = ParseState { current: c0.push(NodeView::String(s@)), ..st };
                }
            },
            Token::NonParen(t) => {
                match parse_atom(t) {
                    Err(e) => {
                        return Err(e);
                    },
                    Ok(n) => {
                        let ghost nv = n@;
                        current.push(n);
                        proof {
                            assert(nodes_view(current@) =~= c0.push(nv));
                            st = ParseState { current: c0.push(nv), ..st };
                        }
                    },
                }
            },
        }
        i += 1;
    }
    if outer.len() > 0 {
        Err(plain_error("Unexpected end of input"))
    } else {
        Ok(current)
    }
}

/// Reads the one expression that a token sequence holds.
pub fn parse(tokens: Vec<Token>) -> (r: Result<Node, ParseError>)
    ensures
        node_result_view(r) == parse_tokens(tokens_view(tokens@)),
{
    match parse_nodes(&tokens) {
        Err(e) => Err(e),
        Ok(nodes) => {
            let mut nodes = nodes;
            let ghost all = nodes_view(nodes@);
            if nodes.len() > 1 {
                Err(plain_error("Only one outer level permitted"))
            } else {
                match nodes.pop() {
                    None => Err(plain_error("Unexpected end of input")),
                    Some(n) => {
                        assert(all[0] == n@);
                        Ok(n)
                    },
                }
            }
        },
    }
}

} // verus!
