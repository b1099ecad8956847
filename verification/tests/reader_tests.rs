use rscheme::parser::{parse, parse_atom, tokenize, Node, ParseError, Token};

fn show(tokens: &Vec<Token>) -> String {
    let mut parts: Vec<String> = Vec::new();
    for token in tokens {
        parts.push(match token {
            Token::OpenParen => "(".to_string(),
            Token::CloseParen => ")".to_string(),
            Token::String(s) => format!("S[{}]", s),
            Token::NonParen(s) => format!("W[{}]", s),
        });
    }
    parts.join(" ")
}

fn lex(source: &str) -> String {
    show(&tokenize(source.to_string()))
}

fn read(source: &str) -> Result<Node, ParseError> {
    parse(tokenize(source.to_string()))
}

fn read_text(source: &str) -> String {
    match read(source) {
        Ok(node) => node.to_string(),
        Err(err) => format!("error: {}", err.message),
    }
}

#[test]
fn tokenize_isolates_parentheses() {
    assert_eq!(lex("(+ 1 2)"), "( W[+] W[1] W[2] )");
    assert_eq!(lex("(a(b)c)"), "( W[a] ( W[b] ) W[c] )");
    assert_eq!(lex("  x\t\n y  "), "W[x] W[y]");
    assert_eq!(lex(""), "");
}

#[test]
fn tokenize_splits_on_unicode_white_space() {
    assert_eq!(lex("a\u{00A0}b\u{2003}c\u{3000}d"), "W[a] W[b] W[c] W[d]");
    assert_eq!(lex("a\u{200B}b"), "W[a\u{200B}b]");
}

#[test]
fn tokenize_expands_a_quoted_list() {
    assert_eq!(lex("'(a b c)"), "( W[quote] ( W[a] W[b] W[c] ) )");
    assert_eq!(lex("(f '(a (b)) c)"), "( W[f] ( W[quote] ( W[a] ( W[b] ) ) ) W[c] )");
}

#[test]
fn tokenize_closes_a_quote_after_one_datum_only() {
    assert_eq!(lex("('(a) (b))"), "( ( W[quote] ( W[a] ) ) ( W[b] ) )");
    assert_eq!(lex("' a b"), "( W[quote] W[a] ) W[b]");
}

#[test]
fn tokenize_tracks_nested_quotes() {
    assert_eq!(
        lex("'('(a) b)"),
        "( W[quote] ( ( W[quote] ( W[a] ) ) W[b] ) )"
    );
    assert_eq!(lex("' ' a"), "( W[quote] ( W[quote] W[a] ) )");
}

#[test]
fn tokenize_keeps_a_quote_sign_inside_a_word() {
    assert_eq!(lex("'a"), "W['a]");
    assert_eq!(lex("don't"), "W[don't]");
}

#[test]
fn tokenize_reads_strings() {
    assert_eq!(lex("(display \"hello world\")"), "( W[display] S[hello world] )");
    assert_eq!(lex("\"\""), "S[]");
    assert_eq!(lex("\"a   b\""), "S[a b]");
    assert_eq!(lex("\"(a)\""), "S[( a )]");
}

#[test]
fn tokenize_keeps_escaped_quotes_in_strings() {
    assert_eq!(lex("\"say \\\"hi\\\" now\""), "S[say \"hi\" now]");
    assert_eq!(lex("a\\\"b"), "W[a\\\"b]");
}

#[test]
fn tokenize_drops_an_unfinished_string() {
    assert_eq!(lex("(a \"b c"), "( W[a]");
}

#[test]
fn tokenize_quotes_a_string() {
    assert_eq!(lex("' \"a b\" c"), "( W[quote] S[a b] ) W[c]");
}

#[test]
fn parse_builds_nested_lists() {
    assert_eq!(read_text("(a (b c) ((d)))"), "(a (b c) ((d)))");
    assert_eq!(read_text("()"), "()");
    match read("(a (b c))") {
        Ok(Node::List(children)) => {
            assert_eq!(children.len(), 2);
            assert!(matches!(&children[0], Node::Symbol(s) if s == "a"));
            assert!(matches!(&children[1], Node::List(inner) if inner.len() == 2));
        }
        _ => panic!("expected a list"),
    }
}

#[test]
fn parse_rejects_a_stray_close_paren() {
    assert_eq!(read_text(")"), "error: Unexpected close paren");
    assert_eq!(read_text("(a))"), "error: Unexpected close paren");
    assert_eq!(read_text("a ) b"), "error: Unexpected close paren");
}

#[test]
fn parse_rejects_an_open_list() {
    assert_eq!(read_text("(a"), "error: Unexpected end of input");
    assert_eq!(read_text("(a (b)"), "error: Unexpected end of input");
}

#[test]
fn parse_rejects_several_forms() {
    assert_eq!(read_text("a b"), "error: Only one outer level permitted");
    assert_eq!(read_text("(a) (b)"), "error: Only one outer level permitted");
}

#[test]
fn parse_rejects_empty_input() {
    assert_eq!(read_text(""), "error: Unexpected end of input");
    assert_eq!(read_text("   "), "error: Unexpected end of input");
}

#[test]
fn parse_reads_truth_values() {
    assert!(matches!(read("#t"), Ok(Node::Bool(true))));
    assert!(matches!(read("#f"), Ok(Node::Bool(false))));
    assert!(matches!(read("#true"), Ok(Node::Symbol(_))));
}

#[test]
fn parse_reads_integers() {
    assert!(matches!(read("42"), Ok(Node::Int(42))));
    assert!(matches!(read("-7"), Ok(Node::Int(-7))));
    assert!(matches!(read("+5"), Ok(Node::Int(5))));
    assert!(matches!(read("007"), Ok(Node::Int(7))));
    assert!(matches!(read("2147483647"), Ok(Node::Int(2147483647))));
    assert!(matches!(read("-2147483648"), Ok(Node::Int(-2147483648))));
}

#[test]
fn parse_reads_inexact_numbers_as_written() {
    assert!(matches!(read("2.5"), Ok(Node::Float(t)) if t == "2.5"));
    assert!(matches!(read("-.5"), Ok(Node::Float(t)) if t == "-.5"));
    assert!(matches!(read("1."), Ok(Node::Float(t)) if t == "1."));
    assert!(matches!(read("1e3"), Ok(Node::Float(t)) if t == "1e3"));
    assert!(matches!(read("1.5E-3"), Ok(Node::Float(t)) if t == "1.5E-3"));
    assert!(matches!(read("inf"), Ok(Node::Float(t)) if t == "inf"));
    assert!(matches!(read("-Infinity"), Ok(Node::Float(t)) if t == "-Infinity"));
    assert!(matches!(read("NaN"), Ok(Node::Float(t)) if t == "NaN"));
    assert!(matches!(read("2147483648"), Ok(Node::Float(t)) if t == "2147483648"));
    assert!(matches!(read("-2147483649"), Ok(Node::Float(t)) if t == "-2147483649"));
}

#[test]
fn parse_reads_everything_else_as_a_symbol() {
    assert!(matches!(read("abc"), Ok(Node::Symbol(s)) if s == "abc"));
    assert!(matches!(read("+"), Ok(Node::Symbol(s)) if s == "+"));
    assert!(matches!(read("-"), Ok(Node::Symbol(s)) if s == "-"));
    assert!(matches!(read("."), Ok(Node::Symbol(s)) if s == "."));
    assert!(matches!(read("1e"), Ok(Node::Symbol(s)) if s == "1e"));
    assert!(matches!(read("e3"), Ok(Node::Symbol(s)) if s == "e3"));
    assert!(matches!(read("1.2.3"), Ok(Node::Symbol(s)) if s == "1.2.3"));
    assert!(matches!(read("--1"), Ok(Node::Symbol(s)) if s == "--1"));
    assert!(matches!(read("12a"), Ok(Node::Symbol(s)) if s == "12a"));
    assert!(matches!(read("hi"), Ok(Node::Symbol(s)) if s == "hi"));
    assert!(matches!(read("3i"), Ok(Node::Symbol(s)) if s == "3i"));
}

#[test]
fn parse_reads_complex_literals() {
    assert!(matches!(read("1+2i"), Ok(Node::Complex(re, im)) if re == "1" && im == "2"));
    assert!(matches!(read("1.5-2.5i"), Ok(Node::Complex(re, im)) if re == "1.5" && im == "-2.5"));
    assert_eq!(read_text("1+2i"), "1+2i");
    assert_eq!(read_text("1-2i"), "1+-2i");
}

#[test]
fn parse_fills_in_the_parts_a_complex_literal_leaves_out() {
    assert!(matches!(read("+2i"), Ok(Node::Complex(re, im)) if re == "0" && im == "2"));
    assert!(matches!(read("3+i"), Ok(Node::Complex(re, im)) if re == "3" && im == "1"));
    assert!(matches!(read("3-i"), Ok(Node::Complex(re, im)) if re == "3" && im == "-1"));
    assert!(matches!(read("-i"), Ok(Node::Complex(re, im)) if re == "0" && im == "-1"));
}

#[test]
fn parse_rejects_a_malformed_complex_literal() {
    assert_eq!(read_text(".+2i"), "error: Error parsing complex constant .+2i");
    assert_eq!(read_text("1+.i"), "error: Error parsing complex constant 1+.i");
    assert_eq!(
        read_text("(a \u{0661}+2i)"),
        "error: Error parsing complex constant \u{0661}+2i"
    );
}

#[test]
fn parse_atom_asks_the_pattern_only_what_a_word_holds() {
    match parse_atom(&"12+34i".to_string()) {
        Ok(Node::Complex(re, im)) => {
            assert_eq!(re, "12");
            assert_eq!(im, "34");
        }
        _ => panic!("expected a complex literal"),
    }
    assert!(matches!(parse_atom(&"x12+34iy".to_string()), Ok(Node::Symbol(_))));
}

#[test]
fn parse_reads_strings() {
    assert!(matches!(read("\"a b\""), Ok(Node::String(s)) if s == "a b"));
    assert_eq!(read_text("\"say \\\"hi\\\"\""), "\"say \\\"hi\\\"\"");
}

#[test]
fn parse_error_is_shown_with_its_kind() {
    match read(")") {
        Err(err) => assert_eq!(err.to_string(), "ParseError: Unexpected close paren"),
        Ok(_) => panic!("expected an error"),
    }
}

#[test]
fn node_text_of_each_kind() {
    assert_eq!(read_text("(a 1 -2 #t #f 2.5 \"s\" (b))"), "(a 1 -2 #t #f 2.5 \"s\" (b))");
    assert_eq!(read_text("-2147483648"), "-2147483648");
    assert_eq!(read_text("0"), "0");
    assert_eq!(read_text("1000"), "1000");
}

#[test]
fn tokenize_gives_up_a_quote_without_a_datum() {
    assert_eq!(lex("(' )"), "( ( W[quote] )");
    assert_eq!(lex("'"), "( W[quote]");
    assert_eq!(lex("('(a ') b)"), "( ( W[quote] ( W[a] ( W[quote] ) ) W[b] )");
}

#[test]
fn tokenize_counts_parentheses_inside_a_quoted_list() {
    assert_eq!(
        lex("'((a) ((b))) c"),
        "( W[quote] ( ( W[a] ) ( ( W[b] ) ) ) ) W[c]"
    );
}

#[test]
fn a_quoted_list_parses_to_a_call_of_quote() {
    assert_eq!(read_text("'(a b)"), "(quote (a b))");
    assert_eq!(read_text("(f 'x 'y)"), "(f 'x 'y)");
    assert_eq!(read_text("(f ' x"), "error: Unexpected end of input");
    assert_eq!(read_text("(f ' x ' y)"), "(f (quote x) (quote y))");
}
