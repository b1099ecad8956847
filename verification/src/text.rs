//! Characters and literal texts: the white space that separates words,
//! decimal numerals, and the two numeric literal grammars of the reader.

use vstd::prelude::*;

verus! {

/// `std::string::String::push` appends one character to the text.
pub assume_specification[ std::string::String::push ](s: &mut std::string::String, c: char)
    ensures
        final(s)@ == old(s)@.push(c),
;

/// The characters with the Unicode property `White_Space`.
pub open spec fn is_space(c: char) -> bool {
    let n = c as u32;
    ||| 0x09 <= n <= 0x0D
    ||| n == 0x20
    ||| n == 0x85
    ||| n == 0xA0
    ||| n == 0x1680
    ||| 0x2000 <= n <= 0x200A
    ||| n == 0x2028
    ||| n == 0x2029
    ||| n == 0x202F
    ||| n == 0x205F
    ||| n == 0x3000
}

/// Tells whether a character is white space.
pub fn is_space_char(c: char) -> (r: bool)
    ensures
        r == is_space(c),
{
    let n: u32 = c as u32;
    (0x09 <= n && n <= 0x0D) || n == 0x20 || n == 0x85 || n == 0xA0 || n == 0x1680 || (0x2000 <= n
        && n <= 0x200A) || n == 0x2028 || n == 0x2029 || n == 0x202F || n == 0x205F || n == 0x3000
}

/// The ASCII decimal digits.
pub open spec fn is_digit(c: char) -> bool {
    0x30 <= c as u32 <= 0x39
}

/// Tells whether a character is a decimal digit.
pub fn is_digit_char(c: char) -> (r: bool)
    ensures
        r == is_digit(c),
{
    let n: u32 = c as u32;
    0x30 <= n && n <= 0x39
}

/// The number that a digit writes.
pub open spec fn digit_value(c: char) -> int {
    c as u32 - 0x30
}

/// The character that writes the digit `d`.
pub open spec fn digit_char(d: int) -> char {
    if d == 0 {
        '0'
    } else if d == 1 {
        '1'
    } else if d == 2 {
        '2'
    } else if d == 3 {
        '3'
    } else if d == 4 {
        '4'
    } else if d == 5 {
        '5'
    } else if d == 6 {
        '6'
    } else if d == 7 {
        '7'
    } else if d == 8 {
        '8'
    } else {
        '9'
    }
}

/// The decimal numeral of a natural number, without leading zeros.
pub open spec fn nat_text(n: nat) -> Seq<char>
    decreases n,
{
    if n < 10 {
        seq![digit_char(n as int)]
    } else {
        nat_text(n / 10).push(digit_char((n % 10) as int))
    }
}

/// The decimal numeral of an integer: a minus sign before the numeral of a
/// negative number's magnitude.
pub open spec fn int_text(i: int) -> Seq<char> {
    if i < 0 {
        seq!['-'] + nat_text((-i) as nat)
    } else {
        nat_text(i as nat)
    }
}

/// The number that a sequence of digits writes, most significant first.
pub open spec fn digits_value(s: Seq<char>) -> int
    decreases s.len(),
{
    if s.len() == 0 {
        0
    } else {
        digits_value(s.drop_last()) * 10 + digit_value(s.last())
    }
}

/// A text of digits only.
pub open spec fn all_digits(s: Seq<char>) -> bool {
    forall|i: int| 0 <= i < s.len() ==> is_digit(#[trigger] s[i])
}

/// Whether a text begins with a plus or a minus sign.
pub open spec fn has_sign(s: Seq<char>) -> bool {
    s.len() > 0 && (s[0] == '-' || s[0] == '+')
}

/// The text after an optional leading sign.
pub open spec fn unsigned_part(s: Seq<char>) -> Seq<char> {
    if has_sign(s) {
        s.drop_first()
    } else {
        s
    }
}

/// The 32-bit integer that a text writes: an optional sign, then one or more
/// digits, the value within range. Any other text writes none.
pub open spec fn int_literal(s: Seq<char>) -> Option<i32> {
    let body = unsigned_part(s);
    let magnitude = digits_value(body);
    let value = if has_sign(s) && s[0] == '-' {
        -magnitude
    } else {
        magnitude
    };
    if body.len() > 0 && all_digits(body) && i32::MIN <= value <= i32::MAX {
        Some(value as i32)
    } else {
        None
    }
}

/// How many digits stand in `s` from position `i` on, without a gap.
pub open spec fn digit_run(s: Seq<char>, i: int) -> nat
    decreases s.len() - i,
{
    if 0 <= i < s.len() && is_digit(s[i]) {
        1 + digit_run(s, i + 1)
    } else {
        0
    }
}

/// A capital letter of the Latin alphabet as a small letter; any other
/// character as it is.
pub open spec fn ascii_lower(c: char) -> char {
    if 0x41 <= c as u32 <= 0x5A {
        ((c as u32 + 0x20) as u8) as char
    } else {
        c
    }
}

/// A text with its capital Latin letters as small letters.
pub open spec fn lowered(s: Seq<char>) -> Seq<char> {
    Seq::new(s.len(), |i: int| ascii_lower(s[i]))
}

/// The digits of a decimal mantissa, with an optional point among them and
/// at least one digit, then an optional exponent: `e`, an optional sign and
/// one or more digits.
pub open spec fn is_decimal_number(t: Seq<char>) -> bool {
    let whole = digit_run(t, 0) as int;
    let point = whole < t.len() && t[whole] == '.';
    let after_point = if point {
        whole + 1
    } else {
        whole
    };
    let fraction = if point {
        digit_run(t, after_point) as int
    } else {
        0
    };
    let mantissa_end = after_point + fraction;
    &&& whole + fraction > 0
    &&& mantissa_end == t.len() || {
        let exponent = mantissa_end + 1;
        let digits_at = if exponent < t.len() && (t[exponent] == '+' || t[exponent] == '-') {
            exponent + 1
        } else {
            exponent
        };
        &&& mantissa_end < t.len()
        &&& ascii_lower(t[mantissa_end]) == 'e'
        &&& digit_run(t, digits_at) > 0
        &&& digits_at + digit_run(t, digits_at) == t.len()
    }
}

/// The texts that write an inexact number: after an optional sign either a
/// decimal number or, in any case of letters, `inf`, `infinity` or `nan`.
pub open spec fn is_float_literal(s: Seq<char>) -> bool {
    let body = unsigned_part(s);
    let low = lowered(body);
    low == seq!['i', 'n', 'f'] || low == seq!['i', 'n', 'f', 'i', 'n', 'i', 't', 'y'] || low
        == seq!['n', 'a', 'n'] || is_decimal_number(body)
}

/// The texts that an inexact number holds: those that write an inexact
/// number and no integer. A text such as `3.0` is one; `3` is none, it
/// writes the integer.
pub open spec fn is_inexact_text(s: Seq<char>) -> bool {
    is_float_literal(s) && int_literal(s) is None
}

/// The texts of a sequence, each but the last followed by `sep`.
pub open spec fn joined(parts: Seq<Seq<char>>, sep: Seq<char>) -> Seq<char>
    decreases parts.len(),
{
    if parts.len() == 0 {
        Seq::empty()
    } else if parts.len() == 1 {
        parts[0]
    } else {
        joined(parts.drop_last(), sep) + sep + parts.last()
    }
}

/// The characters of a string.
pub fn to_chars(s: &str) -> (v: Vec<char>)
    ensures
        v@ == s@,
{
    let mut v: Vec<char> = Vec::new();
    for c in it: s.chars()
        invariant
            v@ == it.seq().subrange(0, it.index() as int),
            it.seq() == s@,
    {
        v.push(c);
    }
    assert(v@ =~= s@);
    v
}

/// The string of the given characters.
pub fn from_chars(v: &Vec<char>) -> (s: String)
    ensures
        s@ == v@,
{
    let mut s = String::new();
    let mut i: usize = 0;
    while i < v.len()
        invariant
            i <= v.len(),
            s@ == v@.subrange(0, i as int),
        decreases v.len() - i,
    {
        s.push(v[i]);
        i += 1;
    }
    assert(v@.subrange(0, v.len() as int) == v@);
    s
}

/// Appends every character of `tail` to `out`.
pub fn push_all(out: &mut Vec<char>, tail: &Vec<char>)
    ensures
        final(out)@ == old(out)@ + tail@,
{
    let mut i: usize = 0;
    while i < tail.len()
        invariant
            i <= tail.len(),
            out@ == old(out)@ + tail@.subrange(0, i as int),
        decreases tail.len() - i,
    {
        out.push(tail[i]);
        i += 1;
        assert(old(out)@ + tail@.subrange(0, i as int) =~= (old(out)@ + tail@.subrange(
            0,
            i - 1,
        )).push(tail@[i - 1]));
    }
    assert(tail@.subrange(0, tail.len() as int) == tail@);
}

/// Appends the characters of a string to `out`.
pub fn push_str(out: &mut Vec<char>, tail: &str)
    ensures
        final(out)@ == old(out)@ + tail@,
{
    let chars = to_chars(tail);
    push_all(out, &chars);
}

fn digit_of(d: u64) -> (c: char)
    requires
        d < 10,
    ensures
        c == digit_char(d as int),
{
    if d == 0 {
        '0'
    } else if d == 1 {
        '1'
    } else if d == 2 {
        '2'
    } else if d == 3 {
        '3'
    } else if d == 4 {
        '4'
    } else if d == 5 {
        '5'
    } else if d == 6 {
        '6'
    } else if d == 7 {
        '7'
    } else if d == 8 {
        '8'
    } else {
        '9'
    }
}

/// Appends the decimal numeral of `n` to `out`.
pub fn push_nat(out: &mut Vec<char>, n: u64)
    ensures
        final(out)@ == old(out)@ + nat_text(n as nat),
    decreases n,
{
    if n < 10 {
        out.push(digit_of(n));
        assert(out@ =~= old(out)@ + nat_text(n as nat));
    } else {
        push_nat(out, n / 10);
        out.push(digit_of(n % 10));
        assert(out@ =~= old(out)@ + nat_text(n as nat));
    }
}

/// Appends the decimal numeral of `i` to `out`.
pub fn push_int(out: &mut Vec<char>, i: i32)
    ensures
        final(out)@ == old(out)@ + int_text(i as int),
{
    if i < 0 {
        out.push('-');
        let magnitude: u64 = (-(i as i64)) as u64;
        push_nat(out, magnitude);
        assert(out@ =~= old(out)@ + int_text(i as int));
    } else {
        push_nat(out, i as u64);
    }
}

/// A further digit multiplies the number by ten and adds its own.
pub proof fn lemma_digits_value_push(s: Seq<char>, c: char)
    ensures
        digits_value(s.push(c)) == digits_value(s) * 10 + digit_value(c),
{
    assert(s.push(c).drop_last() =~= s);
    assert(s.push(c).last() == c);
}

proof fn lemma_digits_value_grows(s: Seq<char>, k: int)
    requires
        all_digits(s),
        0 <= k <= s.len(),
    ensures
        0 <= digits_value(s.subrange(0, k)) <= digits_value(s),
    decreases s.len() - k,
{
    if k < s.len() {
        lemma_digits_value_grows(s, k + 1);
        assert(s.subrange(0, k + 1).drop_last() =~= s.subrange(0, k));
        assert(is_digit(s[k]));
    } else {
        assert(s.subrange(0, k) =~= s);
        lemma_digits_value_nonnegative(s);
    }
}

proof fn lemma_digits_value_nonnegative(s: Seq<char>)
    requires
        all_digits(s),
    ensures
        0 <= digits_value(s),
    decreases s.len(),
{
    if s.len() > 0 {
        lemma_digits_value_nonnegative(s.drop_last());
        assert(is_digit(s[s.len() - 1]));
    }
}

/// Reads a 32-bit integer literal.
#[verifier::loop_isolation(false)]
pub fn parse_int(text: &Vec<char>) -> (r: Option<i32>)
    ensures
        r == int_literal(text@),
{
    let n = text.len();
    let signed = n > 0 && (text[0] == '-' || text[0] == '+');
    let negative = signed && text[0] == '-';
    let start: usize = if signed {
        1
    } else {
        0
    };
    if start == n {
        return None;
    }
    let ghost body = unsigned_part(text@);
    assert(body =~= text@.subrange(start as int, n as int));
    let mut acc: i64 = 0;
    let mut i: usize = start;
    while i < n
        invariant
            start <= i <= n,
            n == text@.len(),
            body == text@.subrange(start as int, n as int),
            all_digits(body.subrange(0, i - start)),
            acc == digits_value(body.subrange(0, i - start)),
            0 <= acc <= 0x8000_0000,
        decreases n - i,
    {
        let c = text[i];
        assert(body[i - start] == c);
        if !is_digit_char(c) {
            return None;
        }
        let d: i64 = (c as u32 - 0x30) as i64;
        let ghost prefix = body.subrange(0, i - start);
        let ghost next = body.subrange(0, i + 1 - start);
        proof {
            assert(next =~= prefix.push(c));
            lemma_digits_value_push(prefix, c);
            assert forall|j: int| 0 <= j < next.len() implies is_digit(#[trigger] next[j]) by {
                if j < prefix.len() {
                    assert(next[j] == prefix[j]);
                }
            }
        }
        acc = acc * 10 + d;
        i += 1;
        assert(acc == digits_value(next));
        if acc > 0x8000_0000 {
            proof {
                if all_digits(body) {
                    lemma_digits_value_grows(body, i - start);
                }
            }
            return None;
        }
    }
    assert(body.subrange(0, n - start) =~= body);
    if negative {
        Some((-acc) as i32)
    } else if acc > 0x7FFF_FFFF {
        None
    } else {
        Some(acc as i32)
    }
}

/// Counts the digits that stand in `text` from `from` on.
fn count_digits(text: &Vec<char>, from: usize) -> (k: usize)
    requires
        from <= text.len(),
    ensures
        k == digit_run(text@, from as int),
        from + k <= text.len(),
{
    let mut i: usize = from;
    while i < text.len() && is_digit_char(text[i])
        invariant
            from <= i <= text.len(),
            digit_run(text@, from as int) == (i - from) + digit_run(text@, i as int),
        decreases text.len() - i,
    {
        i += 1;
    }
    i - from
}

fn lower_char(c: char) -> (r: char)
    ensures
        r == ascii_lower(c),
{
    let n: u32 = c as u32;
    if 0x41 <= n && n <= 0x5A {
        ((n + 0x20) as u8) as char
    } else {
        c
    }
}

fn lowered_equals(text: &Vec<char>, from: usize, word: &str) -> (r: bool)
    requires
        from <= text.len(),
    ensures
        r == (lowered(text@.subrange(from as int, text.len() as int)) == word@),
{
    let w = to_chars(word);
    let ghost tail = text@.subrange(from as int, text.len() as int);
    if text.len() - from != w.len() {
        return false;
    }
    let mut i: usize = 0;
    while i < w.len()
        invariant
            i <= w.len(),
            from + w.len() == text.len(),
            tail == text@.subrange(from as int, text.len() as int),
            w@ == word@,
            forall|j: int| 0 <= j < i ==> lowered(tail)[j] == w@[j],
        decreases w.len() - i,
    {
        if lower_char(text[from + i]) != w[i] {
            assert(lowered(tail)[i as int] != w@[i as int]);
            return false;
        }
        i += 1;
    }
    assert(lowered(tail) =~= word@);
    true
}

fn is_decimal_text(text: &Vec<char>, from: usize) -> (r: bool)
    requires
        from <= text.len(),
    ensures
        r == is_decimal_number(text@.subrange(from as int, text.len() as int)),
{
    let ghost t = text@.subrange(from as int, text.len() as int);
    let n = text.len();
    assert forall|i: int| 0 <= i implies digit_run(t, i) == digit_run(text@, from + i) by {
        lemma_digit_run_shift(text@, from as int, i);
    }
    let whole = count_digits(text, from);
    let whole_end = from + whole;
    let point = whole_end < n && text[whole_end] == '.';
    let after_point: usize = if point {
        whole_end + 1
    } else {
        whole_end
    };
    let fraction: usize = if point {
        count_digits(text, after_point)
    } else {
        0
    };
    let mantissa_end = after_point + fraction;
    if whole + fraction == 0 {
        return false;
    }
    if mantissa_end == n {
        return true;
    }
    if lower_char(text[mantissa_end]) != 'e' {
        return false;
    }
    let exponent = mantissa_end + 1;
    let digits_at: usize = if exponent < n && (text[exponent] == '+' || text[exponent] == '-') {
        exponent + 1
    } else {
        exponent
    };
    let digits = count_digits(text, digits_at);
    digits > 0 && digits_at + digits == n
}

proof fn lemma_digit_run_shift(s: Seq<char>, from: int, i: int)
    requires
        0 <= from <= s.len(),
        0 <= i,
    ensures
        digit_run(s.subrange(from, s.len() as int), i) == digit_run(s, from + i),
    decreases s.len() - from - i,
{
    let t = s.subrange(from, s.len() as int);
    if i < t.len() {
        assert(t[i] == s[from + i]);
        if is_digit(t[i]) {
            lemma_digit_run_shift(s, from, i + 1);
        }
    }
}

/// Tells whether a text writes an inexact number.
pub fn is_float_text(text: &Vec<char>) -> (r: bool)
    ensures
        r == is_float_literal(text@),
{
    let n = text.len();
    let start: usize = if n > 0 && (text[0] == '-' || text[0] == '+') {
        1
    } else {
        0
    };
    assert(unsigned_part(text@) =~= text@.subrange(start as int, n as int));
    proof {
        reveal_strlit("inf");
        reveal_strlit("infinity");
        reveal_strlit("nan");
        assert("inf"@ =~= seq!['i', 'n', 'f']);
        assert("infinity"@ =~= seq!['i', 'n', 'f', 'i', 'n', 'i', 't', 'y']);
        assert("nan"@ =~= seq!['n', 'a', 'n']);
    }
    lowered_equals(text, start, "inf") || lowered_equals(text, start, "infinity") || lowered_equals(
        text,
        start,
        "nan",
    ) || is_decimal_text(text, start)
}

/// Tells whether a text is one that an inexact number holds.
pub fn is_inexact_string(text: &String) -> (r: bool)
    ensures
        r == is_inexact_text(text@),
{
    let chars = to_chars(text.as_str());
    is_float_text(&chars) && parse_int(&chars).is_none()
}

} // verus!
