//! What a JSON reader makes of a text, by the JSON grammar, and the proof
//! that the text the library prints reads back as the value it printed.
use vstd::prelude::*;
use crate::json::{
    compact, compact_entries, compact_items, escape_char, escaped, hex_digit, lemma_escaped_front, pretty, pretty_entries,
    pretty_items, quoted, indent, item_sep, JsonV,
};
use crate::text::{decimal, decimal_is_digits, digit_char, repeat_char};

verus! {

// ---------------------------------------------------------------------
// Whitespace and literals
// ---------------------------------------------------------------------

/// JSON whitespace: space, tab, line feed, carriage return.
pub open spec fn json_ws(c: char) -> bool {
    c == ' ' || c == '\t' || c == '\n' || c == '\r'
}

/// The text after its leading whitespace.
pub open spec fn skip_ws(s: Seq<char>) -> Seq<char>
    decreases s.len(),
{
    if s.len() > 0 && json_ws(s[0]) {
        skip_ws(s.drop_first())
    } else {
        s
    }
}

/// Skipping whitespace never makes a text longer.
pub proof fn lemma_skip_ws_len(s: Seq<char>)
    ensures
        skip_ws(s).len() <= s.len(),
    decreases s.len(),
{
    if s.len() > 0 && json_ws(s[0]) {
        lemma_skip_ws_len(s.drop_first());
    }
}

/// Whether `s` starts with the word `w`.
pub open spec fn starts_with(s: Seq<char>, w: Seq<char>) -> bool {
    s.len() >= w.len() && s.take(w.len() as int) == w
}

// ---------------------------------------------------------------------
// Numbers
// ---------------------------------------------------------------------

/// Where a reader stands in the grammar of a JSON number.
pub enum NumState {
    Start,
    Minus,
    Zero,
    Int,
    Dot,
    Frac,
    Exp,
    ExpSign,
    ExpInt,
    Bad,
}

pub open spec fn is_digit(c: char) -> bool {
    '0' <= c <= '9'
}

/// One step of the number grammar: `-? (0 | [1-9][0-9]*) (. [0-9]+)?
/// ([eE] [+-]? [0-9]+)?`.
pub open spec fn num_step(st: NumState, c: char) -> NumState {
    match st {
        NumState::Start => if c == '-' {
            NumState::Minus
        } else if c == '0' {
            NumState::Zero
        } else if is_digit(c) {
            NumState::Int
        } else {
            NumState::Bad
        },
        NumState::Minus => if c == '0' {
            NumState::Zero
        } else if is_digit(c) {
            NumState::Int
        } else {
            NumState::Bad
        },
        NumState::Zero => if c == '.' {
            NumState::Dot
        } else if c == 'e' || c == 'E' {
            NumState::Exp
        } else {
            NumState::Bad
        },
        NumState::Int => if is_digit(c) {
            NumState::Int
        } else if c == '.' {
            NumState::Dot
        } else if c == 'e' || c == 'E' {
            NumState::Exp
        } else {
            NumState::Bad
        },
        NumState::Dot => if is_digit(c) {
            NumState::Frac
        } else {
            NumState::Bad
        },
        NumState::Frac => if is_digit(c) {
            NumState::Frac
        } else if c == 'e' || c == 'E' {
            NumState::Exp
        } else {
            NumState::Bad
        },
        NumState::Exp => if c == '+' || c == '-' {
            NumState::ExpSign
        } else if is_digit(c) {
            NumState::ExpInt
        } else {
            NumState::Bad
        },
        NumState::ExpSign => if is_digit(c) {
            NumState::ExpInt
        } else {
            NumState::Bad
        },
        NumState::ExpInt => if is_digit(c) {
            NumState::ExpInt
        } else {
            NumState::Bad
        },
        NumState::Bad => NumState::Bad,
    }
}

/// Where the number grammar stands after a text.
pub open spec fn num_state(t: Seq<char>) -> NumState
    decreases t.len(),
{
    if t.len() == 0 {
        NumState::Start
    } else {
        num_step(num_state(t.drop_last()), t.last())
    }
}

/// A character that can appear in a JSON number.
pub open spec fn number_char(c: char) -> bool {
    is_digit(c) || c == '-' || c == '+' || c == '.' || c == 'e' || c == 'E'
}

/// The length of the run of number characters that starts a text.
pub open spec fn number_run(s: Seq<char>) -> nat
    decreases s.len(),
{
    if s.len() > 0 && number_char(s[0]) {
        1 + number_run(s.drop_first())
    } else {
        0
    }
}

/// The value of a digit.
pub open spec fn digit_value(c: char) -> nat {
    if c == '1' {
        1
    } else if c == '2' {
        2
    } else if c == '3' {
        3
    } else if c == '4' {
        4
    } else if c == '5' {
        5
    } else if c == '6' {
        6
    } else if c == '7' {
        7
    } else if c == '8' {
        8
    } else if c == '9' {
        9
    } else {
        0
    }
}

/// The number that decimal digits write.
pub open spec fn digits_value(d: Seq<char>) -> nat
    decreases d.len(),
{
    if d.len() == 0 {
        0
    } else {
        digits_value(d.drop_last()) * 10 + digit_value(d.last())
    }
}

/// A number token read as a value: an integer that fits is an integer
/// (negative when it has a sign), anything else is a float kept as its
/// text; a text outside the grammar is no number.
pub open spec fn number_value(tok: Seq<char>) -> Option<JsonV> {
    match num_state(tok) {
        NumState::Zero | NumState::Int => if tok[0] == '-' {
            let m = digits_value(tok.drop_first());
            if 1 <= m <= 0x8000_0000_0000_0000 {
                Some(JsonV::NegInt((0 - m) as i64))
            } else {
                Some(JsonV::Float(tok))
            }
        } else {
            let m = digits_value(tok);
            if m <= 0xffff_ffff_ffff_ffff {
                Some(JsonV::PosInt(m as u64))
            } else {
                Some(JsonV::Float(tok))
            }
        },
        NumState::Frac | NumState::ExpInt => Some(JsonV::Float(tok)),
        _ => None,
    }
}

// ---------------------------------------------------------------------
// Strings
// ---------------------------------------------------------------------

/// The value of a hexadecimal digit, upper or lower case.
pub open spec fn hex_value(c: char) -> Option<nat> {
    if is_digit(c) {
        Some(digit_value(c))
    } else if c == 'a' || c == 'A' {
        Some(10)
    } else if c == 'b' || c == 'B' {
        Some(11)
    } else if c == 'c' || c == 'C' {
        Some(12)
    } else if c == 'd' || c == 'D' {
        Some(13)
    } else if c == 'e' || c == 'E' {
        Some(14)
    } else if c == 'f' || c == 'F' {
        Some(15)
    } else {
        None
    }
}

/// The code written by four hexadecimal digits.
pub open spec fn hex4(a: char, b: char, c: char, d: char) -> Option<nat> {
    match (hex_value(a), hex_value(b), hex_value(c), hex_value(d)) {
        (Some(w), Some(x), Some(y), Some(z)) => Some(((w * 16 + x) * 16 + y) * 16 + z),
        _ => None,
    }
}

/// The code of a character.
pub open spec fn code_of(c: char) -> nat {
    c as nat
}

/// The character with a code of the basic plane (no surrogate).
pub open spec fn char_of_code(code: nat) -> char {
    choose|c: char| #[trigger] code_of(c) == code
}

/// The character a two-character escape stands for.
pub open spec fn simple_escape(e: char) -> Option<char> {
    if e == '"' {
        Some('"')
    } else if e == '\\' {
        Some('\\')
    } else if e == '/' {
        Some('/')
    } else if e == 'b' {
        Some('\u{8}')
    } else if e == 'f' {
        Some('\u{c}')
    } else if e == 'n' {
        Some('\n')
    } else if e == 'r' {
        Some('\r')
    } else if e == 't' {
        Some('\t')
    } else {
        None
    }
}

/// A string's characters up to its closing quote, and the text after the
/// quote; `s` starts after the opening quote.
pub open spec fn read_string(s: Seq<char>) -> Option<(Seq<char>, Seq<char>)>
    decreases s.len(),
{
    if s.len() == 0 {
        None
    } else if s[0] == '"' {
        Some((Seq::empty(), s.drop_first()))
    } else if s[0] == '\\' {
        if s.len() < 2 {
            None
        } else if s[1] == 'u' {
            if s.len() < 6 {
                None
            } else {
                match hex4(s[2], s[3], s[4], s[5]) {
                    Some(code) => if code < 0xd800 || 0xe000 <= code {
                        match read_string(s.skip(6)) {
                            Some((x, r)) => Some((seq![char_of_code(code)] + x, r)),
                            None => None,
                        }
                    } else {
                        None
                    },
                    None => None,
                }
            }
        } else {
            match simple_escape(s[1]) {
                Some(c) => match read_string(s.skip(2)) {
                    Some((x, r)) => Some((seq![c] + x, r)),
                    None => None,
                },
                None => None,
            }
        }
    } else if (s[0] as u32) < 32 {
        None
    } else {
        match read_string(s.drop_first()) {
            Some((x, r)) => Some((seq![s[0]] + x, r)),
            None => None,
        }
    }
}

// ---------------------------------------------------------------------
// Values
// ---------------------------------------------------------------------

/// The value that starts a text (after any whitespace) and the text after
/// it.
pub open spec fn read_value(s: Seq<char>) -> Option<(JsonV, Seq<char>)>
    decreases s.len(), 0nat,
{
    let t = skip_ws(s);
    proof {
        lemma_skip_ws_len(s);
    }
    if t.len() == 0 {
        None
    } else if t[0] == 'n' {
        if starts_with(t, "null"@) {
            Some((JsonV::Null, t.skip(4)))
        } else {
            None
        }
    } else if t[0] == 't' {
        if starts_with(t, "true"@) {
            Some((JsonV::Bool(true), t.skip(4)))
        } else {
            None
        }
    } else if t[0] == 'f' {
        if starts_with(t, "false"@) {
            Some((JsonV::Bool(false), t.skip(5)))
        } else {
            None
        }
    } else if t[0] == '"' {
        match read_string(t.drop_first()) {
            Some((x, r)) => Some((JsonV::Str(x), r)),
            None => None,
        }
    } else if t[0] == '[' {
        read_array(t.drop_first())
    } else if t[0] == '{' {
        read_object(t.drop_first())
    } else if t[0] == '-' || is_digit(t[0]) {
        let k = number_run(t);
        match number_value(t.take(k as int)) {
            Some(v) => Some((v, t.skip(k as int))),
            None => None,
        }
    } else {
        None
    }
}

/// An array's elements up to its closing bracket, and the text after it;
/// `s` starts after the opening bracket.
pub open spec fn read_array(s: Seq<char>) -> Option<(JsonV, Seq<char>)>
    decreases s.len(), 2nat,
{
    let t = skip_ws(s);
    if t.len() > 0 && t[0] == ']' {
        Some((JsonV::Array(Seq::empty()), t.drop_first()))
    } else {
        match read_elements(s) {
            Some((items, r)) => Some((JsonV::Array(items), r)),
            None => None,
        }
    }
}

/// Elements separated by commas, up to the closing bracket.
pub open spec fn read_elements(s: Seq<char>) -> Option<(Seq<JsonV>, Seq<char>)>
    decreases s.len(), 1nat,
{
    match read_value(s) {
        Some((v, r)) => if r.len() < s.len() {
            let t = skip_ws(r);
            proof {
                lemma_skip_ws_len(r);
            }
            if t.len() > 0 && t[0] == ',' {
                match read_elements(t.drop_first()) {
                    Some((vs, r2)) => Some((seq![v] + vs, r2)),
                    None => None,
                }
            } else if t.len() > 0 && t[0] == ']' {
                Some((seq![v], t.drop_first()))
            } else {
                None
            }
        } else {
            None
        },
        None => None,
    }
}

/// An object's entries up to its closing brace, and the text after it;
/// `s` starts after the opening brace.
pub open spec fn read_object(s: Seq<char>) -> Option<(JsonV, Seq<char>)>
    decreases s.len(), 2nat,
{
    let t = skip_ws(s);
    if t.len() > 0 && t[0] == '}' {
        Some((JsonV::Object(Seq::empty()), t.drop_first()))
    } else {
        match read_members(s) {
            Some((entries, r)) => Some((JsonV::Object(entries), r)),
            None => None,
        }
    }
}

/// `"key": value` entries separated by commas, up to the closing brace.
pub open spec fn read_members(s: Seq<char>) -> Option<(Seq<(Seq<char>, JsonV)>, Seq<char>)>
    decreases s.len(), 1nat,
{
    let t = skip_ws(s);
    proof {
        lemma_skip_ws_len(s);
    }
    if t.len() > 0 && t[0] == '"' {
        match read_string(t.drop_first()) {
            Some((k, r)) => {
                let u = skip_ws(r);
                if u.len() > 0 && u[0] == ':' && u.len() <= s.len() {
                    match read_value(u.drop_first()) {
                        Some((v, r2)) => if r2.len() < s.len() {
                            let w = skip_ws(r2);
                            proof {
                                lemma_skip_ws_len(r2);
                            }
                            if w.len() > 0 && w[0] == ',' {
                                match read_members(w.drop_first()) {
                                    Some((es, r3)) => Some((seq![(k, v)] + es, r3)),
                                    None => None,
                                }
                            } else if w.len() > 0 && w[0] == '}' {
                                Some((seq![(k, v)], w.drop_first()))
                            } else {
                                None
                            }
                        } else {
                            None
                        },
                        None => None,
                    }
                } else {
                    None
                }
            },
            None => None,
        }
    } else {
        None
    }
}

/// What a JSON reader makes of a whole text: its one value, with nothing
/// but whitespace after it.
pub open spec fn read_json(s: Seq<char>) -> Option<JsonV> {
    match read_value(s) {
        Some((v, r)) => if skip_ws(r).len() == 0 {
            Some(v)
        } else {
            None
        },
        None => None,
    }
}

// ---------------------------------------------------------------------
// Reading what the printer writes: pieces
// ---------------------------------------------------------------------

/// A text made of whitespace only.
pub open spec fn all_ws(w: Seq<char>) -> bool {
    forall|i: int| 0 <= i < w.len() ==> json_ws(#[trigger] w[i])
}

proof fn lemma_skip_ws_prefix(w: Seq<char>, x: Seq<char>)
    requires
        all_ws(w),
    ensures
        skip_ws(w + x) == skip_ws(x),
    decreases w.len(),
{
    if w.len() > 0 {
        assert((w + x)[0] == w[0]);
        assert((w + x).drop_first() =~= w.drop_first() + x);
        lemma_skip_ws_prefix(w.drop_first(), x);
    } else {
        assert(w + x =~= x);
    }
}

proof fn lemma_skip_ws_none(x: Seq<char>)
    requires
        x.len() > 0,
        !json_ws(x[0]),
    ensures
        skip_ws(x) == x,
{
}

proof fn lemma_indent_ws(level: nat)
    ensures
        all_ws(indent(level)),
        all_ws(seq!['\n'] + indent(level)),
        all_ws(seq![' ']),
{
    assert forall|i: int| 0 <= i < (seq!['\n'] + indent(level)).len() implies json_ws(
        #[trigger] (seq!['\n'] + indent(level))[i],
    ) by {
        if i > 0 {
            assert((seq!['\n'] + indent(level))[i] == indent(level)[i - 1]);
        }
    }
}

proof fn lemma_hex_digit_value(d: nat)
    requires
        d < 16,
    ensures
        hex_value(hex_digit(d)) == Some(d),
{
}

proof fn lemma_char_of_code(c: char)
    ensures
        char_of_code(code_of(c)) == c,
{
    let code = code_of(c);
    assert(exists|x: char| #[trigger] code_of(x) == code);
    let d = char_of_code(code);
    assert(code_of(d) == code);
    assert(d as nat == c as nat);
}

/// A character's escape, read inside a string, gives back the character.
proof fn lemma_read_escape_char(c: char, x: Seq<char>)
    ensures
        read_string(escape_char(c) + x) == match read_string(x) {
            Some((y, r)) => Some((seq![c] + y, r)),
            None => None,
        },
{
    let e = escape_char(c);
    let t = e + x;
    if (c as u32) < 32 && c != '\n' && c != '\r' && c != '\t' && (c as u32) != 8 && (c as u32) != 12 {
        let n = c as u32;
        assert(t[0] == '\\' && t[1] == 'u' && t[2] == '0' && t[3] == '0');
        assert(t[4] == hex_digit((n / 16) as nat) && t[5] == hex_digit((n % 16) as nat));
        lemma_hex_digit_value((n / 16) as nat);
        lemma_hex_digit_value((n % 16) as nat);
        assert(hex_value('0') == Some(0nat));
        assert(hex4(t[2], t[3], t[4], t[5]) == Some(code_of(c)));
        lemma_char_of_code(c);
        assert(t.skip(6) =~= x);
    } else if c == '"' || c == '\\' || c == '\n' || c == '\r' || c == '\t' || (c as u32) == 8 || (c as u32)
        == 12 {
        assert(t[0] == '\\');
        assert(t.skip(2) =~= x);
        if (c as u32) == 8 {
            assert(('\u{8}' as u32) == 8);
            assert(c == '\u{8}');
        }
        if (c as u32) == 12 {
            assert(('\u{c}' as u32) == 12);
            assert(c == '\u{c}');
        }
    } else {
        assert(e == seq![c]);
        assert(t[0] == c);
        assert(t.drop_first() =~= x);
    }
}

/// The escaped text of a string, then the closing quote, reads back as
/// the string.
pub proof fn lemma_read_escaped(s: Seq<char>, rest: Seq<char>)
    ensures
        read_string(escaped(s) + seq!['"'] + rest) == Some((s, rest)),
    decreases s.len(),
{
    if s.len() == 0 {
        assert(escaped(s) + seq!['"'] + rest =~= seq!['"'] + rest);
        assert((seq!['"'] + rest).drop_first() =~= rest);
    } else {
        lemma_escaped_front(s);
        let x = escaped(s.skip(1)) + seq!['"'] + rest;
        lemma_read_escaped(s.skip(1), rest);
        lemma_read_escape_char(s[0], x);
        assert(escaped(s) + seq!['"'] + rest =~= escape_char(s[0]) + x);
        assert(seq![s[0]] + s.skip(1) =~= s);
    }
}

proof fn lemma_digit_char(d: nat)
    requires
        d < 10,
    ensures
        is_digit(digit_char(d)),
        digit_value(digit_char(d)) == d,
        (digit_char(d) == '0') == (d == 0),
{
    if d == 0 {
    } else if d == 1 {
    } else if d == 2 {
    } else if d == 3 {
    } else if d == 4 {
    } else if d == 5 {
    } else if d == 6 {
    } else if d == 7 {
    } else if d == 8 {
    } else {
    }
}

/// Decimal digits follow the number grammar and write their number.
proof fn lemma_decimal_reads(n: nat)
    ensures
        num_state(decimal(n)) == if n == 0 {
            NumState::Zero
        } else {
            NumState::Int
        },
        digits_value(decimal(n)) == n,
    decreases n,
{
    let d = decimal(n);
    lemma_digit_char(n % 10);
    if n >= 10 {
        lemma_decimal_reads(n / 10);
        assert(d.drop_last() =~= decimal(n / 10));
        assert(d.last() == digit_char(n % 10));
        assert((n / 10) * 10 + n % 10 == n);
    } else {
        assert(d.drop_last() =~= Seq::<char>::empty());
        assert(d.last() == digit_char(n));
        assert(digits_value(Seq::<char>::empty()) == 0);
        assert(num_state(Seq::<char>::empty()) == NumState::Start);
    }
}

/// A minus sign and the digits of a positive number follow the grammar.
proof fn lemma_negative_reads(m: nat)
    requires
        m >= 1,
    ensures
        num_state(seq!['-'] + decimal(m)) == NumState::Int,
    decreases m,
{
    let t = seq!['-'] + decimal(m);
    lemma_digit_char(m % 10);
    if m < 10 {
        assert(t.drop_last() =~= seq!['-']);
        assert(seq!['-'].drop_last() =~= Seq::<char>::empty());
        assert(num_state(Seq::<char>::empty()) == NumState::Start);
        assert(seq!['-'].last() == '-');
        assert(num_state(seq!['-']) == NumState::Minus);
        assert(t.last() == digit_char(m));
    } else {
        lemma_negative_reads(m / 10);
        assert(t.drop_last() =~= seq!['-'] + decimal(m / 10));
        assert(t.last() == digit_char(m % 10));
    }
}

/// A text the number grammar has not rejected is made of number
/// characters and starts with a sign or a digit.
proof fn lemma_state_chars(t: Seq<char>)
    requires
        num_state(t) != NumState::Bad,
    ensures
        forall|i: int| 0 <= i < t.len() ==> number_char(#[trigger] t[i]),
        t.len() > 0 ==> t[0] == '-' || is_digit(t[0]),
    decreases t.len(),
{
    if t.len() > 0 {
        let p = t.drop_last();
        assert(num_state(p) != NumState::Bad);
        lemma_state_chars(p);
        assert forall|i: int| 0 <= i < t.len() implies number_char(#[trigger] t[i]) by {
            if i < p.len() {
                assert(t[i] == p[i]);
            }
        }
        if p.len() > 0 {
            assert(t[0] == p[0]);
        }
    }
}

/// The run of number characters ends where the number's text ends.
proof fn lemma_number_run(p: Seq<char>, rest: Seq<char>)
    requires
        forall|i: int| 0 <= i < p.len() ==> number_char(#[trigger] p[i]),
        rest.len() == 0 || !number_char(rest[0]),
    ensures
        number_run(p + rest) == p.len(),
    decreases p.len(),
{
    if p.len() > 0 {
        assert((p + rest)[0] == p[0]);
        assert((p + rest).drop_first() =~= p.drop_first() + rest);
        lemma_number_run(p.drop_first(), rest);
    } else {
        assert(p + rest =~= rest);
    }
}

// ---------------------------------------------------------------------
// Reading what the printer writes: values
// ---------------------------------------------------------------------

/// A value as JSON text can hold it: a negative integer is below zero and
/// a float's text is a JSON number with a fraction or an exponent, as the
/// text of a parsed or printed float is.
pub open spec fn readable(v: JsonV) -> bool
    decreases v,
{
    match v {
        JsonV::NegInt(n) => n < 0,
        JsonV::Float(t) => num_state(t) == NumState::Frac || num_state(t) == NumState::ExpInt,
        JsonV::Array(items) => forall|i: int| 0 <= i < items.len() ==> readable(#[trigger] items[i]),
        JsonV::Object(entries) => forall|i: int|
            0 <= i < entries.len() ==> readable(#[trigger] entries[i].1),
        _ => true,
    }
}

/// The elements from `k` on of a multi-line array, each after its comma.
pub open spec fn items_from(items: Seq<JsonV>, level: nat, k: int) -> Seq<char>
    decreases items.len() - k,
{
    if k < 0 || k >= items.len() {
        Seq::empty()
    } else {
        seq![',', '\n'] + indent(level) + pretty(items[k], level) + items_from(items, level, k + 1)
    }
}

/// The entries from `k` on of a multi-line object, each after its comma.
pub open spec fn entries_from(entries: Seq<(Seq<char>, JsonV)>, level: nat, k: int) -> Seq<char>
    decreases entries.len() - k,
{
    if k < 0 || k >= entries.len() {
        Seq::empty()
    } else {
        seq![',', '\n'] + indent(level) + quoted(entries[k].0) + seq![':', ' '] + pretty(entries[k].1, level)
            + entries_from(entries, level, k + 1)
    }
}

proof fn lemma_items_split(items: Seq<JsonV>, level: nat, m: int)
    requires
        1 <= m <= items.len(),
    ensures
        pretty_items(items.take(m), level) + items_from(items, level, m) == pretty_items(items, level),
    decreases items.len() - m,
{
    if m == items.len() {
        assert(items.take(m) =~= items);
        assert(pretty_items(items.take(m), level) + Seq::<char>::empty() =~= pretty_items(items, level));
    } else {
        lemma_items_split(items, level, m + 1);
        let t = items.take(m + 1);
        assert(t.drop_last() =~= items.take(m));
        assert(t.last() == items[m]);
        assert(item_sep(m) == seq![',', '\n']);
        assert(pretty_items(items.take(m), level) + items_from(items, level, m) =~= pretty_items(t, level)
            + items_from(items, level, m + 1));
    }
}

/// A multi-line array's elements read from the front.
proof fn lemma_items_front(items: Seq<JsonV>, level: nat)
    requires
        items.len() > 0,
    ensures
        pretty_items(items, level) == seq!['\n'] + indent(level) + pretty(items[0], level) + items_from(
            items,
            level,
            1,
        ),
{
    lemma_items_split(items, level, 1);
    let t = items.take(1);
    assert(t.drop_last() =~= Seq::<JsonV>::empty());
    assert(t.last() == items[0]);
    assert(pretty_items(t.drop_last(), level) =~= Seq::<char>::empty());
    assert(item_sep(0) == seq!['\n']);
    assert(pretty_items(t, level) =~= seq!['\n'] + indent(level) + pretty(items[0], level));
}

proof fn lemma_entries_split(entries: Seq<(Seq<char>, JsonV)>, level: nat, m: int)
    requires
        1 <= m <= entries.len(),
    ensures
        pretty_entries(entries.take(m), level) + entries_from(entries, level, m) == pretty_entries(
            entries,
            level,
        ),
    decreases entries.len() - m,
{
    if m == entries.len() {
        assert(entries.take(m) =~= entries);
        assert(pretty_entries(entries.take(m), level) + Seq::<char>::empty() =~= pretty_entries(
            entries,
            level,
        ));
    } else {
        lemma_entries_split(entries, level, m + 1);
        let t = entries.take(m + 1);
        assert(t.drop_last() =~= entries.take(m));
        assert(t.last() == entries[m]);
        assert(item_sep(m) == seq![',', '\n']);
        assert(pretty_entries(entries.take(m), level) + entries_from(entries, level, m) =~= pretty_entries(
            t,
            level,
        ) + entries_from(entries, level, m + 1));
    }
}

/// A multi-line object's entries read from the front.
proof fn lemma_entries_front(entries: Seq<(Seq<char>, JsonV)>, level: nat)
    requires
        entries.len() > 0,
    ensures
        pretty_entries(entries, level) == seq!['\n'] + indent(level) + quoted(entries[0].0) + seq![':', ' ']
            + pretty(entries[0].1, level) + entries_from(entries, level, 1),
{
    lemma_entries_split(entries, level, 1);
    let t = entries.take(1);
    assert(t.drop_last() =~= Seq::<(Seq<char>, JsonV)>::empty());
    assert(t.last() == entries[0]);
    assert(pretty_entries(t.drop_last(), level) =~= Seq::<char>::empty());
    assert(item_sep(0) == seq!['\n']);
    assert(pretty_entries(t, level) =~= seq!['\n'] + indent(level) + quoted(entries[0].0) + seq![':', ' ']
        + pretty(entries[0].1, level));
}

/// What may follow a value in printed text: nothing, a comma, a line feed
/// or a closing bracket or brace.
pub open spec fn value_end(rest: Seq<char>) -> bool {
    rest.len() == 0 || rest[0] == ',' || rest[0] == '\n' || rest[0] == ']' || rest[0] == '}'
}

// Single reading steps.

proof fn lemma_rv_ws(s1: Seq<char>, s2: Seq<char>)
    requires
        skip_ws(s1) == skip_ws(s2),
    ensures
        read_value(s1) == read_value(s2),
{
}

proof fn lemma_rv_array(s: Seq<char>)
    requires
        s.len() > 0,
        s[0] == '[',
    ensures
        read_value(s) == read_array(s.drop_first()),
{
    lemma_skip_ws_none(s);
}

proof fn lemma_rv_object(s: Seq<char>)
    requires
        s.len() > 0,
        s[0] == '{',
    ensures
        read_value(s) == read_object(s.drop_first()),
{
    lemma_skip_ws_none(s);
}

proof fn lemma_ra_empty(s: Seq<char>)
    requires
        skip_ws(s).len() > 0,
        skip_ws(s)[0] == ']',
    ensures
        read_array(s) == Some((JsonV::Array(Seq::empty()), skip_ws(s).drop_first())),
{
}

proof fn lemma_ra_elements(s: Seq<char>, items: Seq<JsonV>, rest: Seq<char>)
    requires
        skip_ws(s).len() > 0,
        skip_ws(s)[0] != ']',
        read_elements(s) == Some((items, rest)),
    ensures
        read_array(s) == Some((JsonV::Array(items), rest)),
{
}

proof fn lemma_ro_empty(s: Seq<char>)
    requires
        skip_ws(s).len() > 0,
        skip_ws(s)[0] == '}',
    ensures
        read_object(s) == Some((JsonV::Object(Seq::empty()), skip_ws(s).drop_first())),
{
}

proof fn lemma_ro_members(s: Seq<char>, entries: Seq<(Seq<char>, JsonV)>, rest: Seq<char>)
    requires
        skip_ws(s).len() > 0,
        skip_ws(s)[0] != '}',
        read_members(s) == Some((entries, rest)),
    ensures
        read_object(s) == Some((JsonV::Object(entries), rest)),
{
}

proof fn lemma_re_step(s: Seq<char>, v: JsonV, r: Seq<char>)
    requires
        read_value(s) == Some((v, r)),
        r.len() < s.len(),
        skip_ws(r).len() > 0,
    ensures
        skip_ws(r)[0] == ',' ==> read_elements(s) == match read_elements(skip_ws(r).drop_first()) {
            Some((vs, r2)) => Some((seq![v] + vs, r2)),
            None => None,
        },
        skip_ws(r)[0] == ']' ==> read_elements(s) == Some((seq![v], skip_ws(r).drop_first())),
{
}

proof fn lemma_rm_step(s: Seq<char>, key: Seq<char>, x: Seq<char>, v: JsonV, r: Seq<char>)
    requires
        skip_ws(s).len() > 0,
        skip_ws(s)[0] == '"',
        read_string(skip_ws(s).drop_first()) == Some((key, x)),
        skip_ws(x).len() > 0,
        skip_ws(x)[0] == ':',
        skip_ws(x).len() <= s.len(),
        read_value(skip_ws(x).drop_first()) == Some((v, r)),
        r.len() < s.len(),
        skip_ws(r).len() > 0,
    ensures
        skip_ws(r)[0] == ',' ==> read_members(s) == match read_members(skip_ws(r).drop_first()) {
            Some((es, r2)) => Some((seq![(key, v)] + es, r2)),
            None => None,
        },
        skip_ws(r)[0] == '}' ==> read_members(s) == Some((seq![(key, v)], skip_ws(r).drop_first())),
{
}

// Scalars.

proof fn lemma_read_literal(v: JsonV, rest: Seq<char>)
    requires
        v is Null || v is Bool,
    ensures
        read_value(compact(v) + rest) == Some((v, rest)),
        compact(v).len() > 0,
        compact(v)[0] == 'n' || compact(v)[0] == 't' || compact(v)[0] == 'f',
{
    reveal_strlit("null");
    reveal_strlit("true");
    reveal_strlit("false");
    let text = compact(v) + rest;
    lemma_skip_ws_none(text);
    match v {
        JsonV::Null => {
            assert(text.take(4) =~= "null"@);
            assert(text.skip(4) =~= rest);
        },
        JsonV::Bool(b) => {
            if b {
                assert(text.take(4) =~= "true"@);
                assert(text.skip(4) =~= rest);
            } else {
                assert(text.take(5) =~= "false"@);
                assert(text.skip(5) =~= rest);
            }
        },
        _ => {},
    }
}

proof fn lemma_read_string_value(x: Seq<char>, rest: Seq<char>)
    ensures
        read_value(quoted(x) + rest) == Some((JsonV::Str(x), rest)),
        quoted(x).len() > 0,
        quoted(x)[0] == '"',
{
    let text = quoted(x) + rest;
    lemma_skip_ws_none(text);
    assert(text.drop_first() =~= escaped(x) + seq!['"'] + rest);
    lemma_read_escaped(x, rest);
}

proof fn lemma_read_number_text(p: Seq<char>, v: JsonV, rest: Seq<char>)
    requires
        p.len() > 0,
        p[0] == '-' || is_digit(p[0]),
        forall|i: int| 0 <= i < p.len() ==> number_char(#[trigger] p[i]),
        number_value(p) == Some(v),
        value_end(rest),
    ensures
        read_value(p + rest) == Some((v, rest)),
{
    let text = p + rest;
    lemma_number_run(p, rest);
    assert(text[0] == p[0]);
    lemma_skip_ws_none(text);
    assert(text.take(p.len() as int) =~= p);
    assert(text.skip(p.len() as int) =~= rest);
}

proof fn lemma_read_number(v: JsonV, rest: Seq<char>)
    requires
        v is PosInt || v is NegInt || v is Float,
        readable(v),
        value_end(rest),
    ensures
        read_value(compact(v) + rest) == Some((v, rest)),
        compact(v).len() > 0,
        compact(v)[0] == '-' || is_digit(compact(v)[0]),
{
    match v {
        JsonV::PosInt(n) => {
            decimal_is_digits(n as nat);
            lemma_decimal_reads(n as nat);
            let d = decimal(n as nat);
            assert forall|i: int| 0 <= i < d.len() implies number_char(#[trigger] d[i]) by {
                assert('0' <= d[i] <= '9');
            }
            assert('0' <= d[0] <= '9');
            lemma_read_number_text(d, v, rest);
        },
        JsonV::NegInt(n) => {
            let m = (0 - n) as nat;
            decimal_is_digits(m);
            lemma_decimal_reads(m);
            lemma_negative_reads(m);
            let d = seq!['-'] + decimal(m);
            assert forall|i: int| 0 <= i < d.len() implies number_char(#[trigger] d[i]) by {
                if i > 0 {
                    assert(d[i] == decimal(m)[i - 1]);
                    assert('0' <= decimal(m)[i - 1] <= '9');
                }
            }
            assert(d.drop_first() =~= decimal(m));
            assert(number_value(d) == Some(v));
            lemma_read_number_text(d, v, rest);
        },
        JsonV::Float(t) => {
            lemma_state_chars(t);
            lemma_read_number_text(t, v, rest);
        },
        _ => {},
    }
}

/// A value's printed text, then what follows it, reads as the value and
/// leaves what follows.
proof fn lemma_read_value(v: JsonV, level: nat, rest: Seq<char>)
    requires
        readable(v),
        value_end(rest),
    ensures
        read_value(pretty(v, level) + rest) == Some((v, rest)),
        pretty(v, level).len() > 0,
        !json_ws(pretty(v, level)[0]),
        pretty(v, level)[0] != ']' && pretty(v, level)[0] != '}',
    decreases v, 0nat,
{
    match v {
        JsonV::Array(items) => lemma_read_array_value(items, level, rest),
        JsonV::Object(entries) => lemma_read_object_value(entries, level, rest),
        JsonV::Str(x) => lemma_read_string_value(x, rest),
        JsonV::Null => lemma_read_literal(v, rest),
        JsonV::Bool(_) => lemma_read_literal(v, rest),
        _ => lemma_read_number(v, rest),
    }
}

#[verifier::rlimit(60)]
proof fn lemma_read_array_value(items: Seq<JsonV>, level: nat, rest: Seq<char>)
    requires
        forall|i: int| 0 <= i < items.len() ==> readable(#[trigger] items[i]),
    ensures
        read_value(pretty(JsonV::Array(items), level) + rest) == Some((JsonV::Array(items), rest)),
        pretty(JsonV::Array(items), level).len() > 0,
        pretty(JsonV::Array(items), level)[0] == '[',
    decreases items, items.len() + 1,
{
    let text = pretty(JsonV::Array(items), level) + rest;
    if items.len() == 0 {
        reveal_strlit("[]");
        assert(text =~= seq!['['] + (seq![']'] + rest));
        lemma_rv_array(text);
        assert(text.drop_first() =~= seq![']'] + rest);
        lemma_skip_ws_none(seq![']'] + rest);
        lemma_ra_empty(seq![']'] + rest);
        assert((seq![']'] + rest).drop_first() =~= rest);
        assert(items =~= Seq::<JsonV>::empty());
    } else {
        lemma_items_front(items, level + 1);
        let tail = seq!['\n'] + indent(level) + seq![']'] + rest;
        let body = seq!['\n'] + indent(level + 1) + pretty(items[0], level + 1) + items_from(items, level + 1, 1)
            + tail;
        assert(text =~= seq!['['] + body);
        lemma_rv_array(text);
        assert(text.drop_first() =~= body);
        assert(((level + 1) - 1) as nat == level);
        lemma_read_items(items, level + 1, 0, rest);
        assert(body =~= seq!['\n'] + indent(level + 1) + pretty(items[0], level + 1) + items_from(items, level + 1, 1)
            + seq!['\n'] + indent(((level + 1) - 1) as nat) + seq![']'] + rest);
        assert(items.skip(0) =~= items);
        lemma_ra_elements(body, items, rest);
    }
}

#[verifier::rlimit(60)]
proof fn lemma_read_object_value(entries: Seq<(Seq<char>, JsonV)>, level: nat, rest: Seq<char>)
    requires
        forall|i: int| 0 <= i < entries.len() ==> readable(#[trigger] entries[i].1),
    ensures
        read_value(pretty(JsonV::Object(entries), level) + rest) == Some((JsonV::Object(entries), rest)),
        pretty(JsonV::Object(entries), level).len() > 0,
        pretty(JsonV::Object(entries), level)[0] == '{',
    decreases entries, entries.len() + 1,
{
    let text = pretty(JsonV::Object(entries), level) + rest;
    if entries.len() == 0 {
        reveal_strlit("{}");
        assert(text =~= seq!['{'] + (seq!['}'] + rest));
        lemma_rv_object(text);
        assert(text.drop_first() =~= seq!['}'] + rest);
        lemma_skip_ws_none(seq!['}'] + rest);
        lemma_ro_empty(seq!['}'] + rest);
        assert((seq!['}'] + rest).drop_first() =~= rest);
        assert(entries =~= Seq::<(Seq<char>, JsonV)>::empty());
    } else {
        lemma_entries_front(entries, level + 1);
        let tail = seq!['\n'] + indent(level) + seq!['}'] + rest;
        let body = seq!['\n'] + indent(level + 1) + quoted(entries[0].0) + seq![':', ' '] + pretty(
            entries[0].1,
            level + 1,
        ) + entries_from(entries, level + 1, 1) + tail;
        assert(text =~= seq!['{'] + body);
        lemma_rv_object(text);
        assert(text.drop_first() =~= body);
        assert(((level + 1) - 1) as nat == level);
        lemma_read_entries(entries, level + 1, 0, rest);
        assert(body =~= seq!['\n'] + indent(level + 1) + quoted(entries[0].0) + seq![':', ' '] + pretty(
            entries[0].1,
            level + 1,
        ) + entries_from(entries, level + 1, 1) + seq!['\n'] + indent(((level + 1) - 1) as nat) + seq!['}']
            + rest);
        assert(entries.skip(0) =~= entries);
        lemma_ro_members(body, entries, rest);
    }
}

/// The elements of a multi-line array from `k` on, then its closing
/// bracket, read as those elements.
#[verifier::rlimit(100)]
#[verifier::spinoff_prover]
proof fn lemma_read_items(items: Seq<JsonV>, level: nat, k: int, rest: Seq<char>)
    requires
        level >= 1,
        0 <= k < items.len(),
        forall|i: int| 0 <= i < items.len() ==> readable(#[trigger] items[i]),
    ensures
        ({
            let s = seq!['\n'] + indent(level) + pretty(items[k], level) + items_from(items, level, k + 1)
                + seq!['\n'] + indent((level - 1) as nat) + seq![']'] + rest;
            &&& read_elements(s) == Some((items.skip(k), rest))
            &&& skip_ws(s).len() > 0 && skip_ws(s)[0] != ']'
        }),
    decreases items, items.len() - k,
{
    let ws = seq!['\n'] + indent(level);
    let after = seq!['\n'] + indent((level - 1) as nat) + seq![']'] + rest;
    let p = pretty(items[k], level);
    let r = items_from(items, level, k + 1) + after;
    let s = seq!['\n'] + indent(level) + p + items_from(items, level, k + 1) + seq!['\n'] + indent(
        (level - 1) as nat,
    ) + seq![']'] + rest;
    lemma_indent_ws(level);
    lemma_indent_ws((level - 1) as nat);
    assert(s =~= ws + (p + r));
    if k + 1 < items.len() {
        assert(r[0] == ',');
    } else {
        assert(items_from(items, level, k + 1) =~= Seq::<char>::empty());
        assert(r =~= after);
    }
    lemma_read_value(items[k], level, r);
    lemma_skip_ws_prefix(ws, p + r);
    lemma_skip_ws_none(p + r);
    lemma_rv_ws(s, p + r);
    if k + 1 < items.len() {
        lemma_skip_ws_none(r);
        let next = seq!['\n'] + indent(level) + pretty(items[k + 1], level) + items_from(items, level, k + 2)
            + seq!['\n'] + indent((level - 1) as nat) + seq![']'] + rest;
        assert(r.drop_first() =~= next);
        lemma_read_items(items, level, k + 1, rest);
        lemma_re_step(s, items[k], r);
        assert(seq![items[k]] + items.skip(k + 1) =~= items.skip(k));
    } else {
        assert(after =~= (seq!['\n'] + indent((level - 1) as nat)) + (seq![']'] + rest));
        lemma_skip_ws_prefix(seq!['\n'] + indent((level - 1) as nat), seq![']'] + rest);
        lemma_skip_ws_none(seq![']'] + rest);
        lemma_re_step(s, items[k], r);
        assert((seq![']'] + rest).drop_first() =~= rest);
        assert(items.skip(k) =~= seq![items[k]]);
    }
}

/// The entries of a multi-line object from `k` on, then its closing
/// brace, read as those entries.
#[verifier::rlimit(100)]
#[verifier::spinoff_prover]
proof fn lemma_read_entries(entries: Seq<(Seq<char>, JsonV)>, level: nat, k: int, rest: Seq<char>)
    requires
        level >= 1,
        0 <= k < entries.len(),
        forall|i: int| 0 <= i < entries.len() ==> readable(#[trigger] entries[i].1),
    ensures
        ({
            let s = seq!['\n'] + indent(level) + quoted(entries[k].0) + seq![':', ' '] + pretty(
                entries[k].1,
                level,
            ) + entries_from(entries, level, k + 1) + seq!['\n'] + indent((level - 1) as nat) + seq!['}']
                + rest;
            &&& read_members(s) == Some((entries.skip(k), rest))
            &&& skip_ws(s).len() > 0 && skip_ws(s)[0] != '}'
        }),
    decreases entries, entries.len() - k,
{
    let e = entries[k];
    let ws = seq!['\n'] + indent(level);
    let after = seq!['\n'] + indent((level - 1) as nat) + seq!['}'] + rest;
    let p = pretty(e.1, level);
    let r = entries_from(entries, level, k + 1) + after;
    let x = seq![':', ' '] + p + r;
    let s = seq!['\n'] + indent(level) + quoted(e.0) + seq![':', ' '] + p + entries_from(entries, level, k + 1)
        + seq!['\n'] + indent((level - 1) as nat) + seq!['}'] + rest;
    lemma_indent_ws(level);
    lemma_indent_ws((level - 1) as nat);
    assert(s =~= ws + (quoted(e.0) + x));
    lemma_skip_ws_prefix(ws, quoted(e.0) + x);
    let t = quoted(e.0) + x;
    assert(t[0] == '"');
    lemma_skip_ws_none(t);
    assert(t.drop_first() =~= escaped(e.0) + seq!['"'] + x);
    lemma_read_escaped(e.0, x);
    lemma_skip_ws_none(x);
    if k + 1 < entries.len() {
        assert(r[0] == ',');
    } else {
        assert(entries_from(entries, level, k + 1) =~= Seq::<char>::empty());
        assert(r =~= after);
    }
    lemma_read_value(e.1, level, r);
    assert(x.drop_first() =~= seq![' '] + (p + r));
    lemma_skip_ws_prefix(seq![' '], p + r);
    lemma_skip_ws_none(p + r);
    lemma_rv_ws(x.drop_first(), p + r);
    if k + 1 < entries.len() {
        lemma_skip_ws_none(r);
        let next = seq!['\n'] + indent(level) + quoted(entries[k + 1].0) + seq![':', ' '] + pretty(
            entries[k + 1].1,
            level,
        ) + entries_from(entries, level, k + 2) + seq!['\n'] + indent((level - 1) as nat) + seq!['}'] + rest;
        assert(r.drop_first() =~= next);
        lemma_read_entries(entries, level, k + 1, rest);
        lemma_rm_step(s, e.0, x, e.1, r);
        assert(seq![(e.0, e.1)] + entries.skip(k + 1) =~= entries.skip(k));
    } else {
        assert(after =~= (seq!['\n'] + indent((level - 1) as nat)) + (seq!['}'] + rest));
        lemma_skip_ws_prefix(seq!['\n'] + indent((level - 1) as nat), seq!['}'] + rest);
        lemma_skip_ws_none(seq!['}'] + rest);
        lemma_rm_step(s, e.0, x, e.1, r);
        assert((seq!['}'] + rest).drop_first() =~= rest);
        assert(entries.skip(k) =~= seq![(e.0, e.1)]);
    }
}

/// The indented JSON text of a value reads back as the value: a JSON
/// reader given the text the library prints gets the document it printed.
pub proof fn printed_json_reads_back(v: JsonV)
    requires
        readable(v),
    ensures
        read_json(pretty(v, 0)) == Some(v),
{
    lemma_read_value(v, 0, Seq::empty());
    assert(pretty(v, 0) + Seq::<char>::empty() =~= pretty(v, 0));
}

// ---------------------------------------------------------------------
// Reading what the one-line printer writes
// ---------------------------------------------------------------------

/// The elements from `k` on of a one-line array, each after its comma.
pub open spec fn citems_from(items: Seq<JsonV>, k: int) -> Seq<char>
    decreases items.len() - k,
{
    if k < 0 || k >= items.len() {
        Seq::empty()
    } else {
        seq![','] + compact(items[k]) + citems_from(items, k + 1)
    }
}

/// The entries from `k` on of a one-line object, each after its comma.
pub open spec fn centries_from(entries: Seq<(Seq<char>, JsonV)>, k: int) -> Seq<char>
    decreases entries.len() - k,
{
    if k < 0 || k >= entries.len() {
        Seq::empty()
    } else {
        seq![','] + quoted(entries[k].0) + seq![':'] + compact(entries[k].1) + centries_from(entries, k + 1)
    }
}

proof fn lemma_citems_split(items: Seq<JsonV>, m: int)
    requires
        1 <= m <= items.len(),
    ensures
        compact_items(items.take(m)) + citems_from(items, m) == compact_items(items),
    decreases items.len() - m,
{
    if m == items.len() {
        assert(items.take(m) =~= items);
        assert(compact_items(items.take(m)) + Seq::<char>::empty() =~= compact_items(items));
    } else {
        lemma_citems_split(items, m + 1);
        let t = items.take(m + 1);
        assert(t.drop_last() =~= items.take(m));
        assert(t.last() == items[m]);
        assert(compact_items(items.take(m)) + citems_from(items, m) =~= compact_items(t) + citems_from(
            items,
            m + 1,
        ));
    }
}

proof fn lemma_centries_split(entries: Seq<(Seq<char>, JsonV)>, m: int)
    requires
        1 <= m <= entries.len(),
    ensures
        compact_entries(entries.take(m)) + centries_from(entries, m) == compact_entries(entries),
    decreases entries.len() - m,
{
    if m == entries.len() {
        assert(entries.take(m) =~= entries);
        assert(compact_entries(entries.take(m)) + Seq::<char>::empty() =~= compact_entries(entries));
    } else {
        lemma_centries_split(entries, m + 1);
        let t = entries.take(m + 1);
        assert(t.drop_last() =~= entries.take(m));
        assert(t.last() == entries[m]);
        assert(compact_entries(entries.take(m)) + centries_from(entries, m) =~= compact_entries(t)
            + centries_from(entries, m + 1));
    }
}

/// A value's one-line text, then what follows it, reads as the value and
/// leaves what follows.
proof fn lemma_read_compact(v: JsonV, rest: Seq<char>)
    requires
        readable(v),
        value_end(rest),
    ensures
        read_value(compact(v) + rest) == Some((v, rest)),
        compact(v).len() > 0,
        !json_ws(compact(v)[0]),
        compact(v)[0] != ']' && compact(v)[0] != '}',
    decreases v, 0nat,
{
    match v {
        JsonV::Array(items) => lemma_read_compact_array(items, rest),
        JsonV::Object(entries) => lemma_read_compact_object(entries, rest),
        JsonV::Str(x) => lemma_read_string_value(x, rest),
        JsonV::Null => lemma_read_literal(v, rest),
        JsonV::Bool(_) => lemma_read_literal(v, rest),
        _ => lemma_read_number(v, rest),
    }
}

#[verifier::rlimit(60)]
proof fn lemma_read_compact_array(items: Seq<JsonV>, rest: Seq<char>)
    requires
        forall|i: int| 0 <= i < items.len() ==> readable(#[trigger] items[i]),
    ensures
        read_value(compact(JsonV::Array(items)) + rest) == Some((JsonV::Array(items), rest)),
        compact(JsonV::Array(items)).len() > 0,
        compact(JsonV::Array(items))[0] == '[',
    decreases items, items.len() + 1,
{
    let text = compact(JsonV::Array(items)) + rest;
    lemma_rv_array(text);
    if items.len() == 0 {
        assert(compact_items(items) =~= Seq::<char>::empty());
        assert(text.drop_first() =~= seq![']'] + rest);
        lemma_skip_ws_none(seq![']'] + rest);
        lemma_ra_empty(seq![']'] + rest);
        assert((seq![']'] + rest).drop_first() =~= rest);
        assert(items =~= Seq::<JsonV>::empty());
    } else {
        lemma_citems_split(items, 1);
        assert(items.take(1) =~= seq![items[0]]);
        let body = compact(items[0]) + citems_from(items, 1) + seq![']'] + rest;
        assert(text.drop_first() =~= body);
        lemma_read_citems(items, 0, rest);
        assert(items.skip(0) =~= items);
        lemma_ra_elements(body, items, rest);
    }
}

#[verifier::rlimit(60)]
proof fn lemma_read_compact_object(entries: Seq<(Seq<char>, JsonV)>, rest: Seq<char>)
    requires
        forall|i: int| 0 <= i < entries.len() ==> readable(#[trigger] entries[i].1),
    ensures
        read_value(compact(JsonV::Object(entries)) + rest) == Some((JsonV::Object(entries), rest)),
        compact(JsonV::Object(entries)).len() > 0,
        compact(JsonV::Object(entries))[0] == '{',
    decreases entries, entries.len() + 1,
{
    let text = compact(JsonV::Object(entries)) + rest;
    lemma_rv_object(text);
    if entries.len() == 0 {
        assert(compact_entries(entries) =~= Seq::<char>::empty());
        assert(text.drop_first() =~= seq!['}'] + rest);
        lemma_skip_ws_none(seq!['}'] + rest);
        lemma_ro_empty(seq!['}'] + rest);
        assert((seq!['}'] + rest).drop_first() =~= rest);
        assert(entries =~= Seq::<(Seq<char>, JsonV)>::empty());
    } else {
        lemma_centries_split(entries, 1);
        assert(entries.take(1) =~= seq![entries[0]]);
        let body = quoted(entries[0].0) + seq![':'] + compact(entries[0].1) + centries_from(entries, 1) + seq![
            '}',
        ] + rest;
        assert(text.drop_first() =~= body);
        lemma_read_centries(entries, 0, rest);
        assert(entries.skip(0) =~= entries);
        lemma_ro_members(body, entries, rest);
    }
}

#[verifier::rlimit(80)]
proof fn lemma_read_citems(items: Seq<JsonV>, k: int, rest: Seq<char>)
    requires
        0 <= k < items.len(),
        forall|i: int| 0 <= i < items.len() ==> readable(#[trigger] items[i]),
    ensures
        ({
            let s = compact(items[k]) + citems_from(items, k + 1) + seq![']'] + rest;
            &&& read_elements(s) == Some((items.skip(k), rest))
            &&& skip_ws(s).len() > 0 && skip_ws(s)[0] != ']'
        }),
    decreases items, items.len() - k,
{
    let p = compact(items[k]);
    let r = citems_from(items, k + 1) + seq![']'] + rest;
    let s = p + citems_from(items, k + 1) + seq![']'] + rest;
    assert(s =~= p + r);
    if k + 1 < items.len() {
        assert(r[0] == ',');
    } else {
        assert(citems_from(items, k + 1) =~= Seq::<char>::empty());
        assert(r =~= seq![']'] + rest);
    }
    lemma_read_compact(items[k], r);
    lemma_skip_ws_none(p + r);
    lemma_skip_ws_none(r);
    if k + 1 < items.len() {
        let next = compact(items[k + 1]) + citems_from(items, k + 2) + seq![']'] + rest;
        assert(r.drop_first() =~= next);
        lemma_read_citems(items, k + 1, rest);
        lemma_re_step(s, items[k], r);
        assert(seq![items[k]] + items.skip(k + 1) =~= items.skip(k));
    } else {
        lemma_re_step(s, items[k], r);
        assert((seq![']'] + rest).drop_first() =~= rest);
        assert(items.skip(k) =~= seq![items[k]]);
    }
}

#[verifier::rlimit(80)]
proof fn lemma_read_centries(entries: Seq<(Seq<char>, JsonV)>, k: int, rest: Seq<char>)
    requires
        0 <= k < entries.len(),
        forall|i: int| 0 <= i < entries.len() ==> readable(#[trigger] entries[i].1),
    ensures
        ({
            let s = quoted(entries[k].0) + seq![':'] + compact(entries[k].1) + centries_from(entries, k + 1)
                + seq!['}'] + rest;
            &&& read_members(s) == Some((entries.skip(k), rest))
            &&& skip_ws(s).len() > 0 && skip_ws(s)[0] != '}'
        }),
    decreases entries, entries.len() - k,
{
    let e = entries[k];
    let p = compact(e.1);
    let r = centries_from(entries, k + 1) + seq!['}'] + rest;
    let x = seq![':'] + p + r;
    let s = quoted(e.0) + seq![':'] + p + centries_from(entries, k + 1) + seq!['}'] + rest;
    assert(s =~= quoted(e.0) + x);
    assert(s[0] == '"');
    lemma_skip_ws_none(s);
    assert(s.drop_first() =~= escaped(e.0) + seq!['"'] + x);
    lemma_read_escaped(e.0, x);
    lemma_skip_ws_none(x);
    if k + 1 < entries.len() {
        assert(r[0] == ',');
    } else {
        assert(centries_from(entries, k + 1) =~= Seq::<char>::empty());
        assert(r =~= seq!['}'] + rest);
    }
    lemma_read_compact(e.1, r);
    assert(x.drop_first() =~= p + r);
    lemma_skip_ws_none(r);
    if k + 1 < entries.len() {
        let next = quoted(entries[k + 1].0) + seq![':'] + compact(entries[k + 1].1) + centries_from(
            entries,
            k + 2,
        ) + seq!['}'] + rest;
        assert(r.drop_first() =~= next);
        lemma_read_centries(entries, k + 1, rest);
        lemma_rm_step(s, e.0, x, e.1, r);
        assert(seq![(e.0, e.1)] + entries.skip(k + 1) =~= entries.skip(k));
    } else {
        lemma_rm_step(s, e.0, x, e.1, r);
        assert((seq!['}'] + rest).drop_first() =~= rest);
        assert(entries.skip(k) =~= seq![(e.0, e.1)]);
    }
}

/// The one-line JSON text of a value reads back as the value.
pub proof fn compact_json_reads_back(v: JsonV)
    requires
        readable(v),
    ensures
        read_json(compact(v)) == Some(v),
{
    lemma_read_compact(v, Seq::empty());
    assert(compact(v) + Seq::<char>::empty() =~= compact(v));
}

} // verus!
