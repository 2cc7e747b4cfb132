//! Terminal presentation: colour styles, number formatting, truncation and
//! the entity table.
use vstd::prelude::*;
use crate::json::{friendly_name, jget_str, jstr, Json, JsonV};
use crate::text::{
    chars_of, decimal, decimal_chars, pad_right, push_char, push_chars, push_padded_right,
    push_repeat, push_str, repeat_char, slice_range, string_of, str_eq,
};

verus! {

/// Terminal escape sequences, or empty strings when colour is off.
pub struct Style {
    pub dim: &'static str,
    pub bold: &'static str,
    pub green: &'static str,
    pub red: &'static str,
    pub yellow: &'static str,
    pub cyan: &'static str,
    pub reset: &'static str,
}

/// Whether colour is used: only on a terminal, not when `NO_COLOR` is set
/// (to any value), not when `TERM` is `dumb`.
pub open spec fn color_on(stdout_is_terminal: bool, no_color: Option<Seq<char>>, term: Option<Seq<char>>) -> bool {
    stdout_is_terminal && no_color is None && term != Some("dumb"@)
}

/// The ANSI style.
pub open spec fn is_colored(s: Style) -> bool {
    &&& s.dim@ == "\x1b[2m"@
    &&& s.bold@ == "\x1b[1m"@
    &&& s.green@ == "\x1b[32m"@
    &&& s.red@ == "\x1b[31m"@
    &&& s.yellow@ == "\x1b[33m"@
    &&& s.cyan@ == "\x1b[36m"@
    &&& s.reset@ == "\x1b[0m"@
}

/// The style whose sequences are all empty.
pub open spec fn is_plain(s: Style) -> bool {
    &&& s.dim@.len() == 0
    &&& s.bold@.len() == 0
    &&& s.green@.len() == 0
    &&& s.red@.len() == 0
    &&& s.yellow@.len() == 0
    &&& s.cyan@.len() == 0
    &&& s.reset@.len() == 0
}

/// Whether colour is used (`NO_COLOR`, `TERM=dumb` and terminal detection).
pub fn should_color(stdout_is_terminal: bool, no_color: Option<&str>, term: Option<&str>) -> (r: bool)
    ensures
        r == color_on(
            stdout_is_terminal,
            match no_color {
                Some(v) => Some(v@),
                None => None,
            },
            match term {
                Some(t) => Some(t@),
                None => None,
            },
        ),
{
    if !stdout_is_terminal {
        return false;
    }
    if no_color.is_some() {
        return false;
    }
    match term {
        Some(t) => if str_eq(t, "dumb") {
            return false;
        },
        None => {},
    }
    true
}

impl Style {
    /// The colour style.
    pub fn colored() -> (r: Style)
        ensures
            is_colored(r),
    {
        Style {
            dim: "\x1b[2m",
            bold: "\x1b[1m",
            green: "\x1b[32m",
            red: "\x1b[31m",
            yellow: "\x1b[33m",
            cyan: "\x1b[36m",
            reset: "\x1b[0m",
        }
    }

    /// The style without escape sequences.
    pub fn plain() -> (r: Style)
        ensures
            is_plain(r),
    {
        proof {
            reveal_strlit("");
        }
        Style { dim: "", bold: "", green: "", red: "", yellow: "", cyan: "", reset: "" }
    }

    /// The style for the terminal described by its arguments: whether stdout
    /// is a terminal and the values of `NO_COLOR` and `TERM`.
    pub fn detect(stdout_is_terminal: bool, no_color: Option<&str>, term: Option<&str>) -> (r: Style)
        ensures
            color_on(
                stdout_is_terminal,
                match no_color {
                    Some(v) => Some(v@),
                    None => None,
                },
                match term {
                    Some(t) => Some(t@),
                    None => None,
                },
            ) ==> is_colored(r),
            !color_on(
                stdout_is_terminal,
                match no_color {
                    Some(v) => Some(v@),
                    None => None,
                },
                match term {
                    Some(t) => Some(t@),
                    None => None,
                },
            ) ==> is_plain(r),
    {
        if should_color(stdout_is_terminal, no_color, term) {
            Style::colored()
        } else {
            Style::plain()
        }
    }

    /// A section header: bold diamond and text.
    pub fn header(&self, text: &str) -> (r: String)
        ensures
            r@ == self.bold@ + "◆ "@ + text@ + self.reset@,
    {
        let mut out = String::new();
        push_str(&mut out, self.bold);
        push_str(&mut out, "◆ ");
        push_str(&mut out, text);
        push_str(&mut out, self.reset);
        out
    }

    /// A passed check: green tick and text.
    pub fn pass(&self, text: &str) -> (r: String)
        ensures
            r@ == self.green@ + "✓"@ + self.reset@ + " "@ + text@,
    {
        let mut out = String::new();
        push_str(&mut out, self.green);
        push_str(&mut out, "✓");
        push_str(&mut out, self.reset);
        push_str(&mut out, " ");
        push_str(&mut out, text);
        out
    }

    /// A failed check: red cross and text.
    pub fn fail(&self, text: &str) -> (r: String)
        ensures
            r@ == self.red@ + "✗"@ + self.reset@ + " "@ + text@,
    {
        let mut out = String::new();
        push_str(&mut out, self.red);
        push_str(&mut out, "✗");
        push_str(&mut out, self.reset);
        push_str(&mut out, " ");
        push_str(&mut out, text);
        out
    }

    /// A warning: yellow triangle and text.
    pub fn warn(&self, text: &str) -> (r: String)
        ensures
            r@ == self.yellow@ + "▲"@ + self.reset@ + " "@ + text@,
    {
        let mut out = String::new();
        push_str(&mut out, self.yellow);
        push_str(&mut out, "▲");
        push_str(&mut out, self.reset);
        push_str(&mut out, " ");
        push_str(&mut out, text);
        out
    }

    /// A dimmed horizontal rule `width` characters long.
    pub fn separator(&self, width: usize) -> (r: String)
        ensures
            r@ == self.dim@ + repeat_char('─', width as nat) + self.reset@,
    {
        let mut out = String::new();
        push_str(&mut out, self.dim);
        push_repeat(&mut out, '─', width);
        push_str(&mut out, self.reset);
        out
    }

    /// A key-value line: dimmed label padded to `width`, then the value.
    pub fn kv(&self, label: &str, width: usize, value: &str) -> (r: String)
        ensures
            r@ == "  "@ + self.dim@ + pad_right(label@, width as nat) + self.reset@ + "  "@
                + value@,
    {
        let mut out = String::new();
        push_str(&mut out, "  ");
        push_str(&mut out, self.dim);
        let l = chars_of(label);
        push_padded_right(&mut out, l.as_slice(), width);
        push_str(&mut out, self.reset);
        push_str(&mut out, "  ");
        push_str(&mut out, value);
        out
    }
}

// ---------------------------------------------------------------------
// Numbers
// ---------------------------------------------------------------------

/// Digits with a comma between each group of three, from the right.
pub open spec fn grouped(d: Seq<char>) -> Seq<char>
    decreases d.len(),
{
    if d.len() <= 3 {
        d
    } else {
        grouped(d.take(d.len() - 3)) + seq![','] + d.skip(d.len() - 3)
    }
}

/// Appends `grouped(d.take(n))`.
fn push_grouped(out: &mut String, d: &[char], n: usize)
    requires
        n <= d.len(),
    ensures
        final(out)@ == old(out)@ + grouped(d@.take(n as int)),
    decreases n,
{
    if n <= 3 {
        let part = slice_range(d, 0, n);
        push_chars(out, part.as_slice());
        assert(part@ =~= d@.take(n as int));
    } else {
        push_grouped(out, d, n - 3);
        push_char(out, ',');
        let part = slice_range(d, n - 3, n);
        push_chars(out, part.as_slice());
        proof {
            let t = d@.take(n as int);
            assert(t.take(t.len() - 3) =~= d@.take(n - 3));
            assert(t.skip(t.len() - 3) =~= part@);
        }
    }
}

/// A number with comma separators: 10258 becomes "10,258".
pub fn fmt_num(n: usize) -> (r: String)
    ensures
        r@ == grouped(decimal(n as nat)),
{
    let d = decimal_chars(n as u64);
    let mut out = String::new();
    push_grouped(&mut out, d.as_slice(), d.len());
    assert(d@.take(d@.len() as int) =~= d@);
    out
}

// ---------------------------------------------------------------------
// Text
// ---------------------------------------------------------------------

/// At most `max` characters of `s`; a longer text keeps `max - 1` of them
/// and ends with '…'.
pub open spec fn truncated(s: Seq<char>, max: nat) -> Seq<char> {
    if max == 0 {
        Seq::empty()
    } else if s.len() <= max {
        s
    } else {
        s.take(max - 1).push('…')
    }
}

/// Truncates to `max` display characters, appending '…' when cut.
pub fn truncate(s: &str, max: usize) -> (r: String)
    ensures
        r@ == truncated(s@, max as nat),
{
    if max == 0 {
        return String::new();
    }
    let cs = chars_of(s);
    if cs.len() <= max {
        string_of(cs.as_slice())
    } else {
        let mut out = string_of(slice_range(cs.as_slice(), 0, max - 1).as_slice());
        push_char(&mut out, '…');
        out
    }
}

/// The text after the last '/' of a path (all of it when there is none).
pub open spec fn basename_spec(path: Seq<char>) -> Seq<char>
    decreases path.len(),
{
    if path.len() == 0 {
        path
    } else if path.last() == '/' {
        Seq::empty()
    } else {
        basename_spec(path.drop_last()).push(path.last())
    }
}

proof fn lemma_basename(path: Seq<char>, i: int)
    requires
        0 <= i <= path.len(),
        forall|k: int| i <= k < path.len() ==> path[k] != '/',
        i == 0 || path[i - 1] == '/',
    ensures
        basename_spec(path) == path.subrange(i, path.len() as int),
    decreases path.len(),
{
    if path.len() > i {
        lemma_basename(path.drop_last(), i);
        assert(path.drop_last().subrange(i, path.len() - 1).push(path.last()) =~= path.subrange(
            i,
            path.len() as int,
        ));
    } else if i > 0 {
        assert(path.subrange(i, path.len() as int) =~= Seq::<char>::empty());
    } else {
        assert(path.subrange(0, 0) =~= Seq::<char>::empty());
    }
}

/// The file name part of a path.
pub fn basename(path: &str) -> (r: &str)
    ensures
        r@ == basename_spec(path@),
{
    let cs = chars_of(path);
    let mut i: usize = cs.len();
    while i > 0 && cs[i - 1] != '/'
        invariant
            i <= cs.len(),
            cs@ == path@,
            forall|k: int| i <= k < cs.len() ==> cs@[k] != '/',
        decreases i,
    {
        i = i - 1;
    }
    proof {
        lemma_basename(path@, i as int);
    }
    path.substring_char(i, cs.len())
}

/// The colour that marks a state: red for unavailable, yellow for unknown,
/// green for on, dim for off, none otherwise.
pub open spec fn state_color_spec(state: Seq<char>, s: Style) -> (Seq<char>, Seq<char>) {
    if state == "unavailable"@ {
        (s.red@, s.reset@)
    } else if state == "unknown"@ {
        (s.yellow@, s.reset@)
    } else if state == "on"@ {
        (s.green@, s.reset@)
    } else if state == "off"@ {
        (s.dim@, s.reset@)
    } else {
        (Seq::empty(), Seq::empty())
    }
}

/// The start and end sequences that colour a state value.
pub fn state_color<'a>(state: &str, s: &'a Style) -> (r: (&'a str, &'a str))
    ensures
        (r.0@, r.1@) == state_color_spec(state@, *s),
{
    if str_eq(state, "unavailable") {
        (s.red, s.reset)
    } else if str_eq(state, "unknown") {
        (s.yellow, s.reset)
    } else if str_eq(state, "on") {
        (s.green, s.reset)
    } else if str_eq(state, "off") {
        (s.dim, s.reset)
    } else {
        proof {
            reveal_strlit("");
        }
        ("", "")
    }
}

// ---------------------------------------------------------------------
// Entity table
// ---------------------------------------------------------------------

/// The number of bytes of the UTF-8 encoding of a text, as `str::len`
/// reports it.
pub open spec fn byte_len(s: Seq<char>) -> nat {
    (vstd::utf8::encode_utf8(s).len() as usize) as nat
}

/// The entity id column of a row.
pub open spec fn row_id(e: JsonV) -> Seq<char> {
    crate::json::str_or(e, "entity_id"@, Seq::empty())
}

/// The state column of a row.
pub open spec fn row_state(e: JsonV) -> Seq<char> {
    crate::json::str_or(e, "state"@, Seq::empty())
}

/// The name column of a row: `attributes.friendly_name`, or else a
/// top-level `friendly_name`, when that value is a string.
pub open spec fn row_name(e: JsonV) -> Seq<char> {
    let found = match friendly_name(e) {
        Some(x) => Some(x),
        None => crate::json::jget(e, "friendly_name"@),
    };
    match found {
        Some(x) => match jstr(x) {
            Some(t) => t,
            None => Seq::empty(),
        },
        None => Seq::empty(),
    }
}

/// The greatest byte length of the entity ids.
pub open spec fn max_id_len(es: Seq<JsonV>) -> nat
    decreases es.len(),
{
    if es.len() == 0 {
        0
    } else {
        let a = max_id_len(es.drop_last());
        let b = byte_len(row_id(es.last()));
        if a >= b {
            a
        } else {
            b
        }
    }
}

/// The greatest byte length of the states.
pub open spec fn max_state_len(es: Seq<JsonV>) -> nat
    decreases es.len(),
{
    if es.len() == 0 {
        0
    } else {
        let a = max_state_len(es.drop_last());
        let b = byte_len(row_state(es.last()));
        if a >= b {
            a
        } else {
            b
        }
    }
}

/// The width of the id column: the longest id, at most 50.
pub open spec fn id_width(es: Seq<JsonV>) -> nat {
    let m = max_id_len(es);
    if m > 50 {
        50
    } else {
        m
    }
}

/// The width of the state column: the longest state, between 5 and 14.
pub open spec fn state_width(es: Seq<JsonV>) -> nat {
    let m = max_state_len(es);
    if m < 5 {
        5
    } else if m > 14 {
        14
    } else {
        m
    }
}

/// One table row.
pub open spec fn table_row(e: JsonV, id_w: nat, st_w: nat, s: Style) -> Seq<char> {
    let c = state_color_spec(row_state(e), s);
    "  "@ + pad_right(truncated(row_id(e), id_w), id_w) + "  "@ + c.0 + pad_right(row_state(e), st_w)
        + c.1 + "  "@ + truncated(row_name(e), 40) + "\n"@
}

/// The rows of the table.
pub open spec fn table_rows(es: Seq<JsonV>, id_w: nat, st_w: nat, s: Style) -> Seq<char>
    decreases es.len(),
{
    if es.len() == 0 {
        Seq::empty()
    } else {
        table_rows(es.drop_last(), id_w, st_w, s) + table_row(es.last(), id_w, st_w, s)
    }
}

/// The whole table text.
pub open spec fn entity_table_spec(es: Seq<JsonV>, title: Seq<char>, s: Style) -> Seq<char> {
    let head = s.bold@ + "◆ "@ + title + s.reset@ + "\n\n"@;
    if es.len() == 0 {
        head + "  "@ + s.dim@ + "No entities found"@ + s.reset@ + "\n"@
    } else {
        let id_w = id_width(es);
        let st_w = state_width(es);
        head + "  "@ + s.dim@ + pad_right("Entity ID"@, id_w) + "  "@ + pad_right("State"@, st_w)
            + "  "@ + "Name"@ + s.reset@ + "\n"@ + "  "@ + s.dim@ + repeat_char(
            '─',
            id_w + st_w + 30,
        ) + s.reset@ + "\n"@ + table_rows(es, id_w, st_w, s) + "\n  "@ + s.dim@ + grouped(
            decimal(es.len()),
        ) + " entities"@ + s.reset@ + "\n"@
    }
}

/// The id of a row.
fn entity_id_of(e: &Json) -> (r: &str)
    ensures
        r@ == row_id(e@),
{
    proof {
        reveal_strlit("");
    }
    e.str_or("entity_id", "")
}

/// The state of a row.
fn state_of(e: &Json) -> (r: &str)
    ensures
        r@ == row_state(e@),
{
    proof {
        reveal_strlit("");
    }
    e.str_or("state", "")
}

/// The display name of a row.
fn name_of(e: &Json) -> (r: &str)
    ensures
        r@ == row_name(e@),
{
    proof {
        reveal_strlit("");
    }
    let found = match e.friendly_name() {
        Some(x) => Some(x),
        None => e.get("friendly_name"),
    };
    match found {
        Some(x) => match x.as_str() {
            Some(t) => t,
            None => "",
        },
        None => "",
    }
}

fn push_row(out: &mut String, e: &Json, id_w: usize, st_w: usize, s: &Style)
    requires
        id_w <= 50,
        5 <= st_w <= 14,
    ensures
        final(out)@ == old(out)@ + table_row(e@, id_w as nat, st_w as nat, *s),
{
    let id = entity_id_of(e);
    let state = state_of(e);
    let name = name_of(e);
    let shown_id = truncate(id, id_w);
    let shown_name = truncate(name, 40);
    let (cs, ce) = state_color(state, s);
    push_str(out, "  ");
    push_padded_right(out, chars_of(shown_id.as_str()).as_slice(), id_w);
    push_str(out, "  ");
    push_str(out, cs);
    push_padded_right(out, chars_of(state).as_slice(), st_w);
    push_str(out, ce);
    push_str(out, "  ");
    push_str(out, shown_name.as_str());
    push_str(out, "\n");
}

/// Renders entities as an aligned table with a count line.
#[verifier::rlimit(40)]
pub fn entity_table(entities: &[Json], title: &str, s: &Style) -> (r: String)
    ensures
        r@ == entity_table_spec(crate::json::views(entities@), title@, *s),
{
    let ghost es = crate::json::views(entities@);
    proof {
        crate::json::lemma_views(entities@);
    }
    let mut out = s.header(title);
    push_str(&mut out, "\n\n");
    if entities.len() == 0 {
        push_str(&mut out, "  ");
        push_str(&mut out, s.dim);
        push_str(&mut out, "No entities found");
        push_str(&mut out, s.reset);
        push_str(&mut out, "\n");
        return out;
    }
    // Column widths.
    let mut id_max: usize = 0;
    let mut st_max: usize = 0;
    let mut i: usize = 0;
    while i < entities.len()
        invariant
            i <= entities.len(),
            es == crate::json::views(entities@),
            es.len() == entities@.len(),
            forall|k: int| 0 <= k < entities@.len() ==> #[trigger] es[k] == entities@[k]@,
            id_max == max_id_len(es.take(i as int)),
            st_max == max_state_len(es.take(i as int)),
        decreases entities.len() - i,
    {
        let a = entity_id_of(&entities[i]).len();
        let b = state_of(&entities[i]).len();
        proof {
            assert(es.take(i + 1).drop_last() =~= es.take(i as int));
            assert(es.take(i + 1).last() == entities@[i as int]@);
        }
        if a > id_max {
            id_max = a;
        }
        if b > st_max {
            st_max = b;
        }
        i = i + 1;
    }
    assert(es.take(entities.len() as int) =~= es);
    let id_w: usize = if id_max > 50 {
        50
    } else {
        id_max
    };
    let st_w: usize = if st_max < 5 {
        5
    } else if st_max > 14 {
        14
    } else {
        st_max
    };
    push_str(&mut out, "  ");
    push_str(&mut out, s.dim);
    push_padded_right(&mut out, chars_of("Entity ID").as_slice(), id_w);
    push_str(&mut out, "  ");
    push_padded_right(&mut out, chars_of("State").as_slice(), st_w);
    push_str(&mut out, "  ");
    push_str(&mut out, "Name");
    push_str(&mut out, s.reset);
    push_str(&mut out, "\n");
    push_str(&mut out, "  ");
    let sep = s.separator(id_w + st_w + 30);
    push_str(&mut out, sep.as_str());
    push_str(&mut out, "\n");
    let ghost before_rows = out@;
    let mut j: usize = 0;
    while j < entities.len()
        invariant
            j <= entities.len(),
            id_w <= 50,
            5 <= st_w <= 14,
            es == crate::json::views(entities@),
            es.len() == entities@.len(),
            forall|k: int| 0 <= k < entities@.len() ==> #[trigger] es[k] == entities@[k]@,
            out@ == before_rows + table_rows(es.take(j as int), id_w as nat, st_w as nat, *s),
        decreases entities.len() - j,
    {
        push_row(&mut out, &entities[j], id_w, st_w, s);
        proof {
            assert(es.take(j + 1).drop_last() =~= es.take(j as int));
            assert(es.take(j + 1).last() == entities@[j as int]@);
        }
        j = j + 1;
    }
    assert(es.take(entities.len() as int) =~= es);
    push_str(&mut out, "\n  ");
    push_str(&mut out, s.dim);
    let count = fmt_num(entities.len());
    push_str(&mut out, count.as_str());
    push_str(&mut out, " entities");
    push_str(&mut out, s.reset);
    push_str(&mut out, "\n");
    out
}

// ---------------------------------------------------------------------
// Laws of the number and text formats
// ---------------------------------------------------------------------

/// `s` without its commas.
pub open spec fn strip_commas(s: Seq<char>) -> Seq<char>
    decreases s.len(),
{
    if s.len() == 0 {
        Seq::empty()
    } else if s.last() == ',' {
        strip_commas(s.drop_last())
    } else {
        strip_commas(s.drop_last()).push(s.last())
    }
}

proof fn lemma_strip_commas_add(a: Seq<char>, b: Seq<char>)
    ensures
        strip_commas(a + b) == strip_commas(a) + strip_commas(b),
    decreases b.len(),
{
    if b.len() == 0 {
        assert(a + b =~= a);
        assert(strip_commas(a) + strip_commas(b) =~= strip_commas(a));
    } else {
        lemma_strip_commas_add(a, b.drop_last());
        assert((a + b).drop_last() =~= a + b.drop_last());
        if b.last() != ',' {
            assert(strip_commas(a) + strip_commas(b.drop_last()).push(b.last()) =~= (strip_commas(a)
                + strip_commas(b.drop_last())).push(b.last()));
        }
    }
}

proof fn lemma_strip_commas_none(d: Seq<char>)
    requires
        forall|j: int| 0 <= j < d.len() ==> d[j] != ',',
    ensures
        strip_commas(d) == d,
    decreases d.len(),
{
    if d.len() > 0 {
        lemma_strip_commas_none(d.drop_last());
        assert(d.drop_last().push(d.last()) =~= d);
    } else {
        assert(d =~= Seq::<char>::empty());
    }
}

proof fn lemma_strip_grouped(d: Seq<char>)
    requires
        forall|j: int| 0 <= j < d.len() ==> d[j] != ',',
    ensures
        strip_commas(grouped(d)) == d,
    decreases d.len(),
{
    if d.len() <= 3 {
        lemma_strip_commas_none(d);
    } else {
        let head = d.take(d.len() - 3);
        let tail = d.skip(d.len() - 3);
        lemma_strip_grouped(head);
        lemma_strip_commas_add(grouped(head) + seq![','], tail);
        lemma_strip_commas_add(grouped(head), seq![',']);
        lemma_strip_commas_none(tail);
        assert(strip_commas(seq![',']) =~= Seq::<char>::empty()) by {
            assert(seq![','].drop_last() =~= Seq::<char>::empty());
            assert(seq![','].last() == ',');
            assert(strip_commas(Seq::<char>::empty()) =~= Seq::<char>::empty());
        }
        assert(head + tail =~= d);
    }
}

/// A number with separators is its decimal digits with commas added:
/// taking the commas out gives back the digits.
pub proof fn grouping_only_adds_commas(n: nat)
    ensures
        strip_commas(grouped(decimal(n))) == decimal(n),
{
    crate::text::decimal_is_digits(n);
    lemma_strip_grouped(decimal(n));
}

/// A text made of ASCII digits with commas between groups: it starts with
/// a digit, the first group has one to three digits, and every comma is
/// followed by exactly three digits and then a comma or the end.
pub open spec fn digit_groups(g: Seq<char>) -> bool {
    &&& g.len() > 0 && '0' <= g[0] <= '9'
    &&& forall|i: int| 0 <= i < g.len() && g[i] != ',' ==> '0' <= #[trigger] g[i] <= '9'
    &&& forall|i: int|
        0 <= i < g.len() && #[trigger] g[i] == ',' ==> i + 3 < g.len() && g[i + 1] != ',' && g[i + 2]
            != ',' && g[i + 3] != ',' && (i + 4 == g.len() || g[i + 4] == ',')
    &&& g.len() > 3 ==> (g[1] == ',' || g[2] == ',' || g[3] == ',')
}

proof fn lemma_grouped_groups(d: Seq<char>)
    requires
        d.len() > 0,
        forall|j: int| 0 <= j < d.len() ==> '0' <= #[trigger] d[j] <= '9',
    ensures
        digit_groups(grouped(d)),
    decreases d.len(),
{
    if d.len() > 3 {
        let h = d.take(d.len() - 3);
        let t = d.skip(d.len() - 3);
        assert forall|j: int| 0 <= j < h.len() implies '0' <= #[trigger] h[j] <= '9' by {
            assert(h[j] == d[j]);
        }
        lemma_grouped_groups(h);
        let gh = grouped(h);
        let g = grouped(d);
        assert(g == gh + seq![','] + t);
        assert forall|i: int| 0 <= i < g.len() && g[i] != ',' implies '0' <= #[trigger] g[i] <= '9' by {
            if i < gh.len() {
                assert(g[i] == gh[i]);
            } else if i > gh.len() {
                assert(g[i] == t[i - gh.len() - 1]);
                assert(t[i - gh.len() - 1] == d[d.len() - 3 + i - gh.len() - 1]);
            }
        }
        assert forall|i: int| 0 <= i < g.len() && #[trigger] g[i] == ',' implies i + 3 < g.len() && g[i + 1]
            != ',' && g[i + 2] != ',' && g[i + 3] != ',' && (i + 4 == g.len() || g[i + 4] == ',') by {
            if i < gh.len() {
                assert(g[i] == gh[i]);
                assert(gh[i] == ',');
                assert(g[i + 1] == gh[i + 1]);
                assert(g[i + 2] == gh[i + 2]);
                assert(g[i + 3] == gh[i + 3]);
                if i + 4 < gh.len() {
                    assert(g[i + 4] == gh[i + 4]);
                }
            } else if i > gh.len() {
                assert(g[i] == t[i - gh.len() - 1]);
                assert(t[i - gh.len() - 1] == d[d.len() - 3 + i - gh.len() - 1]);
            } else {
                assert(g[i + 1] == d[d.len() - 3]);
                assert(g[i + 2] == d[d.len() - 2]);
                assert(g[i + 3] == d[d.len() - 1]);
            }
        }
        assert(g[0] == gh[0]);
        if gh.len() > 3 {
            assert(g[1] == gh[1] && g[2] == gh[2] && g[3] == gh[3]);
        } else {
            assert(g[gh.len() as int] == ',');
        }
    }
}

/// A number with separators has its digits in groups: the first of one to
/// three digits, every later one of exactly three, with one comma between
/// neighbours and none at either end.
pub proof fn groups_of_three(n: nat)
    ensures
        digit_groups(grouped(decimal(n))),
{
    crate::text::decimal_is_digits(n);
    lemma_grouped_groups(decimal(n));
}

/// A truncated text never holds more than `max` characters; a text that
/// fits is kept unchanged, and a longer one keeps its first `max - 1`.
pub proof fn truncation_fits(s: Seq<char>, max: nat)
    ensures
        truncated(s, max).len() == if s.len() <= max {
            s.len()
        } else {
            max
        },
        s.len() <= max ==> truncated(s, max) == s,
        s.len() > max > 0 ==> truncated(s, max) == s.take(max - 1).push('…'),
{
    if max == 0 && s.len() == 0 {
        assert(s =~= Seq::<char>::empty());
    }
}

} // verus!
