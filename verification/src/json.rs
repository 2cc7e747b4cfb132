//! JSON documents: the values the Home Assistant API hands back and the
//! documents this library renders.
//!
//! Objects keep their entries in key order, as `serde_json`'s default map
//! does; rendering writes them in the order they are held.
use vstd::prelude::*;
use crate::text::{
    chars_of, decimal, decimal_is_digits, digit, digit_char, no_newline, no_newline_add, owned,
    push_char, push_decimal, push_repeat, push_str, repeat_char, seq_eq,
};

verus! {

/// A JSON value. A float is held as the text that JSON prints for it.
#[derive(Debug)]
pub enum Json {
    Null,
    Bool(bool),
    PosInt(u64),
    NegInt(i64),
    Float(String),
    Str(String),
    Array(Vec<Json>),
    Object(Vec<(String, Json)>),
}

/// The mathematical model of a [`Json`] value.
pub enum JsonV {
    Null,
    Bool(bool),
    PosInt(u64),
    NegInt(i64),
    Float(Seq<char>),
    Str(Seq<char>),
    Array(Seq<JsonV>),
    Object(Seq<(Seq<char>, JsonV)>),
}

impl View for Json {
    type V = JsonV;

    open spec fn view(&self) -> JsonV
        decreases self,
    {
        match self {
            Json::Null => JsonV::Null,
            Json::Bool(b) => JsonV::Bool(*b),
            Json::PosInt(n) => JsonV::PosInt(*n),
            Json::NegInt(n) => JsonV::NegInt(*n),
            Json::Float(t) => JsonV::Float(t@),
            Json::Str(s) => JsonV::Str(s@),
            Json::Array(a) => JsonV::Array(views(a@)),
            Json::Object(o) => JsonV::Object(entry_views(o@)),
        }
    }
}

/// The models of a sequence of values.
pub open spec fn views(a: Seq<Json>) -> Seq<JsonV>
    decreases a,
{
    if a.len() == 0 {
        Seq::empty()
    } else {
        views(a.drop_last()).push(a.last().view())
    }
}

/// The models of a sequence of object entries.
pub open spec fn entry_views(o: Seq<(String, Json)>) -> Seq<(Seq<char>, JsonV)>
    decreases o,
{
    if o.len() == 0 {
        Seq::empty()
    } else {
        entry_views(o.drop_last()).push((o.last().0@, o.last().1.view()))
    }
}

/// Element `i` of the models is the model of element `i`.
pub proof fn lemma_views(a: Seq<Json>)
    ensures
        views(a).len() == a.len(),
        forall|i: int| 0 <= i < a.len() ==> #[trigger] views(a)[i] == a[i]@,
    decreases a.len(),
{
    if a.len() > 0 {
        lemma_views(a.drop_last());
        assert(views(a) == views(a.drop_last()).push(a.last().view()));
        assert forall|i: int| 0 <= i < a.len() implies #[trigger] views(a)[i] == a[i]@ by {
            if i < a.len() - 1 {
                assert(a.drop_last()[i] == a[i]);
            }
        }
    }
}

/// Entry `i` of the models is the model of entry `i`.
pub proof fn lemma_entry_views(o: Seq<(String, Json)>)
    ensures
        entry_views(o).len() == o.len(),
        forall|i: int| 0 <= i < o.len() ==> #[trigger] entry_views(o)[i] == (o[i].0@, o[i].1@),
    decreases o.len(),
{
    if o.len() > 0 {
        lemma_entry_views(o.drop_last());
        assert(entry_views(o) == entry_views(o.drop_last()).push((o.last().0@, o.last().1.view())));
        assert forall|i: int| 0 <= i < o.len() implies #[trigger] entry_views(o)[i] == (
            o[i].0@,
            o[i].1@,
        ) by {
            if i < o.len() - 1 {
                assert(o.drop_last()[i] == o[i]);
            }
        }
    }
}

proof fn lemma_array_view(a: &Vec<Json>)
    ensures
        Json::Array(*a)@ == JsonV::Array(views(a@)),
        views(a@).len() == a@.len(),
        forall|i: int| 0 <= i < a@.len() ==> #[trigger] views(a@)[i] == a@[i]@,
{
    lemma_views(a@);
}

proof fn lemma_object_view(o: &Vec<(String, Json)>)
    ensures
        Json::Object(*o)@ == JsonV::Object(entry_views(o@)),
        entry_views(o@).len() == o@.len(),
        forall|i: int| 0 <= i < o@.len() ==> #[trigger] entry_views(o@)[i] == (o@[i].0@, o@[i].1@),
{
    lemma_entry_views(o@);
}

// ---------------------------------------------------------------------
// Reading values
// ---------------------------------------------------------------------

/// The value held under `key` in the entries `o`, if any (the first entry
/// with that key).
pub open spec fn assoc(o: Seq<(Seq<char>, JsonV)>, key: Seq<char>) -> Option<JsonV>
    decreases o.len(),
{
    if o.len() == 0 {
        None
    } else if o[0].0 == key {
        Some(o[0].1)
    } else {
        assoc(o.drop_first(), key)
    }
}

/// `v[key]` for an object, `None` for anything else (`Value::get`).
pub open spec fn jget(v: JsonV, key: Seq<char>) -> Option<JsonV> {
    match v {
        JsonV::Object(o) => assoc(o, key),
        _ => None,
    }
}

/// The text of a string value (`Value::as_str`).
pub open spec fn jstr(v: JsonV) -> Option<Seq<char>> {
    match v {
        JsonV::Str(s) => Some(s),
        _ => None,
    }
}

/// The string held under `key`, if the value is an object and that entry is
/// a string.
pub open spec fn jget_str(v: JsonV, key: Seq<char>) -> Option<Seq<char>> {
    match jget(v, key) {
        Some(x) => jstr(x),
        None => None,
    }
}

/// `get(key).and_then(as_str).unwrap_or(default)`.
pub open spec fn str_or(v: JsonV, key: Seq<char>, default: Seq<char>) -> Seq<char> {
    match jget_str(v, key) {
        Some(s) => s,
        None => default,
    }
}

/// `v.pointer("/attributes/friendly_name")`.
pub open spec fn friendly_name(v: JsonV) -> Option<JsonV> {
    match jget(v, "attributes"@) {
        Some(a) => jget(a, "friendly_name"@),
        None => None,
    }
}

/// The value as a boolean (`Value::as_bool`).
pub open spec fn jbool(v: JsonV) -> Option<bool> {
    match v {
        JsonV::Bool(b) => Some(b),
        _ => None,
    }
}

/// The value as an unsigned integer (`Value::as_u64`).
pub open spec fn ju64(v: JsonV) -> Option<u64> {
    match v {
        JsonV::PosInt(n) => Some(n),
        _ => None,
    }
}

/// The value as a signed integer (`Value::as_i64`).
pub open spec fn ji64(v: JsonV) -> Option<int> {
    match v {
        JsonV::PosInt(n) => if n <= i64::MAX {
            Some(n as int)
        } else {
            None
        },
        JsonV::NegInt(n) => Some(n as int),
        _ => None,
    }
}

impl Json {
    /// The entry named `key` of an object.
    pub fn get(&self, key: &str) -> (r: Option<&Json>)
        ensures
            match r {
                Some(x) => jget(self@, key@) == Some(x@),
                None => jget(self@, key@) is None,
            },
    {
        match self {
            Json::Object(o) => {
                proof {
                    lemma_object_view(o);
                }
                let k = chars_of(key);
                let mut i: usize = 0;
                assert(entry_views(o@).subrange(0, o@.len() as int) =~= entry_views(o@));
                while i < o.len()
                    invariant
                        i <= o.len(),
                        *self is Object && (*self)->Object_0 == *o,
                        k@ == key@,
                        assoc(entry_views(o@), key@) == assoc(
                            entry_views(o@).subrange(i as int, o@.len() as int),
                            key@,
                        ),
                    decreases o.len() - i,
                {
                    proof {
                        lemma_object_view(o);
                    }
                    let ghost rest = entry_views(o@).subrange(i as int, o@.len() as int);
                    let kc = chars_of(o[i].0.as_str());
                    if seq_eq(kc.as_slice(), k.as_slice()) {
                        assert(rest[0] == (o@[i as int].0@, o@[i as int].1@));
                        return Some(&o[i].1);
                    }
                    assert(rest.drop_first() =~= entry_views(o@).subrange(
                        i + 1,
                        o@.len() as int,
                    ));
                    i = i + 1;
                }
                None
            },
            _ => None,
        }
    }

    /// The text of a string value.
    pub fn as_str(&self) -> (r: Option<&str>)
        ensures
            match r {
                Some(s) => jstr(self@) == Some(s@),
                None => jstr(self@) is None,
            },
    {
        match self {
            Json::Str(s) => Some(s.as_str()),
            _ => None,
        }
    }

    /// The string held under `key`.
    pub fn get_str(&self, key: &str) -> (r: Option<&str>)
        ensures
            match r {
                Some(s) => jget_str(self@, key@) == Some(s@),
                None => jget_str(self@, key@) is None,
            },
    {
        match self.get(key) {
            Some(x) => x.as_str(),
            None => None,
        }
    }

    /// The string held under `key`, or `default`.
    pub fn str_or<'a>(&'a self, key: &str, default: &'a str) -> (r: &'a str)
        ensures
            r@ == str_or(self@, key@, default@),
    {
        match self.get_str(key) {
            Some(s) => s,
            None => default,
        }
    }

    /// The boolean value.
    pub fn as_bool(&self) -> (r: Option<bool>)
        ensures
            r == jbool(self@),
    {
        match self {
            Json::Bool(b) => Some(*b),
            _ => None,
        }
    }

    /// The unsigned integer value.
    pub fn as_u64(&self) -> (r: Option<u64>)
        ensures
            r == ju64(self@),
    {
        match self {
            Json::PosInt(n) => Some(*n),
            _ => None,
        }
    }

    /// The signed integer value.
    pub fn as_i64(&self) -> (r: Option<i64>)
        ensures
            match r {
                Some(n) => ji64(self@) == Some(n as int),
                None => ji64(self@) is None,
            },
    {
        match self {
            Json::PosInt(n) => if *n <= 9223372036854775807u64 {
                Some(*n as i64)
            } else {
                None
            },
            Json::NegInt(n) => Some(*n),
            _ => None,
        }
    }

    /// The elements of an array.
    pub fn as_array(&self) -> (r: Option<&Vec<Json>>)
        ensures
            match r {
                Some(a) => self@ == JsonV::Array(views(a@)),
                None => !(self@ is Array),
            },
    {
        match self {
            Json::Array(a) => {
                proof {
                    lemma_array_view(a);
                }
                Some(a)
            },
            _ => None,
        }
    }

    /// Whether the value is an object.
    pub fn is_object(&self) -> (r: bool)
        ensures
            r == (self@ is Object),
    {
        match self {
            Json::Object(_) => true,
            _ => false,
        }
    }

    /// `self.pointer("/attributes/friendly_name")`.
    pub fn friendly_name(&self) -> (r: Option<&Json>)
        ensures
            match r {
                Some(x) => friendly_name(self@) == Some(x@),
                None => friendly_name(self@) is None,
            },
    {
        match self.get("attributes") {
            Some(a) => a.get("friendly_name"),
            None => None,
        }
    }

    /// A copy of the value.
    pub fn deep_copy(&self) -> (r: Json)
        ensures
            r@ == self@,
        decreases self,
    {
        match self {
            Json::Null => Json::Null,
            Json::Bool(b) => Json::Bool(*b),
            Json::PosInt(n) => Json::PosInt(*n),
            Json::NegInt(n) => Json::NegInt(*n),
            Json::Float(t) => Json::Float(t.clone()),
            Json::Str(s) => Json::Str(s.clone()),
            Json::Array(a) => {
                let mut out: Vec<Json> = Vec::new();
                let mut i: usize = 0;
                while i < a.len()
                    invariant
                        i <= a.len(),
                        *self is Array && (*self)->Array_0 == *a,
                        out@.len() == i,
                        forall|k: int| 0 <= k < i ==> #[trigger] out@[k]@ == a@[k]@,
                    decreases a.len() - i,
                {
                    proof {
                        assert(decreases_to!(*self => (*self)->Array_0));
                        assert(decreases_to!((*self)->Array_0 => (*self)->Array_0[i as int]));
                    }
                    let x = a[i].deep_copy();
                    out.push(x);
                    i = i + 1;
                }
                proof {
                    lemma_array_view(a);
                    lemma_array_view(&out);
                    assert(views(out@) =~= views(a@));
                }
                Json::Array(out)
            },
            Json::Object(o) => {
                let mut out: Vec<(String, Json)> = Vec::new();
                let mut i: usize = 0;
                while i < o.len()
                    invariant
                        i <= o.len(),
                        *self is Object && (*self)->Object_0 == *o,
                        out@.len() == i,
                        forall|k: int|
                            0 <= k < i ==> #[trigger] out@[k].0@ == o@[k].0@ && out@[k].1@
                                == o@[k].1@,
                    decreases o.len() - i,
                {
                    proof {
                        assert(decreases_to!(*self => (*self)->Object_0));
                        assert(decreases_to!((*self)->Object_0 => (*self)->Object_0[i as int]));
                        assert(decreases_to!((*self)->Object_0[i as int] => (*self)->Object_0[i as int].1));
                    }
                    let x = o[i].1.deep_copy();
                    out.push((o[i].0.clone(), x));
                    i = i + 1;
                }
                proof {
                    lemma_object_view(o);
                    lemma_object_view(&out);
                    assert(entry_views(out@) =~= entry_views(o@));
                }
                Json::Object(out)
            },
        }
    }

    /// A string value with the text of `s`.
    pub fn string(s: &str) -> (r: Json)
        ensures
            r@ == JsonV::Str(s@),
    {
        Json::Str(owned(s))
    }

    /// A non-negative integer value (`json!(n)` for a `usize`).
    pub fn count(n: usize) -> (r: Json)
        ensures
            r@ == JsonV::PosInt(n as u64),
    {
        Json::PosInt(n as u64)
    }

    /// An integer value (`json!(n)` for an `i64`).
    pub fn integer(n: i64) -> (r: Json)
        ensures
            r@ == int_view(n as int),
    {
        if n >= 0 {
            Json::PosInt(n as u64)
        } else {
            Json::NegInt(n)
        }
    }

    /// An array of string values.
    pub fn strings(items: &Vec<String>) -> (r: Json)
        ensures
            r@ == JsonV::Array(Seq::new(items@.len(), |i: int| JsonV::Str(items@[i]@))),
    {
        let mut out: Vec<Json> = Vec::new();
        let mut i: usize = 0;
        while i < items.len()
            invariant
                i <= items.len(),
                out@.len() == i,
                forall|k: int| 0 <= k < i ==> #[trigger] out@[k]@ == JsonV::Str(items@[k]@),
            decreases items.len() - i,
        {
            out.push(Json::Str(items[i].clone()));
            i = i + 1;
        }
        proof {
            lemma_array_view(&out);
            assert(views(out@) =~= Seq::new(items@.len(), |i: int| JsonV::Str(items@[i]@)));
        }
        Json::Array(out)
    }

    /// An array of values.
    pub fn array(items: Vec<Json>) -> (r: Json)
        ensures
            r@ == JsonV::Array(views(items@)),
    {
        proof {
            lemma_array_view(&items);
        }
        Json::Array(items)
    }

    /// An object holding `entries` in the order given.
    pub fn object(entries: Vec<(String, Json)>) -> (r: Json)
        ensures
            r@ == JsonV::Object(entry_views(entries@)),
    {
        proof {
            lemma_object_view(&entries);
        }
        Json::Object(entries)
    }
}

/// The model of an integer value.
pub open spec fn int_view(n: int) -> JsonV {
    if n >= 0 {
        JsonV::PosInt(n as u64)
    } else {
        JsonV::NegInt(n as i64)
    }
}

/// Appends the entry `(key, value)` to object entries.
pub fn push_entry(entries: &mut Vec<(String, Json)>, key: &str, value: Json)
    ensures
        entry_views(final(entries)@) == entry_views(old(entries)@).push((key@, value@)),
{
    let ghost before = entries@;
    entries.push((owned(key), value));
    assert(entries@.drop_last() =~= before);
}

/// An object entry.
pub fn entry(key: &str, value: Json) -> (r: (String, Json))
    ensures
        r.0@ == key@,
        r.1@ == value@,
{
    (owned(key), value)
}

// ---------------------------------------------------------------------
// Objects in key order
// ---------------------------------------------------------------------

/// `a` sorts before `b`, character by character (the order of `str`).
pub open spec fn text_lt(a: Seq<char>, b: Seq<char>) -> bool
    decreases a.len(),
{
    if a.len() == 0 {
        b.len() > 0
    } else if b.len() == 0 {
        false
    } else if a[0] != b[0] {
        (a[0] as u32) < (b[0] as u32)
    } else {
        text_lt(a.drop_first(), b.drop_first())
    }
}

/// Whether `a` sorts before `b`.
pub fn str_lt(a: &str, b: &str) -> (r: bool)
    ensures
        r == text_lt(a@, b@),
{
    let x = chars_of(a);
    let y = chars_of(b);
    let mut i: usize = 0;
    proof {
        assert(a@.skip(0) =~= a@);
        assert(b@.skip(0) =~= b@);
    }
    while i < x.len() && i < y.len() && x[i] == y[i]
        invariant
            i <= x.len(),
            i <= y.len(),
            x@ == a@,
            y@ == b@,
            text_lt(a@, b@) == text_lt(a@.skip(i as int), b@.skip(i as int)),
        decreases x.len() - i,
    {
        proof {
            assert(a@.skip(i as int).drop_first() =~= a@.skip(i + 1));
            assert(b@.skip(i as int).drop_first() =~= b@.skip(i + 1));
        }
        i = i + 1;
    }
    proof {
        assert(a@.skip(i as int).len() == 0 || b@.skip(i as int).len() == 0 || a@.skip(i as int)[0] != b@.skip(i as int)[0]);
    }
    if i == x.len() {
        i < y.len()
    } else if i == y.len() {
        false
    } else {
        (x[i] as u32) < (y[i] as u32)
    }
}

/// Entries with `(key, value)` put in key order: it replaces the entry with
/// that key, or goes before the first greater key (`Map::insert`).
pub open spec fn insert_sorted(entries: Seq<(Seq<char>, JsonV)>, key: Seq<char>, value: JsonV) -> Seq<(Seq<char>, JsonV)>
    decreases entries.len(),
{
    if entries.len() == 0 {
        seq![(key, value)]
    } else if entries[0].0 == key {
        seq![(key, value)] + entries.drop_first()
    } else if text_lt(key, entries[0].0) {
        seq![(key, value)] + entries
    } else {
        seq![entries[0]] + insert_sorted(entries.drop_first(), key, value)
    }
}

proof fn lemma_insert_sorted_skip(entries: Seq<(Seq<char>, JsonV)>, key: Seq<char>, value: JsonV, i: int)
    requires
        0 <= i <= entries.len(),
        forall|k: int| 0 <= k < i ==> entries[k].0 != key && !text_lt(key, #[trigger] entries[k].0),
    ensures
        insert_sorted(entries, key, value) == entries.take(i) + insert_sorted(entries.skip(i), key, value),
    decreases i,
{
    if i > 0 {
        lemma_insert_sorted_skip(entries.drop_first(), key, value, i - 1);
        assert(entries.drop_first().skip(i - 1) =~= entries.skip(i));
        assert(seq![entries[0]] + entries.drop_first().take(i - 1) =~= entries.take(i));
    } else {
        assert(entries.take(0) =~= Seq::<(Seq<char>, JsonV)>::empty());
        assert(entries.skip(0) =~= entries);
    }
}

/// Puts `(key, value)` into object entries held in key order.
pub fn insert_entry(entries: &mut Vec<(String, Json)>, key: String, value: Json)
    ensures
        entry_views(final(entries)@) == insert_sorted(entry_views(old(entries)@), key@, value@),
{
    let ghost ev = entry_views(entries@);
    proof {
        lemma_entry_views(entries@);
    }
    let mut i: usize = 0;
    while i < entries.len() && !str_eq_string(&entries[i].0, &key) && !str_lt(key.as_str(), entries[i].0.as_str())
        invariant
            i <= entries.len(),
            ev == entry_views(entries@),
            ev.len() == entries@.len(),
            forall|k: int| 0 <= k < entries@.len() ==> #[trigger] ev[k] == (entries@[k].0@, entries@[k].1@),
            forall|k: int| 0 <= k < i ==> ev[k].0 != key@ && !text_lt(key@, #[trigger] ev[k].0),
        decreases entries.len() - i,
    {
        i = i + 1;
    }
    proof {
        lemma_insert_sorted_skip(ev, key@, value@, i as int);
        assert(ev.skip(i as int).len() == 0 ==> insert_sorted(ev.skip(i as int), key@, value@) == seq![(key@, value@)]);
    }
    if i < entries.len() && str_eq_string(&entries[i].0, &key) {
        entries.set(i, (key, value));
        proof {
            lemma_entry_views(entries@);
            assert(entry_views(entries@) =~= ev.take(i as int) + (seq![(ev[i as int].0, value@)] + ev.skip(i as int).drop_first()));
        }
    } else {
        let ghost kv = key@;
        let ghost vv = value@;
        entries.insert(i, (key, value));
        proof {
            lemma_entry_views(entries@);
            assert(entry_views(entries@) =~= ev.take(i as int) + (seq![(kv, vv)] + ev.skip(i as int)));
        }
    }
}

/// Whether two strings are equal.
fn str_eq_string(a: &String, b: &String) -> (r: bool)
    ensures
        r == (a@ == b@),
{
    crate::text::str_eq(a.as_str(), b.as_str())
}

// ---------------------------------------------------------------------
// Rendering as JSON text
// ---------------------------------------------------------------------

/// Four lower-case hexadecimal digits of a control character code.
pub open spec fn hex_digit(d: nat) -> char {
    if d < 10 {
        digit_char(d)
    } else if d == 10 {
        'a'
    } else if d == 11 {
        'b'
    } else if d == 12 {
        'c'
    } else if d == 13 {
        'd'
    } else if d == 14 {
        'e'
    } else {
        'f'
    }
}

/// How one character is written inside a JSON string.
pub open spec fn escape_char(c: char) -> Seq<char> {
    if c == '"' {
        seq!['\\', '"']
    } else if c == '\\' {
        seq!['\\', '\\']
    } else if c == '\n' {
        seq!['\\', 'n']
    } else if c == '\r' {
        seq!['\\', 'r']
    } else if c == '\t' {
        seq!['\\', 't']
    } else if (c as u32) == 8 {
        seq!['\\', 'b']
    } else if (c as u32) == 12 {
        seq!['\\', 'f']
    } else if (c as u32) < 32 {
        seq!['\\', 'u', '0', '0', hex_digit((c as u32 / 16) as nat), hex_digit((c as u32 % 16) as nat)]
    } else {
        seq![c]
    }
}

/// The escaped characters of a string, without the quotes.
pub open spec fn escaped(s: Seq<char>) -> Seq<char>
    decreases s.len(),
{
    if s.len() == 0 {
        Seq::empty()
    } else {
        escaped(s.drop_last()) + escape_char(s.last())
    }
}

/// A string written as a JSON string literal.
pub open spec fn quoted(s: Seq<char>) -> Seq<char> {
    seq!['"'] + escaped(s) + seq!['"']
}

/// The text of a number.
pub open spec fn number_text(v: JsonV) -> Seq<char> {
    match v {
        JsonV::PosInt(n) => decimal(n as nat),
        JsonV::NegInt(n) => if n < 0 {
            seq!['-'] + decimal((-n) as nat)
        } else {
            decimal(n as nat)
        },
        JsonV::Float(t) => t,
        _ => Seq::empty(),
    }
}

/// The one-line JSON text of a value (`serde_json::to_string`).
pub open spec fn compact(v: JsonV) -> Seq<char>
    decreases v,
{
    match v {
        JsonV::Null => "null"@,
        JsonV::Bool(b) => if b {
            "true"@
        } else {
            "false"@
        },
        JsonV::Str(s) => quoted(s),
        JsonV::Array(items) => seq!['['] + compact_items(items) + seq![']'],
        JsonV::Object(entries) => seq!['{'] + compact_entries(entries) + seq!['}'],
        _ => number_text(v),
    }
}

/// Elements separated by commas.
pub open spec fn compact_items(items: Seq<JsonV>) -> Seq<char>
    decreases items,
{
    if items.len() == 0 {
        Seq::empty()
    } else if items.len() == 1 {
        compact(items[0])
    } else {
        compact_items(items.drop_last()) + seq![','] + compact(items.last())
    }
}

/// `"key":value` entries separated by commas.
pub open spec fn compact_entries(entries: Seq<(Seq<char>, JsonV)>) -> Seq<char>
    decreases entries,
{
    if entries.len() == 0 {
        Seq::empty()
    } else if entries.len() == 1 {
        quoted(entries[0].0) + seq![':'] + compact(entries[0].1)
    } else {
        compact_entries(entries.drop_last()) + seq![','] + quoted(entries.last().0) + seq![':']
            + compact(entries.last().1)
    }
}

/// Two spaces per indentation level.
pub open spec fn indent(level: nat) -> Seq<char> {
    repeat_char(' ', 2 * level)
}

/// The separator written before element `i` of a multi-line container.
pub open spec fn item_sep(i: int) -> Seq<char> {
    if i == 0 {
        seq!['\n']
    } else {
        seq![',', '\n']
    }
}

/// The indented JSON text of a value at nesting `level`
/// (`serde_json::to_string_pretty`).
pub open spec fn pretty(v: JsonV, level: nat) -> Seq<char>
    decreases v,
{
    match v {
        JsonV::Array(items) => if items.len() == 0 {
            "[]"@
        } else {
            seq!['['] + pretty_items(items, level + 1) + seq!['\n'] + indent(level) + seq![']']
        },
        JsonV::Object(entries) => if entries.len() == 0 {
            "{}"@
        } else {
            seq!['{'] + pretty_entries(entries, level + 1) + seq!['\n'] + indent(level) + seq![
                '}',
            ]
        },
        _ => compact(v),
    }
}

/// The elements of a multi-line array at `level`.
pub open spec fn pretty_items(items: Seq<JsonV>, level: nat) -> Seq<char>
    decreases items,
{
    if items.len() == 0 {
        Seq::empty()
    } else {
        pretty_items(items.drop_last(), level) + item_sep(items.len() - 1) + indent(level)
            + pretty(items.last(), level)
    }
}

/// The entries of a multi-line object at `level`.
pub open spec fn pretty_entries(entries: Seq<(Seq<char>, JsonV)>, level: nat) -> Seq<char>
    decreases entries,
{
    if entries.len() == 0 {
        Seq::empty()
    } else {
        pretty_entries(entries.drop_last(), level) + item_sep(entries.len() - 1) + indent(level)
            + quoted(entries.last().0) + seq![':', ' '] + pretty(entries.last().1, level)
    }
}

/// Appends the lower-case hexadecimal digit for `d < 16`.
fn push_hex(out: &mut String, d: u32)
    requires
        d < 16,
    ensures
        final(out)@ == old(out)@.push(hex_digit(d as nat)),
{
    let c = if d < 10 {
        digit(d as u64)
    } else if d == 10 {
        'a'
    } else if d == 11 {
        'b'
    } else if d == 12 {
        'c'
    } else if d == 13 {
        'd'
    } else if d == 14 {
        'e'
    } else {
        'f'
    };
    push_char(out, c);
}

/// Appends the escaped form of one character.
fn push_escaped_char(out: &mut String, c: char)
    ensures
        final(out)@ == old(out)@ + escape_char(c),
{
    let ghost start = out@;
    let n = c as u32;
    if c == '"' {
        push_char(out, '\\');
        push_char(out, '"');
    } else if c == '\\' {
        push_char(out, '\\');
        push_char(out, '\\');
    } else if c == '\n' {
        push_char(out, '\\');
        push_char(out, 'n');
    } else if c == '\r' {
        push_char(out, '\\');
        push_char(out, 'r');
    } else if c == '\t' {
        push_char(out, '\\');
        push_char(out, 't');
    } else if n == 8 {
        push_char(out, '\\');
        push_char(out, 'b');
    } else if n == 12 {
        push_char(out, '\\');
        push_char(out, 'f');
    } else if n < 32 {
        push_char(out, '\\');
        push_char(out, 'u');
        push_char(out, '0');
        push_char(out, '0');
        push_hex(out, n / 16);
        push_hex(out, n % 16);
    } else {
        push_char(out, c);
    }
    assert(out@ =~= start + escape_char(c));
}

/// Appends a string as a JSON string literal.
pub fn push_quoted(out: &mut String, s: &str)
    ensures
        final(out)@ == old(out)@ + quoted(s@),
{
    let ghost start = out@;
    let cs = chars_of(s);
    push_char(out, '"');
    let mut i: usize = 0;
    while i < cs.len()
        invariant
            i <= cs.len(),
            cs@ == s@,
            out@ == start + seq!['"'] + escaped(cs@.take(i as int)),
        decreases cs.len() - i,
    {
        push_escaped_char(out, cs[i]);
        i = i + 1;
        assert(cs@.take(i as int).drop_last() =~= cs@.take(i - 1));
    }
    assert(cs@.take(cs.len() as int) =~= cs@);
    push_char(out, '"');
}

/// Appends the text of a number or other scalar.
fn push_scalar(out: &mut String, v: &Json)
    requires
        !(v@ is Array),
        !(v@ is Object),
    ensures
        final(out)@ == old(out)@ + compact(v@),
{
    match v {
        Json::Null => push_str(out, "null"),
        Json::Bool(b) => if *b {
            push_str(out, "true")
        } else {
            push_str(out, "false")
        },
        Json::PosInt(n) => push_decimal(out, *n),
        Json::NegInt(n) => {
            if *n >= 0 {
                push_decimal(out, *n as u64);
            } else {
                push_char(out, '-');
                let m: u64 = if *n == i64::MIN {
                    9223372036854775808u64
                } else {
                    (-*n) as u64
                };
                push_decimal(out, m);
            }
        },
        Json::Float(t) => push_str(out, t.as_str()),
        Json::Str(s) => push_quoted(out, s.as_str()),
        _ => {},
    }
    proof {
        reveal_strlit("null");
        reveal_strlit("true");
        reveal_strlit("false");
    }
}

/// Appends the one-line JSON text of `v`.
pub fn push_compact(out: &mut String, v: &Json)
    ensures
        final(out)@ == old(out)@ + compact(v@),
    decreases v,
{
    match v {
        Json::Array(a) => {
            proof {
                lemma_array_view(a);
            }
            let ghost items = views(a@);
            let ghost start = out@;
            push_char(out, '[');
            let mut i: usize = 0;
            while i < a.len()
                invariant
                    i <= a.len(),
                    *v is Array && (*v)->Array_0 == *a,
                    items == views(a@),
                    out@ == start + seq!['['] + compact_items(items.take(i as int)),
                decreases a.len() - i,
            {
                if i > 0 {
                    push_char(out, ',');
                }
                proof {
                    lemma_array_view(a);
                    assert(decreases_to!(*v => (*v)->Array_0));
                    assert(decreases_to!((*v)->Array_0 => (*v)->Array_0[i as int]));
                }
                push_compact(out, &a[i]);
                proof {
                    let t = items.take(i + 1);
                    assert(t.drop_last() =~= items.take(i as int));
                    assert(t.last() == a@[i as int]@);
                    if i == 0 {
                        assert(t.len() == 1);
                    }
                }
                i = i + 1;
            }
            assert(items.take(a.len() as int) =~= items);
            push_char(out, ']');
        },
        Json::Object(o) => {
            proof {
                lemma_object_view(o);
            }
            let ghost entries = entry_views(o@);
            let ghost start = out@;
            push_char(out, '{');
            let mut i: usize = 0;
            while i < o.len()
                invariant
                    i <= o.len(),
                    *v is Object && (*v)->Object_0 == *o,
                    entries == entry_views(o@),
                    out@ == start + seq!['{'] + compact_entries(entries.take(i as int)),
                decreases o.len() - i,
            {
                if i > 0 {
                    push_char(out, ',');
                }
                push_quoted(out, o[i].0.as_str());
                push_char(out, ':');
                proof {
                    lemma_object_view(o);
                    assert(decreases_to!(*v => (*v)->Object_0));
                    assert(decreases_to!((*v)->Object_0 => (*v)->Object_0[i as int]));
                    assert(decreases_to!((*v)->Object_0[i as int] => (*v)->Object_0[i as int].1));
                }
                push_compact(out, &o[i].1);
                proof {
                    let t = entries.take(i + 1);
                    assert(t.drop_last() =~= entries.take(i as int));
                    assert(t.last() == (o@[i as int].0@, o@[i as int].1@));
                    if i == 0 {
                        assert(t.len() == 1);
                    }
                }
                i = i + 1;
            }
            assert(entries.take(o.len() as int) =~= entries);
            push_char(out, '}');
        },
        _ => push_scalar(out, v),
    }
}

/// Appends two spaces per level.
fn push_indent(out: &mut String, level: usize)
    requires
        level < 1000000,
    ensures
        final(out)@ == old(out)@ + indent(level as nat),
{
    push_repeat(out, ' ', 2 * level);
}

/// Nesting depth of a value.
pub open spec fn depth(v: JsonV) -> nat
    decreases v,
{
    match v {
        JsonV::Array(items) => 1 + depth_items(items),
        JsonV::Object(entries) => 1 + depth_entries(entries),
        _ => 0,
    }
}

/// The greatest depth among elements.
pub open spec fn depth_items(items: Seq<JsonV>) -> nat
    decreases items,
{
    if items.len() == 0 {
        0
    } else {
        let a = depth_items(items.drop_last());
        let b = depth(items.last());
        if a >= b {
            a
        } else {
            b
        }
    }
}

/// The greatest depth among entry values.
pub open spec fn depth_entries(entries: Seq<(Seq<char>, JsonV)>) -> nat
    decreases entries,
{
    if entries.len() == 0 {
        0
    } else {
        let a = depth_entries(entries.drop_last());
        let b = depth(entries.last().1);
        if a >= b {
            a
        } else {
            b
        }
    }
}

proof fn lemma_depth_items(items: Seq<JsonV>, i: int)
    requires
        0 <= i < items.len(),
    ensures
        depth(items[i]) <= depth_items(items),
    decreases items.len(),
{
    if i < items.len() - 1 {
        lemma_depth_items(items.drop_last(), i);
    }
}

/// A bound on every element bounds the greatest depth among them.
pub proof fn lemma_depth_items_bound(items: Seq<JsonV>, b: nat)
    requires
        forall|i: int| 0 <= i < items.len() ==> depth(#[trigger] items[i]) <= b,
    ensures
        depth_items(items) <= b,
    decreases items.len(),
{
    if items.len() > 0 {
        assert forall|i: int| 0 <= i < items.drop_last().len() implies depth(
            #[trigger] items.drop_last()[i],
        ) <= b by {
            assert(items.drop_last()[i] == items[i]);
        }
        lemma_depth_items_bound(items.drop_last(), b);
        assert(depth(items[items.len() - 1]) <= b);
    }
}

proof fn lemma_assoc_depth(o: Seq<(Seq<char>, JsonV)>, key: Seq<char>)
    ensures
        assoc(o, key) matches Some(x) ==> depth(x) <= depth_entries(o),
    decreases o.len(),
{
    if o.len() > 0 {
        if o[0].0 != key {
            lemma_assoc_depth(o.drop_first(), key);
            lemma_depth_entries_drop_first(o);
        } else {
            lemma_depth_entries(o, 0);
        }
    }
}

proof fn lemma_depth_entries_drop_first(o: Seq<(Seq<char>, JsonV)>)
    requires
        o.len() > 0,
    ensures
        depth_entries(o.drop_first()) <= depth_entries(o),
{
    assert forall|i: int| 0 <= i < o.drop_first().len() implies depth(
        #[trigger] o.drop_first()[i].1,
    ) <= depth_entries(o) by {
        lemma_depth_entries(o, i + 1);
        assert(o.drop_first()[i] == o[i + 1]);
    }
    lemma_depth_entries_bound(o.drop_first(), depth_entries(o));
}

/// An entry of an object lies less deep than the object.
pub proof fn lemma_jget_depth(v: JsonV, key: Seq<char>)
    ensures
        jget(v, key) matches Some(x) ==> depth(x) < depth(v),
{
    match v {
        JsonV::Object(o) => lemma_assoc_depth(o, key),
        _ => {},
    }
}

/// A bound on every entry value bounds the greatest depth among them.
pub proof fn lemma_depth_entries_bound(entries: Seq<(Seq<char>, JsonV)>, b: nat)
    requires
        forall|i: int| 0 <= i < entries.len() ==> depth(#[trigger] entries[i].1) <= b,
    ensures
        depth_entries(entries) <= b,
    decreases entries.len(),
{
    if entries.len() > 0 {
        assert forall|i: int| 0 <= i < entries.drop_last().len() implies depth(
            #[trigger] entries.drop_last()[i].1,
        ) <= b by {
            assert(entries.drop_last()[i] == entries[i]);
        }
        lemma_depth_entries_bound(entries.drop_last(), b);
        assert(depth(entries[entries.len() - 1].1) <= b);
    }
}

/// An entry value lies no deeper than the deepest entry.
pub proof fn lemma_depth_entries_le(entries: Seq<(Seq<char>, JsonV)>, i: int)
    requires
        0 <= i < entries.len(),
    ensures
        depth(entries[i].1) <= depth_entries(entries),
{
    lemma_depth_entries(entries, i);
}

proof fn lemma_depth_entries(entries: Seq<(Seq<char>, JsonV)>, i: int)
    requires
        0 <= i < entries.len(),
    ensures
        depth(entries[i].1) <= depth_entries(entries),
    decreases entries.len(),
{
    if i < entries.len() - 1 {
        lemma_depth_entries(entries.drop_last(), i);
    }
}

/// Appends the indented JSON text of `v` at `level`.
pub fn push_pretty(out: &mut String, v: &Json, level: usize)
    requires
        level + depth(v@) < 1000000,
    ensures
        final(out)@ == old(out)@ + pretty(v@, level as nat),
    decreases v,
{
    match v {
        Json::Array(a) => {
            proof {
                lemma_array_view(a);
            }
            let ghost items = views(a@);
            if a.len() == 0 {
                push_str(out, "[]");
                proof {
                    reveal_strlit("[]");
                }
                return ;
            }
            let ghost start = out@;
            push_char(out, '[');
            let mut i: usize = 0;
            while i < a.len()
                invariant
                    i <= a.len(),
                    *v is Array && (*v)->Array_0 == *a,
                    items == views(a@),
                    level + 1 + depth_items(items) < 1000000,
                    out@ == start + seq!['['] + pretty_items(items.take(i as int), (level + 1) as nat),
                decreases a.len() - i,
            {
                if i == 0 {
                    push_char(out, '\n');
                } else {
                    push_char(out, ',');
                    push_char(out, '\n');
                }
                push_indent(out, level + 1);
                proof {
                    lemma_array_view(a);
                    lemma_depth_items(items, i as int);
                }
                proof {
                    lemma_array_view(a);
                    assert(decreases_to!(*v => (*v)->Array_0));
                    assert(decreases_to!((*v)->Array_0 => (*v)->Array_0[i as int]));
                }
                push_pretty(out, &a[i], level + 1);
                proof {
                    let t = items.take(i + 1);
                    assert(t.drop_last() =~= items.take(i as int));
                    assert(t.last() == a@[i as int]@);
                    assert(item_sep(i as int) =~= if i == 0 {
                        seq!['\n']
                    } else {
                        seq![',', '\n']
                    });
                }
                i = i + 1;
            }
            assert(items.take(a.len() as int) =~= items);
            push_char(out, '\n');
            push_indent(out, level);
            push_char(out, ']');
        },
        Json::Object(o) => {
            proof {
                lemma_object_view(o);
            }
            let ghost entries = entry_views(o@);
            if o.len() == 0 {
                push_str(out, "{}");
                proof {
                    reveal_strlit("{}");
                }
                return ;
            }
            let ghost start = out@;
            push_char(out, '{');
            let mut i: usize = 0;
            while i < o.len()
                invariant
                    i <= o.len(),
                    *v is Object && (*v)->Object_0 == *o,
                    entries == entry_views(o@),
                    level + 1 + depth_entries(entries) < 1000000,
                    out@ == start + seq!['{'] + pretty_entries(
                        entries.take(i as int),
                        (level + 1) as nat,
                    ),
                decreases o.len() - i,
            {
                if i == 0 {
                    push_char(out, '\n');
                } else {
                    push_char(out, ',');
                    push_char(out, '\n');
                }
                push_indent(out, level + 1);
                push_quoted(out, o[i].0.as_str());
                push_char(out, ':');
                push_char(out, ' ');
                proof {
                    lemma_object_view(o);
                    lemma_depth_entries(entries, i as int);
                }
                proof {
                    lemma_object_view(o);
                    assert(decreases_to!(*v => (*v)->Object_0));
                    assert(decreases_to!((*v)->Object_0 => (*v)->Object_0[i as int]));
                    assert(decreases_to!((*v)->Object_0[i as int] => (*v)->Object_0[i as int].1));
                }
                push_pretty(out, &o[i].1, level + 1);
                proof {
                    let t = entries.take(i + 1);
                    assert(t.drop_last() =~= entries.take(i as int));
                    assert(t.last() == (o@[i as int].0@, o@[i as int].1@));
                }
                i = i + 1;
            }
            assert(entries.take(o.len() as int) =~= entries);
            push_char(out, '\n');
            push_indent(out, level);
            push_char(out, '}');
        },
        _ => push_scalar(out, v),
    }
}

/// The one-line JSON text of `v`.
pub fn to_compact(v: &Json) -> (r: String)
    ensures
        r@ == compact(v@),
{
    let mut out = String::new();
    push_compact(&mut out, v);
    out
}

/// The indented JSON text of `v`.
pub fn to_pretty(v: &Json) -> (r: String)
    requires
        depth(v@) < 1000000,
    ensures
        r@ == pretty(v@, 0),
{
    let mut out = String::new();
    push_pretty(&mut out, v, 0);
    out
}

// ---------------------------------------------------------------------
// Laws of objects in key order
// ---------------------------------------------------------------------

/// No text sorts before itself.
pub proof fn text_lt_irreflexive(a: Seq<char>)
    ensures
        !text_lt(a, a),
    decreases a.len(),
{
    if a.len() > 0 {
        text_lt_irreflexive(a.drop_first());
    }
}

/// The order of texts is transitive.
pub proof fn text_lt_transitive(a: Seq<char>, b: Seq<char>, c: Seq<char>)
    requires
        text_lt(a, b),
        text_lt(b, c),
    ensures
        text_lt(a, c),
    decreases a.len(),
{
    if a.len() > 0 && b.len() > 0 && c.len() > 0 && a[0] == b[0] && b[0] == c[0] {
        text_lt_transitive(a.drop_first(), b.drop_first(), c.drop_first());
    }
}

/// Of two different texts, one sorts before the other.
pub proof fn text_lt_total(a: Seq<char>, b: Seq<char>)
    requires
        a != b,
    ensures
        text_lt(a, b) || text_lt(b, a),
    decreases a.len(),
{
    if a.len() == 0 {
        assert(b.len() > 0) by {
            if b.len() == 0 {
                assert(a =~= b);
            }
        }
    } else if b.len() > 0 && a[0] == b[0] {
        if a.drop_first() == b.drop_first() {
            assert(a =~= seq![a[0]] + a.drop_first());
            assert(b =~= seq![b[0]] + b.drop_first());
        }
        text_lt_total(a.drop_first(), b.drop_first());
    } else if b.len() > 0 {
        vstd::utf8::char_u32_cast(a[0], a[0] as u32);
        vstd::utf8::char_u32_cast(b[0], b[0] as u32);
    }
}

/// Object entries whose keys strictly increase: each key is held once.
pub open spec fn keys_sorted(e: Seq<(Seq<char>, JsonV)>) -> bool {
    forall|i: int, j: int| 0 <= i < j < e.len() ==> text_lt(#[trigger] e[i].0, #[trigger] e[j].0)
}

/// The value held under `key`, if any.
pub open spec fn value_at(e: Seq<(Seq<char>, JsonV)>, key: Seq<char>) -> Option<JsonV>
    decreases e.len(),
{
    if e.len() == 0 {
        None
    } else if e[0].0 == key {
        Some(e[0].1)
    } else {
        value_at(e.drop_first(), key)
    }
}

proof fn lemma_insert_lower_bound(e: Seq<(Seq<char>, JsonV)>, key: Seq<char>, value: JsonV, b: Seq<char>)
    requires
        text_lt(b, key),
        forall|i: int| 0 <= i < e.len() ==> text_lt(b, #[trigger] e[i].0),
    ensures
        forall|i: int| 0 <= i < insert_sorted(e, key, value).len() ==> text_lt(
            b,
            #[trigger] insert_sorted(e, key, value)[i].0,
        ),
    decreases e.len(),
{
    let r = insert_sorted(e, key, value);
    if e.len() > 0 && e[0].0 != key && !text_lt(key, e[0].0) {
        let rest = e.drop_first();
        assert forall|i: int| 0 <= i < rest.len() implies text_lt(b, #[trigger] rest[i].0) by {
            assert(rest[i] == e[i + 1]);
        }
        lemma_insert_lower_bound(rest, key, value, b);
        assert forall|i: int| 0 <= i < r.len() implies text_lt(b, #[trigger] r[i].0) by {
            if i > 0 {
                assert(r[i] == insert_sorted(rest, key, value)[i - 1]);
            } else {
                assert(r[0] == e[0]);
            }
        }
    } else if e.len() > 0 {
        assert forall|i: int| 0 <= i < r.len() implies text_lt(b, #[trigger] r[i].0) by {
            if i > 0 && e[0].0 == key {
                assert(r[i] == e[i]);
            } else if i > 0 {
                assert(r[i] == e[i - 1]);
            }
        }
    }
}

/// Putting a key into an object keeps its keys in order, each once; the
/// key then holds the new value and every other key keeps its own.
pub proof fn insert_keeps_keys_sorted(e: Seq<(Seq<char>, JsonV)>, key: Seq<char>, value: JsonV)
    requires
        keys_sorted(e),
    ensures
        keys_sorted(insert_sorted(e, key, value)),
        value_at(insert_sorted(e, key, value), key) == Some(value),
        forall|k: Seq<char>|
            k != key ==> #[trigger] value_at(insert_sorted(e, key, value), k) == value_at(e, k),
    decreases e.len(),
{
    let r = insert_sorted(e, key, value);
    if e.len() == 0 {
        assert forall|k: Seq<char>| k != key implies #[trigger] value_at(r, k) == value_at(e, k) by {
            assert(r.drop_first().len() == 0);
            assert(value_at(r.drop_first(), k) == None::<JsonV>);
            assert(r[0].0 == key);
            assert(value_at(e, k) == None::<JsonV>);
        }
    } else if e[0].0 == key {
        assert(r.drop_first() =~= e.drop_first());
        assert forall|k: Seq<char>| k != key implies #[trigger] value_at(r, k) == value_at(e, k) by {
            assert(r[0].0 == key);
            assert(value_at(r, k) == value_at(r.drop_first(), k));
            assert(value_at(e, k) == value_at(e.drop_first(), k));
        }
        assert forall|i: int, j: int| 0 <= i < j < r.len() implies text_lt(
            #[trigger] r[i].0,
            #[trigger] r[j].0,
        ) by {
            assert(r[j] == e[j]);
            if i > 0 {
                assert(r[i] == e[i]);
            }
        }
    } else if text_lt(key, e[0].0) {
        assert(r.drop_first() =~= e);
        assert forall|k: Seq<char>| k != key implies #[trigger] value_at(r, k) == value_at(e, k) by {
            assert(r[0].0 == key);
            assert(value_at(r, k) == value_at(r.drop_first(), k));
        }
        assert forall|i: int, j: int| 0 <= i < j < r.len() implies text_lt(
            #[trigger] r[i].0,
            #[trigger] r[j].0,
        ) by {
            assert(r[j] == e[j - 1]);
            if i > 0 {
                assert(r[i] == e[i - 1]);
            } else if j > 1 {
                assert(text_lt(e[0].0, e[j - 1].0));
                text_lt_transitive(key, e[0].0, e[j - 1].0);
            }
        }
    } else {
        let rest = e.drop_first();
        assert(keys_sorted(rest)) by {
            assert forall|i: int, j: int| 0 <= i < j < rest.len() implies text_lt(
                #[trigger] rest[i].0,
                #[trigger] rest[j].0,
            ) by {
                assert(rest[i] == e[i + 1]);
                assert(rest[j] == e[j + 1]);
            }
        }
        insert_keeps_keys_sorted(rest, key, value);
        text_lt_total(key, e[0].0);
        assert forall|i: int| 0 <= i < rest.len() implies text_lt(e[0].0, #[trigger] rest[i].0) by {
            assert(rest[i] == e[i + 1]);
        }
        lemma_insert_lower_bound(rest, key, value, e[0].0);
        let ri = insert_sorted(rest, key, value);
        assert(r.drop_first() =~= ri);
        assert(r[0] == e[0]);
        assert(value_at(r, key) == value_at(ri, key));
        assert forall|k: Seq<char>| k != key implies #[trigger] value_at(r, k) == value_at(e, k) by {
            if k != e[0].0 {
                assert(value_at(r, k) == value_at(ri, k));
                assert(value_at(e, k) == value_at(rest, k));
            }
        }
        assert forall|i: int, j: int| 0 <= i < j < r.len() implies text_lt(
            #[trigger] r[i].0,
            #[trigger] r[j].0,
        ) by {
            assert(r[j] == ri[j - 1]);
            if i > 0 {
                assert(r[i] == ri[i - 1]);
            }
        }
    }
}

/// Texts with a common start sort as what follows it.
pub proof fn lemma_text_lt_common_prefix(p: Seq<char>, x: Seq<char>, y: Seq<char>)
    ensures
        text_lt(p + x, p + y) == text_lt(x, y),
    decreases p.len(),
{
    if p.len() == 0 {
        assert(p + x =~= x);
        assert(p + y =~= y);
    } else {
        lemma_text_lt_common_prefix(p.drop_first(), x, y);
        assert((p + x).drop_first() =~= p.drop_first() + x);
        assert((p + y).drop_first() =~= p.drop_first() + y);
    }
}

/// Two texts of one length that sort one before the other still do with
/// anything after them.
pub proof fn lemma_text_lt_extend(a: Seq<char>, b: Seq<char>, x: Seq<char>, y: Seq<char>)
    requires
        text_lt(a, b),
        a.len() == b.len(),
    ensures
        text_lt(a + x, b + y),
    decreases a.len(),
{
    if a[0] == b[0] {
        lemma_text_lt_extend(a.drop_first(), b.drop_first(), x, y);
        assert((a + x).drop_first() =~= a.drop_first() + x);
        assert((b + y).drop_first() =~= b.drop_first() + y);
    }
    assert((a + x)[0] == a[0]);
    assert((b + y)[0] == b[0]);
}


// ---------------------------------------------------------------------
// Escaping is one to one
// ---------------------------------------------------------------------

proof fn lemma_hex_digit_injective(a: nat, b: nat)
    requires
        a < 16,
        b < 16,
        hex_digit(a) == hex_digit(b),
    ensures
        a == b,
{
}

/// The escaped text read from the front: the first character's escape,
/// then the rest.
pub proof fn lemma_escaped_front(s: Seq<char>)
    requires
        s.len() > 0,
    ensures
        escaped(s) == escape_char(s[0]) + escaped(s.skip(1)),
    decreases s.len(),
{
    if s.len() > 1 {
        lemma_escaped_front(s.drop_last());
        assert(s.drop_last().skip(1) =~= s.skip(1).drop_last());
        assert(s.skip(1).last() == s.last());
        assert(s.drop_last()[0] == s[0]);
    } else {
        assert(s.skip(1) =~= Seq::<char>::empty());
        assert(s.drop_last() =~= Seq::<char>::empty());
    }
}

/// No character's escape is a proper beginning of another's: two texts
/// that start with escapes of characters agree on the characters and on
/// what follows.
proof fn lemma_escape_char_prefix(c1: char, c2: char, r1: Seq<char>, r2: Seq<char>)
    requires
        escape_char(c1) + r1 == escape_char(c2) + r2,
    ensures
        c1 == c2,
        r1 == r2,
{
    let e1 = escape_char(c1);
    let e2 = escape_char(c2);
    let x = e1 + r1;
    assert(x[0] == e1[0] && x[0] == e2[0]);
    if e1[0] == '\\' {
        assert(x[1] == e1[1] && x[1] == e2[1]);
        if e1[1] == 'u' {
            assert(x[4] == e1[4] && x[4] == e2[4]);
            assert(x[5] == e1[5] && x[5] == e2[5]);
            let n1 = c1 as u32;
            let n2 = c2 as u32;
            lemma_hex_digit_injective((n1 / 16) as nat, (n2 / 16) as nat);
            lemma_hex_digit_injective((n1 % 16) as nat, (n2 % 16) as nat);
            assert(n1 == n2);
        }
    }
    assert(c1 == c2);
    assert(r1 =~= x.skip(e1.len() as int));
    assert(r2 =~= x.skip(e2.len() as int));
}

/// Different strings are written as different JSON string literals:
/// escaping loses nothing.
pub proof fn escaping_is_one_to_one(a: Seq<char>, b: Seq<char>)
    ensures
        escaped(a) == escaped(b) ==> a == b,
        quoted(a) == quoted(b) ==> a == b,
    decreases a.len() + b.len(),
{
    if quoted(a) == quoted(b) {
        assert(escaped(a) =~= quoted(a).subrange(1, quoted(a).len() - 1));
        assert(escaped(b) =~= quoted(b).subrange(1, quoted(b).len() - 1));
    }
    if escaped(a) == escaped(b) {
        if a.len() == 0 && b.len() == 0 {
            assert(a =~= b);
        } else if a.len() == 0 {
            lemma_escaped_front(b);
            assert(escaped(b).len() > 0);
        } else if b.len() == 0 {
            lemma_escaped_front(a);
            assert(escaped(a).len() > 0);
        } else {
            lemma_escaped_front(a);
            lemma_escaped_front(b);
            lemma_escape_char_prefix(a[0], b[0], escaped(a.skip(1)), escaped(b.skip(1)));
            escaping_is_one_to_one(a.skip(1), b.skip(1));
            assert(a =~= seq![a[0]] + a.skip(1));
            assert(b =~= seq![b[0]] + b.skip(1));
        }
    }
}

// ---------------------------------------------------------------------
// One-line text
// ---------------------------------------------------------------------

/// Every number held as text in a value is written without a line feed,
/// as the text of a number always is.
pub open spec fn numbers_one_line(v: JsonV) -> bool
    decreases v,
{
    match v {
        JsonV::Float(t) => no_newline(t),
        JsonV::Array(items) => numbers_one_line_items(items),
        JsonV::Object(entries) => numbers_one_line_entries(entries),
        _ => true,
    }
}

/// `numbers_one_line` of every element.
pub open spec fn numbers_one_line_items(items: Seq<JsonV>) -> bool
    decreases items,
{
    if items.len() == 0 {
        true
    } else {
        numbers_one_line_items(items.drop_last()) && numbers_one_line(items.last())
    }
}

/// `numbers_one_line` of every entry value.
pub open spec fn numbers_one_line_entries(entries: Seq<(Seq<char>, JsonV)>) -> bool
    decreases entries,
{
    if entries.len() == 0 {
        true
    } else {
        numbers_one_line_entries(entries.drop_last()) && numbers_one_line(entries.last().1)
    }
}

proof fn lemma_escaped_one_line(s: Seq<char>)
    ensures
        no_newline(escaped(s)),
        no_newline(quoted(s)),
    decreases s.len(),
{
    if s.len() > 0 {
        lemma_escaped_one_line(s.drop_last());
        let c = s.last();
        let e = escape_char(c);
        assert(no_newline(e)) by {
            if (c as u32) < 32 && c != '\n' && c != '\r' && c != '\t' && (c as u32) != 8 && (c as u32)
                != 12 {
                assert(e[4] == hex_digit((c as u32 / 16) as nat));
                assert(e[5] == hex_digit((c as u32 % 16) as nat));
            }
        }
        no_newline_add(escaped(s.drop_last()), e);
    }
    no_newline_add(seq!['"'], escaped(s));
    no_newline_add(seq!['"'] + escaped(s), seq!['"']);
}

proof fn lemma_compact_one_line(v: JsonV)
    requires
        numbers_one_line(v),
    ensures
        no_newline(compact(v)),
    decreases v,
{
    match v {
        JsonV::Str(s) => lemma_escaped_one_line(s),
        JsonV::Array(items) => {
            lemma_compact_items_one_line(items);
            no_newline_add(seq!['['], compact_items(items));
            no_newline_add(seq!['['] + compact_items(items), seq![']']);
        },
        JsonV::Object(entries) => {
            lemma_compact_entries_one_line(entries);
            no_newline_add(seq!['{'], compact_entries(entries));
            no_newline_add(seq!['{'] + compact_entries(entries), seq!['}']);
        },
        JsonV::PosInt(n) => decimal_is_digits(n as nat),
        JsonV::NegInt(n) => {
            if n < 0 {
                decimal_is_digits((-n) as nat);
                no_newline_add(seq!['-'], decimal((-n) as nat));
            } else {
                decimal_is_digits(n as nat);
            }
        },
        JsonV::Null => {
            reveal_strlit("null");
        },
        JsonV::Bool(b) => {
            reveal_strlit("true");
            reveal_strlit("false");
        },
        JsonV::Float(t) => {},
    }
}

proof fn lemma_compact_items_one_line(items: Seq<JsonV>)
    requires
        numbers_one_line_items(items),
    ensures
        no_newline(compact_items(items)),
    decreases items,
{
    if items.len() == 1 {
        assert(items.last() == items[0]);
        lemma_compact_one_line(items[0]);
    } else if items.len() > 1 {
        lemma_compact_items_one_line(items.drop_last());
        lemma_compact_one_line(items.last());
        no_newline_add(compact_items(items.drop_last()), seq![',']);
        no_newline_add(compact_items(items.drop_last()) + seq![','], compact(items.last()));
    }
}

proof fn lemma_compact_entries_one_line(entries: Seq<(Seq<char>, JsonV)>)
    requires
        numbers_one_line_entries(entries),
    ensures
        no_newline(compact_entries(entries)),
    decreases entries,
{
    if entries.len() >= 1 {
        let last = entries.last();
        lemma_compact_one_line(last.1);
        lemma_escaped_one_line(last.0);
        no_newline_add(quoted(last.0), seq![':']);
        no_newline_add(quoted(last.0) + seq![':'], compact(last.1));
        if entries.len() == 1 {
            assert(last == entries[0]);
        } else {
            lemma_compact_entries_one_line(entries.drop_last());
            let head = compact_entries(entries.drop_last());
            no_newline_add(head, seq![',']);
            no_newline_add(head + seq![','], quoted(last.0));
            no_newline_add(head + seq![','] + quoted(last.0), seq![':']);
            no_newline_add(head + seq![','] + quoted(last.0) + seq![':'], compact(last.1));
        }
    }
}

/// The one-line JSON text of a value has no line feed, whatever strings it
/// holds: a line feed inside a string is written as an escape.
pub proof fn compact_text_is_one_line(v: JsonV)
    requires
        numbers_one_line(v),
    ensures
        no_newline(compact(v)),
{
    lemma_compact_one_line(v);
}

} // verus!
