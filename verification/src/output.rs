//! The three output modes and the renderers shared by all commands.
use vstd::prelude::*;
use crate::error::AppError;
use crate::json_read::{compact_json_reads_back, printed_json_reads_back, read_json, readable};
use crate::json::{
    compact, compact_text_is_one_line, depth, jget, jstr, numbers_one_line, pretty, to_compact,
    to_pretty, views, Json, JsonV,
};
use crate::text::{
    chars_of, decimal, decimal_is_digits, flatten, flatten_spec, join, join_lines, no_newline,
    owned, push_char, push_decimal, push_str, split_nl, split_undoes_join, string_of, string_views,
};
use crate::ui::{entity_table, entity_table_spec, Style};

verus! {

/// How a command renders its result.
#[derive(Debug, Clone, Copy, PartialEq, Eq, Structural)]
pub enum OutputMode {
    Json,
    Compact,
    Human,
}

/// The mode that the output flags alone select.
pub open spec fn mode_from_flags(human: bool, compact: bool) -> OutputMode {
    if human {
        OutputMode::Human
    } else if compact {
        OutputMode::Compact
    } else {
        OutputMode::Json
    }
}

/// The mode chosen for a run: `--human` wins; `--no-compact` skips the
/// compact checks and falls through to the terminal check; `--compact` or
/// `CLAUDECODE=1` select compact; otherwise a terminal gets human output
/// and a pipe gets JSON.
pub open spec fn detected_mode(
    human: bool,
    compact: bool,
    no_compact: bool,
    claudecode: Option<Seq<char>>,
    stdout_is_terminal: bool,
) -> OutputMode {
    if human {
        OutputMode::Human
    } else if !no_compact && (compact || claudecode == Some("1"@)) {
        OutputMode::Compact
    } else if stdout_is_terminal {
        OutputMode::Human
    } else {
        OutputMode::Json
    }
}

impl OutputMode {
    /// The mode selected by `--human` and `--compact`.
    pub fn from_flags(human: bool, compact: bool) -> (r: OutputMode)
        ensures
            r == mode_from_flags(human, compact),
    {
        if human {
            OutputMode::Human
        } else if compact {
            OutputMode::Compact
        } else {
            OutputMode::Json
        }
    }

    /// The mode for a run, from the flags, the value of `CLAUDECODE` and
    /// whether stdout is a terminal.
    pub fn auto_detect(
        human: bool,
        compact: bool,
        no_compact: bool,
        claudecode: Option<&str>,
        stdout_is_terminal: bool,
    ) -> (r: OutputMode)
        ensures
            r == detected_mode(
                human,
                compact,
                no_compact,
                match claudecode {
                    Some(v) => Some(v@),
                    None => None,
                },
                stdout_is_terminal,
            ),
    {
        if human {
            return OutputMode::Human;
        }
        let llm = match claudecode {
            Some(v) => crate::text::str_eq(v, "1"),
            None => false,
        };
        if !no_compact && (compact || llm) {
            return OutputMode::Compact;
        }
        if stdout_is_terminal {
            OutputMode::Human
        } else {
            OutputMode::Json
        }
    }

    /// Whether two modes are the same.
    pub fn is(&self, other: OutputMode) -> (r: bool)
        ensures
            r == (*self == other),
    {
        match (self, other) {
            (OutputMode::Json, OutputMode::Json) => true,
            (OutputMode::Compact, OutputMode::Compact) => true,
            (OutputMode::Human, OutputMode::Human) => true,
            _ => false,
        }
    }
}

/// The list limit in force: the `--limit` given, else 50 in compact mode,
/// else none.
pub open spec fn effective_limit_spec(limit: Option<usize>, mode: OutputMode) -> Option<usize> {
    match limit {
        Some(n) => Some(n),
        None => if mode == OutputMode::Compact {
            Some(50)
        } else {
            None
        },
    }
}

/// The list limit in force for a run.
pub fn effective_limit(limit: Option<usize>, mode: OutputMode) -> (r: Option<usize>)
    ensures
        r == effective_limit_spec(limit, mode),
{
    match limit {
        Some(n) => Some(n),
        None => if mode.is(OutputMode::Compact) {
            Some(50)
        } else {
            None
        },
    }
}

// ---------------------------------------------------------------------
// Human rendering of a document
// ---------------------------------------------------------------------

/// The human text of an entry value: a string as it is, anything else as
/// one-line JSON.
pub open spec fn human_value(v: JsonV) -> Seq<char> {
    match v {
        JsonV::Str(s) => s,
        _ => compact(v),
    }
}

/// The lines of an object, `key: value`.
pub open spec fn human_entries(entries: Seq<(Seq<char>, JsonV)>) -> Seq<Seq<char>> {
    Seq::new(entries.len(), |i: int| entries[i].0 + ": "@ + human_value(entries[i].1))
}

/// A document as human text: a string as it is, an array one element per
/// line, an object one `key: value` per line, anything else as JSON.
pub open spec fn human_text(v: JsonV) -> Seq<char>
    decreases v,
{
    match v {
        JsonV::Str(s) => s,
        JsonV::Array(items) => join(human_items(items), "\n"@),
        JsonV::Object(entries) => join(human_entries(entries), "\n"@),
        _ => compact(v),
    }
}

/// The human texts of array elements.
pub open spec fn human_items(items: Seq<JsonV>) -> Seq<Seq<char>>
    decreases items,
{
    if items.len() == 0 {
        Seq::empty()
    } else {
        human_items(items.drop_last()).push(human_text(items.last()))
    }
}

proof fn lemma_human_items(items: Seq<JsonV>)
    ensures
        human_items(items).len() == items.len(),
        forall|k: int| 0 <= k < items.len() ==> #[trigger] human_items(items)[k] == human_text(items[k]),
    decreases items.len(),
{
    if items.len() > 0 {
        lemma_human_items(items.drop_last());
        assert(human_items(items) == human_items(items.drop_last()).push(human_text(items.last())));
        assert forall|k: int| 0 <= k < items.len() implies #[trigger] human_items(items)[k] == human_text(items[k]) by {
            if k < items.len() - 1 {
                assert(items.drop_last()[k] == items[k]);
            }
        }
    }
}

/// The human text of a document.
pub fn format_human(data: &Json) -> (r: String)
    ensures
        r@ == human_text(data@),
    decreases data,
{
    match data {
        Json::Str(s) => owned(s.as_str()),
        Json::Array(a) => {
            let ghost items = views(a@);
            proof {
                crate::json::lemma_views(a@);
            }
            let mut parts: Vec<String> = Vec::new();
            let mut i: usize = 0;
            while i < a.len()
                invariant
                    i <= a.len(),
                    *data is Array && (*data)->Array_0 == *a,
                    items == views(a@),
                    items.len() == a@.len(),
                    forall|k: int| 0 <= k < a@.len() ==> #[trigger] items[k] == a@[k]@,
                    parts@.len() == i,
                    forall|k: int| 0 <= k < i ==> #[trigger] parts@[k]@ == human_text(items[k]),
                decreases a.len() - i,
            {
                proof {
                    assert(decreases_to!(*data => (*data)->Array_0));
                    assert(decreases_to!((*data)->Array_0 => (*data)->Array_0[i as int]));
                }
                let p = format_human(&a[i]);
                parts.push(p);
                i = i + 1;
            }
            let r = join_lines(&parts);
            proof {
                lemma_human_items(items);
                assert(string_views(parts@) =~= human_items(items));
                assert(data@ == JsonV::Array(items));
            }
            r
        },
        Json::Object(o) => {
            let ghost entries = crate::json::entry_views(o@);
            proof {
                crate::json::lemma_entry_views(o@);
            }
            let mut parts: Vec<String> = Vec::new();
            let mut i: usize = 0;
            while i < o.len()
                invariant
                    i <= o.len(),
                    entries == crate::json::entry_views(o@),
                    entries.len() == o@.len(),
                    forall|k: int|
                        0 <= k < o@.len() ==> #[trigger] entries[k] == (o@[k].0@, o@[k].1@),
                    parts@.len() == i,
                    forall|k: int|
                        0 <= k < i ==> #[trigger] parts@[k]@ == human_entries(entries)[k],
                decreases o.len() - i,
            {
                let mut line = o[i].0.clone();
                push_str(&mut line, ": ");
                match &o[i].1 {
                    Json::Str(s) => push_str(&mut line, s.as_str()),
                    other => {
                        let t = to_compact(other);
                        push_str(&mut line, t.as_str());
                    },
                }
                parts.push(line);
                i = i + 1;
            }
            let r = join_lines(&parts);
            proof {
                assert(string_views(parts@) =~= human_entries(entries));
                assert(data@ == JsonV::Object(entries));
            }
            r
        },
        _ => to_compact(data),
    }
}

/// A document rendered in a mode: indented JSON, the one-line form (a
/// string as its bare text), or human text.
pub open spec fn rendered(v: JsonV, mode: OutputMode) -> Seq<char> {
    match mode {
        OutputMode::Json => pretty(v, 0),
        OutputMode::Compact => match v {
            JsonV::Str(s) => s,
            _ => compact(v),
        },
        OutputMode::Human => human_text(v),
    }
}

/// Compact mode writes a string as it is, unquoted, and any other document
/// as JSON text on a single line.
pub proof fn compact_mode_is_one_line(v: JsonV)
    requires
        numbers_one_line(v),
    ensures
        v matches JsonV::Str(s) ==> rendered(v, OutputMode::Compact) == s,
        !(v is Str) ==> rendered(v, OutputMode::Compact) == compact(v) && no_newline(
            rendered(v, OutputMode::Compact),
        ),
{
    compact_text_is_one_line(v);
}

/// What JSON mode prints reads back as the document, and so does what
/// compact mode prints for anything but a string (a string comes out bare):
/// a JSON reader given the output gets the document that was rendered.
pub proof fn rendered_json_reads_back(v: JsonV)
    requires
        readable(v),
    ensures
        read_json(rendered(v, OutputMode::Json)) == Some(v),
        !(v is Str) ==> read_json(rendered(v, OutputMode::Compact)) == Some(v),
{
    printed_json_reads_back(v);
    compact_json_reads_back(v);
}

/// Renders a document in the given mode.
pub fn format_output(data: &Json, mode: OutputMode) -> (r: Result<String, AppError>)
    requires
        depth(data@) < 1000000,
    ensures
        r matches Ok(s) && s@ == rendered(data@, mode),
{
    match mode {
        OutputMode::Json => Ok(to_pretty(data)),
        OutputMode::Compact => match data {
            Json::Str(s) => Ok(s.clone()),
            _ => Ok(to_compact(data)),
        },
        OutputMode::Human => Ok(format_human(data)),
    }
}

// ---------------------------------------------------------------------
// Entity lists
// ---------------------------------------------------------------------

/// The compact line of an entity: `entity_id<TAB>state`, with the state's
/// tabs and line breaks turned into spaces; none when the entity has no
/// string id or no state at all.
pub open spec fn entity_line(e: JsonV) -> Option<Seq<char>> {
    match crate::json::jget_str(e, "entity_id"@) {
        Some(id) => match jget(e, "state"@) {
            Some(st) => {
                let state = match jstr(st) {
                    Some(t) => t,
                    None => "unknown"@,
                };
                Some(id + "\t"@ + flatten_spec(state))
            },
            None => None,
        },
        None => None,
    }
}

/// The compact lines of entities, skipping those without a line.
pub open spec fn entity_lines(es: Seq<JsonV>) -> Seq<Seq<char>>
    decreases es.len(),
{
    if es.len() == 0 {
        Seq::empty()
    } else {
        let prev = entity_lines(es.drop_last());
        match entity_line(es.last()) {
            Some(l) => prev.push(l),
            None => prev,
        }
    }
}

/// `[+N more]`.
pub open spec fn more_line(n: nat) -> Seq<char> {
    "[+"@ + decimal(n) + " more]"@
}

/// The number of entities shown under a limit.
pub open spec fn capped_len(len: nat, limit: Option<usize>) -> nat {
    match limit {
        Some(c) => if c < len {
            c as nat
        } else {
            len
        },
        None => len,
    }
}

/// The records of a compact entity list: a line for each shown entity that
/// has one, then `[+N more]` when the limit cut the list.
pub open spec fn compact_records(es: Seq<JsonV>, limit: Option<usize>) -> Seq<Seq<char>> {
    let n = capped_len(es.len(), limit);
    let lines = entity_lines(es.take(n as int));
    if n < es.len() {
        lines.push(more_line((es.len() - n) as nat))
    } else {
        lines
    }
}

/// An entity list in a mode: the compact records one per line, a table for
/// humans, or the indented JSON array.
pub open spec fn entity_list_text(es: Seq<JsonV>, mode: OutputMode, limit: Option<usize>, s: Style) -> Seq<char> {
    let shown = es.take(capped_len(es.len(), limit) as int);
    match mode {
        OutputMode::Compact => join(compact_records(es, limit), "\n"@),
        OutputMode::Human => entity_table_spec(shown, "Entities"@, s),
        OutputMode::Json => pretty(JsonV::Array(shown), 0),
    }
}

/// The compact line of an entity.
pub fn entity_line_of(e: &Json) -> (r: Option<String>)
    ensures
        opt_text(r) == entity_line(e@),
{
    match e.get_str("entity_id") {
        Some(id) => match e.get("state") {
            Some(st) => {
                proof {
                    reveal_strlit("unknown");
                }
                let state = match st.as_str() {
                    Some(t) => t,
                    None => "unknown",
                };
                let mut line = owned(id);
                push_char(&mut line, '\t');
                let flat = flatten(chars_of(state).as_slice());
                crate::text::push_chars(&mut line, flat.as_slice());
                proof {
                    reveal_strlit("\t");
                    assert(line@ =~= id@ + "\t"@ + flatten_spec(state@));
                }
                Some(line)
            },
            None => None,
        },
        None => None,
    }
}

/// The text of an optional string.
pub open spec fn opt_text(o: Option<String>) -> Option<Seq<char>> {
    match o {
        Some(s) => Some(s@),
        None => None,
    }
}

/// A copy of the first `n` values.
pub fn copy_prefix(v: &[Json], n: usize) -> (r: Vec<Json>)
    requires
        n <= v@.len(),
    ensures
        views(r@) == views(v@).take(n as int),
{
    proof {
        crate::json::lemma_views(v@);
    }
    let mut out: Vec<Json> = Vec::new();
    let mut i: usize = 0;
    while i < n
        invariant
            i <= n <= v@.len(),
            views(v@).len() == v@.len(),
            forall|k: int| 0 <= k < v@.len() ==> #[trigger] views(v@)[k] == v@[k]@,
            out@.len() == i,
            forall|k: int| 0 <= k < i ==> #[trigger] out@[k]@ == v@[k]@,
        decreases n - i,
    {
        out.push(v[i].deep_copy());
        i = i + 1;
    }
    proof {
        crate::json::lemma_views(out@);
        assert(views(out@) =~= views(v@).take(n as int));
    }
    out
}

/// Every value of a list is nested less than `b` deep.
pub open spec fn shallow(es: Seq<JsonV>, b: nat) -> bool {
    forall|i: int| 0 <= i < es.len() ==> depth(#[trigger] es[i]) < b
}

/// Renders an entity list in a mode, capped at `limit` entries.
pub fn format_entity_list(entities: &[Json], mode: OutputMode, limit: Option<usize>, style: &Style) -> (r: Result<String, AppError>)
    requires
        shallow(views(entities@), 999999),
    ensures
        r matches Ok(t) && t@ == entity_list_text(views(entities@), mode, limit, *style),
{
    let ghost es = views(entities@);
    proof {
        crate::json::lemma_views(entities@);
    }
    let cap: usize = match limit {
        Some(c) => if c < entities.len() {
            c
        } else {
            entities.len()
        },
        None => entities.len(),
    };
    assert(cap == capped_len(es.len(), limit));
    match mode {
        OutputMode::Compact => {
            let mut lines: Vec<String> = Vec::new();
            let mut i: usize = 0;
            while i < cap
                invariant
                    i <= cap <= entities@.len(),
                    es == views(entities@),
                    es.len() == entities@.len(),
                    forall|k: int| 0 <= k < entities@.len() ==> #[trigger] es[k] == entities@[k]@,
                    string_views(lines@) == entity_lines(es.take(i as int)),
                decreases cap - i,
            {
                let l = entity_line_of(&entities[i]);
                proof {
                    assert(es.take(i + 1).drop_last() =~= es.take(i as int));
                    assert(es.take(i + 1).last() == entities@[i as int]@);
                }
                match l {
                    Some(line) => {
                        lines.push(line);
                        proof {
                            assert(string_views(lines@) =~= entity_lines(es.take(i as int)).push(
                                entity_line(entities@[i as int]@)->0,
                            ));
                        }
                    },
                    None => {
                        assert(string_views(lines@) =~= entity_lines(es.take(i + 1)));
                    },
                }
                i = i + 1;
            }
            let ghost base = string_views(lines@);
            if entities.len() > cap {
                let mut more = owned("[+");
                push_decimal(&mut more, (entities.len() - cap) as u64);
                push_str(&mut more, " more]");
                lines.push(more);
                proof {
                    assert(string_views(lines@) =~= base.push(
                        more_line((es.len() - cap) as nat),
                    ));
                }
            }
            Ok(join_lines(&lines))
        },
        OutputMode::Human => {
            let shown = copy_prefix(entities, cap);
            Ok(entity_table(shown.as_slice(), "Entities", style))
        },
        OutputMode::Json => {
            let shown = copy_prefix(entities, cap);
            let doc = Json::array(shown);
            proof {
                assert forall|k: int| 0 <= k < views(shown@).len() implies depth(
                    #[trigger] views(shown@)[k],
                ) <= 999998 by {
                    assert(views(shown@)[k] == es[k]);
                }
                crate::json::lemma_depth_items_bound(views(shown@), 999998);
            }
            Ok(to_pretty(&doc))
        },
    }
}

/// An entity whose id, if it has one, holds no line feed.
pub open spec fn id_on_one_line(e: JsonV) -> bool {
    match crate::json::jget_str(e, "entity_id"@) {
        Some(id) => no_newline(id),
        None => true,
    }
}

proof fn lemma_entity_lines_one_line(es: Seq<JsonV>)
    requires
        forall|i: int| 0 <= i < es.len() ==> id_on_one_line(#[trigger] es[i]),
    ensures
        forall|i: int| 0 <= i < entity_lines(es).len() ==> no_newline(#[trigger] entity_lines(es)[i]),
    decreases es.len(),
{
    if es.len() > 0 {
        let prev = es.drop_last();
        assert forall|i: int| 0 <= i < prev.len() implies id_on_one_line(#[trigger] prev[i]) by {
            assert(prev[i] == es[i]);
        }
        lemma_entity_lines_one_line(prev);
        let e = es.last();
        assert(id_on_one_line(es[es.len() - 1]));
        match entity_line(e) {
            Some(l) => {
                reveal_strlit("\t");
                let id = crate::json::jget_str(e, "entity_id"@)->0;
                let st = match jstr(jget(e, "state"@)->0) {
                    Some(t) => t,
                    None => "unknown"@,
                };
                assert(l == id + "\t"@ + flatten_spec(st));
                assert forall|j: int| 0 <= j < l.len() implies l[j] != '\n' by {
                    if j < id.len() {
                        assert(l[j] == id[j]);
                    } else if j > id.len() {
                        assert(l[j] == flatten_spec(st)[j - id.len() - 1]);
                    }
                }
                assert(no_newline(l));
                assert(entity_lines(es) == entity_lines(prev).push(l));
            },
            None => {
                assert(entity_lines(es) == entity_lines(prev));
            },
        }
        assert forall|i: int| 0 <= i < entity_lines(es).len() implies no_newline(#[trigger] entity_lines(es)[i]) by {
            if i < entity_lines(prev).len() {
                assert(entity_lines(es)[i] == entity_lines(prev)[i]);
            }
        }
    }
}

proof fn lemma_entity_lines_len(es: Seq<JsonV>)
    requires
        forall|i: int| 0 <= i < es.len() ==> (#[trigger] entity_line(es[i])) is Some,
    ensures
        entity_lines(es).len() == es.len(),
    decreases es.len(),
{
    if es.len() > 0 {
        let prev = es.drop_last();
        assert forall|i: int| 0 <= i < prev.len() implies (#[trigger] entity_line(prev[i])) is Some by {
            assert(prev[i] == es[i]);
        }
        lemma_entity_lines_len(prev);
        assert(entity_line(es[es.len() - 1]) is Some);
    }
}

/// A compact entity list is one record per line: when it holds any record,
/// splitting its text at line feeds gives back the records. When every
/// entity has an id and a state there is a record for each of the first
/// `limit` entities, and one more, `[+N more]`, when the limit cut the list.
pub proof fn compact_list_one_record_per_line(es: Seq<JsonV>, limit: Option<usize>, s: Style)
    requires
        forall|i: int| 0 <= i < es.len() ==> id_on_one_line(#[trigger] es[i]),
    ensures
        compact_records(es, limit).len() > 0 ==> split_nl(
            entity_list_text(es, OutputMode::Compact, limit, s),
        ) == compact_records(es, limit),
        (forall|i: int| 0 <= i < es.len() ==> (#[trigger] entity_line(es[i])) is Some)
            ==> compact_records(es, limit).len() == capped_len(es.len(), limit) + if capped_len(
            es.len(),
            limit,
        ) < es.len() {
            1int
        } else {
            0int
        },
{
    let n = capped_len(es.len(), limit);
    let shown = es.take(n as int);
    assert forall|i: int| 0 <= i < shown.len() implies id_on_one_line(#[trigger] shown[i]) by {
        assert(shown[i] == es[i]);
    }
    lemma_entity_lines_one_line(shown);
    let recs = compact_records(es, limit);
    if n < es.len() {
        let m = more_line((es.len() - n) as nat);
        reveal_strlit("[+");
        reveal_strlit(" more]");
        decimal_is_digits((es.len() - n) as nat);
        let d = decimal((es.len() - n) as nat);
        assert forall|j: int| 0 <= j < m.len() implies m[j] != '\n' by {
            if 2 <= j < 2 + d.len() {
                assert(m[j] == d[j - 2]);
            }
        }
        assert(no_newline(m));
    }
    assert forall|i: int| 0 <= i < recs.len() implies no_newline(#[trigger] recs[i]) by {
        if i < entity_lines(shown).len() {
            assert(recs[i] == entity_lines(shown)[i]);
        }
    }
    if recs.len() > 0 {
        split_undoes_join(recs);
    }
    if forall|i: int| 0 <= i < es.len() ==> (#[trigger] entity_line(es[i])) is Some {
        assert forall|i: int| 0 <= i < shown.len() implies (#[trigger] entity_line(shown[i])) is Some by {
            assert(shown[i] == es[i]);
        }
        lemma_entity_lines_len(shown);
    }
}

} // verus!
