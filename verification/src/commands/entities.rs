//! Listing, reading and searching entities.
use vstd::prelude::*;
use crate::commands::verify::id_starts;
use crate::error::AppError;
use crate::json::{
    depth, entry_views, friendly_name, jget, jget_str, push_entry, str_or, views, Json, JsonV,
};
use crate::output::{
    entity_list_text, format_entity_list, format_output, rendered, shallow, OutputMode,
};
use crate::text::{owned, push_str, str_eq};
use crate::ui::{entity_table, entity_table_spec, Style};
use crate::validation::{regex_matches, safe_regex, safe_regex_outcome, Pattern};

verus! {

// ---------------------------------------------------------------------
// Fields
// ---------------------------------------------------------------------

/// A value, or null when absent (`json!` of an `Option`).
pub open spec fn or_null(o: Option<JsonV>) -> JsonV {
    match o {
        Some(v) => v,
        None => JsonV::Null,
    }
}

/// The attribute `key` of an entity, or null.
pub open spec fn attribute(e: JsonV, key: Seq<char>) -> JsonV {
    match jget(e, "attributes"@) {
        Some(a) => or_null(jget(a, key)),
        None => JsonV::Null,
    }
}

/// A copy of the entry `key` of a value, or null.
pub fn field_or_null(e: &Json, key: &str) -> (r: Json)
    ensures
        r@ == or_null(jget(e@, key@)),
        depth(r@) <= depth(e@),
{
    proof {
        crate::json::lemma_jget_depth(e@, key@);
    }
    match e.get(key) {
        Some(v) => v.deep_copy(),
        None => Json::Null,
    }
}

/// A copy of the attribute `key` of an entity, or null.
pub fn attribute_or_null(e: &Json, key: &str) -> (r: Json)
    ensures
        r@ == attribute(e@, key@),
        depth(r@) <= depth(e@),
{
    proof {
        crate::json::lemma_jget_depth(e@, "attributes"@);
    }
    match e.get("attributes") {
        Some(a) => {
            proof {
                crate::json::lemma_jget_depth(a@, key@);
            }
            match a.get(key) {
                Some(v) => v.deep_copy(),
                None => Json::Null,
            }
        },
        None => Json::Null,
    }
}

/// The entities whose id starts with `prefix`, in order.
pub open spec fn with_prefix(es: Seq<JsonV>, prefix: Seq<char>) -> Seq<JsonV>
    decreases es.len(),
{
    if es.len() == 0 {
        Seq::empty()
    } else {
        let prev = with_prefix(es.drop_last(), prefix);
        if id_starts(es.last(), prefix) {
            prev.push(es.last())
        } else {
            prev
        }
    }
}

/// Copies of the entities whose id starts with `prefix`.
pub fn select_prefix(states: &[Json], prefix: &str) -> (r: Vec<Json>)
    ensures
        views(r@) == with_prefix(views(states@), prefix@),
        shallow(views(states@), 999990) ==> shallow(views(r@), 999990),
{
    let ghost es = views(states@);
    proof {
        crate::json::lemma_views(states@);
    }
    let mut out: Vec<Json> = Vec::new();
    let mut i: usize = 0;
    while i < states.len()
        invariant
            i <= states.len(),
            es == views(states@),
            es.len() == states@.len(),
            forall|k: int| 0 <= k < states@.len() ==> #[trigger] es[k] == states@[k]@,
            views(out@) == with_prefix(es.take(i as int), prefix@),
            shallow(es, 999990) ==> forall|k: int| 0 <= k < out@.len() ==> depth(#[trigger] out@[k]@) < 999990,
        decreases states.len() - i,
    {
        proof {
            assert(es.take(i + 1).drop_last() =~= es.take(i as int));
            assert(es.take(i + 1).last() == states@[i as int]@);
        }
        if crate::commands::verify::id_has_prefix(&states[i], prefix) {
            let ghost before = out@;
            out.push(states[i].deep_copy());
            proof {
                assert(out@.drop_last() =~= before);
                if shallow(es, 999990) {
                    assert(depth(es[i as int]) < 999990);
                }
            }
        }
        i = i + 1;
    }
    proof {
        assert(es.take(states@.len() as int) =~= es);
        crate::json::lemma_views(out@);
        if shallow(es, 999990) {
            assert forall|k: int| 0 <= k < views(out@).len() implies depth(#[trigger] views(out@)[k]) < 999990 by {
                assert(views(out@)[k] == out@[k]@);
            }
        }
    }
    out
}

// ---------------------------------------------------------------------
// Filters
// ---------------------------------------------------------------------

/// Keeps at most `limit` entities.
pub fn apply_limit(entities: &mut Vec<Json>, limit: Option<usize>)
    ensures
        final(entities)@ == match limit {
            Some(c) => if c < old(entities)@.len() {
                old(entities)@.take(c as int)
            } else {
                old(entities)@
            },
            None => old(entities)@,
        },
{
    match limit {
        Some(c) => entities.truncate(c),
        None => {},
    }
}

/// The entities whose state is `st`, in order.
pub open spec fn in_state(es: Seq<JsonV>, st: Seq<char>) -> Seq<JsonV>
    decreases es.len(),
{
    if es.len() == 0 {
        Seq::empty()
    } else {
        let prev = in_state(es.drop_last(), st);
        if jget_str(es.last(), "state"@) == Some(st) {
            prev.push(es.last())
        } else {
            prev
        }
    }
}

/// Keeps the entities whose state is exactly `state`.
pub fn filter_by_state(entities: &mut Vec<Json>, state: &str)
    ensures
        views(final(entities)@) == in_state(views(old(entities)@), state@),
        forall|k: int| 0 <= k < final(entities)@.len() ==> exists|j: int| 0 <= j < old(entities)@.len() && #[trigger] final(entities)@[k]@ == old(entities)@[j]@,
{
    let mut all: Vec<Json> = Vec::new();
    std::mem::swap(&mut all, entities);
    let ghost es = views(all@);
    proof {
        crate::json::lemma_views(all@);
    }
    let mut i: usize = 0;
    while i < all.len()
        invariant
            i <= all.len(),
            all@ == old(entities)@,
            es == views(all@),
            es.len() == all@.len(),
            forall|k: int| 0 <= k < all@.len() ==> #[trigger] es[k] == all@[k]@,
            views(entities@) == in_state(es.take(i as int), state@),
            forall|k: int| 0 <= k < entities@.len() ==> exists|j: int| 0 <= j < all@.len() && #[trigger] entities@[k]@ == all@[j]@,
        decreases all.len() - i,
    {
        proof {
            assert(es.take(i + 1).drop_last() =~= es.take(i as int));
            assert(es.take(i + 1).last() == all@[i as int]@);
        }
        if crate::commands::verify::state_is(&all[i], state) {
            let ghost before = entities@;
            entities.push(all[i].deep_copy());
            proof {
                assert(entities@.drop_last() =~= before);
                assert(entities@[entities@.len() - 1]@ == all@[i as int]@);
            }
        }
        i = i + 1;
    }
    proof {
        assert(es.take(all@.len() as int) =~= es);
    }
}

/// An expression matches an entity: its id or its friendly name.
pub open spec fn entity_matches(source: Seq<char>, e: JsonV) -> bool {
    let name = match friendly_name(e) {
        Some(f) => match crate::json::jstr(f) {
            Some(s) => s,
            None => ""@,
        },
        None => ""@,
    };
    regex_matches(source, str_or(e, "entity_id"@, ""@)) || regex_matches(source, name)
}

/// Whether the expression matches the entity's id or friendly name.
pub fn matches_entity(re: &Pattern, entity: &Json) -> (r: bool)
    ensures
        r == entity_matches(re.source(), entity@),
{
    let id = entity.str_or("entity_id", "");
    let name = match entity.friendly_name() {
        Some(f) => match f.as_str() {
            Some(s) => s,
            None => "",
        },
        None => "",
    };
    proof {
        reveal_strlit("");
    }
    re.is_match(id) || re.is_match(name)
}

/// The entities the expression matches, in order.
pub open spec fn matching_entities(es: Seq<JsonV>, source: Seq<char>) -> Seq<JsonV>
    decreases es.len(),
{
    if es.len() == 0 {
        Seq::empty()
    } else {
        let prev = matching_entities(es.drop_last(), source);
        if entity_matches(source, es.last()) {
            prev.push(es.last())
        } else {
            prev
        }
    }
}

/// Keeps the entities the expression matches.
pub fn filter_matching(entities: Vec<Json>, re: &Pattern) -> (r: Vec<Json>)
    ensures
        views(r@) == matching_entities(views(entities@), re.source()),
        forall|k: int| 0 <= k < r@.len() ==> exists|j: int| 0 <= j < entities@.len() && #[trigger] r@[k]@ == entities@[j]@,
{
    let ghost es = views(entities@);
    proof {
        crate::json::lemma_views(entities@);
    }
    let mut out: Vec<Json> = Vec::new();
    let mut i: usize = 0;
    while i < entities.len()
        invariant
            i <= entities.len(),
            es == views(entities@),
            es.len() == entities@.len(),
            forall|k: int| 0 <= k < entities@.len() ==> #[trigger] es[k] == entities@[k]@,
            views(out@) == matching_entities(es.take(i as int), re.source()),
            forall|k: int| 0 <= k < out@.len() ==> exists|j: int| 0 <= j < entities@.len() && #[trigger] out@[k]@ == entities@[j]@,
        decreases entities.len() - i,
    {
        proof {
            assert(es.take(i + 1).drop_last() =~= es.take(i as int));
            assert(es.take(i + 1).last() == entities@[i as int]@);
        }
        if matches_entity(re, &entities[i]) {
            let ghost before = out@;
            out.push(entities[i].deep_copy());
            proof {
                assert(out@.drop_last() =~= before);
                assert(out@[out@.len() - 1]@ == entities@[i as int]@);
            }
        }
        i = i + 1;
    }
    proof {
        assert(es.take(entities@.len() as int) =~= es);
    }
    out
}

// ---------------------------------------------------------------------
// Reports
// ---------------------------------------------------------------------

/// At most `limit` entities.
pub open spec fn limited(es: Seq<JsonV>, limit: Option<usize>) -> Seq<JsonV> {
    match limit {
        Some(c) => if c < es.len() {
            es.take(c as int)
        } else {
            es
        },
        None => es,
    }
}

/// The error of a pattern that `safe_regex` refuses, if any.
pub open spec fn pattern_error(p: Option<&str>) -> Option<Seq<char>> {
    match p {
        Some(x) => match safe_regex_outcome(x@, true) {
            Err(e) => Some(e),
            Ok(_) => None,
        },
        None => None,
    }
}

/// The compiled source of a pattern that `safe_regex` accepts.
pub open spec fn pattern_source(p: Option<&str>) -> Option<Seq<char>> {
    match p {
        Some(x) => match safe_regex_outcome(x@, true) {
            Ok(src) => Some(src),
            Err(_) => None,
        },
        None => None,
    }
}

/// The entities a listing selects: those of the domain, in the state,
/// matching the pattern, matching the name, each filter only when given.
pub open spec fn list_selection(
    es: Seq<JsonV>,
    domain: Option<Seq<char>>,
    state: Option<Seq<char>>,
    pattern: Option<Seq<char>>,
    name: Option<Seq<char>>,
) -> Seq<JsonV> {
    let a = match domain {
        Some(d) => with_prefix(es, d + "."@),
        None => es,
    };
    let b = match state {
        Some(st) => in_state(a, st),
        None => a,
    };
    let c = match pattern {
        Some(p) => matching_entities(b, p),
        None => b,
    };
    match name {
        Some(n) => matching_entities(c, n),
        None => c,
    }
}

/// The row of an entity in a JSON listing.
pub open spec fn list_row(e: JsonV) -> JsonV {
    JsonV::Object(
        seq![
            ("entity_id"@, or_null(jget(e, "entity_id"@))),
            ("friendly_name"@, attribute(e, "friendly_name"@)),
            ("last_changed"@, or_null(jget(e, "last_changed"@))),
            ("state"@, or_null(jget(e, "state"@))),
        ],
    )
}

/// The row of an entity in JSON search results.
pub open spec fn search_row(e: JsonV) -> JsonV {
    JsonV::Object(
        seq![
            ("entity_id"@, or_null(jget(e, "entity_id"@))),
            ("friendly_name"@, attribute(e, "friendly_name"@)),
            ("state"@, or_null(jget(e, "state"@))),
        ],
    )
}

/// The title of a listing: `Entities`, with the domain when there is one.
pub open spec fn list_title(domain: Option<Seq<char>>) -> Seq<char> {
    match domain {
        Some(d) => "Entities \u{2014} "@ + d,
        None => "Entities"@,
    }
}

/// A selection of entities in a mode: the compact entity list (capped at
/// `limit`), or the first `limit` of them as a table or as JSON rows.
pub open spec fn selection_text(
    sel: Seq<JsonV>,
    title: Seq<char>,
    row: spec_fn(JsonV) -> JsonV,
    mode: OutputMode,
    limit: Option<usize>,
    s: Style,
) -> Seq<char> {
    let shown = limited(sel, limit);
    match mode {
        OutputMode::Compact => entity_list_text(sel, OutputMode::Compact, limit, s),
        OutputMode::Human => entity_table_spec(shown, title, s),
        OutputMode::Json => crate::json::pretty(
            JsonV::Array(Seq::new(shown.len(), |i: int| row(shown[i]))),
            0,
        ),
    }
}

fn row_json(e: &Json, last_changed: bool) -> (r: Json)
    ensures
        last_changed ==> r@ == list_row(e@),
        !last_changed ==> r@ == search_row(e@),
        depth(r@) <= depth(e@) + 1,
{
    let mut entries: Vec<(String, Json)> = Vec::new();
    assert(entry_views(entries@) =~= Seq::<(Seq<char>, JsonV)>::empty());
    let a = field_or_null(e, "entity_id");
    let b = attribute_or_null(e, "friendly_name");
    let ghost av = a@;
    let ghost bv = b@;
    push_entry(&mut entries, "entity_id", a);
    push_entry(&mut entries, "friendly_name", b);
    if last_changed {
        let c = field_or_null(e, "last_changed");
        let ghost cv = c@;
        push_entry(&mut entries, "last_changed", c);
        let d = field_or_null(e, "state");
        let ghost dv = d@;
        push_entry(&mut entries, "state", d);
        proof {
            assert(entry_views(entries@) =~= seq![
                ("entity_id"@, av),
                ("friendly_name"@, bv),
                ("last_changed"@, cv),
                ("state"@, dv),
            ]);
        }
    } else {
        let d = field_or_null(e, "state");
        let ghost dv = d@;
        push_entry(&mut entries, "state", d);
        proof {
            assert(entry_views(entries@) =~= seq![
                ("entity_id"@, av),
                ("friendly_name"@, bv),
                ("state"@, dv),
            ]);
        }
    }
    proof {
        crate::json::lemma_entry_views(entries@);
        crate::json::lemma_depth_entries_bound(entry_views(entries@), depth(e@));
    }
    Json::object(entries)
}

/// Renders a selection of entities.
fn render_selection(
    sel: Vec<Json>,
    title: &str,
    last_changed: bool,
    mode: OutputMode,
    limit: Option<usize>,
    style: &Style,
) -> (r: Result<String, AppError>)
    requires
        shallow(views(sel@), 999990),
    ensures
        r matches Ok(t) && t@ == selection_text(
            views(sel@),
            title@,
            if last_changed {
                |e: JsonV| list_row(e)
            } else {
                |e: JsonV| search_row(e)
            },
            mode,
            limit,
            *style,
        ),
{
    let ghost sv = views(sel@);
    proof {
        crate::json::lemma_views(sel@);
    }
    match mode {
        OutputMode::Compact => format_entity_list(sel.as_slice(), mode, limit, style),
        _ => {
            let ghost orig = sel@;
            let mut shown = sel;
            apply_limit(&mut shown, limit);
            proof {
                crate::json::lemma_views(shown@);
                assert(views(shown@) =~= limited(sv, limit));
                assert forall|k: int| 0 <= k < shown@.len() implies depth(#[trigger] shown@[k]@) < 999990 by {
                    assert(shown@[k] == orig[k]);
                    assert(sv[k] == orig[k]@);
                }
            }
            match mode {
                OutputMode::Human => Ok(entity_table(shown.as_slice(), title, style)),
                _ => {
                    let ghost shv = views(shown@);
                    let ghost row = if last_changed {
                        |e: JsonV| list_row(e)
                    } else {
                        |e: JsonV| search_row(e)
                    };
                    let mut rows: Vec<Json> = Vec::new();
                    let mut i: usize = 0;
                    while i < shown.len()
                        invariant
                            i <= shown@.len(),
                            shv == views(shown@),
                            shv.len() == shown@.len(),
                            forall|k: int| 0 <= k < shown@.len() ==> #[trigger] shv[k] == shown@[k]@,
                            forall|k: int| 0 <= k < shown@.len() ==> depth(#[trigger] shown@[k]@) < 999990,
                            row == (if last_changed {
                                |e: JsonV| list_row(e)
                            } else {
                                |e: JsonV| search_row(e)
                            }),
                            rows@.len() == i,
                            forall|k: int| 0 <= k < i ==> #[trigger] rows@[k]@ == row(shv[k]),
                            forall|k: int| 0 <= k < i ==> depth(#[trigger] rows@[k]@) < 999991,
                        decreases shown.len() - i,
                    {
                        proof {
                            assert(depth(shown@[i as int]@) < 999990);
                        }
                        rows.push(row_json(&shown[i], last_changed));
                        i = i + 1;
                    }
                    proof {
                        crate::json::lemma_views(rows@);
                        assert(views(rows@) =~= Seq::new(shv.len(), |i: int| row(shv[i])));
                        assert forall|k: int| 0 <= k < views(rows@).len() implies depth(#[trigger] views(rows@)[k]) <= 999991 by {
                            assert(views(rows@)[k] == rows@[k]@);
                        }
                        crate::json::lemma_depth_items_bound(views(rows@), 999991);
                    }
                    let doc = Json::array(rows);
                    format_output(&doc, OutputMode::Json)
                },
            }
        },
    }
}

/// Lists entities: of a domain, in a state, matching a pattern and a name
/// (each filter only when given; patterns ignore case), rendered in a mode
/// with at most `limit` entities. A pattern `safe_regex` refuses is the
/// error, the pattern's before the name's.
pub fn list(
    states: &[Json],
    domain: Option<&str>,
    pattern: Option<&str>,
    name: Option<&str>,
    state: Option<&str>,
    mode: OutputMode,
    limit: Option<usize>,
    style: &Style,
) -> (r: Result<String, AppError>)
    requires
        shallow(views(states@), 999990),
    ensures
        match pattern_error(pattern) {
            Some(e) => r matches Err(AppError::InvalidPattern(m)) && m@ == e,
            None => match pattern_error(name) {
                Some(e) => r matches Err(AppError::InvalidPattern(m)) && m@ == e,
                None => r matches Ok(t) && t@ == selection_text(
                    list_selection(
                        views(states@),
                        crate::auth::opt_str(domain),
                        crate::auth::opt_str(state),
                        pattern_source(pattern),
                        pattern_source(name),
                    ),
                    list_title(crate::auth::opt_str(domain)),
                    |e: JsonV| list_row(e),
                    mode,
                    limit,
                    *style,
                ),
            },
        },
{
    let pat = match pattern {
        Some(p) => match safe_regex(p, true) {
            Ok(re) => Some(re),
            Err(e) => return Err(e),
        },
        None => None,
    };
    let nam = match name {
        Some(n) => match safe_regex(n, true) {
            Ok(re) => Some(re),
            Err(e) => return Err(e),
        },
        None => None,
    };
    proof {
        crate::json::lemma_views(states@);
    }
    let mut sel: Vec<Json> = match domain {
        Some(d) => {
            let mut prefix = owned(d);
            push_str(&mut prefix, ".");
            select_prefix(states, prefix.as_str())
        },
        None => {
            let shown = crate::output::copy_prefix(states, states.len());
            proof {
                assert(views(states@).take(states@.len() as int) =~= views(states@));
            }
            shown
        },
    };
    let ghost a = views(sel@);
    proof {
        crate::json::lemma_views(sel@);
    }
    assert(forall|k: int| 0 <= k < sel@.len() ==> depth(#[trigger] sel@[k]@) < 999990) by {
        assert forall|k: int| 0 <= k < sel@.len() implies depth(#[trigger] sel@[k]@) < 999990 by {
            assert(views(sel@)[k] == sel@[k]@);
        }
    }
    match state {
        Some(st) => filter_by_state(&mut sel, st),
        None => {},
    }
    let sel = match &pat {
        Some(re) => filter_matching(sel, re),
        None => sel,
    };
    let sel = match &nam {
        Some(re) => filter_matching(sel, re),
        None => sel,
    };
    proof {
        crate::json::lemma_views(sel@);
        assert forall|k: int| 0 <= k < views(sel@).len() implies depth(#[trigger] views(sel@)[k]) < 999990 by {
            assert(views(sel@)[k] == sel@[k]@);
        }
    }
    let title = match domain {
        Some(d) => {
            let mut t = owned("Entities \u{2014} ");
            push_str(&mut t, d);
            t
        },
        None => owned("Entities"),
    };
    render_selection(sel, title.as_str(), true, mode, limit, style)
}

/// Searches entities whose id or friendly name the pattern matches
/// (ignoring case), rendered in a mode with at most `limit` of them. A
/// pattern `safe_regex` refuses is the error.
pub fn search(
    states: &[Json],
    pattern: &str,
    mode: OutputMode,
    limit: Option<usize>,
    style: &Style,
) -> (r: Result<String, AppError>)
    requires
        shallow(views(states@), 999990),
    ensures
        match safe_regex_outcome(pattern@, true) {
            Err(e) => r matches Err(AppError::InvalidPattern(m)) && m@ == e,
            Ok(src) => r matches Ok(t) && t@ == selection_text(
                matching_entities(views(states@), src),
                "Search \u{2014} "@ + pattern@,
                |e: JsonV| search_row(e),
                mode,
                limit,
                *style,
            ),
        },
{
    let re = match safe_regex(pattern, true) {
        Ok(re) => re,
        Err(e) => return Err(e),
    };
    proof {
        crate::json::lemma_views(states@);
    }
    let all = crate::output::copy_prefix(states, states.len());
    proof {
        assert(views(states@).take(states@.len() as int) =~= views(states@));
        crate::json::lemma_views(all@);
    }
    let sel = filter_matching(all, &re);
    proof {
        crate::json::lemma_views(sel@);
        assert forall|k: int| 0 <= k < views(sel@).len() implies depth(#[trigger] views(sel@)[k]) < 999990 by {
            assert(views(sel@)[k] == sel@[k]@);
            let j = choose|j: int| 0 <= j < all@.len() && sel@[k]@ == all@[j]@;
            assert(views(all@)[j] == all@[j]@);
        }
    }
    let mut title = owned("Search \u{2014} ");
    push_str(&mut title, pattern);
    render_selection(sel, title.as_str(), false, mode, limit, style)
}

/// The keys left out of an entity in compact mode.
pub open spec fn verbose_key(k: Seq<char>) -> bool {
    k == "context"@ || k == "last_reported"@ || k == "last_updated"@
}

/// Object entries without the verbose keys.
pub open spec fn without_verbose(o: Seq<(Seq<char>, JsonV)>) -> Seq<(Seq<char>, JsonV)>
    decreases o.len(),
{
    if o.len() == 0 {
        Seq::empty()
    } else {
        let prev = without_verbose(o.drop_last());
        if verbose_key(o.last().0) {
            prev
        } else {
            prev.push(o.last())
        }
    }
}

/// The state of one entity in a mode; in compact mode an object loses its
/// `context`, `last_reported` and `last_updated` entries.
pub open spec fn entity_text(state: JsonV, mode: OutputMode) -> Seq<char> {
    match (mode, state) {
        (OutputMode::Compact, JsonV::Object(o)) => rendered(JsonV::Object(without_verbose(o)), mode),
        _ => rendered(state, mode),
    }
}

/// Renders the state of one entity.
pub fn get(state: Json, mode: OutputMode) -> (r: Result<String, AppError>)
    requires
        depth(state@) < 999990,
    ensures
        r matches Ok(t) && t@ == entity_text(state@, mode),
{
    match (mode, state) {
        (OutputMode::Compact, Json::Object(entries)) => {
            let ghost ev = entry_views(entries@);
            proof {
                crate::json::lemma_entry_views(entries@);
            }
            let mut kept: Vec<(String, Json)> = Vec::new();
            let mut i: usize = 0;
            while i < entries.len()
                invariant
                    i <= entries@.len(),
                    ev == entry_views(entries@),
                    ev.len() == entries@.len(),
                    forall|k: int| 0 <= k < entries@.len() ==> #[trigger] ev[k] == (entries@[k].0@, entries@[k].1@),
                    entry_views(kept@) == without_verbose(ev.take(i as int)),
                    forall|k: int| 0 <= k < entry_views(kept@).len() ==> exists|j: int| 0 <= j < ev.len() && #[trigger] entry_views(kept@)[k].1 == ev[j].1,
                decreases entries.len() - i,
            {
                proof {
                    assert(ev.take(i + 1).drop_last() =~= ev.take(i as int));
                    assert(ev.take(i + 1).last() == ev[i as int]);
                }
                let k = entries[i].0.as_str();
                if !(str_eq(k, "context") || str_eq(k, "last_reported") || str_eq(k, "last_updated")) {
                    let ghost before = entry_views(kept@);
                    crate::json::push_entry(&mut kept, k, entries[i].1.deep_copy());
                    proof {
                        assert forall|m: int| 0 <= m < entry_views(kept@).len() implies exists|j: int| 0 <= j < ev.len() && #[trigger] entry_views(kept@)[m].1 == ev[j].1 by {
                            if m < before.len() {
                                assert(entry_views(kept@)[m] == before[m]);
                            } else {
                                assert(entry_views(kept@)[m].1 == ev[i as int].1);
                            }
                        }
                    }
                }
                i = i + 1;
            }
            proof {
                assert(ev.take(entries@.len() as int) =~= ev);
                assert forall|k: int| 0 <= k < entry_views(kept@).len() implies depth(#[trigger] entry_views(kept@)[k].1) <= 999990 by {
                    let j = choose|j: int| 0 <= j < ev.len() && entry_views(kept@)[k].1 == ev[j].1;
                    lemma_entry_depth(ev, j);
                }
                crate::json::lemma_depth_entries_bound(entry_views(kept@), 999990);
            }
            let doc = Json::object(kept);
            format_output(&doc, mode)
        },
        (m, st) => format_output(&st, m),
    }
}

proof fn lemma_entry_depth(o: Seq<(Seq<char>, JsonV)>, j: int)
    requires
        0 <= j < o.len(),
    ensures
        depth(o[j].1) < depth(JsonV::Object(o)),
{
    crate::json::lemma_depth_entries_le(o, j);
}

/// The entities an expression matches are the input's entities that it
/// matches, in order.
proof fn lemma_matching_entities_is_filter(es: Seq<JsonV>, source: Seq<char>)
    ensures
        matching_entities(es, source) == es.filter(|e: JsonV| entity_matches(source, e)),
    decreases es.len(),
{
    reveal_with_fuel(Seq::filter, 1);
    if es.len() > 0 {
        lemma_matching_entities_is_filter(es.drop_last(), source);
    }
}

/// The name filter of a listing keeps exactly the entities, among those
/// the other filters let through, whose id or friendly name the name
/// expression matches.
pub proof fn name_filter_keeps_matching_entities(
    es: Seq<JsonV>,
    domain: Option<Seq<char>>,
    state: Option<Seq<char>>,
    pattern: Option<Seq<char>>,
    n: Seq<char>,
)
    ensures
        ({
            let others = list_selection(es, domain, state, pattern, None);
            let sel = list_selection(es, domain, state, pattern, Some(n));
            let named = |e: JsonV|
                regex_matches(n, str_or(e, "entity_id"@, ""@)) || regex_matches(
                    n,
                    match friendly_name(e) {
                        Some(JsonV::Str(t)) => t,
                        _ => ""@,
                    },
                );
            &&& forall|e: JsonV| #[trigger] sel.contains(e) ==> others.contains(e) && named(e)
            &&& forall|e: JsonV| #[trigger] others.contains(e) && named(e) ==> sel.contains(e)
        }),
{
    let others = list_selection(es, domain, state, pattern, None);
    let sel = list_selection(es, domain, state, pattern, Some(n));
    let pred = |e: JsonV| entity_matches(n, e);
    let named = |e: JsonV|
        regex_matches(n, str_or(e, "entity_id"@, ""@)) || regex_matches(
            n,
            match friendly_name(e) {
                Some(JsonV::Str(t)) => t,
                _ => ""@,
            },
        );
    lemma_matching_entities_is_filter(others, n);
    assert(sel == others.filter(pred));
    assert forall|e: JsonV| #[trigger] pred(e) == named(e) by {
        reveal_strlit("");
    }
    assert forall|e: JsonV| #[trigger] sel.contains(e) implies others.contains(e) && named(e) by {
        others.lemma_filter_contains_rev(pred, e);
        let j = choose|j: int| 0 <= j < sel.len() && sel[j] == e;
        others.lemma_filter_pred(pred, j);
    }
    assert forall|e: JsonV| #[trigger] others.contains(e) && named(e) implies sel.contains(e) by {
        let i = choose|i: int| 0 <= i < others.len() && others[i] == e;
        others.lemma_filter_contains(pred, i);
    }
}

} // verus!
