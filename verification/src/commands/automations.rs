//! Automations and scripts: listing, triggering, running.
use vstd::prelude::*;
use crate::commands::entities::{attribute, attribute_or_null, field_or_null, or_null, select_prefix, with_prefix};
use crate::error::AppError;
use crate::json::{depth, entry_views, jget, push_entry, views, Json, JsonV};
use crate::output::{entity_list_text, format_entity_list, format_output, rendered, shallow, OutputMode};
use crate::text::{chars_of, has_prefix, owned, push_str, starts_with};
use crate::ui::Style;

verus! {

/// The row of an automation: id, friendly name, when last triggered,
/// state (each null when missing).
pub open spec fn automation_row(e: JsonV) -> JsonV {
    JsonV::Object(
        seq![
            ("entity_id"@, or_null(jget(e, "entity_id"@))),
            ("friendly_name"@, attribute(e, "friendly_name"@)),
            ("last_triggered"@, attribute(e, "last_triggered"@)),
            ("state"@, or_null(jget(e, "state"@))),
        ],
    )
}

/// The row of a script: id, friendly name, state.
pub open spec fn script_row(e: JsonV) -> JsonV {
    JsonV::Object(
        seq![
            ("entity_id"@, or_null(jget(e, "entity_id"@))),
            ("friendly_name"@, attribute(e, "friendly_name"@)),
            ("state"@, or_null(jget(e, "state"@))),
        ],
    )
}

/// The listing of the entities with an id prefix: the compact entity list
/// (capped at `limit`), or all of them as JSON rows in the other modes.
pub open spec fn prefix_listing(
    states: Seq<JsonV>,
    prefix: Seq<char>,
    row: spec_fn(JsonV) -> JsonV,
    mode: OutputMode,
    limit: Option<usize>,
    s: Style,
) -> Seq<char> {
    let sel = with_prefix(states, prefix);
    match mode {
        OutputMode::Compact => entity_list_text(sel, OutputMode::Compact, limit, s),
        _ => rendered(JsonV::Array(Seq::new(sel.len(), |i: int| row(sel[i]))), mode),
    }
}

fn row_of(e: &Json, automation: bool) -> (r: Json)
    ensures
        automation ==> r@ == automation_row(e@),
        !automation ==> r@ == script_row(e@),
        depth(r@) <= depth(e@) + 1,
{
    let mut entries: Vec<(String, Json)> = Vec::new();
    assert(entry_views(entries@) =~= Seq::<(Seq<char>, JsonV)>::empty());
    let a = field_or_null(e, "entity_id");
    let b = attribute_or_null(e, "friendly_name");
    let ghost av = a@;
    let ghost bv = b@;
    push_entry(&mut entries, "entity_id", a);
    push_entry(&mut entries, "friendly_name", b);
    if automation {
        let c = attribute_or_null(e, "last_triggered");
        let ghost cv = c@;
        push_entry(&mut entries, "last_triggered", c);
        let d = field_or_null(e, "state");
        let ghost dv = d@;
        push_entry(&mut entries, "state", d);
        proof {
            assert(entry_views(entries@) =~= seq![
                ("entity_id"@, av),
                ("friendly_name"@, bv),
                ("last_triggered"@, cv),
                ("state"@, dv),
            ]);
        }
    } else {
        let d = field_or_null(e, "state");
        let ghost dv = d@;
        push_entry(&mut entries, "state", d);
        proof {
            assert(entry_views(entries@) =~= seq![
                ("entity_id"@, av),
                ("friendly_name"@, bv),
                ("state"@, dv),
            ]);
        }
    }
    proof {
        crate::json::lemma_entry_views(entries@);
        crate::json::lemma_depth_entries_bound(entry_views(entries@), depth(e@));
    }
    Json::object(entries)
}

fn listing(states: &[Json], prefix: &str, automation: bool, mode: OutputMode, limit: Option<usize>, style: &Style) -> (r: Result<String, AppError>)
    requires
        shallow(views(states@), 999990),
    ensures
        r matches Ok(t) && t@ == prefix_listing(
            views(states@),
            prefix@,
            if automation {
                |e: JsonV| automation_row(e)
            } else {
                |e: JsonV| script_row(e)
            },
            mode,
            limit,
            *style,
        ),
{
    let sel = select_prefix(states, prefix);
    let ghost sv = views(sel@);
    proof {
        crate::json::lemma_views(sel@);
    }
    match mode {
        OutputMode::Compact => format_entity_list(sel.as_slice(), mode, limit, style),
        _ => {
            let ghost row = if automation {
                |e: JsonV| automation_row(e)
            } else {
                |e: JsonV| script_row(e)
            };
            let mut rows: Vec<Json> = Vec::new();
            let mut i: usize = 0;
            while i < sel.len()
                invariant
                    i <= sel@.len(),
                    sv == views(sel@),
                    sv.len() == sel@.len(),
                    forall|k: int| 0 <= k < sel@.len() ==> #[trigger] sv[k] == sel@[k]@,
                    shallow(sv, 999990),
                    row == (if automation {
                        |e: JsonV| automation_row(e)
                    } else {
                        |e: JsonV| script_row(e)
                    }),
                    rows@.len() == i,
                    forall|k: int| 0 <= k < i ==> #[trigger] rows@[k]@ == row(sv[k]),
                    forall|k: int| 0 <= k < i ==> depth(#[trigger] rows@[k]@) < 999991,
                decreases sel.len() - i,
            {
                proof {
                    assert(depth(sv[i as int]) < 999990);
                }
                rows.push(row_of(&sel[i], automation));
                i = i + 1;
            }
            proof {
                crate::json::lemma_views(rows@);
                assert(views(rows@) =~= Seq::new(sv.len(), |i: int| row(sv[i])));
                assert forall|k: int| 0 <= k < views(rows@).len() implies depth(#[trigger] views(rows@)[k]) <= 999991 by {
                    assert(views(rows@)[k] == rows@[k]@);
                }
                crate::json::lemma_depth_items_bound(views(rows@), 999991);
            }
            let doc = Json::array(rows);
            format_output(&doc, mode)
        },
    }
}

/// Lists the automations.
pub fn list(states: &[Json], mode: OutputMode, limit: Option<usize>, style: &Style) -> (r: Result<String, AppError>)
    requires
        shallow(views(states@), 999990),
    ensures
        r matches Ok(t) && t@ == prefix_listing(
            views(states@),
            "automation."@,
            |e: JsonV| automation_row(e),
            mode,
            limit,
            *style,
        ),
{
    listing(states, "automation.", true, mode, limit, style)
}

/// Lists the scripts.
pub fn scripts_list(states: &[Json], mode: OutputMode, limit: Option<usize>, style: &Style) -> (r: Result<String, AppError>)
    requires
        shallow(views(states@), 999990),
    ensures
        r matches Ok(t) && t@ == prefix_listing(
            views(states@),
            "script."@,
            |e: JsonV| script_row(e),
            mode,
            limit,
            *style,
        ),
{
    listing(states, "script.", false, mode, limit, style)
}

/// The data of the service call that triggers an automation.
pub fn trigger_data(entity_id: &str) -> (r: Json)
    ensures
        r@ == JsonV::Object(seq![("entity_id"@, JsonV::Str(entity_id@))]),
{
    let mut e: Vec<(String, Json)> = Vec::new();
    assert(entry_views(e@) =~= Seq::<(Seq<char>, JsonV)>::empty());
    push_entry(&mut e, "entity_id", Json::string(entity_id));
    assert(entry_views(e@) =~= seq![("entity_id"@, JsonV::Str(entity_id@))]);
    Json::object(e)
}

/// The report of a triggered automation.
pub fn trigger(entity_id: &str, mode: OutputMode) -> (r: Result<String, AppError>)
    ensures
        r matches Ok(t) && t@ == rendered(
            JsonV::Object(seq![("success"@, JsonV::Bool(true)), ("triggered"@, JsonV::Str(entity_id@))]),
            mode,
        ),
{
    let mut e: Vec<(String, Json)> = Vec::new();
    assert(entry_views(e@) =~= Seq::<(Seq<char>, JsonV)>::empty());
    push_entry(&mut e, "success", Json::Bool(true));
    push_entry(&mut e, "triggered", Json::string(entity_id));
    proof {
        assert(entry_views(e@) =~= seq![("success"@, JsonV::Bool(true)), ("triggered"@, JsonV::Str(entity_id@))]);
        crate::json::lemma_entry_views(e@);
        crate::json::lemma_depth_entries_bound(entry_views(e@), 0);
    }
    format_output(&Json::object(e), mode)
}

/// The name of a script entity: what follows `script.`, which must not be
/// empty.
pub open spec fn script_name(entity_id: Seq<char>) -> Option<Seq<char>> {
    if has_prefix(entity_id, "script."@) && entity_id.len() > 7 {
        Some(entity_id.skip(7))
    } else {
        None
    }
}

/// The script name of an entity id, or the error for an id that is not
/// `script.<name>`.
pub fn validate_script_id(entity_id: &str) -> (r: Result<&str, AppError>)
    ensures
        match script_name(entity_id@) {
            Some(n) => r matches Ok(s) && s@ == n,
            None => r matches Err(AppError::Other(m)) && m@ == "Invalid script entity ID: \""@
                + entity_id@ + "\". Expected format: script.<name>"@,
        },
{
    proof {
        reveal_strlit("script.");
    }
    let cs = chars_of(entity_id);
    if starts_with(cs.as_slice(), chars_of("script.").as_slice()) && cs.len() > 7 {
        let n = entity_id.substring_char(7, cs.len());
        assert(n@ =~= entity_id@.skip(7));
        Ok(n)
    } else {
        let mut m = owned("Invalid script entity ID: \"");
        push_str(&mut m, entity_id);
        push_str(&mut m, "\". Expected format: script.<name>");
        Err(AppError::Other(m))
    }
}

/// The report of a script that was run.
pub fn scripts_run(entity_id: &str, mode: OutputMode) -> (r: Result<String, AppError>)
    ensures
        r matches Ok(t) && t@ == rendered(
            JsonV::Object(seq![("ran"@, JsonV::Str(entity_id@)), ("success"@, JsonV::Bool(true))]),
            mode,
        ),
{
    let mut e: Vec<(String, Json)> = Vec::new();
    assert(entry_views(e@) =~= Seq::<(Seq<char>, JsonV)>::empty());
    push_entry(&mut e, "ran", Json::string(entity_id));
    push_entry(&mut e, "success", Json::Bool(true));
    proof {
        assert(entry_views(e@) =~= seq![("ran"@, JsonV::Str(entity_id@)), ("success"@, JsonV::Bool(true))]);
        crate::json::lemma_entry_views(e@);
        crate::json::lemma_depth_entries_bound(entry_views(e@), 0);
    }
    format_output(&Json::object(e), mode)
}

/// A script id is `script.` followed by the name it yields, which is never
/// empty; and `script.` followed by any non-empty name yields that name.
pub proof fn script_id_rejoins(entity_id: Seq<char>, name: Seq<char>)
    ensures
        script_name(entity_id) matches Some(n) ==> "script."@ + n == entity_id && n.len() > 0,
        name.len() > 0 ==> script_name("script."@ + name) == Some(name),
{
    reveal_strlit("script.");
    if let Some(n) = script_name(entity_id) {
        assert(entity_id.subrange(0, 7) + entity_id.skip(7) =~= entity_id);
    }
    if name.len() > 0 {
        let id = "script."@ + name;
        assert(id.subrange(0, 7) =~= "script."@);
        assert(id.skip(7) =~= name);
    }
}

} // verus!
