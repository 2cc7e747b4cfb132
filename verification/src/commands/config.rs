//! Configuration: the result of a check, and which parts a reload covers.
use vstd::prelude::*;
use crate::error::AppError;
use crate::json::{depth, entry_views, push_entry, Json, JsonV};
use crate::output::{format_output, rendered, OutputMode};
use crate::text::{owned, str_eq, string_views};
use crate::validation::{reload_target, validate_reload_component};

verus! {

/// Renders the answer of the configuration check.
pub fn check(result: &Json, mode: OutputMode) -> (r: Result<String, AppError>)
    requires
        depth(result@) < 1000000,
    ensures
        r matches Ok(t) && t@ == rendered(result@, mode),
{
    format_output(result, mode)
}

/// The services a reload calls, in order, each with the name it is reported
/// by: automations, scripts and scenes, or all three.
pub open spec fn reload_steps(target: Seq<char>) -> Seq<(Seq<char>, Seq<char>)> {
    let a = if target == "automations"@ || target == "all"@ {
        seq![("automation"@, "automations"@)]
    } else {
        Seq::empty()
    };
    let b = if target == "scripts"@ || target == "all"@ {
        seq![("script"@, "scripts"@)]
    } else {
        Seq::empty()
    };
    let c = if target == "scenes"@ || target == "all"@ {
        seq![("scene"@, "scenes"@)]
    } else {
        Seq::empty()
    };
    a + b + c
}

/// The model of a reload plan.
pub open spec fn steps_view(v: Seq<(String, String)>) -> Seq<(Seq<char>, Seq<char>)> {
    v.map_values(|p: (String, String)| (p.0@, p.1@))
}

/// The reload plan for a component (all when none is given): the domain of
/// each `reload` service to call and the name it is reported by. An unknown
/// component is the error.
pub fn reload_plan(component: Option<&str>) -> (r: Result<Vec<(String, String)>, AppError>)
    ensures
        ({
            let target = match component {
                Some(c) => c@,
                None => "all"@,
            };
            match r {
                Ok(steps) => reload_target(target) && steps_view(steps@) == reload_steps(target),
                Err(AppError::InvalidReloadComponent { input }) => !reload_target(target) && input@
                    == target,
                _ => false,
            }
        }),
{
    let target = validate_reload_component(component)?;
    let mut steps: Vec<(String, String)> = Vec::new();
    let all = str_eq(target, "all");
    if str_eq(target, "automations") || all {
        steps.push((owned("automation"), owned("automations")));
    }
    let ghost a = steps_view(steps@);
    if str_eq(target, "scripts") || all {
        steps.push((owned("script"), owned("scripts")));
    }
    let ghost b = steps_view(steps@);
    if str_eq(target, "scenes") || all {
        steps.push((owned("scene"), owned("scenes")));
    }
    assert(steps_view(steps@) =~= reload_steps(target@));
    Ok(steps)
}

/// The report of a reload: the parts reloaded, in order.
pub fn reload_report(reloaded: &Vec<String>, mode: OutputMode) -> (r: Result<String, AppError>)
    ensures
        r matches Ok(t) && t@ == rendered(
            JsonV::Object(
                seq![
                    ("reloaded"@, JsonV::Array(Seq::new(reloaded@.len(), |i: int| JsonV::Str(reloaded@[i]@)))),
                    ("success"@, JsonV::Bool(true)),
                ],
            ),
            mode,
        ),
{
    let list = Json::strings(reloaded);
    proof {
        let items = Seq::new(reloaded@.len(), |i: int| JsonV::Str(reloaded@[i]@));
        assert forall|k: int| 0 <= k < items.len() implies depth(#[trigger] items[k]) <= 0 by {}
        crate::json::lemma_depth_items_bound(items, 0);
    }
    let ghost lv = list@;
    let mut e: Vec<(String, Json)> = Vec::new();
    assert(entry_views(e@) =~= Seq::<(Seq<char>, JsonV)>::empty());
    push_entry(&mut e, "reloaded", list);
    push_entry(&mut e, "success", Json::Bool(true));
    proof {
        assert(entry_views(e@) =~= seq![("reloaded"@, lv), ("success"@, JsonV::Bool(true))]);
        crate::json::lemma_entry_views(e@);
        crate::json::lemma_depth_entries_bound(entry_views(e@), 1);
    }
    format_output(&Json::object(e), mode)
}

} // verus!
