//! Firing events.
use vstd::prelude::*;
use crate::error::AppError;
use crate::json::{depth, entry_views, push_entry, Json, JsonV};
use crate::output::{format_output, rendered, OutputMode};

verus! {

/// The report of a fired event: its type, the answer, and success.
pub fn fire(event_type: &str, result: Json, mode: OutputMode) -> (r: Result<String, AppError>)
    requires
        depth(result@) < 999990,
    ensures
        r matches Ok(t) && t@ == rendered(
            JsonV::Object(
                seq![
                    ("event_type"@, JsonV::Str(event_type@)),
                    ("result"@, result@),
                    ("success"@, JsonV::Bool(true)),
                ],
            ),
            mode,
        ),
{
    let ghost rv = result@;
    let mut e: Vec<(String, Json)> = Vec::new();
    assert(entry_views(e@) =~= Seq::<(Seq<char>, JsonV)>::empty());
    push_entry(&mut e, "event_type", Json::string(event_type));
    push_entry(&mut e, "result", result);
    push_entry(&mut e, "success", Json::Bool(true));
    proof {
        assert(entry_views(e@) =~= seq![
            ("event_type"@, JsonV::Str(event_type@)),
            ("result"@, rv),
            ("success"@, JsonV::Bool(true)),
        ]);
        crate::json::lemma_entry_views(e@);
        crate::json::lemma_depth_entries_bound(entry_views(e@), 999990);
    }
    format_output(&Json::object(e), mode)
}

} // verus!
