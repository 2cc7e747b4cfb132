//! Rendering templates.
use vstd::prelude::*;
use crate::error::AppError;
use crate::json::{depth, entry_views, push_entry, Json, JsonV};
use crate::output::{format_output, rendered, OutputMode};

verus! {

/// The report of a rendered template: the text it rendered to and the
/// template itself.
pub fn render(template: &str, result: &str, mode: OutputMode) -> (r: Result<String, AppError>)
    ensures
        r matches Ok(t) && t@ == rendered(
            JsonV::Object(
                seq![("result"@, JsonV::Str(result@)), ("template"@, JsonV::Str(template@))],
            ),
            mode,
        ),
{
    let mut e: Vec<(String, Json)> = Vec::new();
    assert(entry_views(e@) =~= Seq::<(Seq<char>, JsonV)>::empty());
    push_entry(&mut e, "result", Json::string(result));
    push_entry(&mut e, "template", Json::string(template));
    proof {
        assert(entry_views(e@) =~= seq![
            ("result"@, JsonV::Str(result@)),
            ("template"@, JsonV::Str(template@)),
        ]);
        crate::json::lemma_entry_views(e@);
        crate::json::lemma_depth_entries_bound(entry_views(e@), 0);
    }
    format_output(&Json::object(e), mode)
}

} // verus!
