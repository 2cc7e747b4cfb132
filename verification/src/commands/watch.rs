//! Watching an entity until its state changes, reaches a target, or the
//! time runs out. The caller polls; these functions decide after each
//! reading what the watch answers.
use vstd::prelude::*;
use crate::error::AppError;
use crate::json::{depth, entry_views, push_entry, str_or, Json, JsonV};
use crate::output::{format_output, rendered, OutputMode};
use crate::text::{owned, str_eq};

verus! {

/// The state of an entity as read (empty when it has none).
pub open spec fn read_state(e: JsonV) -> Seq<char> {
    str_or(e, "state"@, ""@)
}

/// The state of an entity as read.
pub fn state_text(e: &Json) -> (r: String)
    ensures
        r@ == read_state(e@),
{
    owned(e.str_or("state", ""))
}

/// The report when the target was met at once.
pub open spec fn matched_at_start(entity_id: Seq<char>, state: Seq<char>) -> JsonV {
    JsonV::Object(
        seq![
            ("elapsed_secs"@, JsonV::PosInt(0)),
            ("entity_id"@, JsonV::Str(entity_id)),
            ("matched"@, JsonV::Bool(true)),
            ("state"@, JsonV::Str(state)),
        ],
    )
}

/// The report when the time ran out.
pub open spec fn timed_out(entity_id: Seq<char>, initial: Seq<char>, elapsed: u64) -> JsonV {
    JsonV::Object(
        seq![
            ("changed"@, JsonV::Bool(false)),
            ("elapsed_secs"@, JsonV::PosInt(elapsed)),
            ("entity_id"@, JsonV::Str(entity_id)),
            ("state"@, JsonV::Str(initial)),
            ("timeout"@, JsonV::Bool(true)),
        ],
    )
}

/// The report when a reading decides the watch: the target reached, or,
/// without a target, any change; none while the watch goes on.
pub open spec fn reading_outcome(
    entity_id: Seq<char>,
    initial: Seq<char>,
    target: Option<Seq<char>>,
    current: Seq<char>,
    elapsed: u64,
) -> Option<JsonV> {
    match target {
        Some(t) => if current == t {
            Some(
                JsonV::Object(
                    seq![
                        ("elapsed_secs"@, JsonV::PosInt(elapsed)),
                        ("entity_id"@, JsonV::Str(entity_id)),
                        ("matched"@, JsonV::Bool(true)),
                        ("old_state"@, JsonV::Str(initial)),
                        ("state"@, JsonV::Str(current)),
                    ],
                ),
            )
        } else {
            None
        },
        None => if current != initial {
            Some(
                JsonV::Object(
                    seq![
                        ("changed"@, JsonV::Bool(true)),
                        ("elapsed_secs"@, JsonV::PosInt(elapsed)),
                        ("entity_id"@, JsonV::Str(entity_id)),
                        ("old_state"@, JsonV::Str(initial)),
                        ("state"@, JsonV::Str(current)),
                    ],
                ),
            )
        } else {
            None
        },
    }
}

/// Before the first wait: the report when the initial state already is
/// the target, else none.
pub fn watch_start(entity_id: &str, initial: &str, target: Option<&str>, mode: OutputMode) -> (r: Option<Result<String, AppError>>)
    ensures
        match target {
            Some(t) => if initial@ == t@ {
                r matches Some(Ok(s)) && s@ == rendered(matched_at_start(entity_id@, initial@), mode)
            } else {
                r is None
            },
            None => r is None,
        },
{
    match target {
        Some(t) => {
            if str_eq(initial, t) {
                let mut e: Vec<(String, Json)> = Vec::new();
                assert(entry_views(e@) =~= Seq::<(Seq<char>, JsonV)>::empty());
                push_entry(&mut e, "elapsed_secs", Json::PosInt(0));
                push_entry(&mut e, "entity_id", Json::string(entity_id));
                push_entry(&mut e, "matched", Json::Bool(true));
                push_entry(&mut e, "state", Json::string(initial));
                proof {
                    assert(entry_views(e@) =~= matched_at_start(entity_id@, initial@)->Object_0);
                    crate::json::lemma_entry_views(e@);
                    crate::json::lemma_depth_entries_bound(entry_views(e@), 0);
                }
                let doc = Json::object(e);
                Some(format_output(&doc, mode))
            } else {
                None
            }
        },
        None => None,
    }
}

/// The report when the time ran out after `elapsed` seconds.
pub fn watch_timeout(entity_id: &str, initial: &str, elapsed: u64, mode: OutputMode) -> (r: Result<String, AppError>)
    ensures
        r matches Ok(s) && s@ == rendered(timed_out(entity_id@, initial@, elapsed), mode),
{
    let mut e: Vec<(String, Json)> = Vec::new();
    assert(entry_views(e@) =~= Seq::<(Seq<char>, JsonV)>::empty());
    push_entry(&mut e, "changed", Json::Bool(false));
    push_entry(&mut e, "elapsed_secs", Json::PosInt(elapsed));
    push_entry(&mut e, "entity_id", Json::string(entity_id));
    push_entry(&mut e, "state", Json::string(initial));
    push_entry(&mut e, "timeout", Json::Bool(true));
    proof {
        assert(entry_views(e@) =~= timed_out(entity_id@, initial@, elapsed)->Object_0);
        crate::json::lemma_entry_views(e@);
        crate::json::lemma_depth_entries_bound(entry_views(e@), 0);
    }
    let doc = Json::object(e);
    format_output(&doc, mode)
}

/// Whether a wait of `secs` seconds and `nanos` nanoseconds is longer than
/// a timeout of whole seconds.
pub open spec fn past_timeout(secs: u64, nanos: u32, timeout_secs: u32) -> bool {
    secs > timeout_secs || (secs == timeout_secs && nanos > 0)
}

/// After a wait, given the time since the watch started (`secs` seconds
/// and `nanos` nanoseconds): the timeout report when that is longer than
/// the timeout, else none and the watch goes on.
pub fn watch_deadline(
    entity_id: &str,
    initial: &str,
    secs: u64,
    nanos: u32,
    timeout_secs: u32,
    mode: OutputMode,
) -> (r: Option<Result<String, AppError>>)
    requires
        nanos < 1_000_000_000,
    ensures
        past_timeout(secs, nanos, timeout_secs) ==> (r matches Some(Ok(t)) && t@ == rendered(
            timed_out(entity_id@, initial@, secs),
            mode,
        )),
        !past_timeout(secs, nanos, timeout_secs) ==> r is None,
{
    let timeout = timeout_secs as u64;
    if secs > timeout || (secs == timeout && nanos > 0) {
        Some(watch_timeout(entity_id, initial, secs, mode))
    } else {
        None
    }
}

/// After a reading: the report when it decides the watch, else none.
pub fn watch_reading(
    entity_id: &str,
    initial: &str,
    target: Option<&str>,
    current: &str,
    elapsed: u64,
    mode: OutputMode,
) -> (r: Option<Result<String, AppError>>)
    ensures
        match reading_outcome(entity_id@, initial@, crate::auth::opt_str(target), current@, elapsed) {
            Some(doc) => r matches Some(Ok(s)) && s@ == rendered(doc, mode),
            None => r is None,
        },
{
    let mut e: Vec<(String, Json)> = Vec::new();
    assert(entry_views(e@) =~= Seq::<(Seq<char>, JsonV)>::empty());
    match target {
        Some(t) => {
            if !str_eq(current, t) {
                return None;
            }
            push_entry(&mut e, "elapsed_secs", Json::PosInt(elapsed));
            push_entry(&mut e, "entity_id", Json::string(entity_id));
            push_entry(&mut e, "matched", Json::Bool(true));
            push_entry(&mut e, "old_state", Json::string(initial));
            push_entry(&mut e, "state", Json::string(current));
        },
        None => {
            if str_eq(current, initial) {
                return None;
            }
            push_entry(&mut e, "changed", Json::Bool(true));
            push_entry(&mut e, "elapsed_secs", Json::PosInt(elapsed));
            push_entry(&mut e, "entity_id", Json::string(entity_id));
            push_entry(&mut e, "old_state", Json::string(initial));
            push_entry(&mut e, "state", Json::string(current));
        },
    }
    proof {
        assert(entry_views(e@) =~= reading_outcome(
            entity_id@,
            initial@,
            crate::auth::opt_str(target),
            current@,
            elapsed,
        )->0->Object_0);
        crate::json::lemma_entry_views(e@);
        crate::json::lemma_depth_entries_bound(entry_views(e@), 0);
    }
    let doc = Json::object(e);
    Some(format_output(&doc, mode))
}

} // verus!
