//! The entities whose state changed within the last hours.
use vstd::prelude::*;
use crate::client::{chrono_offset_public, period_outcome, period_start, text_outcome, timestamp_text};
use crate::error::AppError;
use crate::json::{depth, entry_views, jget_str, push_entry, str_or, text_lt, views, Json, JsonV};
use crate::output::{format_output, rendered, OutputMode};
use crate::text::{has_prefix, join, owned, push_str, string_views};

verus! {

/// Whether the time stamp `timestamp` is at or after `cutoff`: ISO 8601
/// stamps sort as text.
pub fn at_or_after(timestamp: &str, cutoff: &str) -> (r: bool)
    ensures
        r == !text_lt(timestamp@, cutoff@),
{
    !crate::json::str_lt(timestamp, cutoff)
}

/// Whether a time stamp lies within a period, given what the clock gave for
/// the period's start: at or after the start, never when there is none.
pub open spec fn within_outcome(timestamp: Seq<char>, start: Result<Seq<char>, Seq<char>>) -> bool {
    match start {
        Ok(c) => !text_lt(timestamp, c),
        Err(_) => false,
    }
}

/// Whether `timestamp` lies within a period whose start the clock gave as
/// `cutoff`: at or after the start, never when the clock gave none.
pub fn within_period(timestamp: &str, cutoff: &Result<String, AppError>) -> (r: bool)
    ensures
        r == within_outcome(timestamp@, text_outcome(*cutoff)),
{
    match cutoff {
        Ok(c) => at_or_after(timestamp, c.as_str()),
        Err(_) => false,
    }
}

/// Whether `timestamp` lies within the last `hours` hours by the clock: at
/// or after the start of that period. When the clock gives no start, no
/// time stamp does.
pub fn is_within_hours(timestamp: &str, hours: u32) -> (r: bool)
    ensures
        exists|now: Option<u64>| r == within_outcome(timestamp@, #[trigger] period_outcome(now, hours)),
{
    let cutoff = chrono_offset_public(hours);
    within_period(timestamp, &cutoff)
}

/// For one clock reading, a time stamp lies within the last `hours` hours
/// exactly when it sorts at or after the start of the period; when the
/// reading is before the epoch, or less than `hours` hours after it, no
/// time stamp does.
pub proof fn within_hours_for_a_reading(timestamp: Seq<char>, hours: u32, now: u64)
    ensures
        hours * 3600 <= now ==> within_outcome(timestamp, period_outcome(Some(now), hours)) == !text_lt(
            timestamp,
            period_start(now, hours),
        ),
        now < hours * 3600 ==> !within_outcome(timestamp, period_outcome(Some(now), hours)),
        !within_outcome(timestamp, period_outcome(None, hours)),
{
}

/// An entity that the domain filter lets through: any, or those whose id
/// starts with `<domain>.`.
pub open spec fn in_domain(id: Seq<char>, domain: Option<Seq<char>>) -> bool {
    match domain {
        Some(d) => has_prefix(id, d + "."@),
        None => true,
    }
}

/// The record of a changed entity: its id, when it changed, its state
/// (`unknown` when it has none).
pub open spec fn changed_record(e: JsonV) -> JsonV {
    JsonV::Object(
        seq![
            ("entity_id"@, JsonV::Str(str_or(e, "entity_id"@, ""@))),
            ("last_changed"@, JsonV::Str(str_or(e, "last_changed"@, ""@))),
            ("state"@, JsonV::Str(str_or(e, "state"@, "unknown"@))),
        ],
    )
}

/// The entities with an id, in the domain, and a non-empty `last_changed`
/// at or after `cutoff`, in order.
pub open spec fn changed_since(states: Seq<JsonV>, domain: Option<Seq<char>>, cutoff: Seq<char>) -> Seq<JsonV>
    decreases states.len(),
{
    if states.len() == 0 {
        Seq::empty()
    } else {
        let prev = changed_since(states.drop_last(), domain, cutoff);
        let e = states.last();
        match jget_str(e, "entity_id"@) {
            Some(id) => {
                let lc = str_or(e, "last_changed"@, ""@);
                if in_domain(id, domain) && lc.len() > 0 && !text_lt(lc, cutoff) {
                    prev.push(changed_record(e))
                } else {
                    prev
                }
            },
            None => prev,
        }
    }
}

/// The compact line of a changed entity: id, state, time of change.
pub open spec fn changed_line(r: JsonV) -> Seq<char> {
    str_or(r, "entity_id"@, ""@) + "\t"@ + str_or(r, "state"@, ""@) + "\t"@ + str_or(
        r,
        "last_changed"@,
        ""@,
    )
}

/// The report of the changed entities in a mode.
pub open spec fn since_text(changed: Seq<JsonV>, hours: u32, mode: OutputMode) -> Seq<char> {
    match mode {
        OutputMode::Compact => join(Seq::new(changed.len(), |i: int| changed_line(changed[i])), "\n"@),
        _ => rendered(
            JsonV::Object(
                seq![
                    ("changed_count"@, JsonV::PosInt(changed.len() as u64)),
                    ("entities"@, JsonV::Array(changed)),
                    ("hours"@, JsonV::PosInt(hours as u64)),
                ],
            ),
            mode,
        ),
    }
}

fn record_of(e: &Json) -> (r: Json)
    ensures
        r@ == changed_record(e@),
        depth(r@) == 1,
{
    let mut entries: Vec<(String, Json)> = Vec::new();
    assert(entry_views(entries@) =~= Seq::<(Seq<char>, JsonV)>::empty());
    push_entry(&mut entries, "entity_id", Json::string(e.str_or("entity_id", "")));
    push_entry(&mut entries, "last_changed", Json::string(e.str_or("last_changed", "")));
    push_entry(&mut entries, "state", Json::string(e.str_or("state", "unknown")));
    proof {
        assert(entry_views(entries@) =~= changed_record(e@)->Object_0);
        crate::json::lemma_entry_views(entries@);
        crate::json::lemma_depth_entries_bound(entry_views(entries@), 0);
    }
    Json::object(entries)
}

/// The entities that changed at or after `cutoff`, reported in a mode;
/// `hours` is the length of the period.
pub fn since_report(states: &[Json], cutoff: &str, hours: u32, domain: Option<&str>, mode: OutputMode) -> (r: Result<String, AppError>)
    ensures
        r matches Ok(t) && t@ == since_text(
            changed_since(views(states@), crate::auth::opt_str(domain), cutoff@),
            hours,
            mode,
        ),
{
    let ghost es = views(states@);
    let ghost dom = crate::auth::opt_str(domain);
    proof {
        crate::json::lemma_views(states@);
    }
    let prefix = match domain {
        Some(d) => {
            let mut p = owned(d);
            push_str(&mut p, ".");
            Some(p)
        },
        None => None,
    };
    let mut changed: Vec<Json> = Vec::new();
    let mut i: usize = 0;
    while i < states.len()
        invariant
            i <= states.len(),
            es == views(states@),
            es.len() == states@.len(),
            forall|k: int| 0 <= k < states@.len() ==> #[trigger] es[k] == states@[k]@,
            dom == crate::auth::opt_str(domain),
            match prefix {
                Some(p) => dom is Some && p@ == dom->0 + "."@,
                None => dom is None,
            },
            views(changed@) == changed_since(es.take(i as int), dom, cutoff@),
            forall|k: int| 0 <= k < changed@.len() ==> depth(#[trigger] changed@[k]@) == 1,
        decreases states.len() - i,
    {
        proof {
            reveal_strlit("");
            assert(es.take(i + 1).drop_last() =~= es.take(i as int));
            assert(es.take(i + 1).last() == states@[i as int]@);
        }
        let e = &states[i];
        match e.get_str("entity_id") {
            Some(id) => {
                let ok_domain = match &prefix {
                    Some(p) => crate::text::starts_with(
                        crate::text::chars_of(id).as_slice(),
                        crate::text::chars_of(p.as_str()).as_slice(),
                    ),
                    None => true,
                };
                let lc = e.str_or("last_changed", "");
                if ok_domain && !lc.is_empty() && at_or_after(lc, cutoff) {
                    let ghost before = changed@;
                    changed.push(record_of(e));
                    proof {
                        assert(changed@.drop_last() =~= before);
                    }
                }
            },
            None => {},
        }
        i = i + 1;
    }
    proof {
        assert(es.take(states@.len() as int) =~= es);
    }
    let ghost cv = views(changed@);
    proof {
        crate::json::lemma_views(changed@);
    }
    match mode {
        OutputMode::Compact => {
            let mut lines: Vec<String> = Vec::new();
            let mut k: usize = 0;
            while k < changed.len()
                invariant
                    k <= changed@.len(),
                    cv == views(changed@),
                    cv.len() == changed@.len(),
                    forall|j: int| 0 <= j < changed@.len() ==> #[trigger] cv[j] == changed@[j]@,
                    lines@.len() == k,
                    forall|j: int| 0 <= j < k ==> #[trigger] lines@[j]@ == changed_line(cv[j]),
                decreases changed.len() - k,
            {
                let c = &changed[k];
                let mut l = owned(c.str_or("entity_id", ""));
                push_str(&mut l, "\t");
                push_str(&mut l, c.str_or("state", ""));
                push_str(&mut l, "\t");
                push_str(&mut l, c.str_or("last_changed", ""));
                proof {
                    reveal_strlit("");
                }
                lines.push(l);
                k = k + 1;
            }
            assert(string_views(lines@) =~= Seq::new(cv.len(), |i: int| changed_line(cv[i])));
            Ok(crate::text::join_lines(&lines))
        },
        _ => {
            let n = changed.len();
            proof {
                assert forall|j: int| 0 <= j < cv.len() implies depth(#[trigger] cv[j]) <= 1 by {
                    assert(cv[j] == changed@[j]@);
                }
                crate::json::lemma_depth_items_bound(cv, 1);
            }
            let mut e: Vec<(String, Json)> = Vec::new();
            assert(entry_views(e@) =~= Seq::<(Seq<char>, JsonV)>::empty());
            push_entry(&mut e, "changed_count", Json::count(n));
            push_entry(&mut e, "entities", Json::array(changed));
            push_entry(&mut e, "hours", Json::PosInt(hours as u64));
            proof {
                assert(entry_views(e@) =~= seq![
                    ("changed_count"@, JsonV::PosInt(cv.len() as u64)),
                    ("entities"@, JsonV::Array(cv)),
                    ("hours"@, JsonV::PosInt(hours as u64)),
                ]);
                crate::json::lemma_entry_views(e@);
                crate::json::lemma_depth_entries_bound(entry_views(e@), 2);
            }
            let doc = Json::object(e);
            format_output(&doc, mode)
        },
    }
}

/// The entities that changed within a period whose start the clock gave as
/// `cutoff`, reported in a mode; when the clock gave no start, none.
pub fn since_with(states: &[Json], cutoff: &Result<String, AppError>, hours: u32, domain: Option<&str>, mode: OutputMode) -> (r: Result<String, AppError>)
    ensures
        r matches Ok(t) && t@ == since_text(
            match text_outcome(*cutoff) {
                Ok(c) => changed_since(views(states@), crate::auth::opt_str(domain), c),
                Err(_) => Seq::empty(),
            },
            hours,
            mode,
        ),
{
    match cutoff {
        Ok(c) => since_report(states, c.as_str(), hours, domain, mode),
        Err(_) => {
            let empty: Vec<Json> = Vec::new();
            let r = since_report(empty.as_slice(), "", hours, domain, mode);
            proof {
                assert(views(empty@) =~= Seq::<JsonV>::empty());
            }
            r
        },
    }
}

/// The entities of the given domain (or all) that changed within the last
/// `hours` hours by the clock, reported in a mode. When the clock gives no
/// start for the period, no entity counts as changed.
pub fn since(states: &[Json], hours: u32, domain: Option<&str>, mode: OutputMode) -> (r: Result<String, AppError>)
    ensures
        exists|now: Option<u64>| r matches Ok(t) && t@ == since_text(
            match #[trigger] period_outcome(now, hours) {
                Ok(c) => changed_since(views(states@), crate::auth::opt_str(domain), c),
                Err(_) => Seq::empty(),
            },
            hours,
            mode,
        ),
{
    let cutoff = chrono_offset_public(hours);
    since_with(states, &cutoff, hours, domain, mode)
}

/// The report holds exactly the entities with an id (with a domain `d`,
/// an id that starts with `d.`) whose `last_changed` is given and not
/// before the cutoff: every reported record is that of such an entity,
/// and every such entity is reported.
pub proof fn since_reports_the_domain(states: Seq<JsonV>, domain: Option<Seq<char>>, cutoff: Seq<char>)
    ensures
        ({
            let r = changed_since(states, domain, cutoff);
            &&& forall|j: int|
                0 <= j < r.len() ==> exists|i: int|
                    0 <= i < states.len() && #[trigger] r[j] == changed_record(states[i]) && (jget_str(
                        states[i],
                        "entity_id"@,
                    ) matches Some(id) && match domain {
                        Some(d) => (d + "."@).len() <= id.len() && id.take((d + "."@).len() as int) == d + "."@,
                        None => true,
                    }) && str_or(
                        states[i],
                        "last_changed"@,
                        ""@,
                    ).len() > 0 && !text_lt(str_or(states[i], "last_changed"@, ""@), cutoff)
            &&& forall|i: int|
                0 <= i < states.len() && (jget_str(#[trigger] states[i], "entity_id"@) matches Some(id)
                    && match domain {
                        Some(d) => (d + "."@).len() <= id.len() && id.take((d + "."@).len() as int) == d + "."@,
                        None => true,
                    }) && str_or(
                    states[i],
                    "last_changed"@,
                    ""@,
                ).len() > 0 && !text_lt(str_or(states[i], "last_changed"@, ""@), cutoff) ==> r.contains(
                    changed_record(states[i]),
                )
        }),
    decreases states.len(),
{
    if states.len() > 0 {
        let prev_states = states.drop_last();
        since_reports_the_domain(prev_states, domain, cutoff);
        let prev = changed_since(prev_states, domain, cutoff);
        let r = changed_since(states, domain, cutoff);
        let last = states.len() - 1;
        assert forall|j: int| 0 <= j < r.len() implies exists|i: int|
            0 <= i < states.len() && #[trigger] r[j] == changed_record(states[i]) && (jget_str(
                states[i],
                "entity_id"@,
            ) matches Some(id) && match domain {
                        Some(d) => (d + "."@).len() <= id.len() && id.take((d + "."@).len() as int) == d + "."@,
                        None => true,
                    }) && str_or(
                states[i],
                "last_changed"@,
                ""@,
            ).len() > 0 && !text_lt(str_or(states[i], "last_changed"@, ""@), cutoff) by {
            if j < prev.len() {
                assert(r[j] == prev[j]);
                let i = choose|i: int|
                    0 <= i < prev_states.len() && #[trigger] prev[j] == changed_record(prev_states[i]) && (
                    jget_str(prev_states[i], "entity_id"@) matches Some(id) && match domain {
                        Some(d) => (d + "."@).len() <= id.len() && id.take((d + "."@).len() as int) == d + "."@,
                        None => true,
                    }) && str_or(prev_states[i], "last_changed"@, ""@).len() > 0 && !text_lt(
                        str_or(prev_states[i], "last_changed"@, ""@),
                        cutoff,
                    );
                assert(prev_states[i] == states[i]);
            } else {
                assert(r[j] == changed_record(states[last]));
                assert(states.last() == states[last]);
            }
        }
        assert forall|i: int|
            0 <= i < states.len() && (jget_str(#[trigger] states[i], "entity_id"@) matches Some(id) && match domain {
                        Some(d) => (d + "."@).len() <= id.len() && id.take((d + "."@).len() as int) == d + "."@,
                        None => true,
                    }) && str_or(states[i], "last_changed"@, ""@).len()
                > 0 && !text_lt(str_or(states[i], "last_changed"@, ""@), cutoff) implies r.contains(
            changed_record(states[i]),
        ) by {
            if i < last {
                assert(prev_states[i] == states[i]);
                assert(prev.contains(changed_record(prev_states[i])));
                let j = choose|j: int| 0 <= j < prev.len() && prev[j] == changed_record(prev_states[i]);
                assert(r[j] == prev[j]);
            } else {
                assert(states.last() == states[i]);
                assert(r[r.len() - 1] == changed_record(states[i]));
            }
        }
    }
}

} // verus!
