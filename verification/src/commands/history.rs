//! The state history of an entity: the states as text, the transitions as
//! lines, and the document of the whole history.
use vstd::prelude::*;
use crate::error::AppError;
use crate::json::{depth, entry_views, jget, jstr, push_entry, str_or, views, Json, JsonV};
use crate::output::{capped_len, format_output, more_line, rendered, shallow, OutputMode};
use crate::text::{join, owned, push_decimal, push_str, string_views};

verus! {

/// The entries of all series, one series after the other.
pub open spec fn all_entries(history: Seq<Seq<JsonV>>) -> Seq<JsonV>
    decreases history.len(),
{
    if history.len() == 0 {
        Seq::empty()
    } else {
        all_entries(history.drop_last()) + history.last()
    }
}

/// The model of a history.
pub open spec fn history_view(h: Seq<Vec<Json>>) -> Seq<Seq<JsonV>> {
    h.map_values(|s: Vec<Json>| views(s@))
}

/// The states of entries that have a string state, in order.
pub open spec fn state_texts(es: Seq<JsonV>) -> Seq<Seq<char>>
    decreases es.len(),
{
    if es.len() == 0 {
        Seq::empty()
    } else {
        let prev = state_texts(es.drop_last());
        match jget(es.last(), "state"@) {
            Some(v) => match jstr(v) {
                Some(s) => prev.push(s),
                None => prev,
            },
            None => prev,
        }
    }
}

/// The transition lines of entries that have a string state: when it
/// changed (empty when not said) and the state.
pub open spec fn transition_lines(es: Seq<JsonV>) -> Seq<Seq<char>>
    decreases es.len(),
{
    if es.len() == 0 {
        Seq::empty()
    } else {
        let prev = transition_lines(es.drop_last());
        let e = es.last();
        match jget(e, "state"@) {
            Some(v) => match jstr(v) {
                Some(s) => prev.push(str_or(e, "last_changed"@, ""@) + "\t"@ + s),
                None => prev,
            },
            None => prev,
        }
    }
}

fn flatten_history(history: &Vec<Vec<Json>>) -> (r: Vec<Json>)
    ensures
        views(r@) == all_entries(history_view(history@)),
{
    let ghost hv = history_view(history@);
    let mut out: Vec<Json> = Vec::new();
    let mut i: usize = 0;
    assert(views(out@) =~= all_entries(hv.take(0)));
    while i < history.len()
        invariant
            i <= history@.len(),
            hv == history_view(history@),
            views(out@) == all_entries(hv.take(i as int)),
        decreases history.len() - i,
    {
        let ghost base = out@;
        let series = &history[i];
        proof {
            crate::json::lemma_views(series@);
        }
        let mut j: usize = 0;
        while j < series.len()
            invariant
                j <= series@.len(),
                views(series@).len() == series@.len(),
                forall|k: int| 0 <= k < series@.len() ==> #[trigger] views(series@)[k] == series@[k]@,
                out@.len() == base.len() + j,
                forall|k: int| 0 <= k < base.len() ==> #[trigger] out@[k] == base[k],
                forall|k: int| 0 <= k < j ==> #[trigger] out@[base.len() + k]@ == series@[k]@,
            decreases series.len() - j,
        {
            out.push(series[j].deep_copy());
            j = j + 1;
        }
        proof {
            crate::json::lemma_views(out@);
            crate::json::lemma_views(base);
            assert(hv.take(i + 1).drop_last() =~= hv.take(i as int));
            assert(hv.take(i + 1).last() == views(series@));
            assert forall|k: int| 0 <= k < out@.len() implies #[trigger] views(out@)[k] == (views(base) + views(series@))[k] by {
                if k < base.len() {
                    assert(out@[k] == base[k]);
                } else {
                    assert(out@[base.len() + (k - base.len())]@ == series@[k - base.len()]@);
                }
            }
            assert(views(out@) =~= views(base) + views(series@));
        }
        i = i + 1;
    }
    assert(hv.take(history@.len() as int) =~= hv);
    out
}

/// The states of a history that are strings, in order (what a numeric
/// summary reads).
pub fn history_states(history: &Vec<Vec<Json>>) -> (r: Vec<String>)
    ensures
        string_views(r@) == state_texts(all_entries(history_view(history@))),
{
    let es = flatten_history(history);
    let ghost ev = views(es@);
    proof {
        crate::json::lemma_views(es@);
    }
    let mut out: Vec<String> = Vec::new();
    let mut i: usize = 0;
    while i < es.len()
        invariant
            i <= es@.len(),
            ev == views(es@),
            ev.len() == es@.len(),
            forall|k: int| 0 <= k < es@.len() ==> #[trigger] ev[k] == es@[k]@,
            string_views(out@) == state_texts(ev.take(i as int)),
        decreases es.len() - i,
    {
        proof {
            assert(ev.take(i + 1).drop_last() =~= ev.take(i as int));
            assert(ev.take(i + 1).last() == es@[i as int]@);
        }
        match es[i].get("state") {
            Some(v) => match v.as_str() {
                Some(s) => {
                    let ghost before = string_views(out@);
                    out.push(owned(s));
                    assert(string_views(out@) =~= before.push(s@));
                },
                None => {},
            },
            None => {},
        }
        i = i + 1;
    }
    assert(ev.take(es@.len() as int) =~= ev);
    out
}

/// The compact transitions of a history: the first `limit` lines and how
/// many more there are.
pub open spec fn transitions_text(es: Seq<JsonV>, limit: Option<usize>) -> Seq<char> {
    let all = transition_lines(es);
    let cap = capped_len(all.len(), limit);
    join(
        if all.len() > cap {
            all.take(cap as int).push(more_line((all.len() - cap) as nat))
        } else {
            all.take(cap as int)
        },
        "\n"@,
    )
}

/// The state transitions of a history, one line each, capped at `limit`.
pub fn transitions(history: &Vec<Vec<Json>>, limit: Option<usize>) -> (r: String)
    ensures
        r@ == transitions_text(all_entries(history_view(history@)), limit),
{
    let es = flatten_history(history);
    let ghost ev = views(es@);
    proof {
        crate::json::lemma_views(es@);
    }
    let mut lines: Vec<String> = Vec::new();
    let mut i: usize = 0;
    while i < es.len()
        invariant
            i <= es@.len(),
            ev == views(es@),
            ev.len() == es@.len(),
            forall|k: int| 0 <= k < es@.len() ==> #[trigger] ev[k] == es@[k]@,
            string_views(lines@) == transition_lines(ev.take(i as int)),
            lines@.len() <= i,
        decreases es.len() - i,
    {
        proof {
            reveal_strlit("");
            assert(ev.take(i + 1).drop_last() =~= ev.take(i as int));
            assert(ev.take(i + 1).last() == es@[i as int]@);
        }
        match es[i].get("state") {
            Some(v) => match v.as_str() {
                Some(s) => {
                    let mut l = owned(es[i].str_or("last_changed", ""));
                    push_str(&mut l, "\t");
                    push_str(&mut l, s);
                    let ghost before = string_views(lines@);
                    lines.push(l);
                    assert(string_views(lines@) =~= before.push(l@));
                },
                None => {},
            },
            None => {},
        }
        i = i + 1;
    }
    assert(ev.take(es@.len() as int) =~= ev);
    let total = lines.len();
    let cap: usize = match limit {
        Some(c) => if c < total {
            c
        } else {
            total
        },
        None => total,
    };
    let ghost all = string_views(lines@);
    let mut shown: Vec<String> = Vec::new();
    let mut k: usize = 0;
    while k < cap
        invariant
            k <= cap <= lines@.len(),
            all == string_views(lines@),
            shown@.len() == k,
            forall|j: int| 0 <= j < k ==> #[trigger] shown@[j]@ == all[j],
        decreases cap - k,
    {
        shown.push(lines[k].clone());
        k = k + 1;
    }
    let ghost base = string_views(shown@);
    assert(base =~= all.take(cap as int));
    if total > cap {
        let mut more = owned("[+");
        push_decimal(&mut more, (total - cap) as u64);
        push_str(&mut more, " more]");
        shown.push(more);
        assert(string_views(shown@) =~= base.push(more_line((total - cap) as nat)));
    }
    crate::text::join_lines(&shown)
}

/// The history document: the entity, the series and the hours.
pub fn history_report(entity_id: &str, hours: u32, history: &Vec<Vec<Json>>, mode: OutputMode) -> (r: Result<String, AppError>)
    requires
        forall|i: int| 0 <= i < history@.len() ==> shallow(views(#[trigger] history@[i]@), 999990),
    ensures
        r matches Ok(t) && t@ == rendered(
            JsonV::Object(
                seq![
                    ("entity_id"@, JsonV::Str(entity_id@)),
                    ("history"@, JsonV::Array(Seq::new(history@.len(), |i: int| JsonV::Array(views(history@[i]@))))),
                    ("hours"@, JsonV::PosInt(hours as u64)),
                ],
            ),
            mode,
        ),
{
    let mut series: Vec<Json> = Vec::new();
    let mut i: usize = 0;
    while i < history.len()
        invariant
            i <= history@.len(),
            forall|j: int| 0 <= j < history@.len() ==> shallow(views(#[trigger] history@[j]@), 999990),
            series@.len() == i,
            forall|j: int| 0 <= j < i ==> #[trigger] series@[j]@ == JsonV::Array(views(history@[j]@)),
            forall|j: int| 0 <= j < i ==> depth(#[trigger] series@[j]@) <= 999990,
        decreases history.len() - i,
    {
        let items = crate::output::copy_prefix(history[i].as_slice(), history[i].len());
        proof {
            crate::json::lemma_views(history@[i as int]@);
            assert(views(history@[i as int]@).take(history@[i as int]@.len() as int) =~= views(history@[i as int]@));
            assert(shallow(views(history@[i as int]@), 999990));
            crate::json::lemma_depth_items_bound(views(items@), 999989);
        }
        series.push(Json::array(items));
        i = i + 1;
    }
    proof {
        crate::json::lemma_views(series@);
        let want = Seq::new(history@.len(), |i: int| JsonV::Array(views(history@[i]@)));
        assert(views(series@) =~= want);
        assert forall|k: int| 0 <= k < views(series@).len() implies depth(#[trigger] views(series@)[k]) <= 999990 by {
            assert(views(series@)[k] == series@[k]@);
        }
        crate::json::lemma_depth_items_bound(views(series@), 999990);
    }
    let hist = Json::array(series);
    let ghost hv = hist@;
    let mut e: Vec<(String, Json)> = Vec::new();
    assert(entry_views(e@) =~= Seq::<(Seq<char>, JsonV)>::empty());
    push_entry(&mut e, "entity_id", Json::string(entity_id));
    push_entry(&mut e, "history", hist);
    push_entry(&mut e, "hours", Json::PosInt(hours as u64));
    proof {
        assert(entry_views(e@) =~= seq![
            ("entity_id"@, JsonV::Str(entity_id@)),
            ("history"@, hv),
            ("hours"@, JsonV::PosInt(hours as u64)),
        ]);
        crate::json::lemma_entry_views(e@);
        crate::json::lemma_depth_entries_bound(entry_views(e@), 999991);
    }
    format_output(&Json::object(e), mode)
}

} // verus!
