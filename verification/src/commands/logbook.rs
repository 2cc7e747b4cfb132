//! Logbook entries of an entity, as tab-separated lines or a document.
use vstd::prelude::*;
use crate::error::AppError;
use crate::json::{depth, entry_views, pretty, push_entry, str_or, views, Json, JsonV};
use crate::output::{capped_len, copy_prefix, format_output, more_line, rendered, shallow, OutputMode};
use crate::text::{
    chars_of, count_char, count_char_add, decimal, decimal_is_digits, flatten, flatten_spec,
    flattened_is_one_field, join, no_newline, no_newline_add, owned, push_chars, push_decimal, push_str, split_nl,
    split_undoes_join, string_views, tab_is_one_tab,
};

verus! {

/// A field made safe for a tab-separated line: tabs and line breaks become
/// spaces.
pub fn sanitize_tsv_field(s: &str) -> (r: String)
    ensures
        r@ == flatten_spec(s@),
{
    let f = flatten(chars_of(s).as_slice());
    crate::text::string_of(f.as_slice())
}

/// The compact line of a logbook entry: when, name, state (left out when
/// empty) and message, each field sanitized.
pub open spec fn logbook_line(e: JsonV) -> Seq<char> {
    let when = flatten_spec(str_or(e, "when"@, ""@));
    let name = flatten_spec(str_or(e, "name"@, ""@));
    let message = flatten_spec(str_or(e, "message"@, ""@));
    let state = flatten_spec(str_or(e, "state"@, ""@));
    if state.len() == 0 {
        when + "\t"@ + name + "\t"@ + message
    } else {
        when + "\t"@ + name + "\t"@ + state + "\t"@ + message
    }
}

/// The compact line of a logbook entry.
pub fn format_compact_entry(entry: &Json) -> (r: String)
    ensures
        r@ == logbook_line(entry@),
{
    let when = sanitize_tsv_field(entry.str_or("when", ""));
    let name = sanitize_tsv_field(entry.str_or("name", ""));
    let message = sanitize_tsv_field(entry.str_or("message", ""));
    let state = sanitize_tsv_field(entry.str_or("state", ""));
    let mut out = when;
    push_str(&mut out, "\t");
    push_str(&mut out, name.as_str());
    push_str(&mut out, "\t");
    if !state.as_str().is_empty() {
        push_str(&mut out, state.as_str());
        push_str(&mut out, "\t");
    }
    push_str(&mut out, message.as_str());
    out
}

/// The logbook report: in compact mode the lines of the first `limit`
/// entries and how many more there are; else a document with the entity,
/// the entries (at most `limit`) and the hours.
pub open spec fn logbook_text(entity_id: Seq<char>, hours: u32, es: Seq<JsonV>, mode: OutputMode, limit: Option<usize>) -> Seq<char> {
    let cap = capped_len(es.len(), limit);
    match mode {
        OutputMode::Compact => {
            let lines = Seq::new(cap, |i: int| logbook_line(es[i]));
            join(
                if es.len() > cap {
                    lines.push(more_line((es.len() - cap) as nat))
                } else {
                    lines
                },
                "\n"@,
            )
        },
        _ => rendered(
            JsonV::Object(
                seq![
                    ("entity_id"@, JsonV::Str(entity_id)),
                    ("entries"@, JsonV::Array(es.take(cap as int))),
                    ("hours"@, JsonV::PosInt(hours as u64)),
                ],
            ),
            mode,
        ),
    }
}

/// Renders the logbook entries of an entity over the last `hours` hours.
pub fn format_logbook_output(
    entity_id: &str,
    hours: u32,
    entries: &[Json],
    mode: OutputMode,
    limit: Option<usize>,
) -> (r: Result<String, AppError>)
    requires
        shallow(views(entries@), 999990),
    ensures
        r matches Ok(t) && t@ == logbook_text(entity_id@, hours, views(entries@), mode, limit),
{
    let ghost es = views(entries@);
    proof {
        crate::json::lemma_views(entries@);
    }
    let total = entries.len();
    let cap: usize = match limit {
        Some(c) => if c < total {
            c
        } else {
            total
        },
        None => total,
    };
    match mode {
        OutputMode::Compact => {
            let mut lines: Vec<String> = Vec::new();
            let mut i: usize = 0;
            while i < cap
                invariant
                    i <= cap <= entries@.len(),
                    es == views(entries@),
                    es.len() == entries@.len(),
                    forall|k: int| 0 <= k < entries@.len() ==> #[trigger] es[k] == entries@[k]@,
                    lines@.len() == i,
                    forall|k: int| 0 <= k < i ==> #[trigger] lines@[k]@ == logbook_line(es[k]),
                decreases cap - i,
            {
                lines.push(format_compact_entry(&entries[i]));
                i = i + 1;
            }
            let ghost base = string_views(lines@);
            assert(base =~= Seq::new(cap as nat, |k: int| logbook_line(es[k])));
            if total > cap {
                let mut more = owned("[+");
                push_decimal(&mut more, (total - cap) as u64);
                push_str(&mut more, " more]");
                lines.push(more);
                assert(string_views(lines@) =~= base.push(more_line((es.len() - cap) as nat)));
            }
            Ok(crate::text::join_lines(&lines))
        },
        _ => {
            let shown = copy_prefix(entries, cap);
            proof {
                assert forall|k: int| 0 <= k < views(shown@).len() implies depth(#[trigger] views(shown@)[k]) <= 999990 by {
                    assert(views(shown@)[k] == es[k]);
                }
                crate::json::lemma_depth_items_bound(views(shown@), 999990);
            }
            let mut e: Vec<(String, Json)> = Vec::new();
            assert(entry_views(e@) =~= Seq::<(Seq<char>, JsonV)>::empty());
            push_entry(&mut e, "entity_id", Json::string(entity_id));
            push_entry(&mut e, "entries", Json::array(shown));
            push_entry(&mut e, "hours", Json::PosInt(hours as u64));
            proof {
                assert(entry_views(e@) =~= seq![
                    ("entity_id"@, JsonV::Str(entity_id@)),
                    ("entries"@, JsonV::Array(es.take(cap as int))),
                    ("hours"@, JsonV::PosInt(hours as u64)),
                ]);
                crate::json::lemma_entry_views(e@);
                crate::json::lemma_depth_entries_bound(entry_views(e@), 999991);
            }
            let doc = Json::object(e);
            format_output(&doc, mode)
        },
    }
}

/// A logbook line is one line of tab-separated fields: it holds no line
/// break, and three tabs (four fields) when the state is shown, two when it
/// is not.
pub proof fn logbook_line_fields(e: JsonV)
    ensures
        no_newline(logbook_line(e)),
        count_char(logbook_line(e), '\t') == if flatten_spec(str_or(e, "state"@, ""@)).len() == 0 {
            2int
        } else {
            3int
        },
{
    let when = flatten_spec(str_or(e, "when"@, ""@));
    let name = flatten_spec(str_or(e, "name"@, ""@));
    let message = flatten_spec(str_or(e, "message"@, ""@));
    let state = flatten_spec(str_or(e, "state"@, ""@));
    let t = "\t"@;
    flattened_is_one_field(str_or(e, "when"@, ""@));
    flattened_is_one_field(str_or(e, "name"@, ""@));
    flattened_is_one_field(str_or(e, "message"@, ""@));
    flattened_is_one_field(str_or(e, "state"@, ""@));
    tab_is_one_tab();
    no_newline_add(when, t);
    count_char_add(when, t, '\t');
    no_newline_add(when + t, name);
    count_char_add(when + t, name, '\t');
    no_newline_add(when + t + name, t);
    count_char_add(when + t + name, t, '\t');
    let head = when + t + name + t;
    if state.len() == 0 {
        no_newline_add(head, message);
        count_char_add(head, message, '\t');
    } else {
        no_newline_add(head, state);
        count_char_add(head, state, '\t');
        no_newline_add(head + state, t);
        count_char_add(head + state, t, '\t');
        no_newline_add(head + state + t, message);
        count_char_add(head + state + t, message, '\t');
    }
}

/// The compact logbook is one record per line: when it holds any record,
/// splitting its text at line feeds gives back one line per shown entry,
/// then `[+N more]` when the limit cut the list.
pub proof fn compact_logbook_one_record_per_line(entity_id: Seq<char>, hours: u32, es: Seq<JsonV>, limit: Option<usize>)
    ensures
        ({
            let cap = capped_len(es.len(), limit);
            let lines = Seq::new(cap, |i: int| logbook_line(es[i]));
            let all = if es.len() > cap {
                lines.push(more_line((es.len() - cap) as nat))
            } else {
                lines
            };
            all.len() > 0 ==> split_nl(logbook_text(entity_id, hours, es, OutputMode::Compact, limit)) == all
        }),
{
    let cap = capped_len(es.len(), limit);
    let lines = Seq::new(cap, |i: int| logbook_line(es[i]));
    let all = if es.len() > cap {
        lines.push(more_line((es.len() - cap) as nat))
    } else {
        lines
    };
    assert forall|i: int| 0 <= i < all.len() implies no_newline(#[trigger] all[i]) by {
        if i < cap {
            assert(all[i] == logbook_line(es[i]));
            logbook_line_fields(es[i]);
        } else {
            reveal_strlit("[+");
            reveal_strlit(" more]");
            let n = (es.len() - cap) as nat;
            decimal_is_digits(n);
            let m = more_line(n);
            assert forall|j: int| 0 <= j < m.len() implies m[j] != '\n' by {
                if 2 <= j < 2 + decimal(n).len() {
                    assert(m[j] == decimal(n)[j - 2]);
                }
            }
        }
    }
    if all.len() > 0 {
        split_undoes_join(all);
    }
}

} // verus!
