//! The system status: version, entity counts, automations, scripts,
//! components and the error log, in the three output modes.
use vstd::prelude::*;
use crate::commands::verify::{
    count_prefix, count_prefix_state, count_state, id_has_prefix, id_starts, state_is,
};
use crate::error::AppError;
use crate::json::{
    depth, entry_views, jget, jget_str, pretty, push_entry, str_or, views, Json, JsonV,
};
use crate::output::OutputMode;
use crate::text::{
    chars_of, decimal, has_prefix, join, owned, pad_right, push_decimal, push_padded_right,
    push_str, str_eq, string_views,
};
use crate::ui::{grouped, Style};

verus! {

/// What the status reports.
pub struct SystemStats {
    pub version: String,
    pub location: String,
    pub total_entities: usize,
    pub unavailable: usize,
    pub unknown: usize,
    pub automations_on: usize,
    pub automations_off: usize,
    pub scripts: usize,
    pub components: usize,
    pub error_count: Option<usize>,
    pub warning_count: Option<usize>,
}

// ---------------------------------------------------------------------
// Compact
// ---------------------------------------------------------------------

/// The compact status: a system line, an entity line, and a log line when
/// both log counts are known.
pub open spec fn compact_stats(s: SystemStats) -> Seq<char> {
    let sys = "sys\tv"@ + s.version@ + "\tconnected\tcomp:"@ + decimal(s.components as nat);
    let ent = "ent\ttotal:"@ + decimal(s.total_entities as nat) + "\tunavail:"@ + decimal(
        s.unavailable as nat,
    ) + "\tunk:"@ + decimal(s.unknown as nat) + "\tauto:"@ + decimal(s.automations_on as nat)
        + "/"@ + decimal(s.automations_off as nat) + "\tscripts:"@ + decimal(s.scripts as nat);
    match (s.error_count, s.warning_count) {
        (Some(e), Some(w)) => join(
            seq![sys, ent, "log\terrors:"@ + decimal(e as nat) + "\twarn:"@ + decimal(w as nat)],
            "\n"@,
        ),
        _ => join(seq![sys, ent], "\n"@),
    }
}

/// The compact status.
pub fn format_compact(stats: &SystemStats) -> (r: String)
    ensures
        r@ == compact_stats(*stats),
{
    let mut lines: Vec<String> = Vec::new();
    let mut sys = owned("sys\tv");
    push_str(&mut sys, stats.version.as_str());
    push_str(&mut sys, "\tconnected\tcomp:");
    push_decimal(&mut sys, stats.components as u64);
    lines.push(sys);
    let mut ent = owned("ent\ttotal:");
    push_decimal(&mut ent, stats.total_entities as u64);
    push_str(&mut ent, "\tunavail:");
    push_decimal(&mut ent, stats.unavailable as u64);
    push_str(&mut ent, "\tunk:");
    push_decimal(&mut ent, stats.unknown as u64);
    push_str(&mut ent, "\tauto:");
    push_decimal(&mut ent, stats.automations_on as u64);
    push_str(&mut ent, "/");
    push_decimal(&mut ent, stats.automations_off as u64);
    push_str(&mut ent, "\tscripts:");
    push_decimal(&mut ent, stats.scripts as u64);
    lines.push(ent);
    match (stats.error_count, stats.warning_count) {
        (Some(e), Some(w)) => {
            let mut log = owned("log\terrors:");
            push_decimal(&mut log, e as u64);
            push_str(&mut log, "\twarn:");
            push_decimal(&mut log, w as u64);
            lines.push(log);
        },
        _ => {},
    }
    proof {
        let sys = "sys\tv"@ + stats.version@ + "\tconnected\tcomp:"@ + decimal(
            stats.components as nat,
        );
        let ent = "ent\ttotal:"@ + decimal(stats.total_entities as nat) + "\tunavail:"@ + decimal(
            stats.unavailable as nat,
        ) + "\tunk:"@ + decimal(stats.unknown as nat) + "\tauto:"@ + decimal(
            stats.automations_on as nat,
        ) + "/"@ + decimal(stats.automations_off as nat) + "\tscripts:"@ + decimal(
            stats.scripts as nat,
        );
        match (stats.error_count, stats.warning_count) {
            (Some(e), Some(w)) => {
                assert(string_views(lines@) =~= seq![
                    sys,
                    ent,
                    "log\terrors:"@ + decimal(e as nat) + "\twarn:"@ + decimal(w as nat),
                ]);
            },
            _ => {
                assert(string_views(lines@) =~= seq![sys, ent]);
            },
        }
    }
    crate::text::join_lines(&lines)
}

// ---------------------------------------------------------------------
// Human
// ---------------------------------------------------------------------

/// A row of the two-column human layout.
pub open spec fn stats_row(st: Style, lk: Seq<char>, lv: Seq<char>, rk: Seq<char>, rv: Seq<char>) -> Seq<char> {
    "  "@ + st.dim@ + pad_right(lk, 15) + st.reset@ + "  "@ + pad_right(lv, 17) + "  "@ + st.dim@
        + pad_right(rk, 15) + st.reset@ + "  "@ + rv + "\n"@
}

/// The error cell: both log counts, or `n/a`.
pub open spec fn errors_cell(s: SystemStats) -> Seq<char> {
    match (s.error_count, s.warning_count) {
        (Some(e), Some(w)) => decimal(e as nat) + " errors, "@ + decimal(w as nat) + " warnings"@,
        _ => "n/a"@,
    }
}

/// The human status: a header and five rows of two columns.
pub open spec fn human_stats(s: SystemStats, st: Style) -> Seq<char> {
    st.bold@ + "◆ "@ + "Home Assistant Status"@ + st.reset@ + "\n\n"@ + stats_row(
        st,
        "Version"@,
        s.version@,
        "Entities"@,
        grouped(decimal(s.total_entities as nat)),
    ) + stats_row(st, "Location"@, s.location@, "Unavailable"@, grouped(decimal(s.unavailable as nat)))
        + stats_row(
        st,
        "Status"@,
        st.green@ + "connected"@ + st.reset@,
        "Unknown"@,
        grouped(decimal(s.unknown as nat)),
    ) + stats_row(
        st,
        "Automations"@,
        decimal(s.automations_on as nat) + " on / "@ + decimal(s.automations_off as nat) + " off"@,
        "Scripts"@,
        grouped(decimal(s.scripts as nat)),
    ) + stats_row(st, "Components"@, grouped(decimal(s.components as nat)), "Errors"@, errors_cell(s))
}

fn push_row(out: &mut String, st: &Style, lk: &str, lv: &str, rk: &str, rv: &str)
    ensures
        final(out)@ == old(out)@ + stats_row(*st, lk@, lv@, rk@, rv@),
{
    push_str(out, "  ");
    push_str(out, st.dim);
    push_padded_right(out, chars_of(lk).as_slice(), 15);
    push_str(out, st.reset);
    push_str(out, "  ");
    push_padded_right(out, chars_of(lv).as_slice(), 17);
    push_str(out, "  ");
    push_str(out, st.dim);
    push_padded_right(out, chars_of(rk).as_slice(), 15);
    push_str(out, st.reset);
    push_str(out, "  ");
    push_str(out, rv);
    push_str(out, "\n");
    assert(final(out)@ =~= old(out)@ + stats_row(*st, lk@, lv@, rk@, rv@));
}

/// The human status, in the given style.
pub fn format_human(stats: &SystemStats, style: &Style) -> (r: String)
    ensures
        r@ == human_stats(*stats, *style),
{
    let mut out = style.header("Home Assistant Status");
    push_str(&mut out, "\n\n");
    let ghost h = out@;
    let total = crate::ui::fmt_num(stats.total_entities);
    push_row(&mut out, style, "Version", stats.version.as_str(), "Entities", total.as_str());
    let unavailable = crate::ui::fmt_num(stats.unavailable);
    push_row(&mut out, style, "Location", stats.location.as_str(), "Unavailable", unavailable.as_str());
    let mut connected = owned(style.green);
    push_str(&mut connected, "connected");
    push_str(&mut connected, style.reset);
    let unknown = crate::ui::fmt_num(stats.unknown);
    push_row(&mut out, style, "Status", connected.as_str(), "Unknown", unknown.as_str());
    let mut autos = String::new();
    push_decimal(&mut autos, stats.automations_on as u64);
    push_str(&mut autos, " on / ");
    push_decimal(&mut autos, stats.automations_off as u64);
    push_str(&mut autos, " off");
    let scripts = crate::ui::fmt_num(stats.scripts);
    push_row(&mut out, style, "Automations", autos.as_str(), "Scripts", scripts.as_str());
    let components = crate::ui::fmt_num(stats.components);
    let errors = match (stats.error_count, stats.warning_count) {
        (Some(e), Some(w)) => {
            let mut t = String::new();
            push_decimal(&mut t, e as u64);
            push_str(&mut t, " errors, ");
            push_decimal(&mut t, w as u64);
            push_str(&mut t, " warnings");
            t
        },
        _ => owned("n/a"),
    };
    assert(errors@ == errors_cell(*stats));
    push_row(&mut out, style, "Components", components.as_str(), "Errors", errors.as_str());
    assert(out@ =~= human_stats(*stats, *style));
    out
}

// ---------------------------------------------------------------------
// JSON
// ---------------------------------------------------------------------

/// The JSON status, keys in order, the log counts only when known.
pub open spec fn stats_doc(s: SystemStats) -> JsonV {
    let a = seq![
        ("automations_off"@, JsonV::PosInt(s.automations_off as u64)),
        ("automations_on"@, JsonV::PosInt(s.automations_on as u64)),
        ("components"@, JsonV::PosInt(s.components as u64)),
    ];
    let b = match s.error_count {
        Some(e) => a.push(("errors"@, JsonV::PosInt(e as u64))),
        None => a,
    };
    let c = b.push(("location"@, JsonV::Str(s.location@))).push(
        ("scripts"@, JsonV::PosInt(s.scripts as u64)),
    ).push(("status"@, JsonV::Str("connected"@))).push(
        ("total_entities"@, JsonV::PosInt(s.total_entities as u64)),
    ).push(("unavailable"@, JsonV::PosInt(s.unavailable as u64))).push(
        ("unknown"@, JsonV::PosInt(s.unknown as u64)),
    ).push(("version"@, JsonV::Str(s.version@)));
    JsonV::Object(
        match s.warning_count {
            Some(w) => c.push(("warnings"@, JsonV::PosInt(w as u64))),
            None => c,
        },
    )
}

/// The JSON status document.
pub fn stats_json(stats: &SystemStats) -> (r: Json)
    ensures
        r@ == stats_doc(*stats),
        depth(r@) == 1,
{
    let mut e: Vec<(String, Json)> = Vec::new();
    assert(entry_views(e@) =~= Seq::<(Seq<char>, JsonV)>::empty());
    push_entry(&mut e, "automations_off", Json::count(stats.automations_off));
    push_entry(&mut e, "automations_on", Json::count(stats.automations_on));
    push_entry(&mut e, "components", Json::count(stats.components));
    match stats.error_count {
        Some(n) => push_entry(&mut e, "errors", Json::count(n)),
        None => {},
    }
    push_entry(&mut e, "location", Json::string(stats.location.as_str()));
    push_entry(&mut e, "scripts", Json::count(stats.scripts));
    push_entry(&mut e, "status", Json::string("connected"));
    push_entry(&mut e, "total_entities", Json::count(stats.total_entities));
    push_entry(&mut e, "unavailable", Json::count(stats.unavailable));
    push_entry(&mut e, "unknown", Json::count(stats.unknown));
    push_entry(&mut e, "version", Json::string(stats.version.as_str()));
    match stats.warning_count {
        Some(n) => push_entry(&mut e, "warnings", Json::count(n)),
        None => {},
    }
    proof {
        assert(entry_views(e@) =~= stats_doc(*stats)->Object_0);
        crate::json::lemma_entry_views(e@);
        crate::json::lemma_depth_entries_bound(entry_views(e@), 0);
    }
    Json::object(e)
}

/// The JSON status, indented.
pub fn format_json(stats: &SystemStats) -> (r: Result<String, AppError>)
    ensures
        r matches Ok(t) && t@ == pretty(stats_doc(*stats), 0),
{
    let doc = stats_json(stats);
    Ok(crate::json::to_pretty(&doc))
}

// ---------------------------------------------------------------------
// Gathering the status
// ---------------------------------------------------------------------

/// The number of components the configuration lists.
pub open spec fn component_count(config: JsonV) -> nat {
    match jget(config, "components"@) {
        Some(JsonV::Array(a)) => a.len(),
        _ => 0,
    }
}

/// The status from the configuration, the states and the log counts
/// (errors, warnings) when they could be had.
pub open spec fn stats_ok(s: SystemStats, config: JsonV, states: Seq<JsonV>, logs: Option<(usize, usize)>) -> bool {
    &&& s.version@ == str_or(config, "version"@, "unknown"@)
    &&& s.location@ == str_or(config, "location_name"@, "unknown"@)
    &&& s.components == component_count(config)
    &&& s.total_entities == states.len()
    &&& s.unavailable == count_state(states, "unavailable"@)
    &&& s.unknown == count_state(states, "unknown"@)
    &&& s.automations_on == count_prefix_state(states, "automation."@, "on"@)
    &&& s.automations_off == count_prefix_state(states, "automation."@, "off"@)
    &&& s.scripts == count_prefix(states, "script."@)
    &&& s.error_count == (match logs {
        Some(l) => Some(l.0),
        None => None,
    })
    &&& s.warning_count == (match logs {
        Some(l) => Some(l.1),
        None => None,
    })
}

proof fn lemma_stat_counts(es: Seq<JsonV>)
    ensures
        count_state(es, "unavailable"@) <= es.len(),
        count_state(es, "unknown"@) <= es.len(),
        count_prefix_state(es, "automation."@, "on"@) <= es.len(),
        count_prefix_state(es, "automation."@, "off"@) <= es.len(),
        count_prefix(es, "script."@) <= es.len(),
    decreases es.len(),
{
    if es.len() > 0 {
        lemma_stat_counts(es.drop_last());
    }
}

/// Gathers the status.
pub fn system_stats(config: &Json, states: &[Json], logs: Option<(usize, usize)>) -> (r: SystemStats)
    ensures
        stats_ok(r, config@, views(states@), logs),
{
    let ghost es = views(states@);
    proof {
        crate::json::lemma_views(states@);
        reveal_strlit("automation.");
        reveal_strlit("script.");
    }
    let components = match config.get("components") {
        Some(c) => match c.as_array() {
            Some(a) => {
                proof {
                    crate::json::lemma_views(a@);
                }
                a.len()
            },
            None => 0,
        },
        None => 0,
    };
    assert(components == component_count(config@));
    let mut unavailable: usize = 0;
    let mut unknown: usize = 0;
    let mut on: usize = 0;
    let mut off: usize = 0;
    let mut scripts: usize = 0;
    let mut i: usize = 0;
    while i < states.len()
        invariant
            i <= states.len(),
            es == views(states@),
            es.len() == states@.len(),
            forall|k: int| 0 <= k < states@.len() ==> #[trigger] es[k] == states@[k]@,
            unavailable == count_state(es.take(i as int), "unavailable"@),
            unknown == count_state(es.take(i as int), "unknown"@),
            on == count_prefix_state(es.take(i as int), "automation."@, "on"@),
            off == count_prefix_state(es.take(i as int), "automation."@, "off"@),
            scripts == count_prefix(es.take(i as int), "script."@),
        decreases states.len() - i,
    {
        proof {
            reveal_strlit("automation.");
            reveal_strlit("script.");
            reveal_strlit("unavailable");
            reveal_strlit("unknown");
            reveal_strlit("on");
            reveal_strlit("off");
            assert("unavailable"@.len() != "unknown"@.len());
            assert("on"@.len() != "off"@.len());
            assert(es.take(i + 1).drop_last() =~= es.take(i as int));
            assert(es.take(i + 1).last() == states@[i as int]@);
            lemma_stat_counts(es.take(i as int));
        }
        let e = &states[i];
        if state_is(e, "unavailable") {
            unavailable = unavailable + 1;
        } else if state_is(e, "unknown") {
            unknown = unknown + 1;
        }
        if id_has_prefix(e, "automation.") {
            if state_is(e, "on") {
                on = on + 1;
            } else if state_is(e, "off") {
                off = off + 1;
            }
            proof {
                if id_starts(es[i as int], "script."@) {
                    let id = jget_str(es[i as int], "entity_id"@)->0;
                    assert(id.subrange(0, 11)[0] == id[0]);
                    assert(id.subrange(0, 7)[0] == id[0]);
                }
            }
        } else if id_has_prefix(e, "script.") {
            scripts = scripts + 1;
        }
        i = i + 1;
    }
    proof {
        assert(es.take(states@.len() as int) =~= es);
    }
    let (error_count, warning_count) = match logs {
        Some((e, w)) => (Some(e), Some(w)),
        None => (None, None),
    };
    SystemStats {
        version: owned(config.str_or("version", "unknown")),
        location: owned(config.str_or("location_name", "unknown")),
        total_entities: states.len(),
        unavailable,
        unknown,
        automations_on: on,
        automations_off: off,
        scripts,
        components,
        error_count,
        warning_count,
    }
}

/// The number of log entries at a level.
pub open spec fn level_count(entries: Seq<JsonV>, errors: bool) -> nat
    decreases entries.len(),
{
    if entries.len() == 0 {
        0
    } else {
        let lv = jget_str(entries.last(), "level"@);
        let hit = if errors {
            lv == Some("ERROR"@) || lv == Some("CRITICAL"@)
        } else {
            lv == Some("WARNING"@)
        };
        level_count(entries.drop_last(), errors) + if hit {
            1nat
        } else {
            0nat
        }
    }
}

/// The error and warning counts of the system log: entries at level
/// `ERROR` or `CRITICAL`, and at `WARNING`. The log must be an array.
pub fn log_counts(entries: &Json) -> (r: Result<(usize, usize), AppError>)
    ensures
        match entries@ {
            JsonV::Array(a) => r matches Ok(c) && c.0 == level_count(a, true) && c.1 == level_count(
                a,
                false,
            ),
            _ => r matches Err(AppError::Other(m)) && m@ == "Expected array from system_log/list"@,
        },
{
    let arr = match entries.as_array() {
        Some(a) => a,
        None => return Err(AppError::Other(owned("Expected array from system_log/list"))),
    };
    let ghost es = views(arr@);
    proof {
        crate::json::lemma_views(arr@);
    }
    let mut errors: usize = 0;
    let mut warnings: usize = 0;
    let mut i: usize = 0;
    while i < arr.len()
        invariant
            i <= arr.len(),
            es == views(arr@),
            es.len() == arr@.len(),
            forall|k: int| 0 <= k < arr@.len() ==> #[trigger] es[k] == arr@[k]@,
            errors == level_count(es.take(i as int), true),
            warnings == level_count(es.take(i as int), false),
            errors + warnings <= i,
        decreases arr.len() - i,
    {
        proof {
            reveal_strlit("ERROR");
            reveal_strlit("CRITICAL");
            reveal_strlit("WARNING");
            assert("ERROR"@.len() != "WARNING"@.len());
            assert("CRITICAL"@.len() != "WARNING"@.len());
            assert(es.take(i + 1).drop_last() =~= es.take(i as int));
            assert(es.take(i + 1).last() == arr@[i as int]@);
        }
        match arr[i].get_str("level") {
            Some(l) => {
                if str_eq(l, "ERROR") || str_eq(l, "CRITICAL") {
                    errors = errors + 1;
                } else if str_eq(l, "WARNING") {
                    warnings = warnings + 1;
                }
            },
            None => {},
        }
        i = i + 1;
    }
    proof {
        assert(es.take(arr@.len() as int) =~= es);
    }
    Ok((errors, warnings))
}

/// The status in a mode.
pub open spec fn status_text(s: SystemStats, mode: OutputMode, st: Style) -> Seq<char> {
    match mode {
        OutputMode::Compact => compact_stats(s),
        OutputMode::Human => human_stats(s, st),
        OutputMode::Json => pretty(stats_doc(s), 0),
    }
}

/// The status of the system from its configuration, its states and, when
/// they could be had, the log counts.
pub fn status(config: &Json, states: &[Json], logs: Option<(usize, usize)>, mode: OutputMode, style: &Style) -> (r: Result<String, AppError>)
    ensures
        exists|s: SystemStats|
            stats_ok(s, config@, views(states@), logs) && (r matches Ok(t) && t@ == status_text(
                s,
                mode,
                *style,
            )),
{
    let stats = system_stats(config, states, logs);
    match mode {
        OutputMode::Compact => Ok(format_compact(&stats)),
        OutputMode::Human => Ok(format_human(&stats, style)),
        OutputMode::Json => format_json(&stats),
    }
}

/// The error count of the system log is the number of its entries at
/// level `ERROR` or `CRITICAL`, and the warning count the number at level
/// `WARNING`.
pub proof fn log_counts_count_levels(entries: Seq<JsonV>)
    ensures
        level_count(entries, true) == entries.filter(
            |e: JsonV| jget_str(e, "level"@) == Some("ERROR"@) || jget_str(e, "level"@) == Some("CRITICAL"@),
        ).len(),
        level_count(entries, false) == entries.filter(|e: JsonV| jget_str(e, "level"@) == Some("WARNING"@)).len(),
    decreases entries.len(),
{
    reveal_with_fuel(Seq::filter, 1);
    if entries.len() > 0 {
        log_counts_count_levels(entries.drop_last());
    }
}

} // verus!
