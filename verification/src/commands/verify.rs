//! Deployment verification: what the configuration and the states say
//! after a deployment, compared with an earlier snapshot.
use vstd::prelude::*;
use crate::error::AppError;
use crate::json::{depth, entry_views, jget, jget_str, ji64, pretty, push_entry, str_or, views, Json, JsonV};
use crate::output::{format_output, OutputMode};
use crate::text::{
    chars_of, decimal, has_prefix, join, owned, pad_right, push_decimal, push_repeat, push_str,
    repeat_char, starts_with, str_eq, string_views,
};
use crate::ui::{grouped, Style};

verus! {

// ---------------------------------------------------------------------
// Counting states
// ---------------------------------------------------------------------

/// The number of entities whose state is `st`.
pub open spec fn count_state(es: Seq<JsonV>, st: Seq<char>) -> nat
    decreases es.len(),
{
    if es.len() == 0 {
        0
    } else {
        count_state(es.drop_last(), st) + if jget_str(es.last(), "state"@) == Some(st) {
            1nat
        } else {
            0nat
        }
    }
}

/// An entity whose id starts with `prefix`.
pub open spec fn id_starts(e: JsonV, prefix: Seq<char>) -> bool {
    match jget_str(e, "entity_id"@) {
        Some(id) => has_prefix(id, prefix),
        None => false,
    }
}

/// The number of entities whose id starts with `prefix`.
pub open spec fn count_prefix(es: Seq<JsonV>, prefix: Seq<char>) -> nat
    decreases es.len(),
{
    if es.len() == 0 {
        0
    } else {
        count_prefix(es.drop_last(), prefix) + if id_starts(es.last(), prefix) {
            1nat
        } else {
            0nat
        }
    }
}

/// The number of entities whose id starts with `prefix` and whose state is
/// `st`.
pub open spec fn count_prefix_state(es: Seq<JsonV>, prefix: Seq<char>, st: Seq<char>) -> nat
    decreases es.len(),
{
    if es.len() == 0 {
        0
    } else {
        count_prefix_state(es.drop_last(), prefix, st) + if id_starts(es.last(), prefix)
            && jget_str(es.last(), "state"@) == Some(st) {
            1nat
        } else {
            0nat
        }
    }
}

proof fn lemma_counts_bounded(es: Seq<JsonV>, prefix: Seq<char>, st: Seq<char>)
    ensures
        count_state(es, st) <= es.len(),
        count_prefix_state(es, prefix, st) <= count_prefix(es, prefix) <= es.len(),
    decreases es.len(),
{
    if es.len() > 0 {
        lemma_counts_bounded(es.drop_last(), prefix, st);
    }
}

/// Whether an entity's state is `st`.
pub fn state_is(e: &Json, st: &str) -> (r: bool)
    ensures
        r == (jget_str(e@, "state"@) == Some(st@)),
{
    match e.get_str("state") {
        Some(s) => str_eq(s, st),
        None => false,
    }
}

/// Whether an entity's id starts with `prefix`.
pub fn id_has_prefix(e: &Json, prefix: &str) -> (r: bool)
    ensures
        r == id_starts(e@, prefix@),
{
    match e.get_str("entity_id") {
        Some(id) => starts_with(chars_of(id).as_slice(), chars_of(prefix).as_slice()),
        None => false,
    }
}

/// The counts a deployment is judged by.
pub struct Census {
    pub total: usize,
    pub unavailable: usize,
    pub unknown: usize,
    pub automations: usize,
    pub automations_on: usize,
}

/// The counts of a list of states: all, unavailable, unknown, automations,
/// automations that are on.
pub fn census(states: &[Json]) -> (r: Census)
    ensures
        r.total == states@.len(),
        r.unavailable == count_state(views(states@), "unavailable"@),
        r.unknown == count_state(views(states@), "unknown"@),
        r.automations == count_prefix(views(states@), "automation."@),
        r.automations_on == count_prefix_state(views(states@), "automation."@, "on"@),
        r.automations_on <= r.automations <= r.total,
{
    let ghost es = views(states@);
    proof {
        crate::json::lemma_views(states@);
    }
    let mut c = Census { total: states.len(), unavailable: 0, unknown: 0, automations: 0, automations_on: 0 };
    let mut i: usize = 0;
    while i < states.len()
        invariant
            i <= states.len(),
            es == views(states@),
            es.len() == states@.len(),
            forall|k: int| 0 <= k < states@.len() ==> #[trigger] es[k] == states@[k]@,
            c.total == states@.len(),
            c.unavailable == count_state(es.take(i as int), "unavailable"@),
            c.unknown == count_state(es.take(i as int), "unknown"@),
            c.automations == count_prefix(es.take(i as int), "automation."@),
            c.automations_on == count_prefix_state(es.take(i as int), "automation."@, "on"@),
        decreases states.len() - i,
    {
        proof {
            assert(es.take(i + 1).drop_last() =~= es.take(i as int));
            assert(es.take(i + 1).last() == states@[i as int]@);
            lemma_counts_bounded(es.take(i as int), "automation."@, "unavailable"@);
            lemma_counts_bounded(es.take(i as int), "automation."@, "unknown"@);
            lemma_counts_bounded(es.take(i as int), "automation."@, "on"@);
        }
        let e = &states[i];
        if state_is(e, "unavailable") {
            c.unavailable = c.unavailable + 1;
        }
        if state_is(e, "unknown") {
            c.unknown = c.unknown + 1;
        }
        if id_has_prefix(e, "automation.") {
            c.automations = c.automations + 1;
            if state_is(e, "on") {
                c.automations_on = c.automations_on + 1;
            }
        }
        i = i + 1;
    }
    proof {
        assert(es.take(states@.len() as int) =~= es);
        lemma_counts_bounded(es, "automation."@, "on"@);
    }
    c
}

// ---------------------------------------------------------------------
// Baseline
// ---------------------------------------------------------------------

/// The changes since a baseline snapshot: the current counts less the
/// recorded ones, and the file they came from. None when the snapshot lacks
/// an integer count, or a difference does not fit in an `i64`.
pub open spec fn baseline_delta(baseline: JsonV, path: Seq<char>, unavailable: nat, unknown: nat) -> Option<JsonV> {
    match (jget(baseline, "unavailable"@), jget(baseline, "unknown"@)) {
        (Some(a), Some(b)) => match (ji64(a), ji64(b)) {
            (Some(pa), Some(pb)) => {
                let da = unavailable - pa;
                let db = unknown - pb;
                if unavailable <= i64::MAX && unknown <= i64::MAX && i64::MIN <= da <= i64::MAX
                    && i64::MIN <= db <= i64::MAX {
                    Some(
                        JsonV::Object(
                            seq![
                                ("baseline_file"@, JsonV::Str(path)),
                                ("unavailable_delta"@, crate::json::int_view(da)),
                                ("unknown_delta"@, crate::json::int_view(db)),
                            ],
                        ),
                    )
                } else {
                    None
                }
            },
            _ => None,
        },
        _ => None,
    }
}

/// Compares the current counts with a baseline snapshot read from `path`.
pub fn compare_baseline(baseline: &Json, path: &str, current_unavailable: usize, current_unknown: usize) -> (r: Option<Json>)
    ensures
        match baseline_delta(baseline@, path@, current_unavailable as nat, current_unknown as nat) {
            Some(d) => r matches Some(j) && j@ == d,
            None => r is None,
        },
{
    let pa = match baseline.get("unavailable") {
        Some(v) => match v.as_i64() {
            Some(n) => n,
            None => return None,
        },
        None => return None,
    };
    let pb = match baseline.get("unknown") {
        Some(v) => match v.as_i64() {
            Some(n) => n,
            None => return None,
        },
        None => return None,
    };
    if current_unavailable as u64 > 9223372036854775807u64 || current_unknown as u64 > 9223372036854775807u64 {
        return None;
    }
    let ca = current_unavailable as i64;
    let cb = current_unknown as i64;
    let da = match ca.checked_sub(pa) {
        Some(d) => d,
        None => return None,
    };
    let db = match cb.checked_sub(pb) {
        Some(d) => d,
        None => return None,
    };
    let mut entries: Vec<(String, Json)> = Vec::new();
    entries.push((owned("baseline_file"), Json::string(path)));
    entries.push((owned("unavailable_delta"), Json::integer(da)));
    entries.push((owned("unknown_delta"), Json::integer(db)));
    proof {
        crate::json::lemma_entry_views(entries@);
        assert(entry_views(entries@) =~= baseline_delta(
            baseline@,
            path@,
            current_unavailable as nat,
            current_unknown as nat,
        )->0->Object_0);
    }
    Some(Json::object(entries))
}

/// The snapshot saved for later comparison.
pub open spec fn snapshot_doc(c: Census, timestamp: Seq<char>) -> JsonV {
    JsonV::Object(
        seq![
            ("timestamp"@, JsonV::Str(timestamp)),
            ("total"@, JsonV::PosInt(c.total as u64)),
            ("unavailable"@, JsonV::PosInt(c.unavailable as u64)),
            ("unknown"@, JsonV::PosInt(c.unknown as u64)),
        ],
    )
}

/// The snapshot of the current counts, taken at `timestamp`.
pub fn snapshot(c: &Census, timestamp: &str) -> (r: Json)
    ensures
        r@ == snapshot_doc(*c, timestamp@),
        depth(r@) == 1,
{
    let mut entries: Vec<(String, Json)> = Vec::new();
    entries.push((owned("timestamp"), Json::string(timestamp)));
    entries.push((owned("total"), Json::count(c.total)));
    entries.push((owned("unavailable"), Json::count(c.unavailable)));
    entries.push((owned("unknown"), Json::count(c.unknown)));
    proof {
        crate::json::lemma_entry_views(entries@);
        assert(entry_views(entries@) =~= snapshot_doc(*c, timestamp@)->Object_0);
        crate::json::lemma_depth_entries_bound(entry_views(entries@), 0);
    }
    Json::object(entries)
}

// ---------------------------------------------------------------------
// The verdict
// ---------------------------------------------------------------------

/// The change of unavailable entities that a baseline comparison found.
pub open spec fn unavailable_increase(delta: Option<JsonV>) -> Option<int> {
    match delta {
        Some(d) => match jget(d, "unavailable_delta"@) {
            Some(v) => ji64(v),
            None => None,
        },
        None => None,
    }
}

/// The issues of a deployment: a configuration that does not validate, and
/// more than five entities become unavailable since the baseline.
pub open spec fn issues(config_valid: bool, delta: Option<JsonV>) -> Seq<Seq<char>> {
    let a = if !config_valid {
        seq!["Configuration validation failed"@]
    } else {
        Seq::empty()
    };
    let b = match unavailable_increase(delta) {
        Some(n) => if n > 5 {
            seq!["Unavailable entities increased by "@ + crate::json::compact(crate::json::int_view(n))
                + " since baseline"@]
        } else {
            Seq::empty()
        },
        None => Seq::empty(),
    };
    a + b
}

/// The delta entry `key` of a comparison, or 0.
pub open spec fn delta_or_zero(delta: JsonV, key: Seq<char>) -> int {
    match jget(delta, key) {
        Some(v) => match ji64(v) {
            Some(n) => n,
            None => 0,
        },
        None => 0,
    }
}

/// An integer with its sign always written (`{:+}`).
pub open spec fn signed(n: int) -> Seq<char> {
    if n >= 0 {
        "+"@ + decimal(n as nat)
    } else {
        "-"@ + decimal((-n) as nat)
    }
}

/// The facts a report is made of.
pub struct Verdict {
    pub version: String,
    pub location: String,
    pub census: Census,
    pub config_valid: bool,
    pub delta: Option<Json>,
    pub issues: Vec<String>,
}

/// The model of a verdict's baseline comparison.
pub open spec fn delta_view(d: Option<Json>) -> Option<JsonV> {
    match d {
        Some(j) => Some(j@),
        None => None,
    }
}

/// The verdict on a deployment from the configuration, the states, whether
/// the configuration check said `valid`, and the baseline comparison.
pub open spec fn verdict_ok(v: Verdict, config: JsonV, states: Seq<JsonV>, config_valid: bool, delta: Option<JsonV>) -> bool {
    &&& v.version@ == str_or(config, "version"@, "unknown"@)
    &&& v.location@ == str_or(config, "location_name"@, "unknown"@)
    &&& v.census.total == states.len()
    &&& v.census.unavailable == count_state(states, "unavailable"@)
    &&& v.census.unknown == count_state(states, "unknown"@)
    &&& v.census.automations == count_prefix(states, "automation."@)
    &&& v.census.automations_on == count_prefix_state(states, "automation."@, "on"@)
    &&& v.census.automations_on <= v.census.automations <= v.census.total
    &&& v.config_valid == config_valid
    &&& delta_view(v.delta) == delta
    &&& string_views(v.issues@) == issues(config_valid, delta)
}

/// Whether the answer of the configuration check says the configuration is
/// valid.
pub fn config_check_valid(result: &Json) -> (r: bool)
    ensures
        r == (jget_str(result@, "result"@) == Some("valid"@)),
{
    match result.get_str("result") {
        Some(s) => str_eq(s, "valid"),
        None => false,
    }
}

/// Judges a deployment.
pub fn judge(config: &Json, states: &[Json], config_valid: bool, delta: Option<Json>) -> (r: Verdict)
    ensures
        verdict_ok(r, config@, views(states@), config_valid, delta_view(delta)),
{
    let version = owned(config.str_or("version", "unknown"));
    let location = owned(config.str_or("location_name", "unknown"));
    let c = census(states);
    let mut issues_list: Vec<String> = Vec::new();
    if !config_valid {
        issues_list.push(owned("Configuration validation failed"));
    }
    let ghost first = string_views(issues_list@);
    let increase = match &delta {
        Some(d) => match d.get("unavailable_delta") {
            Some(v) => v.as_i64(),
            None => None,
        },
        None => None,
    };
    match increase {
        Some(n) => {
            if n > 5 {
                let mut m = owned("Unavailable entities increased by ");
                let t = crate::json::to_compact(&Json::integer(n));
                push_str(&mut m, t.as_str());
                push_str(&mut m, " since baseline");
                issues_list.push(m);
            }
        },
        None => {},
    }
    proof {
        assert(string_views(issues_list@) =~= issues(config_valid, delta_view(delta)));
    }
    proof {
        crate::json::lemma_views(states@);
    }
    Verdict { version, location, census: c, config_valid, delta, issues: issues_list }
}

// ---------------------------------------------------------------------
// The report
// ---------------------------------------------------------------------

/// The compact report: status, entity counts, automations, configuration,
/// the baseline comparison when there is one, and each issue.
pub open spec fn compact_report(v: Verdict) -> Seq<char> {
    let c = v.census;
    let passed = v.issues@.len() == 0;
    let head = seq![
        "status:"@ + (if passed {
            "PASS"@
        } else {
            "FAIL"@
        }) + "\tversion:"@ + v.version@ + "\tlocation:"@ + v.location@,
        "entities:"@ + decimal(c.total as nat) + "\tunavailable:"@ + decimal(c.unavailable as nat)
            + "\tunknown:"@ + decimal(c.unknown as nat),
        "automations:"@ + decimal(c.automations_on as nat) + " on, "@ + decimal(
            (c.automations - c.automations_on) as nat,
        ) + " off"@,
        "config:"@ + (if v.config_valid {
            "valid"@
        } else {
            "INVALID"@
        }),
    ];
    let with_delta = match delta_view(v.delta) {
        Some(d) => head.push(
            "baseline_delta:unavailable="@ + crate::json::compact(
                crate::json::int_view(delta_or_zero(d, "unavailable_delta"@)),
            ) + ",unknown="@ + crate::json::compact(
                crate::json::int_view(delta_or_zero(d, "unknown_delta"@)),
            ),
        ),
        None => head,
    };
    join(
        with_delta + Seq::new(v.issues@.len(), |i: int| "ISSUE: "@ + v.issues@[i]@),
        "\n"@,
    )
}

/// The delta entry `key`, or 0, as an `i64`.
fn delta_entry(d: &Json, key: &str) -> (r: i64)
    ensures
        r as int == delta_or_zero(d@, key@),
{
    match d.get(key) {
        Some(v) => match v.as_i64() {
            Some(n) => n,
            None => 0,
        },
        None => 0,
    }
}

fn compact_text(v: &Verdict) -> (r: String)
    requires
        v.census.automations_on <= v.census.automations,
    ensures
        r@ == compact_report(*v),
{
    let c = &v.census;
    let mut lines: Vec<String> = Vec::new();
    let mut l1 = owned("status:");
    if v.issues.len() == 0 {
        push_str(&mut l1, "PASS");
    } else {
        push_str(&mut l1, "FAIL");
    }
    push_str(&mut l1, "\tversion:");
    push_str(&mut l1, v.version.as_str());
    push_str(&mut l1, "\tlocation:");
    push_str(&mut l1, v.location.as_str());
    lines.push(l1);
    let mut l2 = owned("entities:");
    push_decimal(&mut l2, c.total as u64);
    push_str(&mut l2, "\tunavailable:");
    push_decimal(&mut l2, c.unavailable as u64);
    push_str(&mut l2, "\tunknown:");
    push_decimal(&mut l2, c.unknown as u64);
    lines.push(l2);
    let mut l3 = owned("automations:");
    push_decimal(&mut l3, c.automations_on as u64);
    push_str(&mut l3, " on, ");
    push_decimal(&mut l3, (c.automations - c.automations_on) as u64);
    push_str(&mut l3, " off");
    lines.push(l3);
    let mut l4 = owned("config:");
    if v.config_valid {
        push_str(&mut l4, "valid");
    } else {
        push_str(&mut l4, "INVALID");
    }
    lines.push(l4);
    match &v.delta {
        Some(d) => {
            let mut l5 = owned("baseline_delta:unavailable=");
            let a = crate::json::to_compact(&Json::integer(delta_entry(d, "unavailable_delta")));
            push_str(&mut l5, a.as_str());
            push_str(&mut l5, ",unknown=");
            let b = crate::json::to_compact(&Json::integer(delta_entry(d, "unknown_delta")));
            push_str(&mut l5, b.as_str());
            lines.push(l5);
        },
        None => {},
    }
    let ghost base = string_views(lines@);
    let ghost n0 = lines@.len();
    let mut i: usize = 0;
    while i < v.issues.len()
        invariant
            i <= v.issues@.len(),
            lines@.len() == n0 + i,
            forall|k: int| 0 <= k < n0 ==> #[trigger] lines@[k]@ == base[k],
            base.len() == n0,
            forall|k: int| 0 <= k < i ==> #[trigger] lines@[n0 + k]@ == "ISSUE: "@ + v.issues@[k]@,
        decreases v.issues@.len() - i,
    {
        let mut l = owned("ISSUE: ");
        push_str(&mut l, v.issues[i].as_str());
        lines.push(l);
        i = i + 1;
    }
    proof {
        let want = base + Seq::new(v.issues@.len(), |k: int| "ISSUE: "@ + v.issues@[k]@);
        assert forall|k: int| 0 <= k < lines@.len() implies #[trigger] string_views(lines@)[k] == want[k] by {
            if k >= n0 {
                assert(lines@[n0 + (k - n0)]@ == "ISSUE: "@ + v.issues@[k - n0]@);
            }
        }
        assert(string_views(lines@) =~= want);
        let c = v.census;
        assert(base =~= (match delta_view(v.delta) {
            Some(d) => seq![
                "status:"@ + (if v.issues@.len() == 0 {
                    "PASS"@
                } else {
                    "FAIL"@
                }) + "\tversion:"@ + v.version@ + "\tlocation:"@ + v.location@,
                "entities:"@ + decimal(c.total as nat) + "\tunavailable:"@ + decimal(
                    c.unavailable as nat,
                ) + "\tunknown:"@ + decimal(c.unknown as nat),
                "automations:"@ + decimal(c.automations_on as nat) + " on, "@ + decimal(
                    (c.automations - c.automations_on) as nat,
                ) + " off"@,
                "config:"@ + (if v.config_valid {
                    "valid"@
                } else {
                    "INVALID"@
                }),
            ].push(
                "baseline_delta:unavailable="@ + crate::json::compact(
                    crate::json::int_view(delta_or_zero(d, "unavailable_delta"@)),
                ) + ",unknown="@ + crate::json::compact(
                    crate::json::int_view(delta_or_zero(d, "unknown_delta"@)),
                ),
            ),
            None => seq![
                "status:"@ + (if v.issues@.len() == 0 {
                    "PASS"@
                } else {
                    "FAIL"@
                }) + "\tversion:"@ + v.version@ + "\tlocation:"@ + v.location@,
                "entities:"@ + decimal(c.total as nat) + "\tunavailable:"@ + decimal(
                    c.unavailable as nat,
                ) + "\tunknown:"@ + decimal(c.unknown as nat),
                "automations:"@ + decimal(c.automations_on as nat) + " on, "@ + decimal(
                    (c.automations - c.automations_on) as nat,
                ) + " off"@,
                "config:"@ + (if v.config_valid {
                    "valid"@
                } else {
                    "INVALID"@
                }),
            ],
        }));
    }
    crate::text::join_lines(&lines)
}

/// A key-value line of the human report, as `Style::kv` writes it.
pub open spec fn kv_line(s: Style, label: Seq<char>, width: nat, value: Seq<char>) -> Seq<char> {
    "  "@ + s.dim@ + pad_right(label, width) + s.reset@ + "  "@ + value
}

/// The indented line of a count under the entity total.
pub open spec fn count_line(s: Style, n: nat, word: Seq<char>) -> Seq<char> {
    "  "@ + repeat_char(' ', 14) + "  "@ + grouped(decimal(n)) + s.reset@ + " "@ + word + s.reset@ + "\n"@
}

/// The lines listing the issues, each with a red cross.
pub open spec fn issue_lines(issues: Seq<Seq<char>>, s: Style) -> Seq<char>
    decreases issues.len(),
{
    if issues.len() == 0 {
        Seq::empty()
    } else {
        issue_lines(issues.drop_last(), s) + "    "@ + s.red@ + "✗"@ + s.reset@ + " "@ + " "@
            + issues.last() + "\n"@
    }
}

/// The configuration state as the human report shows it.
pub open spec fn config_display(v: Verdict, s: Style) -> Seq<char> {
    if v.config_valid {
        s.green@ + "valid"@ + s.reset@
    } else {
        s.red@ + "INVALID"@ + s.reset@
    }
}

/// The configuration, version and location lines of the human report.
pub open spec fn top_facts(v: Verdict, s: Style) -> Seq<char> {
    kv_line(s, "Config"@, 14, config_display(v, s)) + "\n"@ + kv_line(s, "Version"@, 14, v.version@)
        + "\n"@ + kv_line(s, "Location"@, 14, v.location@) + "\n\n"@
}

/// The head of the human report: title, configuration, version, location
/// and entity total.
pub open spec fn human_top(v: Verdict, s: Style) -> Seq<char> {
    s.bold@ + "◆ "@ + "Deployment Verification"@ + s.reset@ + "\n\n"@ + top_facts(v, s) + kv_line(
        s,
        "Entities"@,
        14,
        grouped(decimal(v.census.total as nat)) + " total"@,
    ) + "\n"@
}

/// The automation counts of the human report.
pub open spec fn autos_summary(c: Census, s: Style) -> Seq<char> {
    let dot = " "@ + s.dim@ + "·"@ + s.reset@ + " "@;
    decimal(c.automations_on as nat) + " on"@ + dot + decimal(
        (c.automations - c.automations_on) as nat,
    ) + " off"@ + dot + decimal(c.automations as nat) + " total"@
}

/// The baseline line of the human report, when there is a comparison.
pub open spec fn baseline_part(v: Verdict, s: Style) -> Seq<char> {
    match delta_view(v.delta) {
        Some(d) => "\n"@ + kv_line(
            s,
            "Baseline"@,
            14,
            "unavailable "@ + signed(delta_or_zero(d, "unavailable_delta"@)) + ", unknown "@
                + signed(delta_or_zero(d, "unknown_delta"@)),
        ) + "\n"@,
        None => Seq::empty(),
    }
}

/// The middle of the human report: the unavailable and unknown counts
/// when not zero, the automations, and the baseline comparison.
pub open spec fn human_middle(v: Verdict, s: Style) -> Seq<char> {
    let c = v.census;
    (if c.unavailable > 0 {
        count_line(s, c.unavailable as nat, "unavailable"@)
    } else {
        Seq::empty()
    }) + (if c.unknown > 0 {
        count_line(s, c.unknown as nat, "unknown"@)
    } else {
        Seq::empty()
    }) + "\n"@ + kv_line(s, "Automations"@, 14, autos_summary(c, s)) + "\n"@ + baseline_part(v, s)
        + "\n"@
}

/// The end of the human report: all passed, or the issues.
pub open spec fn human_result(v: Verdict, s: Style) -> Seq<char> {
    if v.issues@.len() == 0 {
        "  "@ + s.green@ + "✓"@ + s.reset@ + " "@ + "All checks passed"@ + "\n"@
    } else {
        "  "@ + s.red@ + "✗"@ + s.reset@ + " "@ + "Issues detected"@ + "\n"@ + issue_lines(
            string_views(v.issues@),
            s,
        )
    }
}

/// The human report of a verdict.
pub open spec fn human_report(v: Verdict, s: Style) -> Seq<char> {
    human_top(v, s) + human_middle(v, s) + human_result(v, s)
}

fn push_signed(out: &mut String, n: i64)
    ensures
        final(out)@ == old(out)@ + signed(n as int),
{
    if n >= 0 {
        push_str(out, "+");
        push_decimal(out, n as u64);
    } else {
        push_str(out, "-");
        let m: u64 = if n == -9223372036854775808i64 {
            9223372036854775808u64
        } else {
            (-n) as u64
        };
        push_decimal(out, m);
    }
}

fn push_count_line(out: &mut String, s: &Style, n: usize, word: &str)
    ensures
        final(out)@ == old(out)@ + count_line(*s, n as nat, word@),
{
    push_str(out, "  ");
    push_repeat(out, ' ', 14);
    push_str(out, "  ");
    let t = crate::ui::fmt_num(n);
    push_str(out, t.as_str());
    push_str(out, s.reset);
    push_str(out, " ");
    push_str(out, word);
    push_str(out, s.reset);
    push_str(out, "\n");
}

fn push_top_facts(out: &mut String, v: &Verdict, s: &Style)
    ensures
        final(out)@ == old(out)@ + top_facts(*v, *s),
{
    let mut shown = String::new();
    if v.config_valid {
        push_str(&mut shown, s.green);
        push_str(&mut shown, "valid");
    } else {
        push_str(&mut shown, s.red);
        push_str(&mut shown, "INVALID");
    }
    push_str(&mut shown, s.reset);
    assert(shown@ =~= config_display(*v, *s));
    let l = s.kv("Config", 14, shown.as_str());
    push_str(out, l.as_str());
    push_str(out, "\n");
    let l = s.kv("Version", 14, v.version.as_str());
    push_str(out, l.as_str());
    push_str(out, "\n");
    let l = s.kv("Location", 14, v.location.as_str());
    push_str(out, l.as_str());
    push_str(out, "\n\n");
    assert(final(out)@ =~= old(out)@ + top_facts(*v, *s));
}

fn push_top(out: &mut String, v: &Verdict, s: &Style)
    ensures
        final(out)@ == old(out)@ + human_top(*v, *s),
{
    let h = s.header("Deployment Verification");
    push_str(out, h.as_str());
    push_str(out, "\n\n");
    push_top_facts(out, v, s);
    let mut total = crate::ui::fmt_num(v.census.total);
    push_str(&mut total, " total");
    let l = s.kv("Entities", 14, total.as_str());
    push_str(out, l.as_str());
    push_str(out, "\n");
    assert(final(out)@ =~= old(out)@ + human_top(*v, *s));
}

fn autos_text(c: &Census, s: &Style) -> (r: String)
    requires
        c.automations_on <= c.automations,
    ensures
        r@ == autos_summary(*c, *s),
{
    let mut autos = String::new();
    push_decimal(&mut autos, c.automations_on as u64);
    push_str(&mut autos, " on");
    push_str(&mut autos, " ");
    push_str(&mut autos, s.dim);
    push_str(&mut autos, "·");
    push_str(&mut autos, s.reset);
    push_str(&mut autos, " ");
    push_decimal(&mut autos, (c.automations - c.automations_on) as u64);
    push_str(&mut autos, " off");
    push_str(&mut autos, " ");
    push_str(&mut autos, s.dim);
    push_str(&mut autos, "·");
    push_str(&mut autos, s.reset);
    push_str(&mut autos, " ");
    push_decimal(&mut autos, c.automations as u64);
    push_str(&mut autos, " total");
    assert(autos@ =~= autos_summary(*c, *s));
    autos
}

fn push_baseline(out: &mut String, v: &Verdict, s: &Style)
    ensures
        final(out)@ == old(out)@ + baseline_part(*v, *s),
{
    match &v.delta {
        Some(d) => {
            let mut text = owned("unavailable ");
            push_signed(&mut text, delta_entry(d, "unavailable_delta"));
            push_str(&mut text, ", unknown ");
            push_signed(&mut text, delta_entry(d, "unknown_delta"));
            push_str(out, "\n");
            let l = s.kv("Baseline", 14, text.as_str());
            push_str(out, l.as_str());
            push_str(out, "\n");
            assert(final(out)@ =~= old(out)@ + baseline_part(*v, *s));
        },
        None => {
            assert(final(out)@ =~= old(out)@ + baseline_part(*v, *s));
        },
    }
}

#[verifier::rlimit(40)]
fn push_middle(out: &mut String, v: &Verdict, s: &Style)
    requires
        v.census.automations_on <= v.census.automations,
    ensures
        final(out)@ == old(out)@ + human_middle(*v, *s),
{
    let c = &v.census;
    let ghost start = out@;
    if c.unavailable > 0 {
        push_count_line(out, s, c.unavailable, "unavailable");
    }
    let ghost a = out@;
    if c.unknown > 0 {
        push_count_line(out, s, c.unknown, "unknown");
    }
    let ghost b = out@;
    push_str(out, "\n");
    let autos = autos_text(c, s);
    let l = s.kv("Automations", 14, autos.as_str());
    push_str(out, l.as_str());
    push_str(out, "\n");
    push_baseline(out, v, s);
    push_str(out, "\n");
    proof {
        reveal_strlit("");
        assert(final(out)@ =~= start + human_middle(*v, *s));
    }
}

fn push_result(out: &mut String, v: &Verdict, s: &Style)
    ensures
        final(out)@ == old(out)@ + human_result(*v, *s),
{
    if v.issues.len() == 0 {
        push_str(out, "  ");
        let p = s.pass("All checks passed");
        push_str(out, p.as_str());
        push_str(out, "\n");
    } else {
        push_str(out, "  ");
        let f = s.fail("Issues detected");
        push_str(out, f.as_str());
        push_str(out, "\n");
        let ghost mid = out@;
        let ghost items = string_views(v.issues@);
        let mut i: usize = 0;
        proof {
            assert(items.take(0) =~= Seq::<Seq<char>>::empty());
            assert(mid + issue_lines(items.take(0), *s) =~= mid);
        }
        while i < v.issues.len()
            invariant
                i <= v.issues@.len(),
                items == string_views(v.issues@),
                out@ == mid + issue_lines(items.take(i as int), *s),
            decreases v.issues@.len() - i,
        {
            let ghost before = out@;
            push_str(out, "    ");
            let f = s.fail("");
            push_str(out, f.as_str());
            push_str(out, " ");
            push_str(out, v.issues[i].as_str());
            push_str(out, "\n");
            proof {
                reveal_strlit("");
                assert(items.take(i + 1).drop_last() =~= items.take(i as int));
                assert(items.take(i + 1).last() == v.issues@[i as int]@);
                assert(out@ =~= mid + issue_lines(items.take(i + 1), *s));
            }
            i = i + 1;
        }
        proof {
            assert(items.take(v.issues@.len() as int) =~= items);
        }
    }
    proof {
        reveal_strlit("");
        assert(final(out)@ =~= old(out)@ + human_result(*v, *s));
    }
}

fn human_text(v: &Verdict, s: &Style) -> (r: String)
    requires
        v.census.automations_on <= v.census.automations,
    ensures
        r@ == human_report(*v, *s),
{
    let mut out = String::new();
    push_top(&mut out, v, s);
    push_middle(&mut out, v, s);
    push_result(&mut out, v, s);
    assert(out@ =~= human_report(*v, *s));
    out
}

/// The JSON report of a verdict, with the snapshot taken at `timestamp`.
pub open spec fn json_report(v: Verdict, timestamp: Seq<char>) -> JsonV {
    let c = v.census;
    let autos = JsonV::Object(
        seq![
            ("off"@, JsonV::PosInt((c.automations - c.automations_on) as u64)),
            ("on"@, JsonV::PosInt(c.automations_on as u64)),
            ("total"@, JsonV::PosInt(c.automations as u64)),
        ],
    );
    let ents = JsonV::Object(
        seq![
            ("total"@, JsonV::PosInt(c.total as u64)),
            ("unavailable"@, JsonV::PosInt(c.unavailable as u64)),
            ("unknown"@, JsonV::PosInt(c.unknown as u64)),
        ],
    );
    let a = seq![("automations"@, autos)];
    let b = match delta_view(v.delta) {
        Some(d) => a.push(("baseline_delta"@, d)),
        None => a,
    };
    let cc = b.push(("config_valid"@, JsonV::Bool(v.config_valid))).push(("entities"@, ents));
    let d = if v.issues@.len() > 0 {
        cc.push(
            (
                "issues"@,
                JsonV::Array(Seq::new(v.issues@.len(), |i: int| JsonV::Str(v.issues@[i]@))),
            ),
        )
    } else {
        cc
    };
    JsonV::Object(
        d.push(("location"@, JsonV::Str(v.location@))).push(
            ("passed"@, JsonV::Bool(v.issues@.len() == 0)),
        ).push(("snapshot"@, snapshot_doc(c, timestamp))).push(("version"@, JsonV::Str(v.version@))),
    )
}

fn json_doc(v: &Verdict, timestamp: &str) -> (r: Json)
    requires
        v.census.automations_on <= v.census.automations,
        match delta_view(v.delta) {
            Some(d) => depth(d) < 999990,
            None => true,
        },
    ensures
        r@ == json_report(*v, timestamp@),
        depth(r@) < 999999,
{
    let c = &v.census;
    let mut autos: Vec<(String, Json)> = Vec::new();
    assert(entry_views(autos@) =~= Seq::<(Seq<char>, JsonV)>::empty());
    push_entry(&mut autos, "off", Json::count(c.automations - c.automations_on));
    push_entry(&mut autos, "on", Json::count(c.automations_on));
    push_entry(&mut autos, "total", Json::count(c.automations));
    let mut ents: Vec<(String, Json)> = Vec::new();
    assert(entry_views(ents@) =~= Seq::<(Seq<char>, JsonV)>::empty());
    push_entry(&mut ents, "total", Json::count(c.total));
    push_entry(&mut ents, "unavailable", Json::count(c.unavailable));
    push_entry(&mut ents, "unknown", Json::count(c.unknown));
    proof {
        crate::json::lemma_depth_entries_bound(entry_views(autos@), 0);
        crate::json::lemma_depth_entries_bound(entry_views(ents@), 0);
    }
    let autos_doc = Json::object(autos);
    let ents_doc = Json::object(ents);
    let ghost av = autos_doc@;
    let ghost nv = ents_doc@;
    let mut entries: Vec<(String, Json)> = Vec::new();
    assert(entry_views(entries@) =~= Seq::<(Seq<char>, JsonV)>::empty());
    push_entry(&mut entries, "automations", autos_doc);
    let ghost a = seq![("automations"@, av)];
    assert(entry_views(entries@) == a);
    match &v.delta {
        Some(d) => push_entry(&mut entries, "baseline_delta", d.deep_copy()),
        None => {},
    }
    let ghost b = match delta_view(v.delta) {
        Some(d) => a.push(("baseline_delta"@, d)),
        None => a,
    };
    assert(entry_views(entries@) == b);
    push_entry(&mut entries, "config_valid", Json::Bool(v.config_valid));
    push_entry(&mut entries, "entities", ents_doc);
    let ghost cc = b.push(("config_valid"@, JsonV::Bool(v.config_valid))).push(("entities"@, nv));
    assert(entry_views(entries@) == cc);
    if v.issues.len() > 0 {
        let list = Json::strings(&v.issues);
        proof {
            let items = Seq::new(v.issues@.len(), |i: int| JsonV::Str(v.issues@[i]@));
            assert forall|k: int| 0 <= k < items.len() implies depth(#[trigger] items[k]) <= 0 by {}
            crate::json::lemma_depth_items_bound(items, 0);
        }
        push_entry(&mut entries, "issues", list);
    }
    let ghost dd = if v.issues@.len() > 0 {
        cc.push(
            (
                "issues"@,
                JsonV::Array(Seq::new(v.issues@.len(), |i: int| JsonV::Str(v.issues@[i]@))),
            ),
        )
    } else {
        cc
    };
    assert(entry_views(entries@) == dd);
    push_entry(&mut entries, "location", Json::string(v.location.as_str()));
    push_entry(&mut entries, "passed", Json::Bool(v.issues.len() == 0));
    push_entry(&mut entries, "snapshot", snapshot(c, timestamp));
    push_entry(&mut entries, "version", Json::string(v.version.as_str()));
    proof {
        assert(av->Object_0 =~= seq![
            ("off"@, JsonV::PosInt((c.automations - c.automations_on) as u64)),
            ("on"@, JsonV::PosInt(c.automations_on as u64)),
            ("total"@, JsonV::PosInt(c.automations as u64)),
        ]);
        assert(nv->Object_0 =~= seq![
            ("total"@, JsonV::PosInt(c.total as u64)),
            ("unavailable"@, JsonV::PosInt(c.unavailable as u64)),
            ("unknown"@, JsonV::PosInt(c.unknown as u64)),
        ]);
        assert(entry_views(entries@) =~= json_report(*v, timestamp@)->Object_0);
        crate::json::lemma_entry_views(entries@);
        assert forall|k: int| 0 <= k < entry_views(entries@).len() implies depth(
            #[trigger] entry_views(entries@)[k].1,
        ) <= 999990 by {}
        crate::json::lemma_depth_entries_bound(entry_views(entries@), 999990);
    }
    Json::object(entries)
}

/// The report of a verdict in a mode.
pub open spec fn verdict_text(v: Verdict, timestamp: Seq<char>, mode: OutputMode, s: Style) -> Seq<char> {
    match mode {
        OutputMode::Compact => compact_report(v),
        OutputMode::Human => human_report(v, s),
        OutputMode::Json => pretty(json_report(v, timestamp), 0),
    }
}

/// The deployment verification: judges the configuration, the states, the
/// result of the configuration check and the baseline comparison, and
/// renders the verdict (its snapshot taken at `timestamp`).
pub fn check(
    config: &Json,
    states: &[Json],
    config_valid: bool,
    delta: Option<Json>,
    timestamp: &str,
    mode: OutputMode,
    style: &Style,
) -> (r: Result<String, AppError>)
    requires
        match delta_view(delta) {
            Some(d) => depth(d) < 999990,
            None => true,
        },
    ensures
        exists|v: Verdict|
            verdict_ok(v, config@, views(states@), config_valid, delta_view(delta)) && (r matches Ok(
                t,
            ) && t@ == verdict_text(v, timestamp@, mode, *style)),
{
    let v = judge(config, states, config_valid, delta);
    let r = match mode {
        OutputMode::Compact => Ok(compact_text(&v)),
        OutputMode::Human => Ok(human_text(&v, style)),
        OutputMode::Json => {
            let doc = json_doc(&v, timestamp);
            format_output(&doc, mode)
        },
    };
    assert(verdict_ok(v, config@, views(states@), config_valid, delta_view(delta)));
    r
}

/// A deployment passes, with no issue, exactly when its configuration is
/// valid and, where a baseline was compared, the unavailable entities rose
/// by at most five.
pub proof fn deployment_passes(config_valid: bool, delta: Option<JsonV>)
    ensures
        (issues(config_valid, delta).len() == 0) == (config_valid && match unavailable_increase(delta) {
            Some(n) => n <= 5,
            None => true,
        }),
{
}

} // verus!
