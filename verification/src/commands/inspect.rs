//! Triage: the entities that are unavailable or unknown, and how many
//! entities each domain has.
use vstd::prelude::*;
use crate::error::AppError;
use crate::json::{
    depth, entry_views, friendly_name, jget_str, jstr, pretty, push_entry, str_or, views, Json,
    JsonV,
};
use crate::output::{capped_len, format_output, more_line, OutputMode};
use crate::text::{
    before_char, chars_of, decimal, find_char, join, owned, pad_left, pad_right, push_decimal,
    push_padded_left, push_padded_right, push_str, seq_eq, str_eq, string_views,
};
use crate::ui::{byte_len, grouped, Style};

verus! {

// ---------------------------------------------------------------------
// Domains
// ---------------------------------------------------------------------

/// The domain of an entity id: the text before the first `.`, unless it is
/// empty.
pub open spec fn domain_of(entity_id: Seq<char>) -> Option<Seq<char>> {
    let d = before_char(entity_id, '.');
    if d.len() > 0 {
        Some(d)
    } else {
        None
    }
}

/// The domain of an entity id.
pub fn extract_domain(entity_id: &str) -> (r: Option<&str>)
    ensures
        match r {
            Some(d) => domain_of(entity_id@) == Some(d@),
            None => domain_of(entity_id@) is None,
        },
{
    let cs = chars_of(entity_id);
    let end = match find_char(cs.as_slice(), '.') {
        Some(i) => i,
        None => cs.len(),
    };
    if end == 0 {
        return None;
    }
    let d = entity_id.substring_char(0, end);
    assert(d@ =~= before_char(entity_id@, '.'));
    Some(d)
}

/// The number of entities of each domain, domains in the order first met.
pub open spec fn domain_tally(ids: Seq<Seq<char>>) -> Seq<(Seq<char>, nat)>
    decreases ids.len(),
{
    if ids.len() == 0 {
        Seq::empty()
    } else {
        let prev = domain_tally(ids.drop_last());
        match domain_of(ids.last()) {
            Some(d) => bump(prev, d),
            None => prev,
        }
    }
}

/// A tally with one more for `d`: its count raised, or `d` added with 1.
pub open spec fn bump(t: Seq<(Seq<char>, nat)>, d: Seq<char>) -> Seq<(Seq<char>, nat)>
    decreases t.len(),
{
    if t.len() == 0 {
        seq![(d, 1nat)]
    } else if t[0].0 == d {
        seq![(d, t[0].1 + 1)] + t.drop_first()
    } else {
        seq![t[0]] + bump(t.drop_first(), d)
    }
}

/// `e` placed into a list held by descending count: after every entry
/// whose count is at least its own.
pub open spec fn insert_desc(sorted: Seq<(Seq<char>, nat)>, e: (Seq<char>, nat)) -> Seq<(Seq<char>, nat)>
    decreases sorted.len(),
{
    if sorted.len() == 0 {
        seq![e]
    } else if sorted[0].1 >= e.1 {
        seq![sorted[0]] + insert_desc(sorted.drop_first(), e)
    } else {
        seq![e] + sorted
    }
}

/// A tally sorted by descending count, equal counts in their first order
/// (a stable sort).
pub open spec fn by_count(t: Seq<(Seq<char>, nat)>) -> Seq<(Seq<char>, nat)>
    decreases t.len(),
{
    if t.len() == 0 {
        Seq::empty()
    } else {
        insert_desc(by_count(t.drop_last()), t.last())
    }
}

/// The model of a tally.
pub open spec fn tally_view(t: Seq<(String, usize)>) -> Seq<(Seq<char>, nat)> {
    t.map_values(|e: (String, usize)| (e.0@, e.1 as nat))
}

proof fn lemma_bump_len(t: Seq<(Seq<char>, nat)>, d: Seq<char>)
    ensures
        bump(t, d).len() <= t.len() + 1,
    decreases t.len(),
{
    if t.len() > 0 && t[0].0 != d {
        lemma_bump_len(t.drop_first(), d);
    }
}

fn bump_tally(t: &mut Vec<(String, usize)>, d: &str)
    requires
        forall|k: int| 0 <= k < old(t)@.len() ==> #[trigger] old(t)@[k].1 < usize::MAX,
    ensures
        tally_view(final(t)@) == bump(tally_view(old(t)@), d@),
        final(t)@.len() <= old(t)@.len() + 1,
        forall|k: int| 0 <= k < final(t)@.len() ==> #[trigger] final(t)@[k].1 <= usize::MAX,
{
    let ghost tv = tally_view(t@);
    let mut i: usize = 0;
    assert(tv.take(0) + tv.skip(0) =~= tv);
    while i < t.len() && !str_eq(t[i].0.as_str(), d)
        invariant
            i <= t@.len(),
            t@ == old(t)@,
            tv == tally_view(t@),
            forall|k: int| 0 <= k < i ==> t@[k].0@ != d@,
            bump(tv, d@) == tv.take(i as int) + bump(tv.skip(i as int), d@),
        decreases t.len() - i,
    {
        proof {
            let rest = tv.skip(i as int);
            assert(rest[0] == tv[i as int]);
            assert(rest.drop_first() =~= tv.skip(i + 1));
            assert(tv.take(i + 1) =~= tv.take(i as int).push(tv[i as int]));
            assert(tv.take(i as int) + (seq![rest[0]] + bump(rest.drop_first(), d@)) =~= tv.take(
                i + 1,
            ) + bump(tv.skip(i + 1), d@));
        }
        i = i + 1;
    }
    if i < t.len() {
        let n = t[i].1 + 1;
        let name = t[i].0.clone();
        t.set(i, (name, n));
        proof {
            let rest = tv.skip(i as int);
            assert(rest[0] == tv[i as int]);
            assert(rest.drop_first() =~= tv.skip(i + 1));
            assert(tally_view(t@) =~= tv.take(i as int) + (seq![(d@, rest[0].1 + 1)]
                + rest.drop_first()));
        }
    } else {
        t.push((owned(d), 1));
        proof {
            assert(tv.skip(i as int) =~= Seq::<(Seq<char>, nat)>::empty());
            assert(tally_view(t@) =~= tv.take(i as int) + seq![(d@, 1nat)]);
        }
    }
}

fn insert_by_count(sorted: &mut Vec<(String, usize)>, name: String, count: usize)
    ensures
        tally_view(final(sorted)@) == insert_desc(tally_view(old(sorted)@), (name@, count as nat)),
{
    let ghost sv = tally_view(sorted@);
    let ghost e = (name@, count as nat);
    let mut i: usize = 0;
    assert(sv.take(0) + sv.skip(0) =~= sv);
    while i < sorted.len() && sorted[i].1 >= count
        invariant
            i <= sorted@.len(),
            sorted@ == old(sorted)@,
            sv == tally_view(sorted@),
            e == (name@, count as nat),
            insert_desc(sv, e) == sv.take(i as int) + insert_desc(sv.skip(i as int), e),
        decreases sorted.len() - i,
    {
        proof {
            let rest = sv.skip(i as int);
            assert(rest[0] == sv[i as int]);
            assert(rest.drop_first() =~= sv.skip(i + 1));
            assert(sv.take(i as int) + (seq![rest[0]] + insert_desc(rest.drop_first(), e)) =~= sv.take(
                i + 1,
            ) + insert_desc(sv.skip(i + 1), e));
        }
        i = i + 1;
    }
    sorted.insert(i, (name, count));
    proof {
        let rest = sv.skip(i as int);
        if rest.len() > 0 {
            assert(rest[0] == sv[i as int]);
        }
        assert(tally_view(sorted@) =~= sv.take(i as int) + (seq![e] + rest));
    }
}

/// The domains of the entities with their counts, by descending count.
pub open spec fn domain_counts(states: Seq<JsonV>) -> Seq<(Seq<char>, nat)> {
    by_count(
        domain_tally(Seq::new(states.len(), |i: int| str_or(states[i], "entity_id"@, ""@))),
    )
}

// ---------------------------------------------------------------------
// Gathering
// ---------------------------------------------------------------------

/// The summary of a problem entity: its id and friendly name (empty when
/// missing).
pub open spec fn problem_entry(e: JsonV) -> JsonV {
    JsonV::Object(
        seq![
            ("entity_id"@, JsonV::Str(str_or(e, "entity_id"@, ""@))),
            ("friendly_name"@, JsonV::Str(match friendly_name(e) {
                Some(f) => match jstr(f) {
                    Some(s) => s,
                    None => ""@,
                },
                None => ""@,
            })),
        ],
    )
}

/// The summaries of the entities whose state is `st`, in order.
pub open spec fn problems(states: Seq<JsonV>, st: Seq<char>) -> Seq<JsonV>
    decreases states.len(),
{
    if states.len() == 0 {
        Seq::empty()
    } else {
        let prev = problems(states.drop_last(), st);
        if str_or(states.last(), "state"@, ""@) == st {
            prev.push(problem_entry(states.last()))
        } else {
            prev
        }
    }
}

/// What triage gathers from the states.
pub struct Triage {
    pub unavailable: Vec<Json>,
    pub unknown: Vec<Json>,
    pub total: usize,
    pub domains: Vec<(String, usize)>,
}

fn problem_of(e: &Json) -> (r: Json)
    ensures
        r@ == problem_entry(e@),
        depth(r@) == 1,
{
    let id = e.str_or("entity_id", "");
    let name = match e.friendly_name() {
        Some(f) => match f.as_str() {
            Some(s) => s,
            None => "",
        },
        None => "",
    };
    let mut entries: Vec<(String, Json)> = Vec::new();
    assert(entry_views(entries@) =~= Seq::<(Seq<char>, JsonV)>::empty());
    push_entry(&mut entries, "entity_id", Json::string(id));
    push_entry(&mut entries, "friendly_name", Json::string(name));
    proof {
        assert(entry_views(entries@) =~= problem_entry(e@)->Object_0);
        crate::json::lemma_entry_views(entries@);
        crate::json::lemma_depth_entries_bound(entry_views(entries@), 0);
    }
    Json::object(entries)
}

/// Gathers the unavailable and unknown entities and the domain counts.
pub fn triage(states: &[Json]) -> (r: Triage)
    ensures
        views(r.unavailable@) == problems(views(states@), "unavailable"@),
        views(r.unknown@) == problems(views(states@), "unknown"@),
        r.total == states@.len(),
        tally_view(r.domains@) == domain_counts(views(states@)),
        forall|k: int| 0 <= k < r.unavailable@.len() ==> depth(#[trigger] r.unavailable@[k]@) == 1,
        forall|k: int| 0 <= k < r.unknown@.len() ==> depth(#[trigger] r.unknown@[k]@) == 1,
{
    let ghost es = views(states@);
    let ghost ids = Seq::new(es.len(), |i: int| str_or(es[i], "entity_id"@, ""@));
    proof {
        crate::json::lemma_views(states@);
    }
    let mut unavailable: Vec<Json> = Vec::new();
    let mut unknown: Vec<Json> = Vec::new();
    let mut tally: Vec<(String, usize)> = Vec::new();
    let mut i: usize = 0;
    while i < states.len()
        invariant
            i <= states.len(),
            es == views(states@),
            es.len() == states@.len(),
            forall|k: int| 0 <= k < states@.len() ==> #[trigger] es[k] == states@[k]@,
            ids == Seq::new(es.len(), |i: int| str_or(es[i], "entity_id"@, ""@)),
            views(unavailable@) == problems(es.take(i as int), "unavailable"@),
            views(unknown@) == problems(es.take(i as int), "unknown"@),
            forall|k: int| 0 <= k < unavailable@.len() ==> depth(#[trigger] unavailable@[k]@) == 1,
            forall|k: int| 0 <= k < unknown@.len() ==> depth(#[trigger] unknown@[k]@) == 1,
            tally_view(tally@) == domain_tally(ids.take(i as int)),
            tally@.len() <= i,
            forall|k: int| 0 <= k < tally@.len() ==> #[trigger] tally@[k].1 <= i,
        decreases states.len() - i,
    {
        proof {
            reveal_strlit("");
            reveal_strlit("unavailable");
            reveal_strlit("unknown");
            assert("unavailable"@.len() != "unknown"@.len());
            assert(es.take(i + 1).drop_last() =~= es.take(i as int));
            assert(es.take(i + 1).last() == states@[i as int]@);
            assert(ids.take(i + 1).drop_last() =~= ids.take(i as int));
            assert(ids.take(i + 1).last() == ids[i as int]);
        }
        let e = &states[i];
        let id = e.str_or("entity_id", "");
        let state = e.str_or("state", "");
        match extract_domain(id) {
            Some(d) => {
                let ghost before = tally@;
                bump_tally(&mut tally, d);
                proof {
                    lemma_bump_len(tally_view(before), d@);
                    assert forall|k: int| 0 <= k < tally@.len() implies #[trigger] tally@[k].1 <= i + 1 by {
                        lemma_bump_bound(tally_view(before), d@, i as nat, k);
                        assert(tally_view(tally@)[k] == (tally@[k].0@, tally@[k].1 as nat));
                    }
                }
            },
            None => {},
        }
        if str_eq(state, "unavailable") {
            let ghost old_v = unavailable@;
            unavailable.push(problem_of(e));
            proof {
                assert(unavailable@.drop_last() =~= old_v);
            }
        } else if str_eq(state, "unknown") {
            let ghost old_v = unknown@;
            unknown.push(problem_of(e));
            proof {
                assert(unknown@.drop_last() =~= old_v);
            }
        }
        i = i + 1;
    }
    proof {
        assert(es.take(states@.len() as int) =~= es);
        assert(ids.take(states@.len() as int) =~= ids);
    }
    let mut domains: Vec<(String, usize)> = Vec::new();
    let ghost tv = tally_view(tally@);
    let mut j: usize = 0;
    assert(tally_view(domains@) =~= by_count(tv.take(0)));
    while j < tally.len()
        invariant
            j <= tally@.len(),
            tv == tally_view(tally@),
            tally_view(domains@) == by_count(tv.take(j as int)),
        decreases tally.len() - j,
    {
        proof {
            assert(tv.take(j + 1).drop_last() =~= tv.take(j as int));
            assert(tv.take(j + 1).last() == tv[j as int]);
        }
        insert_by_count(&mut domains, tally[j].0.clone(), tally[j].1);
        j = j + 1;
    }
    proof {
        assert(tv.take(tally@.len() as int) =~= tv);
    }
    Triage { unavailable, unknown, total: states.len(), domains }
}

proof fn lemma_bump_bound(t: Seq<(Seq<char>, nat)>, d: Seq<char>, b: nat, k: int)
    requires
        forall|j: int| 0 <= j < t.len() ==> #[trigger] t[j].1 <= b,
        0 <= k < bump(t, d).len(),
    ensures
        bump(t, d)[k].1 <= b + 1,
    decreases t.len(),
{
    if t.len() > 0 && t[0].0 != d && k > 0 {
        assert forall|j: int| 0 <= j < t.drop_first().len() implies #[trigger] t.drop_first()[j].1 <= b by {
            assert(t.drop_first()[j] == t[j + 1]);
        }
        lemma_bump_bound(t.drop_first(), d, b, k - 1);
    } else if t.len() > 0 && t[0].0 == d && k > 0 {
        assert(bump(t, d)[k] == t[k]);
    }
}

// ---------------------------------------------------------------------
// The report
// ---------------------------------------------------------------------

/// The compact line of a problem entity: id and friendly name.
pub open spec fn problem_line(e: JsonV) -> Seq<char> {
    str_or(e, "entity_id"@, ""@) + "\t"@ + str_or(e, "friendly_name"@, ""@)
}

/// The compact section of the problem entities of one kind: a heading
/// with their number, the first `limit` of them, and how many more there
/// are; nothing when there are none.
pub open spec fn problem_section(name: Seq<char>, es: Seq<JsonV>, limit: Option<usize>) -> Seq<Seq<char>> {
    if es.len() == 0 {
        Seq::empty()
    } else {
        let cap = capped_len(es.len(), limit);
        let head = seq!["--- "@ + name + " ("@ + decimal(es.len()) + ") ---"@];
        let body = Seq::new(cap, |i: int| problem_line(es[i]));
        let more = if es.len() > cap {
            seq![more_line((es.len() - cap) as nat)]
        } else {
            Seq::empty()
        };
        head + body + more
    }
}

/// The compact triage report.
pub open spec fn compact_triage(total: nat, un: Seq<JsonV>, uk: Seq<JsonV>, limit: Option<usize>) -> Seq<char> {
    join(
        seq!["total:"@ + decimal(total) + "\tunavailable:"@ + decimal(un.len()) + "\tunknown:"@ + decimal(uk.len())]
            + problem_section("unavailable"@, un, limit) + problem_section("unknown"@, uk, limit),
        "\n"@,
    )
}

/// The widest domain name in bytes.
pub open spec fn widest(domains: Seq<(Seq<char>, nat)>) -> nat
    decreases domains.len(),
{
    if domains.len() == 0 {
        0
    } else {
        let a = widest(domains.drop_last());
        let b = byte_len(domains.last().0);
        if a >= b {
            a
        } else {
            b
        }
    }
}

/// The width of the domain column: the widest name (10 when there is
/// none), at least 6.
pub open spec fn name_width(domains: Seq<(Seq<char>, nat)>) -> nat {
    let w = if domains.len() == 0 {
        10
    } else {
        widest(domains)
    };
    if w >= 6 {
        w
    } else {
        6
    }
}

/// The rows of the domain table.
pub open spec fn domain_rows(domains: Seq<(Seq<char>, nat)>, w: nat) -> Seq<char>
    decreases domains.len(),
{
    if domains.len() == 0 {
        Seq::empty()
    } else {
        domain_rows(domains.drop_last(), w) + "  "@ + pad_right(domains.last().0, w) + "  "@ + pad_left(
            grouped(decimal(domains.last().1)),
            6,
        ) + "\n"@
    }
}

/// The human triage report: the domain table, then the problem counts or
/// a tick when there are none.
pub open spec fn human_triage(total: nat, un: nat, uk: nat, domains: Seq<(Seq<char>, nat)>, s: Style) -> Seq<char> {
    let w = name_width(domains);
    triage_head(total, w, s) + domain_rows(domains, w) + triage_tail(un, uk, s)
}

/// The JSON triage report: the domain counts, the total, and the problem
/// entities (at most `limit` of each kind) with their numbers.
pub open spec fn triage_doc(total: nat, un: Seq<JsonV>, uk: Seq<JsonV>, domains: Seq<(Seq<char>, nat)>, limit: Option<usize>) -> JsonV {
    JsonV::Object(
        seq![
            ("domains"@, JsonV::Array(Seq::new(domains.len(), |i: int| JsonV::Object(
                seq![
                    ("count"@, JsonV::PosInt(domains[i].1 as u64)),
                    ("domain"@, JsonV::Str(domains[i].0)),
                ],
            )))),
            ("total_entities"@, JsonV::PosInt(total as u64)),
            ("unavailable"@, JsonV::Array(un.take(capped_len(un.len(), limit) as int))),
            ("unavailable_count"@, JsonV::PosInt(un.len() as u64)),
            ("unknown"@, JsonV::Array(uk.take(capped_len(uk.len(), limit) as int))),
            ("unknown_count"@, JsonV::PosInt(uk.len() as u64)),
        ],
    )
}

/// The triage report in a mode.
pub open spec fn triage_text(
    un: Seq<JsonV>,
    uk: Seq<JsonV>,
    total: nat,
    domains: Seq<(Seq<char>, nat)>,
    mode: OutputMode,
    limit: Option<usize>,
    s: Style,
) -> Seq<char> {
    match mode {
        OutputMode::Compact => compact_triage(total, un, uk, limit),
        OutputMode::Human => human_triage(total, un.len(), uk.len(), domains, s),
        OutputMode::Json => pretty(triage_doc(total, un, uk, domains, limit), 0),
    }
}

fn push_section(lines: &mut Vec<String>, name: &str, es: &[Json], limit: Option<usize>)
    ensures
        string_views(final(lines)@) == string_views(old(lines)@) + problem_section(
            name@,
            views(es@),
            limit,
        ),
{
    let ghost vs = views(es@);
    let ghost start = string_views(lines@);
    proof {
        crate::json::lemma_views(es@);
    }
    if es.len() == 0 {
        assert(string_views(lines@) =~= start + problem_section(name@, vs, limit));
        return;
    }
    let cap: usize = match limit {
        Some(c) => if c < es.len() {
            c
        } else {
            es.len()
        },
        None => es.len(),
    };
    let mut head = owned("--- ");
    push_str(&mut head, name);
    push_str(&mut head, " (");
    push_decimal(&mut head, es.len() as u64);
    push_str(&mut head, ") ---");
    lines.push(head);
    let ghost with_head = string_views(lines@);
    assert(with_head =~= start.push(head@));
    let mut i: usize = 0;
    while i < cap
        invariant
            i <= cap <= es@.len(),
            vs == views(es@),
            vs.len() == es@.len(),
            forall|k: int| 0 <= k < es@.len() ==> #[trigger] vs[k] == es@[k]@,
            string_views(lines@) == with_head + Seq::new(i as nat, |k: int| problem_line(vs[k])),
        decreases cap - i,
    {
        let e = &es[i];
        let mut l = owned(e.str_or("entity_id", ""));
        push_str(&mut l, "\t");
        push_str(&mut l, e.str_or("friendly_name", ""));
        let ghost before = string_views(lines@);
        proof {
            reveal_strlit("");
            assert(vs[i as int] == es@[i as int]@);
            assert(l@ == problem_line(vs[i as int]));
        }
        lines.push(l);
        proof {
            assert(string_views(lines@) =~= before.push(l@));
            assert(string_views(lines@) =~= with_head + Seq::new((i + 1) as nat, |k: int| problem_line(vs[k])));
        }
        i = i + 1;
    }
    let ghost body = string_views(lines@);
    if es.len() > cap {
        let mut more = owned("[+");
        push_decimal(&mut more, (es.len() - cap) as u64);
        push_str(&mut more, " more]");
        lines.push(more);
        assert(string_views(lines@) =~= body.push(more@));
    }
    proof {
        assert(cap == capped_len(vs.len(), limit));
        assert(string_views(lines@) =~= start + problem_section(name@, vs, limit));
    }
}

fn compact_triage_text(unavailable: &[Json], unknown: &[Json], total: usize, limit: Option<usize>) -> (r: String)
    ensures
        r@ == compact_triage(total as nat, views(unavailable@), views(unknown@), limit),
{
    proof {
        crate::json::lemma_views(unavailable@);
        crate::json::lemma_views(unknown@);
    }
    let mut lines: Vec<String> = Vec::new();
    let mut head = owned("total:");
    push_decimal(&mut head, total as u64);
    push_str(&mut head, "\tunavailable:");
    push_decimal(&mut head, unavailable.len() as u64);
    push_str(&mut head, "\tunknown:");
    push_decimal(&mut head, unknown.len() as u64);
    lines.push(head);
    assert(string_views(lines@) =~= seq![head@]);
    push_section(&mut lines, "unavailable", unavailable, limit);
    push_section(&mut lines, "unknown", unknown, limit);
    crate::text::join_lines(&lines)
}

fn widest_of(domains: &[(String, usize)]) -> (r: usize)
    ensures
        r == widest(tally_view(domains@)),
{
    let ghost tv = tally_view(domains@);
    let mut w: usize = 0;
    let mut i: usize = 0;
    while i < domains.len()
        invariant
            i <= domains@.len(),
            tv == tally_view(domains@),
            w == widest(tv.take(i as int)),
        decreases domains.len() - i,
    {
        proof {
            assert(tv.take(i + 1).drop_last() =~= tv.take(i as int));
            assert(tv.take(i + 1).last() == tv[i as int]);
        }
        let b = domains[i].0.as_str().len();
        if b > w {
            w = b;
        }
        i = i + 1;
    }
    proof {
        assert(tv.take(domains@.len() as int) =~= tv);
    }
    w
}

/// The title of the human triage report.
pub open spec fn triage_title(total: nat, s: Style) -> Seq<char> {
    s.bold@ + "◆ "@ + "System Health \u{2014} "@ + grouped(decimal(total)) + " entities"@ + s.reset@
        + "\n\n"@
}

/// The header of the domain table and the rule under it.
pub open spec fn triage_columns(w: nat, s: Style) -> Seq<char> {
    "  "@ + s.dim@ + pad_right("Domain"@, w) + "  "@ + pad_left("Count"@, 6) + s.reset@ + "\n"@ + "  "@
        + s.dim@ + crate::text::repeat_char('─', rule_width(w)) + s.reset@ + "\n"@
}

/// The head of the human triage report, up to the domain rows.
pub open spec fn triage_head(total: nat, w: nat, s: Style) -> Seq<char> {
    triage_title(total, s) + triage_columns(w, s)
}

/// The width of the rule under the domain table header: the name column
/// and nine more, as far as a `usize` reaches.
pub open spec fn rule_width(w: nat) -> nat {
    if w + 9 <= usize::MAX {
        w + 9
    } else {
        usize::MAX as nat
    }
}

/// The tail of the human triage report, after the domain rows.
pub open spec fn triage_tail(un: nat, uk: nat, s: Style) -> Seq<char> {
    "\n"@ + (if un > 0 {
        "  "@ + s.yellow@ + grouped(decimal(un)) + " unavailable"@ + s.reset@ + "\n"@
    } else {
        Seq::empty()
    }) + (if uk > 0 {
        "  "@ + s.yellow@ + grouped(decimal(uk)) + " unknown"@ + s.reset@ + "\n"@
    } else {
        Seq::empty()
    }) + (if un == 0 && uk == 0 {
        "  "@ + s.green@ + "✓"@ + s.reset@ + " "@ + "All entities healthy"@ + "\n"@
    } else {
        Seq::empty()
    })
}

fn push_triage_title(out: &mut String, total: usize, s: &Style)
    ensures
        final(out)@ == old(out)@ + triage_title(total as nat, *s),
{
    let mut title = owned("System Health \u{2014} ");
    let t = crate::ui::fmt_num(total);
    push_str(&mut title, t.as_str());
    push_str(&mut title, " entities");
    let h = s.header(title.as_str());
    push_str(out, h.as_str());
    push_str(out, "\n\n");
    assert(final(out)@ =~= old(out)@ + triage_title(total as nat, *s));
}

fn push_triage_columns(out: &mut String, w: usize, s: &Style)
    ensures
        final(out)@ == old(out)@ + triage_columns(w as nat, *s),
{
    push_str(out, "  ");
    push_str(out, s.dim);
    push_padded_right(out, chars_of("Domain").as_slice(), w);
    push_str(out, "  ");
    push_padded_left(out, chars_of("Count").as_slice(), 6);
    push_str(out, s.reset);
    push_str(out, "\n");
    push_str(out, "  ");
    let sep = s.separator(if w <= usize::MAX - 9 {
        w + 9
    } else {
        usize::MAX
    });
    push_str(out, sep.as_str());
    push_str(out, "\n");
    assert(final(out)@ =~= old(out)@ + triage_columns(w as nat, *s));
}

fn push_triage_head(out: &mut String, total: usize, w: usize, s: &Style)
    ensures
        final(out)@ == old(out)@ + triage_head(total as nat, w as nat, *s),
{
    push_triage_title(out, total, s);
    push_triage_columns(out, w, s);
    assert(final(out)@ =~= old(out)@ + triage_head(total as nat, w as nat, *s));
}

#[verifier::rlimit(40)]
fn push_triage_tail(out: &mut String, un: usize, uk: usize, s: &Style)
    ensures
        final(out)@ == old(out)@ + triage_tail(un as nat, uk as nat, *s),
{
    push_str(out, "\n");
    if un > 0 {
        push_str(out, "  ");
        push_str(out, s.yellow);
        let n = crate::ui::fmt_num(un);
        push_str(out, n.as_str());
        push_str(out, " unavailable");
        push_str(out, s.reset);
        push_str(out, "\n");
    }
    if uk > 0 {
        push_str(out, "  ");
        push_str(out, s.yellow);
        let n = crate::ui::fmt_num(uk);
        push_str(out, n.as_str());
        push_str(out, " unknown");
        push_str(out, s.reset);
        push_str(out, "\n");
    }
    if un == 0 && uk == 0 {
        push_str(out, "  ");
        let p = s.pass("All entities healthy");
        push_str(out, p.as_str());
        push_str(out, "\n");
    }
    proof {
        reveal_strlit("");
        assert(final(out)@ =~= old(out)@ + triage_tail(un as nat, uk as nat, *s));
    }
}

fn human_triage_text(un: usize, uk: usize, total: usize, domains: &[(String, usize)], s: &Style) -> (r: String)
    ensures
        r@ == human_triage(total as nat, un as nat, uk as nat, tally_view(domains@), *s),
{
    let ghost tv = tally_view(domains@);
    let wide = widest_of(domains);
    let w0: usize = if domains.len() == 0 {
        10
    } else {
        wide
    };
    let w: usize = if w0 >= 6 {
        w0
    } else {
        6
    };
    assert(w == name_width(tv));
    let mut out = String::new();
    push_triage_head(&mut out, total, w, s);
    let ghost head = out@;
    let mut i: usize = 0;
    assert(tv.take(0) =~= Seq::<(Seq<char>, nat)>::empty());
    while i < domains.len()
        invariant
            i <= domains@.len(),
            tv == tally_view(domains@),
            out@ == head + domain_rows(tv.take(i as int), w as nat),
        decreases domains.len() - i,
    {
        proof {
            assert(tv.take(i + 1).drop_last() =~= tv.take(i as int));
            assert(tv.take(i + 1).last() == tv[i as int]);
        }
        push_str(&mut out, "  ");
        push_padded_right(&mut out, chars_of(domains[i].0.as_str()).as_slice(), w);
        push_str(&mut out, "  ");
        let c = crate::ui::fmt_num(domains[i].1);
        push_padded_left(&mut out, chars_of(c.as_str()).as_slice(), 6);
        push_str(&mut out, "\n");
        i = i + 1;
    }
    proof {
        assert(tv.take(domains@.len() as int) =~= tv);
    }
    push_triage_tail(&mut out, un, uk, s);
    assert(out@ =~= human_triage(total as nat, un as nat, uk as nat, tv, *s));
    out
}



fn domain_doc(domains: &[(String, usize)]) -> (r: Json)
    ensures
        r@ == JsonV::Array(Seq::new(domains@.len(), |i: int| JsonV::Object(
            seq![
                ("count"@, JsonV::PosInt(tally_view(domains@)[i].1 as u64)),
                ("domain"@, JsonV::Str(tally_view(domains@)[i].0)),
            ],
        ))),
        depth(r@) <= 2,
{
    let ghost tv = tally_view(domains@);
    let mut items: Vec<Json> = Vec::new();
    let mut i: usize = 0;
    while i < domains.len()
        invariant
            i <= domains@.len(),
            tv == tally_view(domains@),
            items@.len() == i,
            forall|k: int| 0 <= k < i ==> #[trigger] items@[k]@ == JsonV::Object(
                seq![("count"@, JsonV::PosInt(tv[k].1 as u64)), ("domain"@, JsonV::Str(tv[k].0))],
            ),
        decreases domains.len() - i,
    {
        let mut e: Vec<(String, Json)> = Vec::new();
        assert(entry_views(e@) =~= Seq::<(Seq<char>, JsonV)>::empty());
        push_entry(&mut e, "count", Json::count(domains[i].1));
        push_entry(&mut e, "domain", Json::string(domains[i].0.as_str()));
        proof {
            assert(entry_views(e@) =~= seq![
                ("count"@, JsonV::PosInt(tv[i as int].1 as u64)),
                ("domain"@, JsonV::Str(tv[i as int].0)),
            ]);
        }
        items.push(Json::object(e));
        i = i + 1;
    }
    proof {
        crate::json::lemma_views(items@);
        let want = Seq::new(domains@.len(), |i: int| JsonV::Object(
            seq![("count"@, JsonV::PosInt(tv[i].1 as u64)), ("domain"@, JsonV::Str(tv[i].0))],
        ));
        assert(views(items@) =~= want);
        assert forall|k: int| 0 <= k < want.len() implies depth(#[trigger] want[k]) <= 1 by {
            let es = seq![("count"@, JsonV::PosInt(tv[k].1 as u64)), ("domain"@, JsonV::Str(tv[k].0))];
            crate::json::lemma_depth_entries_bound(es, 0);
        }
        crate::json::lemma_depth_items_bound(want, 1);
    }
    Json::array(items)
}

fn json_triage(unavailable: &[Json], unknown: &[Json], total: usize, domains: &[(String, usize)], limit: Option<usize>) -> (r: Json)
    requires
        crate::output::shallow(views(unavailable@), 999990),
        crate::output::shallow(views(unknown@), 999990),
    ensures
        r@ == triage_doc(total as nat, views(unavailable@), views(unknown@), tally_view(domains@), limit),
        depth(r@) < 999999,
{
    proof {
        crate::json::lemma_views(unavailable@);
        crate::json::lemma_views(unknown@);
    }
    let cu: usize = match limit {
        Some(c) => if c < unavailable.len() {
            c
        } else {
            unavailable.len()
        },
        None => unavailable.len(),
    };
    let ck: usize = match limit {
        Some(c) => if c < unknown.len() {
            c
        } else {
            unknown.len()
        },
        None => unknown.len(),
    };
    let shown_u = crate::output::copy_prefix(unavailable, cu);
    let shown_k = crate::output::copy_prefix(unknown, ck);
    proof {
        assert forall|k: int| 0 <= k < views(shown_u@).len() implies depth(#[trigger] views(shown_u@)[k]) <= 999990 by {
            assert(views(shown_u@)[k] == views(unavailable@)[k]);
        }
        assert forall|k: int| 0 <= k < views(shown_k@).len() implies depth(#[trigger] views(shown_k@)[k]) <= 999990 by {
            assert(views(shown_k@)[k] == views(unknown@)[k]);
        }
        crate::json::lemma_depth_items_bound(views(shown_u@), 999990);
        crate::json::lemma_depth_items_bound(views(shown_k@), 999990);
    }
    let mut e: Vec<(String, Json)> = Vec::new();
    assert(entry_views(e@) =~= Seq::<(Seq<char>, JsonV)>::empty());
    push_entry(&mut e, "domains", domain_doc(domains));
    push_entry(&mut e, "total_entities", Json::count(total));
    push_entry(&mut e, "unavailable", Json::array(shown_u));
    push_entry(&mut e, "unavailable_count", Json::count(unavailable.len()));
    push_entry(&mut e, "unknown", Json::array(shown_k));
    push_entry(&mut e, "unknown_count", Json::count(unknown.len()));
    proof {
        assert(entry_views(e@) =~= triage_doc(
            total as nat,
            views(unavailable@),
            views(unknown@),
            tally_view(domains@),
            limit,
        )->Object_0);
        crate::json::lemma_entry_views(e@);
        crate::json::lemma_depth_entries_bound(entry_views(e@), 999991);
    }
    Json::object(e)
}

/// Renders the triage report: the problem entities (at most `limit` of
/// each kind in the lists), the number of entities and the domain counts.
pub fn format_triage_output(
    unavailable: &[Json],
    unknown: &[Json],
    total_entities: usize,
    domains: &[(String, usize)],
    mode: OutputMode,
    limit: Option<usize>,
    style: &Style,
) -> (r: Result<String, AppError>)
    requires
        crate::output::shallow(views(unavailable@), 999990),
        crate::output::shallow(views(unknown@), 999990),
    ensures
        r matches Ok(t) && t@ == triage_text(
            views(unavailable@),
            views(unknown@),
            total_entities as nat,
            tally_view(domains@),
            mode,
            limit,
            *style,
        ),
{
    proof {
        crate::json::lemma_views(unavailable@);
        crate::json::lemma_views(unknown@);
    }
    match mode {
        OutputMode::Compact => Ok(compact_triage_text(unavailable, unknown, total_entities, limit)),
        OutputMode::Human => Ok(
            human_triage_text(unavailable.len(), unknown.len(), total_entities, domains, style),
        ),
        OutputMode::Json => {
            let doc = json_triage(unavailable, unknown, total_entities, domains, limit);
            format_output(&doc, mode)
        },
    }
}

// ---------------------------------------------------------------------
// Laws of triage
// ---------------------------------------------------------------------

/// No entity is both unavailable and unknown: the two problem lists
/// together hold at most as many entries as there are entities.
pub proof fn problems_are_disjoint(states: Seq<JsonV>)
    ensures
        problems(states, "unavailable"@).len() + problems(states, "unknown"@).len() <= states.len(),
    decreases states.len(),
{
    reveal_strlit("unavailable");
    reveal_strlit("unknown");
    if states.len() > 0 {
        problems_are_disjoint(states.drop_last());
        assert("unavailable"@ != "unknown"@) by {
            assert("unavailable"@.len() != "unknown"@.len());
        }
    }
}

/// Counts held by descending count.
pub open spec fn descending(t: Seq<(Seq<char>, nat)>) -> bool {
    forall|i: int, j: int| 0 <= i < j < t.len() ==> (#[trigger] t[i]).1 >= (#[trigger] t[j]).1
}

/// The sum of the counts of a tally.
pub open spec fn tally_sum(t: Seq<(Seq<char>, nat)>) -> nat
    decreases t.len(),
{
    if t.len() == 0 {
        0
    } else {
        t[0].1 + tally_sum(t.drop_first())
    }
}

/// The number of ids that have a domain.
pub open spec fn with_domain(ids: Seq<Seq<char>>) -> nat
    decreases ids.len(),
{
    if ids.len() == 0 {
        0
    } else {
        with_domain(ids.drop_last()) + if domain_of(ids.last()) is Some {
            1nat
        } else {
            0nat
        }
    }
}

proof fn lemma_insert_desc_bound(sorted: Seq<(Seq<char>, nat)>, e: (Seq<char>, nat), b: nat)
    requires
        forall|i: int| 0 <= i < sorted.len() ==> (#[trigger] sorted[i]).1 <= b,
        e.1 <= b,
    ensures
        forall|i: int| 0 <= i < insert_desc(sorted, e).len() ==> (#[trigger] insert_desc(sorted, e)[i]).1 <= b,
    decreases sorted.len(),
{
    let r = insert_desc(sorted, e);
    if sorted.len() > 0 && sorted[0].1 >= e.1 {
        let rest = sorted.drop_first();
        assert forall|i: int| 0 <= i < rest.len() implies (#[trigger] rest[i]).1 <= b by {
            assert(rest[i] == sorted[i + 1]);
        }
        lemma_insert_desc_bound(rest, e, b);
        assert forall|i: int| 0 <= i < r.len() implies (#[trigger] r[i]).1 <= b by {
            if i > 0 {
                assert(r[i] == insert_desc(rest, e)[i - 1]);
            }
        }
    } else if sorted.len() > 0 {
        assert forall|i: int| 0 <= i < r.len() implies (#[trigger] r[i]).1 <= b by {
            if i > 0 {
                assert(r[i] == sorted[i - 1]);
            }
        }
    }
}

proof fn lemma_insert_desc(sorted: Seq<(Seq<char>, nat)>, e: (Seq<char>, nat))
    requires
        descending(sorted),
    ensures
        descending(insert_desc(sorted, e)),
        tally_sum(insert_desc(sorted, e)) == tally_sum(sorted) + e.1,
    decreases sorted.len(),
{
    let r = insert_desc(sorted, e);
    if sorted.len() == 0 {
        assert(r.drop_first().len() == 0);
        assert(tally_sum(r.drop_first()) == 0);
    } else if sorted[0].1 >= e.1 {
        let rest = sorted.drop_first();
        assert(descending(rest)) by {
            assert forall|i: int, j: int| 0 <= i < j < rest.len() implies (#[trigger] rest[i]).1 >= (#[trigger] rest[j]).1 by {
                assert(rest[i] == sorted[i + 1]);
                assert(rest[j] == sorted[j + 1]);
            }
        }
        lemma_insert_desc(rest, e);
        assert forall|i: int| 0 <= i < rest.len() implies (#[trigger] rest[i]).1 <= sorted[0].1 by {
            assert(rest[i] == sorted[i + 1]);
        }
        lemma_insert_desc_bound(rest, e, sorted[0].1);
        let ri = insert_desc(rest, e);
        assert(r.drop_first() =~= ri);
        assert forall|i: int, j: int| 0 <= i < j < r.len() implies (#[trigger] r[i]).1 >= (#[trigger] r[j]).1 by {
            assert(r[j] == ri[j - 1]);
            if i > 0 {
                assert(r[i] == ri[i - 1]);
            }
        }
    } else {
        assert(r.drop_first() =~= sorted);
        assert forall|i: int, j: int| 0 <= i < j < r.len() implies (#[trigger] r[i]).1 >= (#[trigger] r[j]).1 by {
            assert(r[j] == sorted[j - 1]);
            if i > 0 {
                assert(r[i] == sorted[i - 1]);
            } else if j > 1 {
                assert(sorted[0].1 >= sorted[j - 1].1);
            }
        }
    }
}

proof fn lemma_by_count(t: Seq<(Seq<char>, nat)>)
    ensures
        descending(by_count(t)),
        tally_sum(by_count(t)) == tally_sum(t),
    decreases t.len(),
{
    if t.len() > 0 {
        lemma_by_count(t.drop_last());
        lemma_insert_desc(by_count(t.drop_last()), t.last());
        lemma_tally_sum_push(t.drop_last(), t.last());
        assert(t.drop_last().push(t.last()) =~= t);
    }
}

proof fn lemma_tally_sum_push(t: Seq<(Seq<char>, nat)>, e: (Seq<char>, nat))
    ensures
        tally_sum(t.push(e)) == tally_sum(t) + e.1,
    decreases t.len(),
{
    if t.len() == 0 {
        assert(t.push(e).drop_first().len() == 0);
        assert(tally_sum(t.push(e).drop_first()) == 0);
    } else {
        lemma_tally_sum_push(t.drop_first(), e);
        assert(t.push(e).drop_first() =~= t.drop_first().push(e));
    }
}

proof fn lemma_bump_sum(t: Seq<(Seq<char>, nat)>, d: Seq<char>)
    ensures
        tally_sum(bump(t, d)) == tally_sum(t) + 1,
    decreases t.len(),
{
    let r = bump(t, d);
    if t.len() == 0 {
        assert(r.drop_first().len() == 0);
        assert(tally_sum(r.drop_first()) == 0);
    } else if t[0].0 == d {
        assert(r.drop_first() =~= t.drop_first());
    } else {
        lemma_bump_sum(t.drop_first(), d);
        assert(r.drop_first() =~= bump(t.drop_first(), d));
    }
}

proof fn lemma_tally_sum(ids: Seq<Seq<char>>)
    ensures
        tally_sum(domain_tally(ids)) == with_domain(ids),
    decreases ids.len(),
{
    if ids.len() > 0 {
        lemma_tally_sum(ids.drop_last());
        if let Some(d) = domain_of(ids.last()) {
            lemma_bump_sum(domain_tally(ids.drop_last()), d);
        }
    }
}

/// The domain counts come by descending count and account for every
/// entity whose id has a domain exactly once.
pub proof fn domain_counts_cover_entities(states: Seq<JsonV>)
    ensures
        descending(domain_counts(states)),
        tally_sum(domain_counts(states)) == with_domain(
            Seq::new(states.len(), |i: int| str_or(states[i], "entity_id"@, ""@)),
        ),
{
    let ids = Seq::new(states.len(), |i: int| str_or(states[i], "entity_id"@, ""@));
    lemma_by_count(domain_tally(ids));
    lemma_tally_sum(ids);
}

} // verus!
