//! The error log: structured entries turned into lines, filtered and cut
//! to the last few.
use vstd::prelude::*;
use crate::error::AppError;
use crate::json::{depth, entry_views, jget, jstr, ju64, pretty, push_entry, str_or, views, Json, JsonV};
use crate::output::{format_output, rendered, OutputMode};
use crate::text::{decimal, join, owned, push_decimal, push_str, string_views};
use crate::validation::{regex_matches, safe_regex, safe_regex_outcome, Pattern};

verus! {

/// The first message of a log entry, or nothing.
pub open spec fn first_message(entry: JsonV) -> Seq<char> {
    match jget(entry, "message"@) {
        Some(JsonV::Array(a)) => if a.len() > 0 {
            match jstr(a[0]) {
                Some(m) => m,
                None => ""@,
            }
        } else {
            ""@
        },
        _ => ""@,
    }
}

/// How many times an entry occurred (1 when not said).
pub open spec fn occurrences(entry: JsonV) -> u64 {
    match jget(entry, "count"@) {
        Some(c) => match ju64(c) {
            Some(n) => n,
            None => 1,
        },
        None => 1,
    }
}

/// The line of a log entry: level, logger name in parentheses, the count
/// when above one, and the first message.
pub open spec fn log_line(entry: JsonV) -> Seq<char> {
    let level = str_or(entry, "level"@, "UNKNOWN"@);
    let name = str_or(entry, "name"@, "unknown"@);
    let n = occurrences(entry);
    if n > 1 {
        level + " ("@ + name + ") ["@ + decimal(n as nat) + "x]: "@ + first_message(entry)
    } else {
        level + " ("@ + name + "): "@ + first_message(entry)
    }
}

/// The line of a log entry from `system_log/list`.
pub fn format_log_entry(entry: &Json) -> (r: String)
    ensures
        r@ == log_line(entry@),
{
    proof {
        reveal_strlit("");
    }
    let level = entry.str_or("level", "UNKNOWN");
    let name = entry.str_or("name", "unknown");
    let message = match entry.get("message") {
        Some(m) => match m.as_array() {
            Some(a) => {
                proof {
                    crate::json::lemma_views(a@);
                }
                if a.len() > 0 {
                    match a[0].as_str() {
                        Some(t) => t,
                        None => "",
                    }
                } else {
                    ""
                }
            },
            None => "",
        },
        None => "",
    };
    assert(message@ == first_message(entry@));
    let count = match entry.get("count") {
        Some(c) => match c.as_u64() {
            Some(n) => n,
            None => 1,
        },
        None => 1,
    };
    let mut out = owned(level);
    push_str(&mut out, " (");
    push_str(&mut out, name);
    if count > 1 {
        push_str(&mut out, ") [");
        push_decimal(&mut out, count);
        push_str(&mut out, "x]: ");
    } else {
        push_str(&mut out, "): ");
    }
    push_str(&mut out, message);
    out
}

/// The lines of a list of log entries.
pub fn format_ws_entries(entries: &[Json]) -> (r: Vec<String>)
    ensures
        string_views(r@) == Seq::new(entries@.len(), |i: int| log_line(entries@[i]@)),
{
    let mut out: Vec<String> = Vec::new();
    let mut i: usize = 0;
    while i < entries.len()
        invariant
            i <= entries@.len(),
            out@.len() == i,
            forall|k: int| 0 <= k < i ==> #[trigger] out@[k]@ == log_line(entries@[k]@),
        decreases entries.len() - i,
    {
        out.push(format_log_entry(&entries[i]));
        i = i + 1;
    }
    assert(string_views(out@) =~= Seq::new(entries@.len(), |i: int| log_line(entries@[i]@)));
    out
}

/// The entries of the answer to `system_log/list`, which must be an array.
pub fn log_entries(result: &Json) -> (r: Result<Vec<Json>, AppError>)
    ensures
        match result@ {
            JsonV::Array(a) => r matches Ok(v) && views(v@) == a,
            _ => r matches Err(AppError::Other(m)) && m@
                == "system_log/list did not return an array"@,
        },
{
    match result.as_array() {
        Some(a) => {
            let mut out: Vec<Json> = Vec::new();
            let mut i: usize = 0;
            proof {
                crate::json::lemma_views(a@);
            }
            while i < a.len()
                invariant
                    i <= a@.len(),
                    views(a@).len() == a@.len(),
                    forall|k: int| 0 <= k < a@.len() ==> #[trigger] views(a@)[k] == a@[k]@,
                    out@.len() == i,
                    forall|k: int| 0 <= k < i ==> #[trigger] out@[k]@ == a@[k]@,
                decreases a.len() - i,
            {
                out.push(a[i].deep_copy());
                i = i + 1;
            }
            proof {
                crate::json::lemma_views(out@);
                assert(views(out@) =~= views(a@));
            }
            Ok(out)
        },
        None => Err(AppError::Other(owned("system_log/list did not return an array"))),
    }
}

/// The last `n` of `lines` (all of them when there are fewer).
pub fn tail(lines: &Vec<String>, n: usize) -> (r: Vec<String>)
    ensures
        string_views(r@) == string_views(lines@).skip(
            if lines@.len() > n {
                lines@.len() - n
            } else {
                0
            },
        ),
{
    let start: usize = if lines.len() > n {
        lines.len() - n
    } else {
        0
    };
    let mut out: Vec<String> = Vec::new();
    let mut i: usize = start;
    while i < lines.len()
        invariant
            start <= i <= lines@.len(),
            out@.len() == i - start,
            forall|k: int| 0 <= k < out@.len() ==> #[trigger] out@[k]@ == lines@[start + k]@,
        decreases lines.len() - i,
    {
        out.push(lines[i].clone());
        i = i + 1;
    }
    assert(string_views(out@) =~= string_views(lines@).skip(start as int));
    out
}

/// The lines that `pattern` matches, in order.
pub open spec fn matching(lines: Seq<Seq<char>>, pattern: Seq<char>) -> Seq<Seq<char>>
    decreases lines.len(),
{
    if lines.len() == 0 {
        Seq::empty()
    } else {
        let prev = matching(lines.drop_last(), pattern);
        if regex_matches(pattern, lines.last()) {
            prev.push(lines.last())
        } else {
            prev
        }
    }
}

/// Keeps the lines that the expression matches.
pub fn filter_lines(lines: Vec<String>, re: &Pattern) -> (r: Vec<String>)
    ensures
        string_views(r@) == matching(string_views(lines@), re.source()),
{
    let ghost lv = string_views(lines@);
    let mut out: Vec<String> = Vec::new();
    let mut i: usize = 0;
    while i < lines.len()
        invariant
            i <= lines@.len(),
            lv == string_views(lines@),
            string_views(out@) == matching(lv.take(i as int), re.source()),
        decreases lines.len() - i,
    {
        proof {
            assert(lv.take(i + 1).drop_last() =~= lv.take(i as int));
            assert(lv.take(i + 1).last() == lines@[i as int]@);
        }
        if re.is_match(lines[i].as_str()) {
            let ghost before = string_views(out@);
            out.push(lines[i].clone());
            assert(string_views(out@) =~= before.push(lines@[i as int]@));
        }
        i = i + 1;
    }
    assert(lv.take(lines@.len() as int) =~= lv);
    out
}

/// The log lines kept: those matching the pattern (ignoring case) when one
/// is given, then the last `tail` of them when a number is given.
pub open spec fn kept_lines(lines: Seq<Seq<char>>, source: Option<Seq<char>>, tail: Option<usize>) -> Seq<Seq<char>> {
    let filtered = match source {
        Some(src) => matching(lines, src),
        None => lines,
    };
    match tail {
        Some(n) => filtered.skip(
            if filtered.len() > n {
                filtered.len() - n
            } else {
                0
            },
        ),
        None => filtered,
    }
}

/// The log report in a mode: the lines themselves in compact mode, else a
/// document with their number and the lines.
pub open spec fn log_text(kept: Seq<Seq<char>>, mode: OutputMode) -> Seq<char> {
    match mode {
        OutputMode::Compact => join(kept, "\n"@),
        _ => rendered(
            JsonV::Object(
                seq![
                    ("lines"@, JsonV::PosInt(kept.len() as u64)),
                    ("log"@, JsonV::Array(Seq::new(kept.len(), |i: int| JsonV::Str(kept[i])))),
                ],
            ),
            mode,
        ),
    }
}

/// Filters and cuts the log lines and renders them. A pattern that
/// `safe_regex` refuses is the error.
pub fn errors(lines: Vec<String>, tail_count: Option<usize>, pattern: Option<&str>, mode: OutputMode) -> (r: Result<String, AppError>)
    ensures
        match pattern {
            Some(p) => match safe_regex_outcome(p@, true) {
                Ok(src) => r matches Ok(t) && t@ == log_text(
                    kept_lines(string_views(lines@), Some(src), tail_count),
                    mode,
                ),
                Err(e) => r matches Err(AppError::InvalidPattern(m)) && m@ == e,
            },
            None => r matches Ok(t) && t@ == log_text(
                kept_lines(string_views(lines@), None, tail_count),
                mode,
            ),
        },
{
    let ghost lv = string_views(lines@);
    let filtered = match pattern {
        Some(p) => {
            let re = match safe_regex(p, true) {
                Ok(re) => re,
                Err(e) => return Err(e),
            };
            filter_lines(lines, &re)
        },
        None => lines,
    };
    let kept = match tail_count {
        Some(n) => tail(&filtered, n),
        None => filtered,
    };
    match mode {
        OutputMode::Compact => Ok(crate::text::join_lines(&kept)),
        _ => {
            let mut e: Vec<(String, Json)> = Vec::new();
            assert(entry_views(e@) =~= Seq::<(Seq<char>, JsonV)>::empty());
            push_entry(&mut e, "lines", Json::count(kept.len()));
            let list = Json::strings(&kept);
            proof {
                let items = Seq::new(kept@.len(), |i: int| JsonV::Str(kept@[i]@));
                assert forall|k: int| 0 <= k < items.len() implies depth(#[trigger] items[k]) <= 0 by {}
                crate::json::lemma_depth_items_bound(items, 0);
            }
            push_entry(&mut e, "log", list);
            proof {
                crate::json::lemma_entry_views(e@);
                crate::json::lemma_depth_entries_bound(entry_views(e@), 1);
                let kv = string_views(kept@);
                assert(Seq::new(kept@.len(), |i: int| JsonV::Str(kept@[i]@)) =~= Seq::new(
                    kv.len(),
                    |i: int| JsonV::Str(kv[i]),
                ));
                assert(entry_views(e@) =~= seq![
                    ("lines"@, JsonV::PosInt(kv.len() as u64)),
                    ("log"@, JsonV::Array(Seq::new(kv.len(), |i: int| JsonV::Str(kv[i])))),
                ]);
            }
            let doc = Json::object(e);
            format_output(&doc, mode)
        },
    }
}

/// The lines a pattern matches are the input's lines that it matches, in
/// order.
proof fn lemma_matching_is_filter(lines: Seq<Seq<char>>, src: Seq<char>)
    ensures
        matching(lines, src) == lines.filter(|l: Seq<char>| regex_matches(src, l)),
    decreases lines.len(),
{
    reveal_with_fuel(Seq::filter, 1);
    if lines.len() > 0 {
        lemma_matching_is_filter(lines.drop_last(), src);
    }
}

/// The error log keeps the last lines among those the pattern matches:
/// with a tail of `n`, exactly the last `min(n, m)` of the `m` matching
/// lines, in order; every kept line matches; without a tail, all of them.
/// Without a pattern, the last `n` lines (all of them without a tail).
pub proof fn errors_keep_the_last_matching_lines(lines: Seq<Seq<char>>, src: Seq<char>, n: usize)
    ensures
        ({
            let all = lines.filter(|l: Seq<char>| regex_matches(src, l));
            let kept = kept_lines(lines, Some(src), Some(n));
            let k: int = if all.len() < n {
                all.len() as int
            } else {
                n as int
            };
            &&& kept.len() == k
            &&& kept == all.subrange(all.len() - k, all.len() as int)
            &&& forall|j: int| 0 <= j < kept.len() ==> regex_matches(src, #[trigger] kept[j])
            &&& kept_lines(lines, Some(src), None) == all
            &&& kept_lines(lines, None, Some(n)) == lines.subrange(
                if lines.len() < n {
                    0
                } else {
                    lines.len() - n
                },
                lines.len() as int,
            )
            &&& kept_lines(lines, None, None) == lines
        }),
{
    let pred = |l: Seq<char>| regex_matches(src, l);
    let all = lines.filter(pred);
    lemma_matching_is_filter(lines, src);
    let kept = kept_lines(lines, Some(src), Some(n));
    let k: int = if all.len() < n {
        all.len() as int
    } else {
        n as int
    };
    assert(kept =~= all.subrange(all.len() - k, all.len() as int));
    assert(kept_lines(lines, None, Some(n)) =~= lines.subrange(
        if lines.len() < n {
            0
        } else {
            lines.len() - n
        },
        lines.len() as int,
    ));
    assert forall|j: int| 0 <= j < kept.len() implies regex_matches(src, #[trigger] kept[j]) by {
        lines.lemma_filter_pred(pred, all.len() - k + j);
        assert(kept[j] == all[all.len() - k + j]);
    }
}

} // verus!
