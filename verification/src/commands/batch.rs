//! Batches of commands given as JSON lines: reading them, deciding what
//! each asks for, and the summary of what they gave.
use vstd::prelude::*;
use crate::error::{message_spec, AppError};
use crate::json::{compact, depth, entry_views, jbool, jget, jget_str, jstr, push_entry, views, Json, JsonV};
use crate::output::{format_output, rendered, OutputMode};
use crate::text::{chars_of, decimal, is_blank_text, owned, push_decimal, push_str, str_eq, string_views, trim, trim_spec};

verus! {

// ---------------------------------------------------------------------
// Input
// ---------------------------------------------------------------------

/// The lines read, or the error of the first read that failed.
pub open spec fn lines_outcome(items: Seq<Result<String, String>>) -> Result<Seq<Seq<char>>, Seq<char>>
    decreases items.len(),
{
    if items.len() == 0 {
        Ok(Seq::empty())
    } else {
        match lines_outcome(items.drop_last()) {
            Err(e) => Err(e),
            Ok(prev) => match items.last() {
                Ok(l) => Ok(prev.push(l@)),
                Err(e) => Err("Failed to read input: "@ + e@),
            },
        }
    }
}

/// Collects the lines read from the input; a failed read is the error.
pub fn collect_lines(items: Vec<Result<String, String>>) -> (r: Result<Vec<String>, AppError>)
    ensures
        match lines_outcome(items@) {
            Ok(ls) => r matches Ok(v) && string_views(v@) == ls,
            Err(m) => r matches Err(AppError::Other(t)) && t@ == m,
        },
{
    let mut out: Vec<String> = Vec::new();
    let mut i: usize = 0;
    assert(items@.take(0) =~= Seq::<Result<String, String>>::empty());
    assert(string_views(out@) =~= Seq::<Seq<char>>::empty());
    while i < items.len()
        invariant
            i <= items@.len(),
            lines_outcome(items@.take(i as int)) == Ok::<Seq<Seq<char>>, Seq<char>>(string_views(out@)),
        decreases items.len() - i,
    {
        proof {
            assert(items@.take(i + 1).drop_last() =~= items@.take(i as int));
            assert(items@.take(i + 1).last() == items@[i as int]);
        }
        match &items[i] {
            Ok(l) => {
                let ghost before = string_views(out@);
                out.push(l.clone());
                assert(string_views(out@) =~= before.push(l@));
            },
            Err(e) => {
                let mut m = owned("Failed to read input: ");
                push_str(&mut m, e.as_str());
                proof {
                    lemma_outcome_err_sticks(items@, i as int + 1);
                }
                return Err(AppError::Other(m));
            },
        }
        i = i + 1;
    }
    assert(items@.take(items@.len() as int) =~= items@);
    Ok(out)
}

proof fn lemma_outcome_err_sticks(items: Seq<Result<String, String>>, n: int)
    requires
        0 < n <= items.len(),
        lines_outcome(items.take(n)) is Err,
    ensures
        lines_outcome(items) == lines_outcome(items.take(n)),
    decreases items.len() - n,
{
    if n < items.len() {
        assert(items.take(n + 1).drop_last() =~= items.take(n));
        lemma_outcome_err_sticks(items, n + 1);
    } else {
        assert(items.take(n) =~= items);
    }
}

/// The command text of a line, trimmed; none for a blank line or a
/// comment.
pub open spec fn command_text(line: Seq<char>) -> Option<Seq<char>> {
    let t = trim_spec(line);
    if t.len() == 0 || t[0] == '#' {
        None
    } else {
        Some(t)
    }
}

/// The command text of a line.
pub fn batch_line(line: &str) -> (r: Option<String>)
    ensures
        match command_text(line@) {
            Some(t) => r matches Some(s) && s@ == t,
            None => r is None,
        },
{
    let t = trim(chars_of(line).as_slice());
    if t.len() == 0 || t[0] == '#' {
        None
    } else {
        Some(crate::text::string_of(t.as_slice()))
    }
}

/// The command lines of a batch, each with its line number counted from 1,
/// in order; blank lines and comments are skipped.
pub open spec fn numbered_commands(lines: Seq<Seq<char>>) -> Seq<(nat, Seq<char>)>
    decreases lines.len(),
{
    if lines.len() == 0 {
        Seq::empty()
    } else {
        let prev = numbered_commands(lines.drop_last());
        match command_text(lines.last()) {
            Some(t) => prev.push((lines.len() as nat, t)),
            None => prev,
        }
    }
}

/// The model of numbered lines.
pub open spec fn numbered_views(v: Seq<(usize, String)>) -> Seq<(nat, Seq<char>)> {
    v.map_values(|p: (usize, String)| (p.0 as nat, p.1@))
}

/// The command lines of a batch with their line numbers counted from 1.
pub fn batch_entries(lines: &Vec<String>) -> (r: Vec<(usize, String)>)
    ensures
        numbered_views(r@) == numbered_commands(string_views(lines@)),
{
    let ghost ls = string_views(lines@);
    let mut out: Vec<(usize, String)> = Vec::new();
    let mut i: usize = 0;
    assert(ls.take(0) =~= Seq::<Seq<char>>::empty());
    assert(numbered_views(out@) =~= Seq::<(nat, Seq<char>)>::empty());
    while i < lines.len()
        invariant
            i <= lines@.len(),
            ls == string_views(lines@),
            numbered_views(out@) == numbered_commands(ls.take(i as int)),
        decreases lines.len() - i,
    {
        proof {
            assert(ls.take(i + 1).drop_last() =~= ls.take(i as int));
            assert(ls.take(i + 1).last() == lines@[i as int]@);
        }
        let ghost before = numbered_views(out@);
        match batch_line(lines[i].as_str()) {
            Some(t) => {
                out.push((i + 1, t));
                assert(numbered_views(out@) =~= before.push(((i + 1) as nat, out@[out@.len() - 1].1@)));
            },
            None => {},
        }
        i = i + 1;
    }
    assert(ls.take(lines@.len() as int) =~= ls);
    out
}

/// The line numbers of a batch's commands increase strictly, and each is
/// the number of a line of the input.
pub proof fn batch_line_numbers_increase(lines: Seq<Seq<char>>)
    ensures
        forall|i: int, j: int|
            0 <= i < j < numbered_commands(lines).len() ==> (#[trigger] numbered_commands(lines)[i]).0
                < (#[trigger] numbered_commands(lines)[j]).0,
        forall|i: int|
            0 <= i < numbered_commands(lines).len() ==> 1 <= (#[trigger] numbered_commands(lines)[i]).0
                <= lines.len(),
    decreases lines.len(),
{
    if lines.len() > 0 {
        let prev = lines.drop_last();
        batch_line_numbers_increase(prev);
        let p = numbered_commands(prev);
        let r = numbered_commands(lines);
        assert forall|i: int| 0 <= i < r.len() implies 1 <= (#[trigger] r[i]).0 <= lines.len() by {
            if i < p.len() {
                assert(r[i] == p[i]);
            }
        }
        assert forall|i: int, j: int| 0 <= i < j < r.len() implies (#[trigger] r[i]).0 < (#[trigger] r[j]).0 by {
            assert(r[i] == p[i]);
            if j < p.len() {
                assert(r[j] == p[j]);
            } else {
                assert(p[i].0 <= prev.len());
            }
        }
    }
}

/// A command line parsed: the name of the command and its arguments (an
/// empty object when there are none); the JSON must parse and name the
/// command.
pub open spec fn command_outcome(parsed: Result<JsonV, Seq<char>>) -> Result<(Seq<char>, JsonV), Seq<char>> {
    match parsed {
        Err(e) => Err("Invalid JSON: "@ + e),
        Ok(v) => match jget_str(v, "command"@) {
            None => Err("Missing 'command' field"@),
            Some(c) => Ok(
                (
                    c,
                    match jget(v, "args"@) {
                        Some(a) => a,
                        None => JsonV::Object(Seq::empty()),
                    },
                ),
            ),
        },
    }
}

/// Reads a command line, given what the JSON parser made of it.
pub fn parse_batch_command(parsed: Result<Json, String>) -> (r: Result<(String, Json), AppError>)
    ensures
        match command_outcome(
            match parsed {
                Ok(v) => Ok(v@),
                Err(e) => Err(e@),
            },
        ) {
            Ok((c, a)) => r matches Ok((s, j)) && s@ == c && j@ == a,
            Err(m) => r matches Err(AppError::Other(t)) && t@ == m,
        },
{
    match parsed {
        Err(e) => {
            let mut m = owned("Invalid JSON: ");
            push_str(&mut m, e.as_str());
            Err(AppError::Other(m))
        },
        Ok(v) => {
            let command = match v.get_str("command") {
                Some(c) => owned(c),
                None => return Err(AppError::Other(owned("Missing 'command' field"))),
            };
            let args = match v.get("args") {
                Some(a) => a.deep_copy(),
                None => {
                    let e: Vec<(String, Json)> = Vec::new();
                    assert(entry_views(e@) =~= Seq::<(Seq<char>, JsonV)>::empty());
                    Json::object(e)
                },
            };
            Ok((command, args))
        },
    }
}

// ---------------------------------------------------------------------
// What a command asks for
// ---------------------------------------------------------------------

/// What one command of a batch asks for.
pub enum BatchRequest {
    EntitiesGet { entity_id: String },
    EntitiesList {
        domain: Option<String>,
        pattern: Option<String>,
        name: Option<String>,
        state: Option<String>,
    },
    EntitiesSearch { query: String },
    ServicesList { domain: Option<String> },
    ServicesCall { service: String, data: Option<String>, target: Option<String> },
    TemplatesRender { template: String },
    Health,
}

/// The text of an argument handed on as a JSON option: a string as it is,
/// anything else as one-line JSON.
pub open spec fn option_text(v: JsonV) -> Seq<char> {
    match v {
        JsonV::Str(s) => s,
        _ => compact(v),
    }
}

/// An optional string argument.
pub open spec fn arg_str(args: JsonV, key: Seq<char>) -> Option<Seq<char>> {
    jget_str(args, key)
}

/// The model of an optional string.
pub open spec fn ostr(o: Option<String>) -> Option<Seq<char>> {
    crate::text::opt_view(o)
}

/// What a command asks for, given its name and arguments: each command's
/// required string argument must be there; an unknown command is an
/// error.
pub open spec fn request_ok(command: Seq<char>, args: JsonV, r: Result<BatchRequest, AppError>) -> bool {
    if command == "entities.get"@ {
        match arg_str(args, "entity_id"@) {
            Some(id) => r matches Ok(BatchRequest::EntitiesGet { entity_id }) && entity_id@ == id,
            None => r matches Err(AppError::Other(m)) && m@ == "Missing 'entity_id' arg"@,
        }
    } else if command == "entities.list"@ {
        r matches Ok(BatchRequest::EntitiesList { domain, pattern, name, state }) && ostr(domain)
            == arg_str(args, "domain"@) && ostr(pattern) == arg_str(args, "pattern"@) && ostr(name)
            == arg_str(args, "name"@) && ostr(state) == arg_str(args, "state"@)
    } else if command == "entities.search"@ {
        match arg_str(args, "pattern"@) {
            Some(p) => r matches Ok(BatchRequest::EntitiesSearch { query }) && query@ == p,
            None => r matches Err(AppError::Other(m)) && m@ == "Missing 'pattern' arg"@,
        }
    } else if command == "services.list"@ {
        r matches Ok(BatchRequest::ServicesList { domain }) && ostr(domain) == arg_str(args, "domain"@)
    } else if command == "services.call"@ {
        match arg_str(args, "service"@) {
            Some(s) => r matches Ok(BatchRequest::ServicesCall { service, data, target }) && service@ == s
                && ostr(data) == (match jget(args, "data"@) {
                Some(d) => Some(option_text(d)),
                None => None,
            }) && ostr(target) == (match jget(args, "target"@) {
                Some(t) => Some(option_text(t)),
                None => None,
            }),
            None => r matches Err(AppError::Other(m)) && m@ == "Missing 'service' arg"@,
        }
    } else if command == "templates.render"@ {
        match arg_str(args, "template"@) {
            Some(t) => r matches Ok(BatchRequest::TemplatesRender { template }) && template@ == t,
            None => r matches Err(AppError::Other(m)) && m@ == "Missing 'template' arg"@,
        }
    } else if command == "health"@ {
        r matches Ok(BatchRequest::Health)
    } else {
        r matches Err(AppError::Other(m)) && m@ == "Unknown batch command: "@ + command
    }
}

fn opt_arg(args: &Json, key: &str) -> (r: Option<String>)
    ensures
        ostr(r) == arg_str(args@, key@),
{
    match args.get_str(key) {
        Some(s) => Some(owned(s)),
        None => None,
    }
}

fn option_arg(args: &Json, key: &str) -> (r: Option<String>)
    ensures
        ostr(r) == (match jget(args@, key@) {
            Some(d) => Some(option_text(d)),
            None => None,
        }),
{
    match args.get(key) {
        Some(Json::Str(s)) => Some(s.clone()),
        Some(other) => Some(crate::json::to_compact(other)),
        None => None,
    }
}

/// Decides what a command of a batch asks for.
pub fn batch_request(command: &str, args: &Json) -> (r: Result<BatchRequest, AppError>)
    ensures
        request_ok(command@, args@, r),
{
    if str_eq(command, "entities.get") {
        match args.get_str("entity_id") {
            Some(id) => Ok(BatchRequest::EntitiesGet { entity_id: owned(id) }),
            None => Err(AppError::Other(owned("Missing 'entity_id' arg"))),
        }
    } else if str_eq(command, "entities.list") {
        Ok(
            BatchRequest::EntitiesList {
                domain: opt_arg(args, "domain"),
                pattern: opt_arg(args, "pattern"),
                name: opt_arg(args, "name"),
                state: opt_arg(args, "state"),
            },
        )
    } else if str_eq(command, "entities.search") {
        match args.get_str("pattern") {
            Some(p) => Ok(BatchRequest::EntitiesSearch { query: owned(p) }),
            None => Err(AppError::Other(owned("Missing 'pattern' arg"))),
        }
    } else if str_eq(command, "services.list") {
        Ok(BatchRequest::ServicesList { domain: opt_arg(args, "domain") })
    } else if str_eq(command, "services.call") {
        match args.get_str("service") {
            Some(s) => Ok(
                BatchRequest::ServicesCall {
                    service: owned(s),
                    data: option_arg(args, "data"),
                    target: option_arg(args, "target"),
                },
            ),
            None => Err(AppError::Other(owned("Missing 'service' arg"))),
        }
    } else if str_eq(command, "templates.render") {
        match args.get_str("template") {
            Some(t) => Ok(BatchRequest::TemplatesRender { template: owned(t) }),
            None => Err(AppError::Other(owned("Missing 'template' arg"))),
        }
    } else if str_eq(command, "health") {
        Ok(BatchRequest::Health)
    } else {
        let mut m = owned("Unknown batch command: ");
        push_str(&mut m, command);
        Err(AppError::Other(m))
    }
}

// ---------------------------------------------------------------------
// Results
// ---------------------------------------------------------------------

/// The result entry of a line that could not be read as a command.
pub open spec fn unreadable_entry(line_no: nat, message: Seq<char>) -> JsonV {
    JsonV::Object(
        seq![
            ("command"@, JsonV::Null),
            ("line"@, JsonV::PosInt(line_no as u64)),
            ("result"@, JsonV::Str("Line "@ + decimal(line_no) + ": "@ + message)),
            ("success"@, JsonV::Bool(false)),
        ],
    )
}

/// The result entry of a line that could not be read as a command.
pub fn unreadable_line(line_no: usize, error: &AppError) -> (r: Json)
    ensures
        r@ == unreadable_entry(line_no as nat, message_spec(*error)),
        depth(r@) == 1,
{
    let mut text = owned("Line ");
    push_decimal(&mut text, line_no as u64);
    push_str(&mut text, ": ");
    let m = error.message();
    push_str(&mut text, m.as_str());
    let mut e: Vec<(String, Json)> = Vec::new();
    assert(entry_views(e@) =~= Seq::<(Seq<char>, JsonV)>::empty());
    push_entry(&mut e, "command", Json::Null);
    push_entry(&mut e, "line", Json::count(line_no));
    push_entry(&mut e, "result", Json::Str(text));
    push_entry(&mut e, "success", Json::Bool(false));
    proof {
        assert(entry_views(e@) =~= unreadable_entry(line_no as nat, message_spec(*error))->Object_0);
        crate::json::lemma_entry_views(e@);
        crate::json::lemma_depth_entries_bound(entry_views(e@), 0);
    }
    Json::object(e)
}

/// The result entry of a command that ran: the command, its line, and on
/// success its output (as JSON when it parsed as JSON, else as text), on
/// failure the error's message.
pub open spec fn command_entry(command: Seq<char>, line_no: nat, outcome: Result<(Seq<char>, Option<JsonV>), Seq<char>>) -> JsonV {
    JsonV::Object(
        seq![
            ("command"@, JsonV::Str(command)),
            ("line"@, JsonV::PosInt(line_no as u64)),
            ("result"@, match outcome {
                Ok((text, Some(v))) => v,
                Ok((text, None)) => JsonV::Str(text),
                Err(m) => JsonV::Str(m),
            }),
            ("success"@, JsonV::Bool(outcome is Ok)),
        ],
    )
}

/// The model of what a command gave.
pub open spec fn outcome_view(o: Result<(String, Option<Json>), AppError>) -> Result<(Seq<char>, Option<JsonV>), Seq<char>> {
    match o {
        Ok((t, Some(v))) => Ok((t@, Some(v@))),
        Ok((t, None)) => Ok((t@, None)),
        Err(e) => Err(message_spec(e)),
    }
}

/// The result entry of a command that ran; `outcome` holds its output and
/// what the JSON parser made of it, or its error.
pub fn command_result(command: &str, line_no: usize, outcome: Result<(String, Option<Json>), AppError>) -> (r: Json)
    requires
        outcome matches Ok((_, Some(v))) ==> depth(v@) < 999988,
    ensures
        r@ == command_entry(command@, line_no as nat, outcome_view(outcome)),
        depth(r@) < 999990,
{
    let ghost ov = outcome_view(outcome);
    let ok = outcome.is_ok();
    let result = match outcome {
        Ok((_, Some(v))) => v,
        Ok((text, None)) => Json::Str(text),
        Err(e) => Json::Str(e.message()),
    };
    let ghost rv = result@;
    let mut e: Vec<(String, Json)> = Vec::new();
    assert(entry_views(e@) =~= Seq::<(Seq<char>, JsonV)>::empty());
    push_entry(&mut e, "command", Json::string(command));
    push_entry(&mut e, "line", Json::count(line_no));
    push_entry(&mut e, "result", result);
    push_entry(&mut e, "success", Json::Bool(ok));
    proof {
        assert(entry_views(e@) =~= command_entry(command@, line_no as nat, ov)->Object_0);
        crate::json::lemma_entry_views(e@);
        crate::json::lemma_depth_entries_bound(entry_views(e@), 999988);
    }
    Json::object(e)
}

/// The number of results whose `success` is `b`.
pub open spec fn count_success(results: Seq<JsonV>, b: bool) -> nat
    decreases results.len(),
{
    if results.len() == 0 {
        0
    } else {
        count_success(results.drop_last(), b) + if jget(results.last(), "success"@) == Some(JsonV::Bool(b)) {
            1nat
        } else {
            0nat
        }
    }
}

proof fn lemma_count_success(results: Seq<JsonV>, b: bool)
    ensures
        count_success(results, b) <= results.len(),
    decreases results.len(),
{
    if results.len() > 0 {
        lemma_count_success(results.drop_last(), b);
    }
}

/// The summary of a batch: the failed and succeeded counts, the results,
/// the total.
pub open spec fn batch_doc(results: Seq<JsonV>) -> JsonV {
    JsonV::Object(
        seq![
            ("failed"@, JsonV::PosInt(count_success(results, false) as u64)),
            ("results"@, JsonV::Array(results)),
            ("succeeded"@, JsonV::PosInt(count_success(results, true) as u64)),
            ("total"@, JsonV::PosInt(results.len() as u64)),
        ],
    )
}

fn success_is(r: &Json, b: bool) -> (res: bool)
    ensures
        res == (jget(r@, "success"@) == Some(JsonV::Bool(b))),
{
    match r.get("success") {
        Some(Json::Bool(x)) => *x == b,
        _ => false,
    }
}

/// Renders the summary of a batch.
pub fn batch_summary(results: Vec<Json>, mode: OutputMode) -> (r: Result<String, AppError>)
    requires
        crate::output::shallow(views(results@), 999990),
    ensures
        r matches Ok(t) && t@ == rendered(batch_doc(views(results@)), mode),
{
    let ghost rv = views(results@);
    proof {
        crate::json::lemma_views(results@);
    }
    let mut ok: usize = 0;
    let mut failed: usize = 0;
    let mut i: usize = 0;
    while i < results.len()
        invariant
            i <= results@.len(),
            rv == views(results@),
            rv.len() == results@.len(),
            forall|k: int| 0 <= k < results@.len() ==> #[trigger] rv[k] == results@[k]@,
            ok == count_success(rv.take(i as int), true),
            failed == count_success(rv.take(i as int), false),
        decreases results.len() - i,
    {
        proof {
            assert(rv.take(i + 1).drop_last() =~= rv.take(i as int));
            assert(rv.take(i + 1).last() == results@[i as int]@);
            lemma_count_success(rv.take(i as int), true);
            lemma_count_success(rv.take(i as int), false);
        }
        if success_is(&results[i], true) {
            ok = ok + 1;
        }
        if success_is(&results[i], false) {
            failed = failed + 1;
        }
        i = i + 1;
    }
    proof {
        assert(rv.take(results@.len() as int) =~= rv);
        crate::json::lemma_depth_items_bound(rv, 999990);
    }
    let total = results.len();
    let mut e: Vec<(String, Json)> = Vec::new();
    assert(entry_views(e@) =~= Seq::<(Seq<char>, JsonV)>::empty());
    push_entry(&mut e, "failed", Json::count(failed));
    push_entry(&mut e, "results", Json::array(results));
    push_entry(&mut e, "succeeded", Json::count(ok));
    push_entry(&mut e, "total", Json::count(total));
    proof {
        assert(entry_views(e@) =~= batch_doc(rv)->Object_0);
        crate::json::lemma_entry_views(e@);
        crate::json::lemma_depth_entries_bound(entry_views(e@), 999991);
    }
    format_output(&Json::object(e), mode)
}

/// What came of one command line of a batch: what the JSON parser made of
/// its text and, when that named a command, what the command gave (its
/// output and what the JSON parser made of the output, or its error).
pub struct LineRun {
    pub parsed: Result<Json, String>,
    pub outcome: Option<Result<(String, Option<Json>), AppError>>,
}

/// The model of what the JSON parser made of a text.
pub open spec fn parsed_view(p: Result<Json, String>) -> Result<JsonV, Seq<char>> {
    match p {
        Ok(v) => Ok(v@),
        Err(e) => Err(e@),
    }
}

/// The model of what a command line's command gave, if it ran.
pub open spec fn ran_view(o: Option<Result<(String, Option<Json>), AppError>>) -> Option<
    Result<(Seq<char>, Option<JsonV>), Seq<char>>,
> {
    match o {
        Some(x) => Some(outcome_view(x)),
        None => None,
    }
}

/// A command ran exactly for the lines that name one, and its output, when
/// it parsed as JSON, is nested no deeper than a result can hold.
pub open spec fn run_fits(r: LineRun) -> bool {
    &&& (command_outcome(parsed_view(r.parsed)) is Ok) == (r.outcome is Some)
    &&& r.outcome matches Some(Ok((_, Some(v)))) ==> depth(v@) < 999988
}

/// The result entry of command line `line_no`: a line that is not a
/// command reports why, a command reports what it gave.
pub open spec fn line_result(
    line_no: nat,
    parsed: Result<JsonV, Seq<char>>,
    ran: Option<Result<(Seq<char>, Option<JsonV>), Seq<char>>>,
) -> JsonV {
    match command_outcome(parsed) {
        Err(m) => unreadable_entry(line_no, m),
        Ok((c, _)) => match ran {
            Some(o) => command_entry(c, line_no, o),
            None => unreadable_entry(line_no, Seq::empty()),
        },
    }
}

/// The result entries of a batch: one per command line, in order, each
/// with the number of its line.
pub open spec fn run_results(cmds: Seq<(nat, Seq<char>)>, runs: Seq<LineRun>) -> Seq<JsonV> {
    Seq::new(
        runs.len(),
        |j: int| line_result(cmds[j].0, parsed_view(runs[j].parsed), ran_view(runs[j].outcome)),
    )
}

/// Runs a batch: given the lines of the input and, for each command line
/// in order (as `batch_entries` numbers them), what came of it, renders the
/// summary with one result per command line.
pub fn batch_report(lines: &Vec<String>, runs: Vec<LineRun>, mode: OutputMode) -> (r: Result<String, AppError>)
    requires
        runs@.len() == numbered_commands(string_views(lines@)).len(),
        forall|j: int| 0 <= j < runs@.len() ==> run_fits(#[trigger] runs@[j]),
    ensures
        r matches Ok(t) && t@ == rendered(
            batch_doc(run_results(numbered_commands(string_views(lines@)), runs@)),
            mode,
        ),
{
    let entries = batch_entries(lines);
    let ghost cmds = numbered_commands(string_views(lines@));
    let ghost rs = runs@;
    let ghost want = run_results(cmds, rs);
    proof {
        assert(numbered_views(entries@).len() == entries@.len());
    }
    let mut results: Vec<Json> = Vec::new();
    let mut rest = runs;
    let mut j: usize = 0;
    while j < entries.len()
        invariant
            j <= rs.len(),
            rest@ == rs.skip(j as int),
            rs.len() == entries@.len(),
            numbered_views(entries@) == cmds,
            forall|k: int| 0 <= k < rs.len() ==> run_fits(#[trigger] rs[k]),
            want == run_results(cmds, rs),
            results@.len() == j,
            forall|k: int| 0 <= k < j ==> (#[trigger] results@[k])@ == want[k] && depth(want[k]) < 999990,
        decreases entries.len() - j,
    {
        let line_no = entries[j].0;
        let run = rest.remove(0);
        proof {
            assert(numbered_views(entries@)[j as int] == (entries@[j as int].0 as nat, entries@[j as int].1@));
            assert(run == rs[j as int]);
            assert(rest@ =~= rs.skip(j + 1));
        }
        let ghost parsed = parsed_view(run.parsed);
        let ghost ran = ran_view(run.outcome);
        let LineRun { parsed: p, outcome } = run;
        let entry = match parse_batch_command(p) {
            Err(e) => unreadable_line(line_no, &e),
            Ok((command, _)) => match outcome {
                Some(o) => command_result(command.as_str(), line_no, o),
                None => {
                    let none = AppError::Other(String::new());
                    assert(message_spec(none) =~= Seq::<char>::empty());
                    unreadable_line(line_no, &none)
                },
            },
        };
        proof {
            assert(entry@ == line_result(line_no as nat, parsed, ran));
            assert(want[j as int] == line_result(cmds[j as int].0, parsed, ran));
        }
        results.push(entry);
        j = j + 1;
    }
    proof {
        crate::json::lemma_views(results@);
        assert(views(results@) =~= want);
        assert forall|i: int| 0 <= i < want.len() implies depth(#[trigger] want[i]) < 999990 by {
            assert(results@[i]@ == want[i]);
        }
        assert(crate::output::shallow(views(results@), 999990));
    }
    batch_summary(results, mode)
}

proof fn lemma_success_of_entry(a: JsonV, b: JsonV, c: JsonV, d: JsonV)
    ensures
        jget(
            JsonV::Object(seq![("command"@, a), ("line"@, b), ("result"@, c), ("success"@, d)]),
            "success"@,
        ) == Some(d),
        jget(
            JsonV::Object(seq![("command"@, a), ("line"@, b), ("result"@, c), ("success"@, d)]),
            "command"@,
        ) == Some(a),
        jget(
            JsonV::Object(seq![("command"@, a), ("line"@, b), ("result"@, c), ("success"@, d)]),
            "line"@,
        ) == Some(b),
{
    reveal_strlit("command");
    reveal_strlit("line");
    reveal_strlit("result");
    reveal_strlit("success");
    let o = seq![("command"@, a), ("line"@, b), ("result"@, c), ("success"@, d)];
    assert("command"@ != "success"@) by {
        assert("command"@[0] != "success"@[0]);
    }
    assert("command"@ != "line"@) by {
        assert("command"@[0] != "line"@[0]);
    }
    assert("line"@ != "success"@) by {
        assert("line"@.len() != "success"@.len());
    }
    assert("result"@ != "success"@) by {
        assert("result"@.len() != "success"@.len());
    }
    assert(o[0].0 == "command"@);
    let o1 = o.drop_first();
    assert(o1 =~= seq![("line"@, b), ("result"@, c), ("success"@, d)]);
    assert(crate::json::assoc(o1, "line"@) == Some(b));
    let o2 = o1.drop_first();
    assert(o2 =~= seq![("result"@, c), ("success"@, d)]);
    let o3 = o2.drop_first();
    assert(o3 =~= seq![("success"@, d)]);
    assert(crate::json::assoc(o3, "success"@) == Some(d));
    assert(crate::json::assoc(o2, "success"@) == Some(d));
    assert(crate::json::assoc(o1, "success"@) == Some(d));
}

/// Each entry of a batch says whether its line succeeded: a line that is
/// not a command failed, and a command succeeded exactly when it ran
/// without error.
pub proof fn batch_entries_report_success(
    line_no: nat,
    message: Seq<char>,
    command: Seq<char>,
    outcome: Result<(Seq<char>, Option<JsonV>), Seq<char>>,
)
    ensures
        jget(unreadable_entry(line_no, message), "success"@) == Some(JsonV::Bool(false)),
        jget(command_entry(command, line_no, outcome), "success"@) == Some(JsonV::Bool(outcome is Ok)),
{
    lemma_success_of_entry(
        JsonV::Null,
        JsonV::PosInt(line_no as u64),
        JsonV::Str("Line "@ + decimal(line_no) + ": "@ + message),
        JsonV::Bool(false),
    );
    let res = match outcome {
        Ok((text, Some(v))) => v,
        Ok((text, None)) => JsonV::Str(text),
        Err(m) => JsonV::Str(m),
    };
    lemma_success_of_entry(
        JsonV::Str(command),
        JsonV::PosInt(line_no as u64),
        res,
        JsonV::Bool(outcome is Ok),
    );
    assert(command_entry(command, line_no, outcome)->Object_0 =~= seq![
        ("command"@, JsonV::Str(command)),
        ("line"@, JsonV::PosInt(line_no as u64)),
        ("result"@, res),
        ("success"@, JsonV::Bool(outcome is Ok)),
    ]);
}

/// When every entry says whether its line succeeded, as the entries of a
/// batch do, the succeeded and failed counts add up to the total.
pub proof fn batch_counts_add_up(results: Seq<JsonV>)
    requires
        forall|i: int| 0 <= i < results.len() ==> (#[trigger] jget(results[i], "success"@)) matches Some(
            JsonV::Bool(_),
        ),
    ensures
        count_success(results, true) + count_success(results, false) == results.len(),
    decreases results.len(),
{
    if results.len() > 0 {
        let prev = results.drop_last();
        assert forall|i: int| 0 <= i < prev.len() implies (#[trigger] jget(prev[i], "success"@)) matches Some(
            JsonV::Bool(_),
        ) by {
            assert(prev[i] == results[i]);
        }
        batch_counts_add_up(prev);
        assert(jget(results[results.len() - 1], "success"@) matches Some(JsonV::Bool(_)));
    }
}

/// A batch reports every command line of its input once, in order: the
/// results are as many as the command lines, the j-th carries the number
/// of the j-th command line (so the numbers increase), a line that is not
/// a command failed with no command named, a command that ran succeeded
/// exactly when it gave no error, and the succeeded and failed counts add
/// up to the total.
pub proof fn batch_reports_every_command_line(lines: Seq<Seq<char>>, runs: Seq<LineRun>)
    requires
        runs.len() == numbered_commands(lines).len(),
    ensures
        ({
            let cmds = numbered_commands(lines);
            let results = run_results(cmds, runs);
            &&& results.len() == cmds.len()
            &&& forall|j: int|
                0 <= j < results.len() ==> jget(#[trigger] results[j], "line"@) == Some(
                    JsonV::PosInt(cmds[j].0 as u64),
                )
            &&& forall|i: int, j: int| 0 <= i < j < cmds.len() ==> #[trigger] cmds[i].0 < #[trigger] cmds[j].0
            &&& forall|j: int|
                0 <= j < results.len() && command_outcome(parsed_view(runs[j].parsed)) is Err ==> jget(
                    #[trigger] results[j],
                    "success"@,
                ) == Some(JsonV::Bool(false)) && jget(results[j], "command"@) == Some(JsonV::Null)
            &&& forall|j: int|
                0 <= j < results.len() ==> (command_outcome(parsed_view(runs[j].parsed)) matches Ok((c, _))
                    ==> (ran_view(runs[j].outcome) matches Some(o) ==> jget(#[trigger] results[j], "success"@)
                    == Some(JsonV::Bool(o is Ok)) && jget(results[j], "command"@) == Some(JsonV::Str(c))))
            &&& count_success(results, true) + count_success(results, false) == results.len()
        }),
{
    let cmds = numbered_commands(lines);
    let results = run_results(cmds, runs);
    batch_line_numbers_increase(lines);
    assert forall|j: int| 0 <= j < results.len() implies {
        &&& jget(#[trigger] results[j], "line"@) == Some(JsonV::PosInt(cmds[j].0 as u64))
        &&& jget(results[j], "success"@) matches Some(JsonV::Bool(_))
        &&& command_outcome(parsed_view(runs[j].parsed)) is Err ==> jget(results[j], "success"@) == Some(
            JsonV::Bool(false),
        ) && jget(results[j], "command"@) == Some(JsonV::Null)
        &&& (command_outcome(parsed_view(runs[j].parsed)) matches Ok((c, _)) ==> (ran_view(runs[j].outcome)
            matches Some(o) ==> jget(results[j], "success"@) == Some(JsonV::Bool(o is Ok)) && jget(
            results[j],
            "command"@,
        ) == Some(JsonV::Str(c))))
    } by {
        let n = cmds[j].0;
        let parsed = parsed_view(runs[j].parsed);
        let ran = ran_view(runs[j].outcome);
        assert(results[j] == line_result(n, parsed, ran));
        match command_outcome(parsed) {
            Err(m) => {
                lemma_success_of_entry(
                    JsonV::Null,
                    JsonV::PosInt(n as u64),
                    JsonV::Str("Line "@ + decimal(n) + ": "@ + m),
                    JsonV::Bool(false),
                );
            },
            Ok((c, _)) => match ran {
                Some(o) => {
                    let res = match o {
                        Ok((text, Some(v))) => v,
                        Ok((text, None)) => JsonV::Str(text),
                        Err(m) => JsonV::Str(m),
                    };
                    lemma_success_of_entry(JsonV::Str(c), JsonV::PosInt(n as u64), res, JsonV::Bool(o is Ok));
                    assert(command_entry(c, n, o)->Object_0 =~= seq![
                        ("command"@, JsonV::Str(c)),
                        ("line"@, JsonV::PosInt(n as u64)),
                        ("result"@, res),
                        ("success"@, JsonV::Bool(o is Ok)),
                    ]);
                },
                None => {
                    lemma_success_of_entry(
                        JsonV::Null,
                        JsonV::PosInt(n as u64),
                        JsonV::Str("Line "@ + decimal(n) + ": "@ + Seq::empty()),
                        JsonV::Bool(false),
                    );
                },
            },
        }
    }
    batch_counts_add_up(results);
}

} // verus!
