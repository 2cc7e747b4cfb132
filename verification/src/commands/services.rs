//! Services: listing them by domain and preparing a call.
use vstd::prelude::*;
use crate::client::{services_map, services_to_map};
use crate::error::AppError;
use crate::json::{
    assoc, depth, entry_views, insert_entry, insert_sorted, jget, push_entry, views, Json, JsonV,
};
use crate::output::{format_output, rendered, shallow, OutputMode};
use crate::text::{join, owned, push_str, string_views};
use crate::validation::{json_option_outcome, parse_json_option, service_parts, validate_service_format};

verus! {

/// The names of a service's fields, in order.
pub open spec fn field_names(svc: JsonV) -> Seq<Seq<char>> {
    match jget(svc, "fields"@) {
        Some(JsonV::Object(f)) => Seq::new(f.len(), |i: int| f[i].0),
        _ => Seq::empty(),
    }
}

/// The compact line of a service: `domain.name(field, field)`.
pub open spec fn service_line(d: Seq<char>, name: Seq<char>, svc: JsonV) -> Seq<char> {
    d + "."@ + name + "("@ + join(field_names(svc), ", "@) + ")"@
}

/// The compact listing: the services of the domain, one per line, when a
/// domain is given (nothing when it has none); else the domains, one per
/// line.
pub open spec fn services_compact(map: Seq<(Seq<char>, JsonV)>, domain: Option<Seq<char>>) -> Seq<char> {
    match domain {
        Some(d) => match assoc(map, d) {
            Some(JsonV::Object(o)) => join(Seq::new(o.len(), |i: int| service_line(d, o[i].0, o[i].1)), "\n"@),
            _ => Seq::empty(),
        },
        None => join(Seq::new(map.len(), |i: int| map[i].0), "\n"@),
    }
}

/// The document of the listing: the domain's services under its name (an
/// empty object when it has none), or the whole map.
pub open spec fn services_doc(map: Seq<(Seq<char>, JsonV)>, domain: Option<Seq<char>>) -> JsonV {
    match domain {
        Some(d) => match assoc(map, d) {
            Some(s) => JsonV::Object(seq![(d, s)]),
            None => JsonV::Object(Seq::empty()),
        },
        None => JsonV::Object(map),
    }
}

/// The listing in a mode.
pub open spec fn services_text(services: Seq<JsonV>, domain: Option<Seq<char>>, mode: OutputMode) -> Seq<char> {
    let map = services_map(services);
    match mode {
        OutputMode::Compact => services_compact(map, domain),
        _ => rendered(services_doc(map, domain), mode),
    }
}

fn lookup<'a>(map: &'a Vec<(String, Json)>, key: &str) -> (r: Option<&'a Json>)
    ensures
        match r {
            Some(x) => assoc(entry_views(map@), key@) == Some(x@),
            None => assoc(entry_views(map@), key@) is None,
        },
{
    let ghost ev = entry_views(map@);
    proof {
        crate::json::lemma_entry_views(map@);
    }
    let mut i: usize = 0;
    assert(ev.subrange(0, ev.len() as int) =~= ev);
    while i < map.len()
        invariant
            i <= map@.len(),
            ev == entry_views(map@),
            ev.len() == map@.len(),
            forall|k: int| 0 <= k < map@.len() ==> #[trigger] ev[k] == (map@[k].0@, map@[k].1@),
            assoc(ev, key@) == assoc(ev.subrange(i as int, ev.len() as int), key@),
        decreases map.len() - i,
    {
        let ghost rest = ev.subrange(i as int, ev.len() as int);
        assert(rest[0] == ev[i as int]);
        if crate::text::str_eq(map[i].0.as_str(), key) {
            return Some(&map[i].1);
        }
        assert(rest.drop_first() =~= ev.subrange(i + 1, ev.len() as int));
        i = i + 1;
    }
    None
}

fn fields_text(svc: &Json) -> (r: String)
    ensures
        r@ == join(field_names(svc@), ", "@),
{
    let mut names: Vec<String> = Vec::new();
    match svc.get("fields") {
        Some(Json::Object(f)) => {
            proof {
                crate::json::lemma_entry_views(f@);
            }
            let mut i: usize = 0;
            while i < f.len()
                invariant
                    i <= f@.len(),
                    entry_views(f@).len() == f@.len(),
                    forall|k: int| 0 <= k < f@.len() ==> #[trigger] entry_views(f@)[k] == (f@[k].0@, f@[k].1@),
                    names@.len() == i,
                    forall|k: int| 0 <= k < i ==> #[trigger] names@[k]@ == f@[k].0@,
                decreases f.len() - i,
            {
                names.push(f[i].0.clone());
                i = i + 1;
            }
            proof {
                let fv = entry_views(f@);
                assert(string_views(names@) =~= Seq::new(fv.len(), |i: int| fv[i].0));
            }
        },
        _ => {
            assert(string_views(names@) =~= Seq::<Seq<char>>::empty());
        },
    }
    crate::text::join_strings(&names, ", ")
}

/// Lists the services, of one domain or all, in a mode.
pub fn list(services: &[Json], domain: Option<&str>, mode: OutputMode) -> (r: Result<String, AppError>)
    requires
        shallow(views(services@), 999990),
    ensures
        r matches Ok(t) && t@ == services_text(views(services@), crate::auth::opt_str(domain), mode),
{
    let map = services_to_map(services);
    let ghost mv = entry_views(map@);
    proof {
        crate::json::lemma_entry_views(map@);
    }
    match mode {
        OutputMode::Compact => match domain {
            Some(d) => match lookup(&map, d) {
                Some(Json::Object(o)) => {
                    let ghost ov = entry_views(o@);
                    proof {
                        crate::json::lemma_entry_views(o@);
                    }
                    let mut lines: Vec<String> = Vec::new();
                    let mut i: usize = 0;
                    while i < o.len()
                        invariant
                            i <= o@.len(),
                            ov == entry_views(o@),
                            ov.len() == o@.len(),
                            forall|k: int| 0 <= k < o@.len() ==> #[trigger] ov[k] == (o@[k].0@, o@[k].1@),
                            lines@.len() == i,
                            forall|k: int| 0 <= k < i ==> #[trigger] lines@[k]@ == service_line(d@, ov[k].0, ov[k].1),
                        decreases o.len() - i,
                    {
                        let mut l = owned(d);
                        push_str(&mut l, ".");
                        push_str(&mut l, o[i].0.as_str());
                        push_str(&mut l, "(");
                        let f = fields_text(&o[i].1);
                        push_str(&mut l, f.as_str());
                        push_str(&mut l, ")");
                        lines.push(l);
                        i = i + 1;
                    }
                    assert(string_views(lines@) =~= Seq::new(ov.len(), |i: int| service_line(d@, ov[i].0, ov[i].1)));
                    Ok(crate::text::join_lines(&lines))
                },
                _ => Ok(String::new()),
            },
            None => {
                let mut keys: Vec<String> = Vec::new();
                let mut i: usize = 0;
                while i < map.len()
                    invariant
                        i <= map@.len(),
                        mv == entry_views(map@),
                        mv.len() == map@.len(),
                        forall|k: int| 0 <= k < map@.len() ==> #[trigger] mv[k] == (map@[k].0@, map@[k].1@),
                        keys@.len() == i,
                        forall|k: int| 0 <= k < i ==> #[trigger] keys@[k]@ == mv[k].0,
                    decreases map.len() - i,
                {
                    keys.push(map[i].0.clone());
                    i = i + 1;
                }
                assert(string_views(keys@) =~= Seq::new(mv.len(), |i: int| mv[i].0));
                Ok(crate::text::join_lines(&keys))
            },
        },
        _ => {
            proof {
                assert forall|k: int| 0 <= k < mv.len() implies depth(#[trigger] mv[k].1) <= 999990 by {
                    assert(shallow(views(services@), 999990));
                }
                crate::json::lemma_depth_entries_bound(mv, 999990);
            }
            let doc = match domain {
                Some(d) => match lookup(&map, d) {
                    Some(s) => {
                        proof {
                            lemma_assoc_in(mv, d@);
                        }
                        let mut e: Vec<(String, Json)> = Vec::new();
                        assert(entry_views(e@) =~= Seq::<(Seq<char>, JsonV)>::empty());
                        push_entry(&mut e, d, s.deep_copy());
                        proof {
                            assert(entry_views(e@) =~= seq![(d@, s@)]);
                            crate::json::lemma_entry_views(e@);
                            crate::json::lemma_depth_entries_bound(entry_views(e@), 999990);
                        }
                        Json::object(e)
                    },
                    None => {
                        let e: Vec<(String, Json)> = Vec::new();
                        assert(entry_views(e@) =~= Seq::<(Seq<char>, JsonV)>::empty());
                        Json::object(e)
                    },
                },
                None => Json::object(map),
            };
            format_output(&doc, mode)
        },
    }
}

proof fn lemma_assoc_in(o: Seq<(Seq<char>, JsonV)>, key: Seq<char>)
    ensures
        assoc(o, key) matches Some(v) ==> exists|i: int| 0 <= i < o.len() && #[trigger] o[i].1 == v,
    decreases o.len(),
{
    if o.len() > 0 && o[0].0 != key {
        lemma_assoc_in(o.drop_first(), key);
        if assoc(o, key) is Some {
            let i = choose|i: int| 0 <= i < o.drop_first().len() && #[trigger] o.drop_first()[i].1 == assoc(o, key)->0;
            assert(o[i + 1] == o.drop_first()[i]);
        }
    }
}

// ---------------------------------------------------------------------
// Calling a service
// ---------------------------------------------------------------------

/// The data with the target's entries put in (each replacing an entry of
/// the same key), when both are objects; else the data as it is.
pub open spec fn merged(data: JsonV, target: JsonV) -> JsonV {
    match (data, target) {
        (JsonV::Object(d), JsonV::Object(t)) => JsonV::Object(merge_entries(d, t)),
        _ => data,
    }
}

/// `d` with each entry of `t` put in, in order.
pub open spec fn merge_entries(d: Seq<(Seq<char>, JsonV)>, t: Seq<(Seq<char>, JsonV)>) -> Seq<(Seq<char>, JsonV)>
    decreases t.len(),
{
    if t.len() == 0 {
        d
    } else {
        insert_sorted(merge_entries(d, t.drop_last()), t.last().0, t.last().1)
    }
}

/// A JSON option given on the command line: its text and what parsing it
/// gave.
pub open spec fn option_view(o: Option<(&str, Result<Json, String>)>) -> Option<(Seq<char>, Result<JsonV, Seq<char>>)> {
    match o {
        Some((text, Ok(v))) => Some((text@, Ok(v@))),
        Some((text, Err(e))) => Some((text@, Err(e@))),
        None => None,
    }
}

/// The data of a call: the parsed `--data` option, or an empty object.
pub open spec fn data_outcome(o: Option<(Seq<char>, Result<JsonV, Seq<char>>)>) -> Result<JsonV, Seq<char>> {
    match o {
        Some((text, parsed)) => json_option_outcome(text, parsed),
        None => Ok(JsonV::Object(Seq::empty())),
    }
}

fn merge_into(data: Json, target: &Json) -> (r: Json)
    ensures
        r@ == merged(data@, target@),
{
    match (data, target) {
        (Json::Object(mut d), Json::Object(t)) => {
            let ghost dv = entry_views(d@);
            let ghost tv = entry_views(t@);
            proof {
                crate::json::lemma_entry_views(t@);
            }
            let mut i: usize = 0;
            assert(tv.take(0) =~= Seq::<(Seq<char>, JsonV)>::empty());
            while i < t.len()
                invariant
                    i <= t@.len(),
                    tv == entry_views(t@),
                    tv.len() == t@.len(),
                    forall|k: int| 0 <= k < t@.len() ==> #[trigger] tv[k] == (t@[k].0@, t@[k].1@),
                    entry_views(d@) == merge_entries(dv, tv.take(i as int)),
                decreases t.len() - i,
            {
                proof {
                    assert(tv.take(i + 1).drop_last() =~= tv.take(i as int));
                    assert(tv.take(i + 1).last() == tv[i as int]);
                }
                insert_entry(&mut d, t[i].0.clone(), t[i].1.deep_copy());
                i = i + 1;
            }
            proof {
                assert(tv.take(t@.len() as int) =~= tv);
            }
            Json::object(d)
        },
        (other, _) => other,
    }
}

/// Prepares a service call: the domain and service named by `service`, and
/// the data (an empty object when no `--data` is given) with the target's
/// entries merged in when both are objects. The first thing wrong is the
/// error: the service's form, then the data, then the target.
pub fn call_request(
    service: &str,
    data: Option<(&str, Result<Json, String>)>,
    target: Option<(&str, Result<Json, String>)>,
) -> (r: Result<(String, String, Json), AppError>)
    ensures
        match service_parts(service@) {
            None => r matches Err(AppError::InvalidServiceFormat { input }) && input@ == service@,
            Some((d, s)) => match data_outcome(option_view(data)) {
                Err(m) => r matches Err(AppError::JsonParse { option, message }) && option@ == "data"@
                    && message@ == m,
                Ok(dv) => match option_view(target) {
                    Some((text, parsed)) => match json_option_outcome(text, parsed) {
                        Err(m) => r matches Err(AppError::JsonParse { option, message }) && option@
                            == "target"@ && message@ == m,
                        Ok(tv) => r matches Ok((a, b, j)) && a@ == d && b@ == s && j@ == merged(dv, tv),
                    },
                    None => r matches Ok((a, b, j)) && a@ == d && b@ == s && j@ == dv,
                },
            },
        },
{
    let (domain, name) = match validate_service_format(service) {
        Ok(parts) => parts,
        Err(e) => return Err(e),
    };
    let d = match data {
        Some((text, parsed)) => match parse_json_option(text, "data", parsed) {
            Ok(v) => v,
            Err(e) => return Err(e),
        },
        None => {
            let e: Vec<(String, Json)> = Vec::new();
            assert(entry_views(e@) =~= Seq::<(Seq<char>, JsonV)>::empty());
            Json::object(e)
        },
    };
    let merged_data = match target {
        Some((text, parsed)) => match parse_json_option(text, "target", parsed) {
            Ok(t) => merge_into(d, &t),
            Err(e) => return Err(e),
        },
        None => d,
    };
    Ok((owned(domain), owned(name), merged_data))
}

/// The report of a service call: its result and success.
pub fn call_report(result: Json, mode: OutputMode) -> (r: Result<String, AppError>)
    requires
        depth(result@) < 999990,
    ensures
        r matches Ok(t) && t@ == rendered(
            JsonV::Object(seq![("result"@, result@), ("success"@, JsonV::Bool(true))]),
            mode,
        ),
{
    let ghost rv = result@;
    let mut e: Vec<(String, Json)> = Vec::new();
    assert(entry_views(e@) =~= Seq::<(Seq<char>, JsonV)>::empty());
    push_entry(&mut e, "result", result);
    push_entry(&mut e, "success", Json::Bool(true));
    proof {
        assert(entry_views(e@) =~= seq![("result"@, rv), ("success"@, JsonV::Bool(true))]);
        crate::json::lemma_entry_views(e@);
        crate::json::lemma_depth_entries_bound(entry_views(e@), 999990);
    }
    format_output(&Json::object(e), mode)
}

} // verus!
