//! The connection check.
use vstd::prelude::*;
use crate::commands::entities::or_null;
use crate::error::AppError;
use crate::json::{depth, entry_views, jget, push_entry, str_or, Json, JsonV};
use crate::output::{format_output, rendered, OutputMode};
use crate::text::{owned, push_str};
use crate::ui::Style;
use crate::commands::verify::kv_line;

verus! {

/// The human report of a connection: version, location, status, address.
pub open spec fn health_human(config: JsonV, url: Seq<char>, s: Style) -> Seq<char> {
    s.bold@ + "◆ "@ + "Home Assistant"@ + s.reset@ + "\n\n"@ + kv_line(
        s,
        "Version"@,
        12,
        str_or(config, "version"@, "unknown"@),
    ) + "\n"@ + kv_line(s, "Location"@, 12, str_or(config, "location_name"@, "unknown"@)) + "\n"@
        + kv_line(s, "Status"@, 12, s.green@ + "connected"@ + s.reset@) + "\n"@ + kv_line(
        s,
        "URL"@,
        12,
        url,
    ) + "\n"@
}

/// The document of a connection.
pub open spec fn health_doc(config: JsonV, url: Seq<char>) -> JsonV {
    JsonV::Object(
        seq![
            ("location"@, or_null(jget(config, "location_name"@))),
            ("status"@, JsonV::Str("connected"@)),
            ("url"@, JsonV::Str(url)),
            ("version"@, or_null(jget(config, "version"@))),
        ],
    )
}

/// The connection report from the configuration the server answered with.
pub fn check(config: &Json, url: &str, mode: OutputMode, style: &Style) -> (r: Result<String, AppError>)
    requires
        depth(config@) < 999990,
    ensures
        mode == OutputMode::Human ==> (r matches Ok(t) && t@ == health_human(config@, url@, *style)),
        mode != OutputMode::Human ==> (r matches Ok(t) && t@ == rendered(health_doc(config@, url@), mode)),
{
    match mode {
        OutputMode::Human => {
            let mut out = style.header("Home Assistant");
            push_str(&mut out, "\n\n");
            let l = style.kv("Version", 12, config.str_or("version", "unknown"));
            push_str(&mut out, l.as_str());
            push_str(&mut out, "\n");
            let l = style.kv("Location", 12, config.str_or("location_name", "unknown"));
            push_str(&mut out, l.as_str());
            push_str(&mut out, "\n");
            let mut status = owned(style.green);
            push_str(&mut status, "connected");
            push_str(&mut status, style.reset);
            let l = style.kv("Status", 12, status.as_str());
            push_str(&mut out, l.as_str());
            push_str(&mut out, "\n");
            let l = style.kv("URL", 12, url);
            push_str(&mut out, l.as_str());
            push_str(&mut out, "\n");
            assert(out@ =~= health_human(config@, url@, *style));
            Ok(out)
        },
        _ => {
            let loc = crate::commands::entities::field_or_null(config, "location_name");
            let ver = crate::commands::entities::field_or_null(config, "version");
            let ghost lv = loc@;
            let ghost vv = ver@;
            let mut e: Vec<(String, Json)> = Vec::new();
            assert(entry_views(e@) =~= Seq::<(Seq<char>, JsonV)>::empty());
            push_entry(&mut e, "location", loc);
            push_entry(&mut e, "status", Json::string("connected"));
            push_entry(&mut e, "url", Json::string(url));
            push_entry(&mut e, "version", ver);
            proof {
                assert(entry_views(e@) =~= seq![
                    ("location"@, lv),
                    ("status"@, JsonV::Str("connected"@)),
                    ("url"@, JsonV::Str(url@)),
                    ("version"@, vv),
                ]);
                crate::json::lemma_entry_views(e@);
                crate::json::lemma_depth_entries_bound(entry_views(e@), 999990);
            }
            format_output(&Json::object(e), mode)
        },
    }
}

} // verus!
