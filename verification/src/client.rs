//! The REST side of Home Assistant: the addresses requests go to, the time
//! stamps they carry, and what a failed reply becomes.
use vstd::prelude::*;
use crate::error::AppError;
use crate::json::{insert_entry, insert_sorted, jget, jstr, text_lt, value_at, Json, JsonV, entry_views, views};
use crate::text::{decimal, owned, push_char, push_str, push_zero_padded, zero_pad};
use crate::time::{date_days_injective, date_to_days, days_to_ymd, valid_date};

verus! {

// ---------------------------------------------------------------------
// Time stamps
// ---------------------------------------------------------------------

/// The calendar date `days` days after 1970-01-01, as (year, month, day).
pub open spec fn date_of(days: nat) -> (int, int, int) {
    choose|d: (int, int, int)| valid_date(d.0, d.1, d.2) && date_to_days(d.0, d.1, d.2) == days
}

/// Two decimal digits (or more) of `n`.
pub open spec fn two(n: int) -> Seq<char> {
    zero_pad(decimal(n as nat), 2)
}

/// `YYYY-MM-DDTHH:MM:SS` for the UTC time `secs` seconds after the epoch.
pub open spec fn timestamp_text(secs: nat) -> Seq<char> {
    let d = date_of(secs / 86400);
    let t = secs % 86400;
    zero_pad(decimal(d.0 as nat), 4) + seq!['-'] + two(d.1) + seq!['-'] + two(d.2) + seq!['T']
        + two((t / 3600) as int) + seq![':'] + two(((t % 3600) / 60) as int) + seq![':'] + two((t % 60) as int)
}

/// Seconds since the Unix epoch by the system clock (`SystemTime::now` and
/// `duration_since(UNIX_EPOCH)`), or none when the clock stands before the
/// epoch. Nothing is stated of the value: it is the time of the call.
#[verifier::external_body]
fn unix_now() -> (r: Option<u64>) {
    match std::time::SystemTime::now().duration_since(std::time::UNIX_EPOCH) {
        Ok(d) => Some(d.as_secs()),
        Err(_) => None,
    }
}

/// The text of the UTC time `secs` seconds after the epoch.
pub fn format_timestamp(secs: u64) -> (r: String)
    ensures
        r@ == timestamp_text(secs as nat),
{
    let days = secs / 86400;
    let t = secs % 86400;
    let (year, month, day) = days_to_ymd(days);
    proof {
        let d = date_of(days as nat);
        assert(valid_date(year as int, month as int, day as int) && date_to_days(
            year as int,
            month as int,
            day as int,
        ) == days);
        date_days_injective(d.0, d.1, d.2, year as int, month as int, day as int);
    }
    let mut out = String::new();
    push_zero_padded(&mut out, year, 4);
    push_char(&mut out, '-');
    push_zero_padded(&mut out, month, 2);
    push_char(&mut out, '-');
    push_zero_padded(&mut out, day, 2);
    push_char(&mut out, 'T');
    push_zero_padded(&mut out, t / 3600, 2);
    push_char(&mut out, ':');
    push_zero_padded(&mut out, (t % 3600) / 60, 2);
    push_char(&mut out, ':');
    push_zero_padded(&mut out, t % 60, 2);
    proof {
        assert(out@ =~= timestamp_text(secs as nat));
    }
    out
}

/// The time stamp `hours` hours before the time `now` (seconds after the
/// epoch).
pub open spec fn period_start(now: u64, hours: u32) -> Seq<char> {
    timestamp_text((now - hours * 3600) as nat)
}

/// The time stamp `hours` hours before the time `now`.
pub fn offset_timestamp(now: u64, hours: u32) -> (r: String)
    requires
        hours * 3600 <= now,
    ensures
        r@ == period_start(now, hours),
{
    format_timestamp(now - (hours as u64) * 3600)
}

/// What the start of a period of `hours` hours gives for a clock reading:
/// the time stamp `hours` hours before it, or why there is none.
pub open spec fn period_outcome(now: Option<u64>, hours: u32) -> Result<Seq<char>, Seq<char>> {
    match now {
        None => Err("System clock is before Unix epoch"@),
        Some(n) => if n < hours * 3600 {
            Err("System clock is before the start of the requested period"@)
        } else {
            Ok(period_start(n, hours))
        },
    }
}

/// The model of a text result.
pub open spec fn text_outcome(r: Result<String, AppError>) -> Result<Seq<char>, Seq<char>> {
    match r {
        Ok(s) => Ok(s@),
        Err(e) => Err(crate::error::message_spec(e)),
    }
}

/// The start of a period of `hours` hours that ends at the clock reading
/// `now` (seconds after the epoch, none when the clock stands before it).
pub fn period_start_at(now: Option<u64>, hours: u32) -> (r: Result<String, AppError>)
    ensures
        text_outcome(r) == period_outcome(now, hours),
        r matches Err(e) ==> e is Other,
{
    match now {
        None => Err(AppError::Other(owned("System clock is before Unix epoch"))),
        Some(n) => {
            if n < (hours as u64) * 3600 {
                Err(AppError::Other(owned("System clock is before the start of the requested period")))
            } else {
                Ok(offset_timestamp(n, hours))
            }
        },
    }
}

/// The start of a period of `hours` hours that ends now, as the local
/// clock gives it (`YYYY-MM-DDTHH:MM:SS`, UTC). It fails when the clock
/// stands before the epoch or less than `hours` hours after it.
pub fn chrono_offset(hours: u32) -> (r: Result<String, AppError>)
    ensures
        exists|now: Option<u64>| text_outcome(r) == #[trigger] period_outcome(now, hours),
        r matches Err(e) ==> e is Other,
{
    let now = unix_now();
    let r = period_start_at(now, hours);
    assert(text_outcome(r) == period_outcome(now, hours));
    r
}

/// [`chrono_offset`], for the commands that compare against it.
pub fn chrono_offset_public(hours: u32) -> (r: Result<String, AppError>)
    ensures
        exists|now: Option<u64>| text_outcome(r) == #[trigger] period_outcome(now, hours),
        r matches Err(e) ==> e is Other,
{
    chrono_offset(hours)
}

/// The time stamp of a clock reading with `Z` after it: the epoch itself
/// when the clock stands before it.
pub open spec fn stamp_text(now: Option<u64>) -> Seq<char> {
    timestamp_text(
        match now {
            Some(n) => n as nat,
            None => 0,
        },
    ).push('Z')
}

/// The UTC time stamp of the clock reading `now`, `YYYY-MM-DDTHH:MM:SSZ`.
pub fn stamp_at(now: Option<u64>) -> (r: String)
    ensures
        r@ == stamp_text(now),
{
    let secs = match now {
        Some(n) => n,
        None => 0,
    };
    let mut out = format_timestamp(secs);
    push_char(&mut out, 'Z');
    out
}

/// The current UTC time, `YYYY-MM-DDTHH:MM:SSZ` (the epoch itself when the
/// clock stands before it).
pub fn current_timestamp() -> (r: String)
    ensures
        exists|now: Option<u64>| r@ == #[trigger] stamp_text(now),
{
    let now = unix_now();
    stamp_at(now)
}

/// For one clock reading, the current time stamp is the start of a period
/// of no hours with `Z` after it; before the epoch, it is the epoch.
pub proof fn stamp_is_start_of_empty_period(now: Option<u64>)
    ensures
        now matches Some(n) ==> period_outcome(now, 0) == Ok::<Seq<char>, Seq<char>>(period_start(n, 0))
            && stamp_text(now) == period_start(n, 0).push('Z'),
        now is None ==> stamp_text(now) == timestamp_text(0).push('Z'),
{
}

// ---------------------------------------------------------------------
// Path segments
// ---------------------------------------------------------------------

/// An upper-case hexadecimal digit.
pub open spec fn hex_upper(d: int) -> char {
    if 0 <= d < 10 {
        crate::text::digit_char(d as nat)
    } else if d == 10 {
        'A'
    } else if d == 11 {
        'B'
    } else if d == 12 {
        'C'
    } else if d == 13 {
        'D'
    } else if d == 14 {
        'E'
    } else {
        'F'
    }
}

/// A letter or digit of ASCII.
pub open spec fn ascii_alnum_byte(b: u8) -> bool {
    (0x30 <= b <= 0x39) || (0x41 <= b <= 0x5A) || (0x61 <= b <= 0x7A)
}

/// A byte as it stands in a path segment: an ASCII letter or digit as
/// itself, anything else as `%` and two upper-case hexadecimal digits.
pub open spec fn percent_byte(b: u8) -> Seq<char> {
    if ascii_alnum_byte(b) {
        seq![b as char]
    } else {
        seq!['%', hex_upper(b as int / 16), hex_upper(b as int % 16)]
    }
}

/// The encoding of several bytes.
pub open spec fn percent_bytes(bs: Seq<u8>) -> Seq<char>
    decreases bs.len(),
{
    if bs.len() == 0 {
        Seq::empty()
    } else {
        percent_bytes(bs.drop_last()) + percent_byte(bs.last())
    }
}

/// Text percent-encoded byte by byte of its UTF-8 form, every byte but the
/// ASCII letters and digits encoded (`NON_ALPHANUMERIC`).
pub open spec fn percent_encoded(s: Seq<char>) -> Seq<char> {
    percent_bytes(vstd::utf8::encode_utf8(s))
}

/// `percent_encoding::utf8_percent_encode(s, NON_ALPHANUMERIC)`, collected
/// into a string: the UTF-8 bytes of `s`, each ASCII letter or digit as it
/// is and every other byte as `%XX` in upper-case hexadecimal.
#[verifier::external_body]
fn utf8_percent_encode(s: &str) -> (r: String)
    ensures
        r@ == percent_encoded(s@),
{
    percent_encoding::utf8_percent_encode(s, percent_encoding::NON_ALPHANUMERIC).to_string()
}

/// A value made safe to stand as one segment of a request path.
pub fn encode_path_segment(s: &str) -> (r: String)
    ensures
        r@ == percent_encoded(s@),
{
    utf8_percent_encode(s)
}

// ---------------------------------------------------------------------
// Request addresses
// ---------------------------------------------------------------------

/// The address of an API endpoint: the base address, `/api`, the endpoint.
pub fn api_url(base_url: &str, endpoint: &str) -> (r: String)
    ensures
        r@ == base_url@ + "/api"@ + endpoint@,
{
    let mut out = owned(base_url);
    push_str(&mut out, "/api");
    push_str(&mut out, endpoint);
    out
}

/// The endpoint of one entity's state.
pub fn state_endpoint(entity_id: &str) -> (r: String)
    ensures
        r@ == "/states/"@ + percent_encoded(entity_id@),
{
    let mut out = owned("/states/");
    let e = encode_path_segment(entity_id);
    push_str(&mut out, e.as_str());
    out
}

/// The endpoint that calls a service.
pub fn service_endpoint(domain: &str, service: &str) -> (r: String)
    ensures
        r@ == "/services/"@ + percent_encoded(domain@) + "/"@ + percent_encoded(service@),
{
    let mut out = owned("/services/");
    let d = encode_path_segment(domain);
    push_str(&mut out, d.as_str());
    push_str(&mut out, "/");
    let s = encode_path_segment(service);
    push_str(&mut out, s.as_str());
    out
}

/// The endpoint that fires an event.
pub fn event_endpoint(event_type: &str) -> (r: String)
    ensures
        r@ == "/events/"@ + percent_encoded(event_type@),
{
    let mut out = owned("/events/");
    let e = encode_path_segment(event_type);
    push_str(&mut out, e.as_str());
    out
}

/// The address of the history of a period that starts at `start`.
pub fn history_url(base_url: &str, start: &str) -> (r: String)
    ensures
        r@ == base_url@ + "/api/history/period/"@ + start@,
{
    let mut out = owned(base_url);
    push_str(&mut out, "/api/history/period/");
    push_str(&mut out, start);
    out
}

/// The address of the logbook of a period that starts at `start`.
pub fn logbook_url(base_url: &str, start: &str) -> (r: String)
    ensures
        r@ == base_url@ + "/api/logbook/"@ + start@,
{
    let mut out = owned(base_url);
    push_str(&mut out, "/api/logbook/");
    push_str(&mut out, start);
    out
}

/// The value of the authorization header.
pub fn bearer(token: &str) -> (r: String)
    ensures
        r@ == "Bearer "@ + token@,
{
    let mut out = owned("Bearer ");
    push_str(&mut out, token);
    out
}

/// The body that asks for a template to be rendered.
pub fn template_body(template: &str) -> (r: Json)
    ensures
        r@ == JsonV::Object(seq![("template"@, JsonV::Str(template@))]),
{
    let mut entries: Vec<(String, Json)> = Vec::new();
    entries.push((owned("template"), Json::string(template)));
    proof {
        crate::json::lemma_entry_views(entries@);
    }
    assert(entry_views(entries@) =~= seq![("template"@, JsonV::Str(template@))]);
    Json::object(entries)
}

// ---------------------------------------------------------------------
// Failed replies
// ---------------------------------------------------------------------

/// The message of a reply that did not succeed: its body, or when that is
/// empty the status's reason phrase, or `Request failed`.
pub open spec fn failure_message(body: Seq<char>, reason: Option<Seq<char>>) -> Seq<char> {
    if body.len() == 0 {
        match reason {
            Some(r) => r,
            None => "Request failed"@,
        }
    } else {
        body
    }
}

/// The error for a reply whose status is not a success.
pub fn http_error(status: u16, body: String, reason: Option<&str>) -> (r: AppError)
    ensures
        r matches AppError::Http { status: s, message } && s == status && message@
            == failure_message(body@, crate::auth::opt_str(reason)),
{
    let message = if body.as_str().is_empty() {
        match reason {
            Some(x) => owned(x),
            None => owned("Request failed"),
        }
    } else {
        body
    };
    AppError::Http { status, message }
}

/// The error when the error log endpoint answers with a failure.
pub fn error_log_unavailable(status: u16) -> (r: AppError)
    ensures
        r matches AppError::Http { status: s, message } && s == status && message@
            == "Error log endpoint unavailable. This endpoint may require admin privileges or may not be available in your HA version. Use HA UI: Settings > System > Logs instead."@,
{
    AppError::Http {
        status,
        message: owned(
            "Error log endpoint unavailable. This endpoint may require admin privileges or may not be available in your HA version. Use HA UI: Settings > System > Logs instead.",
        ),
    }
}

/// What a request that could not be completed becomes: a failed connection,
/// a failure with the status the reply carried, or another error, each
/// with the transport's own description.
pub fn transport_error(is_connect: bool, status: Option<u16>, text: String) -> (r: AppError)
    ensures
        is_connect ==> r == AppError::Connection(text),
        !is_connect && status is Some ==> r == (AppError::Http { status: status->0, message: text }),
        !is_connect && status is None ==> r == AppError::Other(text),
{
    if is_connect {
        AppError::Connection(text)
    } else {
        match status {
            Some(s) => AppError::Http { status: s, message: text },
            None => AppError::Other(text),
        }
    }
}

// ---------------------------------------------------------------------
// Services by domain
// ---------------------------------------------------------------------

/// The services of each domain, keyed by domain in key order: every item
/// with a string `domain` and a `services` entry puts the latter under the
/// former, a later item replacing an earlier one of the same domain.
pub open spec fn services_map(items: Seq<JsonV>) -> Seq<(Seq<char>, JsonV)>
    decreases items.len(),
{
    if items.len() == 0 {
        Seq::empty()
    } else {
        let prev = services_map(items.drop_last());
        let it = items.last();
        match (crate::json::jget_str(it, "domain"@), jget(it, "services"@)) {
            (Some(d), Some(s)) => insert_sorted(prev, d, s),
            _ => prev,
        }
    }
}

proof fn lemma_insert_sorted_bound(e: Seq<(Seq<char>, JsonV)>, k: Seq<char>, v: JsonV, b: nat)
    requires
        forall|i: int| 0 <= i < e.len() ==> crate::json::depth(#[trigger] e[i].1) < b,
        crate::json::depth(v) < b,
    ensures
        forall|i: int| 0 <= i < insert_sorted(e, k, v).len() ==> crate::json::depth(#[trigger] insert_sorted(e, k, v)[i].1) < b,
    decreases e.len(),
{
    if e.len() > 0 && e[0].0 != k && !crate::json::text_lt(k, e[0].0) {
        assert forall|i: int| 0 <= i < e.drop_first().len() implies crate::json::depth(#[trigger] e.drop_first()[i].1) < b by {
            assert(e.drop_first()[i] == e[i + 1]);
        }
        lemma_insert_sorted_bound(e.drop_first(), k, v, b);
        let r = insert_sorted(e, k, v);
        assert forall|i: int| 0 <= i < r.len() implies crate::json::depth(#[trigger] r[i].1) < b by {
            if i > 0 {
                assert(r[i] == insert_sorted(e.drop_first(), k, v)[i - 1]);
            }
        }
    } else if e.len() > 0 {
        let r = insert_sorted(e, k, v);
        assert forall|i: int| 0 <= i < r.len() implies crate::json::depth(#[trigger] r[i].1) < b by {
            if i > 0 && e[0].0 == k {
                assert(r[i] == e[i]);
            } else if i > 0 {
                assert(r[i] == e[i - 1]);
            }
        }
    }
}

proof fn lemma_services_map_bound(items: Seq<JsonV>, b: nat)
    requires
        forall|i: int| 0 <= i < items.len() ==> crate::json::depth(#[trigger] items[i]) < b,
    ensures
        forall|i: int| 0 <= i < services_map(items).len() ==> crate::json::depth(#[trigger] services_map(items)[i].1) < b,
    decreases items.len(),
{
    if items.len() > 0 {
        assert forall|i: int| 0 <= i < items.drop_last().len() implies crate::json::depth(#[trigger] items.drop_last()[i]) < b by {
            assert(items.drop_last()[i] == items[i]);
        }
        lemma_services_map_bound(items.drop_last(), b);
        let it = items.last();
        crate::json::lemma_jget_depth(it, "services"@);
        assert(crate::json::depth(items[items.len() - 1]) < b);
        match (crate::json::jget_str(it, "domain"@), jget(it, "services"@)) {
            (Some(d), Some(s)) => lemma_insert_sorted_bound(services_map(items.drop_last()), d, s, b),
            _ => {},
        }
    }
}

/// The services array of the API turned into a map from domain to its
/// services.
pub fn services_to_map(services: &[Json]) -> (r: Vec<(String, Json)>)
    ensures
        entry_views(r@) == services_map(views(services@)),
        forall|b: nat| crate::output::shallow(views(services@), b) ==> forall|i: int| 0 <= i < r@.len() ==> crate::json::depth(#[trigger] entry_views(r@)[i].1) < b,
{
    let ghost vs = views(services@);
    proof {
        crate::json::lemma_views(services@);
    }
    let mut map: Vec<(String, Json)> = Vec::new();
    let mut i: usize = 0;
    while i < services.len()
        invariant
            i <= services.len(),
            vs == views(services@),
            vs.len() == services@.len(),
            forall|k: int| 0 <= k < services@.len() ==> #[trigger] vs[k] == services@[k]@,
            entry_views(map@) == services_map(vs.take(i as int)),
        decreases services.len() - i,
    {
        proof {
            assert(vs.take(i + 1).drop_last() =~= vs.take(i as int));
            assert(vs.take(i + 1).last() == services@[i as int]@);
        }
        let item = &services[i];
        match (item.get_str("domain"), item.get("services")) {
            (Some(d), Some(s)) => {
                insert_entry(&mut map, owned(d), s.deep_copy());
            },
            _ => {},
        }
        i = i + 1;
    }
    proof {
        assert(vs.take(services@.len() as int) =~= vs);
        crate::json::lemma_entry_views(map@);
        assert forall|b: nat| crate::output::shallow(views(services@), b) implies forall|i: int| 0 <= i < map@.len() ==> crate::json::depth(#[trigger] entry_views(map@)[i].1) < b by {
            lemma_services_map_bound(vs, b);
        }
    }
    map
}

/// The services that the last item naming the domain `d` lists, if any
/// item names it and lists services.
pub open spec fn last_services(items: Seq<JsonV>, d: Seq<char>) -> Option<JsonV>
    decreases items.len(),
{
    if items.len() == 0 {
        None
    } else {
        let it = items.last();
        match (crate::json::jget_str(it, "domain"@), jget(it, "services"@)) {
            (Some(x), Some(s)) => if x == d {
                Some(s)
            } else {
                last_services(items.drop_last(), d)
            },
            _ => last_services(items.drop_last(), d),
        }
    }
}

/// The service map holds each domain once, in domain order, and a domain
/// holds the services of the last item that names it.
pub proof fn services_by_domain(items: Seq<JsonV>)
    ensures
        crate::json::keys_sorted(services_map(items)),
        forall|d: Seq<char>| #[trigger] value_at(services_map(items), d) == last_services(items, d),
    decreases items.len(),
{
    if items.len() == 0 {
        assert forall|d: Seq<char>| #[trigger] value_at(services_map(items), d) == last_services(items, d) by {
            assert(services_map(items).len() == 0);
        }
    } else {
        let prev_items = items.drop_last();
        services_by_domain(prev_items);
        let prev = services_map(prev_items);
        let it = items.last();
        match (crate::json::jget_str(it, "domain"@), jget(it, "services"@)) {
            (Some(x), Some(s)) => {
                crate::json::insert_keeps_keys_sorted(prev, x, s);
                assert forall|d: Seq<char>| #[trigger] value_at(services_map(items), d) == last_services(items, d) by {
                    if d != x {
                        assert(value_at(insert_sorted(prev, x, s), d) == value_at(prev, d));
                        assert(value_at(prev, d) == last_services(prev_items, d));
                    }
                }
            },
            _ => {
                assert forall|d: Seq<char>| #[trigger] value_at(services_map(items), d) == last_services(items, d) by {
                    assert(value_at(prev, d) == last_services(prev_items, d));
                }
            },
        }
    }
}

/// A character that a percent-encoded segment may hold: an ASCII letter or
/// digit, or `%`.
pub open spec fn segment_char(c: char) -> bool {
    crate::text::is_ascii_alnum(c) || c == '%'
}

proof fn lemma_percent_byte_safe(b: u8)
    ensures
        forall|j: int| 0 <= j < percent_byte(b).len() ==> segment_char(#[trigger] percent_byte(b)[j]),
{
    if ascii_alnum_byte(b) {
        assert(percent_byte(b)[0] == b as char);
        assert(segment_char(b as char));
    } else {
        let hi = b as int / 16;
        let lo = b as int % 16;
        assert(segment_char(hex_upper(hi)));
        assert(segment_char(hex_upper(lo)));
    }
}

proof fn lemma_percent_bytes_safe(bs: Seq<u8>)
    ensures
        forall|j: int| 0 <= j < percent_bytes(bs).len() ==> segment_char(#[trigger] percent_bytes(bs)[j]),
    decreases bs.len(),
{
    if bs.len() > 0 {
        lemma_percent_bytes_safe(bs.drop_last());
        lemma_percent_byte_safe(bs.last());
        let a = percent_bytes(bs.drop_last());
        let b = percent_byte(bs.last());
        assert forall|j: int| 0 <= j < percent_bytes(bs).len() implies segment_char(#[trigger] percent_bytes(bs)[j]) by {
            if j < a.len() {
                assert(percent_bytes(bs)[j] == a[j]);
            } else {
                assert(percent_bytes(bs)[j] == b[j - a.len()]);
            }
        }
    }
}

/// A percent-encoded path segment holds only ASCII letters, digits and
/// `%`, so no `/`, `?` or `#` in a value can end the segment or the path.
pub proof fn encoded_segment_is_safe(s: Seq<char>)
    ensures
        forall|j: int| 0 <= j < percent_encoded(s).len() ==> segment_char(#[trigger] percent_encoded(s)[j]),
{
    lemma_percent_bytes_safe(vstd::utf8::encode_utf8(s));
}

/// The value of an upper-case hexadecimal digit.
pub open spec fn hex_value(c: char) -> Option<nat> {
    if '0' <= c <= '9' {
        Some((c as u32 - 48) as nat)
    } else if 'A' <= c <= 'F' {
        Some((c as u32 - 55) as nat)
    } else {
        None
    }
}

/// The bytes a percent-encoded segment stands for, read from its end: an
/// escape `%XY` is one byte, an ASCII letter or digit is itself; anything
/// else makes the segment undecodable.
pub open spec fn percent_decoded(s: Seq<char>) -> Option<Seq<u8>>
    decreases s.len(),
{
    if s.len() == 0 {
        Some(Seq::empty())
    } else if s.len() >= 3 && s[s.len() - 3] == '%' {
        match (hex_value(s[s.len() - 2]), hex_value(s[s.len() - 1]), percent_decoded(s.take(s.len() - 3))) {
            (Some(h), Some(l), Some(p)) => Some(p.push((h * 16 + l) as u8)),
            _ => None,
        }
    } else if crate::text::is_ascii_alnum(s.last()) {
        match percent_decoded(s.drop_last()) {
            Some(p) => Some(p.push(s.last() as u8)),
            None => None,
        }
    } else {
        None
    }
}

proof fn lemma_hex_roundtrip(d: int)
    requires
        0 <= d < 16,
    ensures
        hex_value(hex_upper(d)) == Some(d as nat),
{
    assert(('0' as u32) == 48 && ('1' as u32) == 49 && ('2' as u32) == 50 && ('3' as u32) == 51 && ('4' as u32)
        == 52 && ('5' as u32) == 53 && ('6' as u32) == 54 && ('7' as u32) == 55 && ('8' as u32) == 56 && ('9' as u32)
        == 57 && ('A' as u32) == 65 && ('B' as u32) == 66 && ('C' as u32) == 67 && ('D' as u32) == 68 && ('E' as u32)
        == 69 && ('F' as u32) == 70);
}

proof fn lemma_percent_positions(bs: Seq<u8>)
    ensures
        forall|i: int| 0 <= i < percent_bytes(bs).len() && percent_bytes(bs)[i] == '%' ==> i + 2 < percent_bytes(bs).len(),
    decreases bs.len(),
{
    if bs.len() > 0 {
        lemma_percent_bytes_safe(bs.drop_last());
        lemma_percent_positions(bs.drop_last());
        let p = percent_bytes(bs.drop_last());
        let q = percent_byte(bs.last());
        assert forall|i: int| 0 <= i < percent_bytes(bs).len() && percent_bytes(bs)[i] == '%' implies i + 2 < percent_bytes(bs).len() by {
            if i < p.len() {
                assert(percent_bytes(bs)[i] == p[i]);
            } else {
                assert(percent_bytes(bs)[i] == q[i - p.len()]);
                if ascii_alnum_byte(bs.last()) {
                    assert(q[0] == bs.last() as char);
                }
            }
        }
    }
}

/// Percent-encoding loses nothing: decoding the encoding of a sequence of
/// bytes gives the bytes back.
pub proof fn percent_encoding_reverses(bs: Seq<u8>)
    ensures
        percent_decoded(percent_bytes(bs)) == Some(bs),
    decreases bs.len(),
{
    if bs.len() > 0 {
        let prev = bs.drop_last();
        let b = bs.last();
        percent_encoding_reverses(prev);
        lemma_percent_positions(prev);
        let p = percent_bytes(prev);
        let s = percent_bytes(bs);
        assert(s == p + percent_byte(b));
        if ascii_alnum_byte(b) {
            assert(s =~= p.push(b as char));
            assert(s.drop_last() =~= p);
            if s.len() >= 3 {
                assert(s[s.len() - 3] == p[p.len() - 2]);
            }
            assert((b as char) as u8 == b);
            assert(prev.push(b) =~= bs);
        } else {
            let h = b as int / 16;
            let l = b as int % 16;
            lemma_hex_roundtrip(h);
            lemma_hex_roundtrip(l);
            assert(s.take(s.len() - 3) =~= p);
            assert(s[s.len() - 3] == '%');
            assert(s[s.len() - 2] == hex_upper(h));
            assert(s[s.len() - 1] == hex_upper(l));
            assert((h * 16 + l) as u8 == b);
            assert(prev.push(b) =~= bs);
        }
    }
}

/// Different texts never share an encoded path segment: the segment's
/// bytes are the text's UTF-8 bytes, which give back the text.
pub proof fn encoding_is_injective(a: Seq<char>, b: Seq<char>)
    requires
        percent_encoded(a) == percent_encoded(b),
    ensures
        a == b,
{
    percent_encoding_reverses(vstd::utf8::encode_utf8(a));
    percent_encoding_reverses(vstd::utf8::encode_utf8(b));
    vstd::utf8::encode_utf8_decode_utf8(a);
    vstd::utf8::encode_utf8_decode_utf8(b);
}

// ---------------------------------------------------------------------
// Time stamps sort as the times they name
// ---------------------------------------------------------------------

/// 10 to the power `w`.
spec fn pow10(w: nat) -> nat
    decreases w,
{
    if w == 0 {
        1
    } else {
        10 * pow10((w - 1) as nat)
    }
}

/// The last `w` decimal digits of `n`, zeros first where `n` has fewer.
spec fn fixed_digits(n: nat, w: nat) -> Seq<char>
    decreases w,
{
    if w == 0 {
        Seq::empty()
    } else {
        fixed_digits(n / 10, (w - 1) as nat).push(crate::text::digit_char(n % 10))
    }
}

proof fn lemma_fixed_zero(w: nat)
    ensures
        fixed_digits(0, w) == crate::text::repeat_char('0', w),
    decreases w,
{
    if w > 0 {
        lemma_fixed_zero((w - 1) as nat);
        assert(crate::text::repeat_char('0', (w - 1) as nat).push('0') =~= crate::text::repeat_char('0', w));
    } else {
        assert(crate::text::repeat_char('0', 0) =~= Seq::<char>::empty());
    }
}

proof fn lemma_decimal_fits(n: nat, w: nat)
    requires
        n < pow10(w),
        w > 0,
    ensures
        decimal(n).len() <= w,
    decreases w,
{
    if n >= 10 {
        assert(n / 10 < pow10((w - 1) as nat));
        assert(w > 1);
        lemma_decimal_fits(n / 10, (w - 1) as nat);
    }
}

proof fn lemma_zero_pad_fixed(n: nat, w: nat)
    requires
        n < pow10(w),
        w > 0,
    ensures
        zero_pad(decimal(n), w) == fixed_digits(n, w),
    decreases w,
{
    if n < 10 {
        lemma_fixed_zero((w - 1) as nat);
        assert(n / 10 == 0);
        assert(zero_pad(decimal(n), w) =~= crate::text::repeat_char('0', (w - 1) as nat).push(
            crate::text::digit_char(n),
        ));
    } else {
        assert(n / 10 < pow10((w - 1) as nat));
        assert(w > 1);
        lemma_decimal_fits(n, w);
        lemma_decimal_fits(n / 10, (w - 1) as nat);
        lemma_zero_pad_fixed(n / 10, (w - 1) as nat);
        let q = decimal(n / 10);
        assert(decimal(n) == q.push(crate::text::digit_char(n % 10)));
        if q.len() + 1 < w {
            assert(zero_pad(decimal(n), w) =~= zero_pad(q, (w - 1) as nat).push(crate::text::digit_char(n % 10)));
        } else {
            assert(zero_pad(decimal(n), w) =~= zero_pad(q, (w - 1) as nat).push(crate::text::digit_char(n % 10)));
        }
    }
}

proof fn lemma_digit_order(d1: nat, d2: nat)
    requires
        d1 < d2 < 10,
    ensures
        text_lt(seq![crate::text::digit_char(d1)], seq![crate::text::digit_char(d2)]),
{
    assert(('0' as u32) == 48 && ('1' as u32) == 49 && ('2' as u32) == 50 && ('3' as u32) == 51 && ('4' as u32)
        == 52 && ('5' as u32) == 53 && ('6' as u32) == 54 && ('7' as u32) == 55 && ('8' as u32) == 56 && ('9' as u32)
        == 57);
    assert(forall|d: nat| d < 10 ==> (#[trigger] crate::text::digit_char(d)) as u32 == 48 + d);
}

proof fn lemma_fixed_digits_order(n1: nat, n2: nat, w: nat)
    requires
        n1 < n2 < pow10(w),
    ensures
        text_lt(fixed_digits(n1, w), fixed_digits(n2, w)),
        fixed_digits(n1, w).len() == w,
        fixed_digits(n2, w).len() == w,
    decreases w,
{
    if w == 0 {
        assert(false);
    }
    let w1 = (w - 1) as nat;
    let q1 = n1 / 10;
    let q2 = n2 / 10;
    assert(q1 <= q2);
    assert(q2 < pow10(w1));
    let c1 = seq![crate::text::digit_char(n1 % 10)];
    let c2 = seq![crate::text::digit_char(n2 % 10)];
    assert(fixed_digits(n1, w) =~= fixed_digits(q1, w1) + c1);
    assert(fixed_digits(n2, w) =~= fixed_digits(q2, w1) + c2);
    if q1 < q2 {
        lemma_fixed_digits_order(q1, q2, w1);
        crate::json::lemma_text_lt_extend(fixed_digits(q1, w1), fixed_digits(q2, w1), c1, c2);
    } else {
        assert(n1 % 10 < n2 % 10);
        lemma_fixed_len(q1, w1);
        lemma_digit_order(n1 % 10, n2 % 10);
        crate::json::lemma_text_lt_common_prefix(fixed_digits(q1, w1), c1, c2);
    }
}

proof fn lemma_fixed_len(n: nat, w: nat)
    ensures
        fixed_digits(n, w).len() == w,
    decreases w,
{
    if w > 0 {
        lemma_fixed_len(n / 10, (w - 1) as nat);
    }
}

/// Two zero-padded numbers below `10^w` sort as the numbers do.
proof fn lemma_padded_order(n1: nat, n2: nat, w: nat)
    requires
        n1 <= n2 < pow10(w),
        w > 0,
    ensures
        n1 < n2 ==> text_lt(zero_pad(decimal(n1), w), zero_pad(decimal(n2), w)),
        zero_pad(decimal(n1), w).len() == w,
        zero_pad(decimal(n2), w).len() == w,
{
    lemma_zero_pad_fixed(n1, w);
    lemma_zero_pad_fixed(n2, w);
    lemma_fixed_len(n1, w);
    lemma_fixed_len(n2, w);
    if n1 < n2 {
        lemma_fixed_digits_order(n1, n2, w);
    }
}

/// One step of comparing two texts field by field: after a common start,
/// the first field decides unless it is equal, and then what follows it.
proof fn lemma_field_step(p: Seq<char>, fa: Seq<char>, fb: Seq<char>, ra: Seq<char>, rb: Seq<char>)
    requires
        fa.len() == fb.len(),
        text_lt(fa, fb) || (fa == fb && text_lt(ra, rb)),
    ensures
        text_lt(p + (fa + ra), p + (fb + rb)),
{
    crate::json::lemma_text_lt_common_prefix(p, fa + ra, fb + rb);
    if text_lt(fa, fb) {
        crate::json::lemma_text_lt_extend(fa, fb, ra, rb);
    } else {
        crate::json::lemma_text_lt_common_prefix(fa, ra, rb);
    }
}

/// `(x0, x1, x2)` comes before `(y0, y1, y2)` in lexical order.
spec fn before3(x: (nat, nat, nat), y: (nat, nat, nat)) -> bool {
    x.0 < y.0 || (x.0 == y.0 && x.1 < y.1) || (x.0 == y.0 && x.1 == y.1 && x.2 < y.2)
}

/// `:MM:SS`.
spec fn stamp_ms(mi: nat, s: nat) -> Seq<char> {
    seq![':'] + (two(mi as int) + (seq![':'] + two(s as int)))
}

/// `THH:MM:SS`.
spec fn stamp_hms(h: nat, mi: nat, s: nat) -> Seq<char> {
    seq!['T'] + (two(h as int) + stamp_ms(mi, s))
}

/// `-DDTHH:MM:SS`.
spec fn stamp_dhms(d: nat, h: nat, mi: nat, s: nat) -> Seq<char> {
    seq!['-'] + (two(d as int) + stamp_hms(h, mi, s))
}

/// A time stamp from its six fields.
spec fn stamp(y: nat, mo: nat, d: nat, h: nat, mi: nat, s: nat) -> Seq<char> {
    zero_pad(decimal(y), 4) + (seq!['-'] + (two(mo as int) + stamp_dhms(d, h, mi, s)))
}

proof fn lemma_stamp_order(
    a: (nat, nat, nat, nat, nat, nat),
    b: (nat, nat, nat, nat, nat, nat),
)
    requires
        a.0 <= b.0 < 10000,
        a.1 < 100 && a.2 < 100 && a.3 < 100 && a.4 < 100 && a.5 < 100,
        b.1 < 100 && b.2 < 100 && b.3 < 100 && b.4 < 100 && b.5 < 100,
        before3((a.0, a.1, a.2), (b.0, b.1, b.2)) || ((a.0, a.1, a.2) == (b.0, b.1, b.2) && before3(
            (a.3, a.4, a.5),
            (b.3, b.4, b.5),
        )),
    ensures
        text_lt(stamp(a.0, a.1, a.2, a.3, a.4, a.5), stamp(b.0, b.1, b.2, b.3, b.4, b.5)),
{
    assert(pow10(2) == 100) by {
        reveal_with_fuel(pow10, 3);
    }
    assert(pow10(4) == 10000) by {
        reveal_with_fuel(pow10, 5);
    }
    let e = Seq::<char>::empty();
    let f0a = zero_pad(decimal(a.0), 4);
    let f0b = zero_pad(decimal(b.0), 4);
    let t5a = two(a.5 as int);
    let t5b = two(b.5 as int);
    let t4a = two(a.4 as int);
    let t4b = two(b.4 as int);
    let t3a = two(a.3 as int);
    let t3b = two(b.3 as int);
    let t2a = two(a.2 as int);
    let t2b = two(b.2 as int);
    let t1a = two(a.1 as int);
    let t1b = two(b.1 as int);
    lemma_padded_order(a.0, b.0, 4);
    if a.1 <= b.1 {
        lemma_padded_order(a.1, b.1, 2);
    } else {
        lemma_padded_order(b.1, a.1, 2);
    }
    if a.2 <= b.2 {
        lemma_padded_order(a.2, b.2, 2);
    } else {
        lemma_padded_order(b.2, a.2, 2);
    }
    if a.3 <= b.3 {
        lemma_padded_order(a.3, b.3, 2);
    } else {
        lemma_padded_order(b.3, a.3, 2);
    }
    if a.4 <= b.4 {
        lemma_padded_order(a.4, b.4, 2);
    } else {
        lemma_padded_order(b.4, a.4, 2);
    }
    if a.5 <= b.5 {
        lemma_padded_order(a.5, b.5, 2);
    } else {
        lemma_padded_order(b.5, a.5, 2);
    }
    let r5a = seq![':'] + t5a;
    let r5b = seq![':'] + t5b;
    if a.0 == b.0 && a.1 == b.1 && a.2 == b.2 && a.3 == b.3 && a.4 == b.4 {
        lemma_field_step(seq![':'], t5a, t5b, e, e);
        assert(t5a + e =~= t5a);
        assert(t5b + e =~= t5b);
    }
    let r4a = seq![':'] + (t4a + r5a);
    let r4b = seq![':'] + (t4b + r5b);
    if a.0 == b.0 && a.1 == b.1 && a.2 == b.2 && a.3 == b.3 {
        lemma_field_step(seq![':'], t4a, t4b, r5a, r5b);
    }
    let r3a = seq!['T'] + (t3a + r4a);
    let r3b = seq!['T'] + (t3b + r4b);
    if a.0 == b.0 && a.1 == b.1 && a.2 == b.2 {
        lemma_field_step(seq!['T'], t3a, t3b, r4a, r4b);
    }
    let r2a = seq!['-'] + (t2a + r3a);
    let r2b = seq!['-'] + (t2b + r3b);
    if a.0 == b.0 && a.1 == b.1 {
        lemma_field_step(seq!['-'], t2a, t2b, r3a, r3b);
    }
    let r1a = seq!['-'] + (t1a + r2a);
    let r1b = seq!['-'] + (t1b + r2b);
    if a.0 == b.0 {
        lemma_field_step(seq!['-'], t1a, t1b, r2a, r2b);
    }
    lemma_field_step(e, f0a, f0b, r1a, r1b);
    assert(e + (f0a + r1a) =~= stamp(a.0, a.1, a.2, a.3, a.4, a.5));
    assert(e + (f0b + r1b) =~= stamp(b.0, b.1, b.2, b.3, b.4, b.5));
}

/// The hours, minutes and seconds of a time of day, in that order, sort as
/// the times do.
proof fn lemma_time_of_day(t1: nat, t2: nat)
    requires
        t1 < t2 < 86400,
    ensures
        before3((t1 / 3600, (t1 % 3600) / 60, t1 % 60), (t2 / 3600, (t2 % 3600) / 60, t2 % 60)),
        t2 / 3600 < 24,
        (t1 % 3600) / 60 < 60 && (t2 % 3600) / 60 < 60,
{
    vstd::arithmetic::div_mod::lemma_fundamental_div_mod(t1 as int, 3600);
    vstd::arithmetic::div_mod::lemma_fundamental_div_mod(t2 as int, 3600);
    vstd::arithmetic::div_mod::lemma_fundamental_div_mod((t1 % 3600) as int, 60);
    vstd::arithmetic::div_mod::lemma_fundamental_div_mod((t2 % 3600) as int, 60);
    let h1 = t1 / 3600;
    let h2 = t2 / 3600;
    let m1 = (t1 % 3600) / 60;
    let m2 = (t2 % 3600) / 60;
    let s1 = (t1 % 3600) % 60;
    let s2 = (t2 % 3600) % 60;
    vstd::arithmetic::div_mod::lemma_fundamental_div_mod_converse_mod(t1 as int, 60, (60 * h1 + m1) as int, s1 as int);
    vstd::arithmetic::div_mod::lemma_fundamental_div_mod_converse_mod(t2 as int, 60, (60 * h2 + m2) as int, s2 as int);
}

/// The six fields of the time stamp of `secs`.
spec fn stamp_fields(secs: nat) -> (nat, nat, nat, nat, nat, nat) {
    let d = date_of(secs / 86400);
    let t = secs % 86400;
    (d.0 as nat, d.1 as nat, d.2 as nat, t / 3600, (t % 3600) / 60, t % 60)
}

proof fn lemma_assoc(x: Seq<char>, y: Seq<char>, z: Seq<char>)
    ensures
        (x + y) + z == x + (y + z),
{
    assert((x + y) + z =~= x + (y + z));
}

proof fn lemma_timestamp_is_stamp(secs: nat)
    requires
        date_of(secs / 86400).0 >= 0,
        date_of(secs / 86400).1 >= 0,
        date_of(secs / 86400).2 >= 0,
    ensures
        ({
            let f = stamp_fields(secs);
            timestamp_text(secs) == stamp(f.0, f.1, f.2, f.3, f.4, f.5)
        }),
{
    let f = stamp_fields(secs);
    let a = zero_pad(decimal(f.0), 4);
    let b = two(f.1 as int);
    let c = two(f.2 as int);
    let d = two(f.3 as int);
    let e = two(f.4 as int);
    let g = two(f.5 as int);
    let dash = seq!['-'];
    let tee = seq!['T'];
    let colon = seq![':'];
    let p1 = a + dash;
    let p2 = p1 + b;
    let p3 = p2 + dash;
    let p4 = p3 + c;
    let p5 = p4 + tee;
    let p6 = p5 + d;
    let p7 = p6 + colon;
    let p8 = p7 + e;
    let p9 = p8 + colon;
    assert(timestamp_text(secs) == p9 + g);
    lemma_assoc(p8, colon, g);
    let r = colon + g;
    lemma_assoc(p7, e, r);
    let r = e + r;
    lemma_assoc(p6, colon, r);
    let r = colon + r;
    assert(r == stamp_ms(f.4, f.5));
    lemma_assoc(p5, d, r);
    let r = d + r;
    lemma_assoc(p4, tee, r);
    let r = tee + r;
    assert(r == stamp_hms(f.3, f.4, f.5));
    lemma_assoc(p3, c, r);
    let r = c + r;
    lemma_assoc(p2, dash, r);
    let r = dash + r;
    assert(r == stamp_dhms(f.2, f.3, f.4, f.5));
    lemma_assoc(p1, b, r);
    let r = b + r;
    lemma_assoc(a, dash, r);
}

proof fn lemma_tod_bounds(t: nat)
    requires
        t < 86400,
    ensures
        t / 3600 < 24,
        (t % 3600) / 60 < 60,
        t % 60 < 60,
{
}

proof fn lemma_day_split(a: nat, b: nat)
    requires
        a < b,
    ensures
        a / 86400 <= b / 86400,
        a / 86400 == b / 86400 ==> a % 86400 < b % 86400,
        a % 86400 < 86400,
        b % 86400 < 86400,
{
    vstd::arithmetic::div_mod::lemma_fundamental_div_mod(a as int, 86400);
    vstd::arithmetic::div_mod::lemma_fundamental_div_mod(b as int, 86400);
}

proof fn lemma_date_fields(days: nat)
    ensures
        valid_date(date_of(days).0, date_of(days).1, date_of(days).2),
        date_to_days(date_of(days).0, date_of(days).1, date_of(days).2) == days,
        date_of(days).0 >= 1970,
        1 <= date_of(days).1 <= 12,
        1 <= date_of(days).2 <= 31,
{
    crate::time::every_day_has_a_date(days);
}

/// Time stamps sort as text in the order of the times they name, up to the
/// end of the year 9999: comparing the texts compares the times.
pub proof fn timestamps_sort_as_times(a: nat, b: nat)
    requires
        a < b,
        date_of(b / 86400).0 < 10000,
    ensures
        text_lt(timestamp_text(a), timestamp_text(b)),
{
    lemma_day_split(a, b);
    lemma_date_fields(a / 86400);
    lemma_date_fields(b / 86400);
    let fa = stamp_fields(a);
    let fb = stamp_fields(b);
    lemma_tod_bounds(a % 86400);
    lemma_tod_bounds(b % 86400);
    if a / 86400 < b / 86400 {
        let da = date_of(a / 86400);
        let db = date_of(b / 86400);
        crate::time::dates_follow_days(da.0, da.1, da.2, db.0, db.1, db.2);
        assert(before3((fa.0, fa.1, fa.2), (fb.0, fb.1, fb.2)));
    } else {
        lemma_time_of_day(a % 86400, b % 86400);
        assert((fa.0, fa.1, fa.2) == (fb.0, fb.1, fb.2));
        assert(before3((fa.3, fa.4, fa.5), (fb.3, fb.4, fb.5)));
    }
    lemma_stamp_order(fa, fb);
    lemma_timestamp_is_stamp(a);
    lemma_timestamp_is_stamp(b);
}

} // verus!
