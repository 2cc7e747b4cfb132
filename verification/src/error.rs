//! The errors every command can end with, their stable codes and messages.
use vstd::prelude::*;
use crate::json::{entry, Json, JsonV, entry_views};
use crate::text::{opt_view, decimal, owned, push_char, push_decimal, push_str, repeat_char};

verus! {

/// Why a command failed.
#[derive(Debug)]
pub enum AppError {
    MissingUrl,
    MissingToken,
    Http { status: u16, message: String },
    Connection(String),
    JsonParse { option: String, message: String },
    InvalidServiceFormat { input: String },
    InvalidReloadComponent { input: String },
    InvalidPattern(String),
    Auth(String),
    InsecurePermissions { path: String, mode: u32 },
    Other(String),
}

/// The octal digits of `n`.
pub open spec fn octal(n: nat) -> Seq<char>
    decreases n,
{
    if n < 8 {
        decimal(n)
    } else {
        octal(n / 8) + decimal(n % 8)
    }
}

/// The machine-readable code of an error.
pub open spec fn code_spec(e: AppError) -> Seq<char> {
    match e {
        AppError::MissingUrl | AppError::MissingToken | AppError::Auth(_) => "AUTH_FAILED"@,
        AppError::Http { .. } | AppError::Connection(_) => "CONNECTION_FAILED"@,
        AppError::JsonParse { .. } => "JSON_PARSE_ERROR"@,
        AppError::InvalidServiceFormat { .. } => "INVALID_SERVICE"@,
        AppError::InvalidReloadComponent { .. } => "INVALID_COMPONENT"@,
        AppError::InvalidPattern(_) => "INVALID_PATTERN"@,
        AppError::InsecurePermissions { .. } => "INSECURE_PERMISSIONS"@,
        AppError::Other(_) => "UNKNOWN_ERROR"@,
    }
}

/// The human-readable message of an error.
pub open spec fn message_spec(e: AppError) -> Seq<char> {
    match e {
        AppError::MissingUrl => "Home Assistant URL not configured. Set HA_URL or use --url"@,
        AppError::MissingToken => "Home Assistant token not configured. Set HA_TOKEN or use --token"@,
        AppError::Http { status, message } => "HTTP "@ + decimal(status as nat) + ": "@ + message@,
        AppError::Connection(s) => "Connection failed: "@ + s@,
        AppError::JsonParse { option, message } => "Invalid JSON for --"@ + option@ + ": "@
            + message@,
        AppError::InvalidServiceFormat { input } => "Invalid service format: \""@ + input@
            + "\". Expected format: domain.service (e.g., light.turn_on)"@,
        AppError::InvalidReloadComponent { input } => "Invalid component: \""@ + input@
            + "\". Valid options: automations, scripts, scenes, all"@,
        AppError::InvalidPattern(s) => "Invalid regex pattern: "@ + s@,
        AppError::Auth(s) => "Authentication failed: "@ + s@,
        AppError::InsecurePermissions { path, mode } => "Insecure permissions "@ + octal(
            mode as nat,
        ) + " on "@ + path@ + ": run chmod 600 "@ + path@,
        AppError::Other(s) => s@,
    }
}

/// Appends the octal digits of `n`.
fn push_octal(out: &mut String, n: u32)
    ensures
        final(out)@ == old(out)@ + octal(n as nat),
    decreases n,
{
    if n < 8 {
        push_decimal(out, n as u64);
    } else {
        push_octal(out, n / 8);
        push_decimal(out, (n % 8) as u64);
        assert(octal(n as nat) == octal((n / 8) as nat) + decimal((n % 8) as nat));
    }
}

impl AppError {
    /// The machine-readable code.
    pub fn code(&self) -> (r: &'static str)
        ensures
            r@ == code_spec(*self),
    {
        match self {
            AppError::MissingUrl | AppError::MissingToken | AppError::Auth(_) => "AUTH_FAILED",
            AppError::Http { .. } | AppError::Connection(_) => "CONNECTION_FAILED",
            AppError::JsonParse { .. } => "JSON_PARSE_ERROR",
            AppError::InvalidServiceFormat { .. } => "INVALID_SERVICE",
            AppError::InvalidReloadComponent { .. } => "INVALID_COMPONENT",
            AppError::InvalidPattern(_) => "INVALID_PATTERN",
            AppError::InsecurePermissions { .. } => "INSECURE_PERMISSIONS",
            AppError::Other(_) => "UNKNOWN_ERROR",
        }
    }

    /// The human-readable message (what the error displays as).
    pub fn message(&self) -> (r: String)
        ensures
            r@ == message_spec(*self),
    {
        let mut out = String::new();
        match self {
            AppError::MissingUrl => push_str(
                &mut out,
                "Home Assistant URL not configured. Set HA_URL or use --url",
            ),
            AppError::MissingToken => push_str(
                &mut out,
                "Home Assistant token not configured. Set HA_TOKEN or use --token",
            ),
            AppError::Http { status, message } => {
                push_str(&mut out, "HTTP ");
                push_decimal(&mut out, *status as u64);
                push_str(&mut out, ": ");
                push_str(&mut out, message.as_str());
            },
            AppError::Connection(s) => {
                push_str(&mut out, "Connection failed: ");
                push_str(&mut out, s.as_str());
            },
            AppError::JsonParse { option, message } => {
                push_str(&mut out, "Invalid JSON for --");
                push_str(&mut out, option.as_str());
                push_str(&mut out, ": ");
                push_str(&mut out, message.as_str());
            },
            AppError::InvalidServiceFormat { input } => {
                push_str(&mut out, "Invalid service format: \"");
                push_str(&mut out, input.as_str());
                push_str(&mut out, "\". Expected format: domain.service (e.g., light.turn_on)");
            },
            AppError::InvalidReloadComponent { input } => {
                push_str(&mut out, "Invalid component: \"");
                push_str(&mut out, input.as_str());
                push_str(&mut out, "\". Valid options: automations, scripts, scenes, all");
            },
            AppError::InvalidPattern(s) => {
                push_str(&mut out, "Invalid regex pattern: ");
                push_str(&mut out, s.as_str());
            },
            AppError::Auth(s) => {
                push_str(&mut out, "Authentication failed: ");
                push_str(&mut out, s.as_str());
            },
            AppError::InsecurePermissions { path, mode } => {
                push_str(&mut out, "Insecure permissions ");
                push_octal(&mut out, *mode);
                push_str(&mut out, " on ");
                push_str(&mut out, path.as_str());
                push_str(&mut out, ": run chmod 600 ");
                push_str(&mut out, path.as_str());
            },
            AppError::Other(s) => push_str(&mut out, s.as_str()),
        }
        out
    }

    /// The structured form printed when a command fails.
    pub fn to_error_output(&self) -> (r: ErrorOutput)
        ensures
            r.error@ == message_spec(*self),
            r.code@ == code_spec(*self),
            r.entity_id is None,
            r.service is None,
    {
        ErrorOutput { error: self.message(), code: owned(self.code()), entity_id: None, service: None }
    }
}

/// The structured error report: message, code and the entity or service
/// concerned, when there is one.
pub struct ErrorOutput {
    pub error: String,
    pub code: String,
    pub entity_id: Option<String>,
    pub service: Option<String>,
}

/// The JSON document of an error report: its fields in declaration order,
/// the absent optional ones left out.
pub open spec fn error_output_doc(
    error: Seq<char>,
    code: Seq<char>,
    entity_id: Option<Seq<char>>,
    service: Option<Seq<char>>,
) -> JsonV {
    let base = seq![("error"@, JsonV::Str(error)), ("code"@, JsonV::Str(code))];
    let with_entity = match entity_id {
        Some(e) => base.push(("entity_id"@, JsonV::Str(e))),
        None => base,
    };
    let all = match service {
        Some(s) => with_entity.push(("service"@, JsonV::Str(s))),
        None => with_entity,
    };
    JsonV::Object(all)
}

impl ErrorOutput {
    /// The report as a JSON document.
    pub fn to_json(&self) -> (r: Json)
        ensures
            r@ == error_output_doc(
                self.error@,
                self.code@,
                opt_view(self.entity_id),
                opt_view(self.service),
            ),
    {
        let mut entries: Vec<(String, Json)> = Vec::new();
        entries.push(entry("error", Json::string(self.error.as_str())));
        entries.push(entry("code", Json::string(self.code.as_str())));
        match &self.entity_id {
            Some(e) => entries.push(entry("entity_id", Json::string(e.as_str()))),
            None => {},
        }
        match &self.service {
            Some(s) => entries.push(entry("service", Json::string(s.as_str()))),
            None => {},
        }
        let r = Json::object(entries);
        proof {
            let want = error_output_doc(
                self.error@,
                self.code@,
                opt_view(self.entity_id),
                opt_view(self.service),
            );
            crate::json::lemma_entry_views(entries@);
            assert(entry_views(entries@) =~= want->Object_0);
        }
        r
    }
}

} // verus!
