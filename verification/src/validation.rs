//! Checks on user input: regular expressions, service names, reload
//! targets and JSON options.
use vstd::prelude::*;
use crate::error::AppError;
use crate::json::{Json, JsonV};
use crate::text::{
    chars_of, find_char, first_index, has_char, owned, push_char, push_str, str_eq,
};

verus! {

#[verifier::external_type_specification]
#[verifier::external_body]
pub struct ExRegex(regex::Regex);

/// What `regex::Regex::new` reports for `pattern`: `None` when it accepts
/// the pattern, the text of its error otherwise.
pub uninterp spec fn regex_compile_error(pattern: Seq<char>) -> Option<Seq<char>>;

/// Whether the regular expression `pattern` matches somewhere in `text`
/// (`Regex::is_match`).
pub uninterp spec fn regex_matches(pattern: Seq<char>, text: Seq<char>) -> bool;

/// For each successive non-overlapping match of `pattern` in `text`, the
/// text of capture group 1 when it took part (`Regex::captures_iter`).
pub uninterp spec fn regex_group1_all(pattern: Seq<char>, text: Seq<char>) -> Seq<Option<Seq<char>>>;

/// `text` with every match of `pattern` replaced by `rep`
/// (`Regex::replace_all`).
pub uninterp spec fn regex_replace_all(pattern: Seq<char>, text: Seq<char>, rep: Seq<char>) -> Seq<char>;

/// A compiled regular expression together with its source text.
pub struct Pattern {
    source: String,
    re: regex::Regex,
}

impl Pattern {
    /// The text the expression was compiled from.
    pub closed spec fn source(&self) -> Seq<char> {
        self.source@
    }

    /// Compiles `pattern` (`regex::Regex::new`). It succeeds exactly when the
    /// crate accepts the pattern; the error text is the crate's.
    #[verifier::external_body]
    pub fn compile(pattern: &str) -> (r: Result<Pattern, String>)
        ensures
            match r {
                Ok(p) => regex_compile_error(pattern@) is None && p.source() == pattern@,
                Err(e) => regex_compile_error(pattern@) == Some(e@),
            },
    {
        match regex::Regex::new(pattern) {
            Ok(re) => Ok(Pattern { source: pattern.to_string(), re }),
            Err(e) => Err(e.to_string()),
        }
    }

    /// Whether the expression matches somewhere in `text` (`Regex::is_match`).
    #[verifier::external_body]
    pub fn is_match(&self, text: &str) -> (r: bool)
        ensures
            r == regex_matches(self.source(), text@),
    {
        self.re.is_match(text)
    }

    /// Capture group 1 of every match in `text`, in order
    /// (`Regex::captures_iter`).
    #[verifier::external_body]
    pub fn group1_all(&self, text: &str) -> (r: Vec<Option<String>>)
        ensures
            r@.len() == regex_group1_all(self.source(), text@).len(),
            forall|i: int|
                0 <= i < r@.len() ==> crate::text::opt_view(#[trigger] r@[i])
                    == regex_group1_all(self.source(), text@)[i],
    {
        let mut out = Vec::new();
        for caps in self.re.captures_iter(text) {
            out.push(caps.get(1).map(|m| m.as_str().to_string()));
        }
        out
    }

    /// `text` with every match replaced by `rep` (`Regex::replace_all`).
    #[verifier::external_body]
    pub fn replace_all(&self, text: &str, rep: &str) -> (r: String)
        ensures
            r@ == regex_replace_all(self.source(), text@, rep@),
    {
        self.re.replace_all(text, rep).into_owned()
    }
}

/// The characters that `regex::escape` puts a backslash before.
pub open spec fn is_meta(c: char) -> bool {
    c == '\\' || c == '.' || c == '+' || c == '*' || c == '?' || c == '(' || c == ')' || c == '|'
        || c == '[' || c == ']' || c == '{' || c == '}' || c == '^' || c == '$' || c == '#' || c
        == '&' || c == '-' || c == '~'
}

/// `text` with every meta character preceded by a backslash.
pub open spec fn escaped_pattern(text: Seq<char>) -> Seq<char>
    decreases text.len(),
{
    if text.len() == 0 {
        Seq::empty()
    } else {
        let prev = escaped_pattern(text.drop_last());
        if is_meta(text.last()) {
            prev + seq!['\\', text.last()]
        } else {
            prev.push(text.last())
        }
    }
}

/// `regex::escape`: a pattern that matches `text` literally. Each meta
/// character gets a backslash before it; nothing else changes.
#[verifier::external_body]
pub fn regex_escape(text: &str) -> (r: String)
    ensures
        r@ == escaped_pattern(text@),
{
    regex::escape(text)
}

/// The longest pattern accepted, in bytes.
pub const MAX_PATTERN_LENGTH: usize = 200;

/// What `safe_regex` decides for a pattern: the compiled source on success,
/// the error message otherwise.
pub open spec fn safe_regex_outcome(pattern: Seq<char>, case_insensitive: bool) -> Result<Seq<char>, Seq<char>> {
    let source = if case_insensitive {
        "(?i)"@ + pattern
    } else {
        pattern
    };
    if pattern.len() == 0 {
        Err("Pattern must be a non-empty string"@)
    } else if crate::ui::byte_len(pattern) > MAX_PATTERN_LENGTH {
        Err("Pattern too long (max 200 bytes)"@)
    } else {
        match regex_compile_error(source) {
            None => Ok(source),
            Some(e) => Err(e),
        }
    }
}

/// Compiles a user-supplied pattern: non-empty, at most 200 bytes, with
/// `(?i)` in front when matching ignores case.
pub fn safe_regex(pattern: &str, case_insensitive: bool) -> (r: Result<Pattern, AppError>)
    ensures
        match (r, safe_regex_outcome(pattern@, case_insensitive)) {
            (Ok(p), Ok(src)) => p.source() == src,
            (Err(AppError::InvalidPattern(m)), Err(e)) => m@ == e,
            _ => false,
        },
{
    if pattern.unicode_len() == 0 {
        return Err(AppError::InvalidPattern(owned("Pattern must be a non-empty string")));
    }
    if pattern.len() > MAX_PATTERN_LENGTH {
        return Err(AppError::InvalidPattern(owned("Pattern too long (max 200 bytes)")));
    }
    let mut source = String::new();
    if case_insensitive {
        push_str(&mut source, "(?i)");
    }
    push_str(&mut source, pattern);
    match Pattern::compile(source.as_str()) {
        Ok(p) => Ok(p),
        Err(e) => Err(AppError::InvalidPattern(e)),
    }
}

/// The domain and service of `domain.service`: split at the first '.', both
/// parts non-empty.
pub open spec fn service_parts(s: Seq<char>) -> Option<(Seq<char>, Seq<char>)> {
    match first_index(s, '.') {
        Some(i) => if 0 < i && i + 1 < s.len() {
            Some((s.take(i), s.skip(i + 1)))
        } else {
            None
        },
        None => None,
    }
}

/// Splits `domain.service` at its first dot.
pub fn validate_service_format(service: &str) -> (r: Result<(&str, &str), AppError>)
    ensures
        match (r, service_parts(service@)) {
            (Ok((d, s)), Some((pd, ps))) => d@ == pd && s@ == ps,
            (Err(AppError::InvalidServiceFormat { input }), None) => input@ == service@,
            _ => false,
        },
{
    let cs = chars_of(service);
    match find_char(cs.as_slice(), '.') {
        Some(i) => {
            if i == 0 || i + 1 >= cs.len() {
                return Err(AppError::InvalidServiceFormat { input: owned(service) });
            }
            let domain = service.substring_char(0, i);
            let name = service.substring_char(i + 1, cs.len());
            assert(domain@ =~= service@.take(i as int));
            assert(name@ =~= service@.skip(i + 1));
            Ok((domain, name))
        },
        None => Err(AppError::InvalidServiceFormat { input: owned(service) }),
    }
}

/// The reload targets.
pub open spec fn reload_target(c: Seq<char>) -> bool {
    c == "automations"@ || c == "scripts"@ || c == "scenes"@ || c == "all"@
}

/// Checks a reload target; no target means `all`.
pub fn validate_reload_component(component: Option<&str>) -> (r: Result<&str, AppError>)
    ensures
        ({
            let target = match component {
                Some(c) => c@,
                None => "all"@,
            };
            match r {
                Ok(t) => reload_target(target) && t@ == target,
                Err(AppError::InvalidReloadComponent { input }) => !reload_target(target) && input@
                    == target,
                _ => false,
            }
        }),
{
    let target = match component {
        Some(c) => c,
        None => "all",
    };
    if str_eq(target, "automations") || str_eq(target, "scripts") || str_eq(target, "scenes")
        || str_eq(target, "all") {
        Ok(target)
    } else {
        Err(AppError::InvalidReloadComponent { input: owned(target) })
    }
}

/// What `parse_json_option` returns for an option value, given what the
/// JSON parser made of it.
pub open spec fn json_option_outcome(value: Seq<char>, parsed: Result<JsonV, Seq<char>>) -> Result<JsonV, Seq<char>> {
    if value.len() == 0 {
        Err("requires a JSON string"@)
    } else {
        match parsed {
            Ok(v) => Ok(v),
            Err(msg) => if value.contains('\'') {
                Err("Use double quotes, not single quotes"@)
            } else {
                Err(msg)
            },
        }
    }
}

/// Turns the parse of a `--data`/`--target` option into its value or a
/// helpful error. `parsed` is what the JSON parser made of `value` (its error
/// text on failure); an empty value is refused before any parse, a value
/// with single quotes gets a hint in place of the parser's message.
pub fn parse_json_option(value: &str, option_name: &str, parsed: Result<Json, String>) -> (r: Result<Json, AppError>)
    ensures
        match (r, json_option_outcome(
            value@,
            match parsed {
                Ok(v) => Ok(v@),
                Err(e) => Err(e@),
            },
        )) {
            (Ok(v), Ok(w)) => v@ == w,
            (Err(AppError::JsonParse { option, message }), Err(m)) => option@ == option_name@
                && message@ == m,
            _ => false,
        },
{
    if value.unicode_len() == 0 {
        return Err(
            AppError::JsonParse {
                option: owned(option_name),
                message: owned("requires a JSON string"),
            },
        );
    }
    match parsed {
        Ok(v) => Ok(v),
        Err(msg) => {
            let cs = chars_of(value);
            if has_char(cs.as_slice(), '\'') {
                Err(
                    AppError::JsonParse {
                        option: owned(option_name),
                        message: owned("Use double quotes, not single quotes"),
                    },
                )
            } else {
                Err(AppError::JsonParse { option: owned(option_name), message: msg })
            }
        },
    }
}

/// Like `parse_json_option`, and the value must be an object.
pub fn parse_json_object_option(value: &str, option_name: &str, parsed: Result<Json, String>) -> (r: Result<Json, AppError>)
    ensures
        match (r, json_option_outcome(
            value@,
            match parsed {
                Ok(v) => Ok(v@),
                Err(e) => Err(e@),
            },
        )) {
            (Ok(v), Ok(w)) => v@ == w && w is Object,
            (Err(AppError::JsonParse { option, message }), Ok(w)) => !(w is Object) && option@
                == option_name@ && message@ == "must be a JSON object"@,
            (Err(AppError::JsonParse { option, message }), Err(m)) => option@ == option_name@
                && message@ == m,
            _ => false,
        },
{
    let v = parse_json_option(value, option_name, parsed)?;
    if !v.is_object() {
        return Err(
            AppError::JsonParse {
                option: owned(option_name),
                message: owned("must be a JSON object"),
            },
        );
    }
    Ok(v)
}

/// A service name that splits is a non-empty domain without a dot, a dot,
/// and a non-empty service: the two parts join back into the name.
pub proof fn service_split_rejoins(s: Seq<char>)
    ensures
        service_parts(s) matches Some((d, x)) ==> d + "."@ + x == s && d.len() > 0 && x.len() > 0
            && !d.contains('.'),
{
    crate::text::first_index_is_first(s, '.');
    reveal_strlit(".");
    if let Some((d, x)) = service_parts(s) {
        let i = first_index(s, '.')->0;
        assert(d + "."@ + x =~= s);
        assert forall|k: int| 0 <= k < d.len() implies d[k] != '.' by {
            assert(d[k] == s[k]);
        }
    }
}

/// Every name made of a non-empty domain without a dot, a dot and a
/// non-empty service splits into that domain and that service.
pub proof fn joined_service_splits(d: Seq<char>, x: Seq<char>)
    requires
        d.len() > 0,
        x.len() > 0,
        !d.contains('.'),
    ensures
        service_parts(d + "."@ + x) == Some((d, x)),
{
    reveal_strlit(".");
    let s = d + "."@ + x;
    crate::text::first_index_is_first(s, '.');
    assert(s[d.len() as int] == '.');
    assert forall|k: int| 0 <= k < d.len() implies s[k] != '.' by {
        assert(s[k] == d[k]);
    }
    if let Some(i) = first_index(s, '.') {
        if i < d.len() {
            assert(s[i] == d[i]);
        }
        assert(i == d.len());
    }
    assert(s.take(d.len() as int) =~= d);
    assert(s.skip(d.len() as int + 1) =~= x);
}

} // verus!
