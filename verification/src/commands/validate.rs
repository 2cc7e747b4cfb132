//! Checks on Home Assistant YAML configuration files, each adding findings
//! to a list, and the report of what they found.
use vstd::prelude::*;
use crate::error::AppError;
use crate::json::{depth, entry_views, pretty, compact, views, Json, JsonV};
use crate::output::{rendered, format_output, OutputMode};
use crate::ui::{basename, basename_spec, Style};
use crate::text::{
    chars_of, contains, contains_seq, count_matches, count_occurrences, decimal, has_char,
    has_prefix, is_blank, is_blank_text, lines, lines_spec, owned, push_chars, push_decimal,
    push_str, seq_eq, starts_with, string_of, text_before, before_char, trim, trim_spec,
};
use crate::validation::{
    escaped_pattern, regex_compile_error, regex_escape, regex_matches, regex_replace_all, Pattern,
};
use crate::yaml::{entry_for, entry_in, has_key, untag, yas_map, yas_str, yentry_views, yget, yviews, Yaml, YamlV};

verus! {

/// One problem found in a file.
#[derive(Debug)]
pub struct Finding {
    pub file: String,
    pub line: Option<usize>,
    pub severity: String,
    pub check: String,
    pub message: String,
}

/// The model of a [`Finding`].
pub struct FindingV {
    pub file: Seq<char>,
    pub line: Option<usize>,
    pub severity: Seq<char>,
    pub check: Seq<char>,
    pub message: Seq<char>,
}

impl View for Finding {
    type V = FindingV;

    open spec fn view(&self) -> FindingV {
        FindingV {
            file: self.file@,
            line: self.line,
            severity: self.severity@,
            check: self.check@,
            message: self.message@,
        }
    }
}

/// A finding with the given parts.
pub open spec fn fv(
    file: Seq<char>,
    line: Option<usize>,
    severity: Seq<char>,
    check: Seq<char>,
    message: Seq<char>,
) -> FindingV {
    FindingV { file, line, severity, check, message }
}

/// The models of a list of findings.
pub open spec fn finding_views(fs: Seq<Finding>) -> Seq<FindingV> {
    fs.map_values(|f: Finding| f@)
}

/// Adds a finding to the list.
fn record(findings: &mut Vec<Finding>, file: &str, line: Option<usize>, severity: &str, check: &str, message: String)
    ensures
        finding_views(final(findings)@) == finding_views(old(findings)@).push(
            fv(file@, line, severity@, check@, message@),
        ),
{
    findings.push(
        Finding {
            file: owned(file),
            line,
            severity: owned(severity),
            check: owned(check),
            message,
        },
    );
    proof {
        assert(finding_views(findings@) =~= finding_views(old(findings)@).push(
            fv(file@, line, severity@, check@, message@),
        ));
    }
}

/// The line number (counted from 1) of the line at index `i`.
pub open spec fn line_no(i: int) -> Option<usize> {
    Some((i + 1) as usize)
}

// ---------------------------------------------------------------------
// Top-level keys
// ---------------------------------------------------------------------

/// A line at the top level of the file: it starts neither with a space nor
/// with `#`, and is not blank.
pub open spec fn top_level(line: Seq<char>) -> bool {
    !(line.len() > 0 && line[0] == ' ') && !(line.len() > 0 && line[0] == '#') && !is_blank(line)
}

/// The key of a line: the text before its first `:`, trimmed.
pub open spec fn line_key(line: Seq<char>) -> Seq<char> {
    trim_spec(before_char(line, ':'))
}

/// Whether a line is at the top level.
fn is_top_level(line: &[char]) -> (r: bool)
    ensures
        r == top_level(line@),
{
    let first_space = line.len() > 0 && line[0] == ' ';
    let first_hash = line.len() > 0 && line[0] == '#';
    !first_space && !first_hash && !is_blank_text(line)
}

/// The key of a line.
fn key_of(line: &[char]) -> (r: Vec<char>)
    ensures
        r@ == line_key(line@),
{
    let b = text_before(line, ':');
    trim(b.as_slice())
}

/// The line where `key` was first seen, if it was.
pub open spec fn first_seen(seen: Seq<(Seq<char>, nat)>, key: Seq<char>) -> Option<nat>
    decreases seen.len(),
{
    if seen.len() == 0 {
        None
    } else if seen[0].0 == key {
        Some(seen[0].1)
    } else {
        first_seen(seen.drop_first(), key)
    }
}

/// `Duplicate top-level key '<key>' (first seen at line <n>)`.
pub open spec fn duplicate_key_message(key: Seq<char>, first: nat) -> Seq<char> {
    "Duplicate top-level key '"@ + key + "' (first seen at line "@ + decimal(first) + ")"@
}

/// Scanning lines for repeated top-level keys: the keys seen with the line
/// of their first occurrence, and the findings so far. Keys that are empty
/// or start with `-` are not keys.
pub open spec fn duplicate_scan(file: Seq<char>, ls: Seq<Seq<char>>) -> (Seq<(Seq<char>, nat)>, Seq<FindingV>)
    decreases ls.len(),
{
    if ls.len() == 0 {
        (Seq::empty(), Seq::empty())
    } else {
        let prev = duplicate_scan(file, ls.drop_last());
        let line = ls.last();
        let k = line_key(line);
        let n = ls.len();
        if top_level(line) && k.len() > 0 && k[0] != '-' {
            match first_seen(prev.0, k) {
                Some(p) => (
                    prev.0,
                    prev.1.push(
                        fv(file, Some(n as usize), "error"@, "duplicate_key"@, duplicate_key_message(k, p)),
                    ),
                ),
                None => (prev.0.push((k, n)), prev.1),
            }
        } else {
            prev
        }
    }
}

/// The model of the keys seen.
spec fn seen_view(seen: Seq<(Vec<char>, usize)>) -> Seq<(Seq<char>, nat)> {
    seen.map_values(|e: (Vec<char>, usize)| (e.0@, e.1 as nat))
}

fn lookup_seen(seen: &Vec<(Vec<char>, usize)>, key: &[char]) -> (r: Option<usize>)
    ensures
        match r {
            Some(n) => first_seen(seen_view(seen@), key@) == Some(n as nat),
            None => first_seen(seen_view(seen@), key@) is None,
        },
{
    let ghost sv = seen_view(seen@);
    let mut i: usize = 0;
    assert(sv.subrange(0, sv.len() as int) =~= sv);
    while i < seen.len()
        invariant
            i <= seen.len(),
            sv == seen_view(seen@),
            sv.len() == seen@.len(),
            first_seen(sv, key@) == first_seen(sv.subrange(i as int, sv.len() as int), key@),
        decreases seen.len() - i,
    {
        let ghost rest = sv.subrange(i as int, sv.len() as int);
        assert(rest[0] == sv[i as int]);
        if seq_eq(seen[i].0.as_slice(), key) {
            return Some(seen[i].1);
        }
        assert(rest.drop_first() =~= sv.subrange(i + 1, sv.len() as int));
        i = i + 1;
    }
    None
}

/// Findings for repeated top-level keys in a file's content.
pub fn check_duplicate_keys(file: &str, content: &str, findings: &mut Vec<Finding>)
    ensures
        finding_views(final(findings)@) == finding_views(old(findings)@) + duplicate_scan(
            file@,
            lines_spec(content@),
        ).1,
{
    let ls = lines(chars_of(content).as_slice());
    let ghost lv = lines_spec(content@);
    let ghost start = finding_views(findings@);
    let mut seen: Vec<(Vec<char>, usize)> = Vec::new();
    let mut i: usize = 0;
    proof {
        assert(lv.take(0) =~= Seq::<Seq<char>>::empty());
        assert(seen_view(seen@) =~= Seq::<(Seq<char>, nat)>::empty());
        assert(start + Seq::<FindingV>::empty() =~= start);
    }
    while i < ls.len()
        invariant
            i <= ls.len(),
            lv == lines_spec(content@),
            ls@.len() == lv.len(),
            forall|k: int| 0 <= k < ls@.len() ==> #[trigger] ls@[k]@ == lv[k],
            seen_view(seen@) == duplicate_scan(file@, lv.take(i as int)).0,
            finding_views(findings@) == start + duplicate_scan(file@, lv.take(i as int)).1,
        decreases ls.len() - i,
    {
        proof {
            assert(lv.take(i + 1).drop_last() =~= lv.take(i as int));
            assert(lv.take(i + 1).last() == lv[i as int]);
        }
        let line = ls[i].as_slice();
        let k = key_of(line);
        if is_top_level(line) && k.len() > 0 && k[0] != '-' {
            match lookup_seen(&seen, k.as_slice()) {
                Some(p) => {
                    let mut msg = owned("Duplicate top-level key '");
                    push_chars(&mut msg, k.as_slice());
                    push_str(&mut msg, "' (first seen at line ");
                    push_decimal(&mut msg, p as u64);
                    push_str(&mut msg, ")");
                    let ghost before = finding_views(findings@);
                    record(findings, file, Some(i + 1), "error", "duplicate_key", msg);
                    proof {
                        assert(msg@ == duplicate_key_message(k@, p as nat));
                        assert(start + duplicate_scan(file@, lv.take(i + 1)).1 =~= before.push(
                            fv(file@, Some((i + 1) as usize), "error"@, "duplicate_key"@, msg@),
                        ));
                    }
                },
                None => {
                    let ghost sv = seen_view(seen@);
                    seen.push((k, i + 1));
                    proof {
                        assert(seen_view(seen@) =~= sv.push((line_key(lv[i as int]), (i + 1) as nat)));
                    }
                },
            }
        }
        i = i + 1;
    }
    proof {
        assert(lv.take(ls@.len() as int) =~= lv);
    }
}

// ---------------------------------------------------------------------
// Jinja delimiters
// ---------------------------------------------------------------------

/// The expression for a `{% ... %}` block, across lines, shortest first.
pub open spec fn statement_block_pattern() -> Seq<char> {
    "(?s)\\{%.*?%\\}"@
}

/// `Unbalanced Jinja <kind> delimiters in file: <a> '<open>' vs <b> '<close>'`.
pub open spec fn unbalanced_message(kind: Seq<char>, a: nat, open: Seq<char>, b: nat, close: Seq<char>) -> Seq<char> {
    "Unbalanced Jinja "@ + kind + " delimiters in file: "@ + decimal(a) + " '"@ + open + "' vs "@
        + decimal(b) + " '"@ + close + "'"@
}

/// The findings of the Jinja check: the statement delimiters `{%` and `%}`
/// must be as many; so must the expression delimiters `{{` and `}}` once
/// every statement block is taken out.
pub open spec fn jinja_findings(file: Seq<char>, content: Seq<char>) -> Seq<FindingV> {
    let os = count_matches(content, "{%"@);
    let cs = count_matches(content, "%}"@);
    let first = if os != cs {
        seq![
            fv(
                file,
                None,
                "error"@,
                "jinja_balance"@,
                unbalanced_message("statement"@, os, "{%"@, cs, "%}"@),
            ),
        ]
    } else {
        Seq::empty()
    };
    let second = match regex_compile_error(statement_block_pattern()) {
        None => {
            let stripped = regex_replace_all(statement_block_pattern(), content, Seq::empty());
            let oe = count_matches(stripped, "{{"@);
            let ce = count_matches(stripped, "}}"@);
            if oe != ce {
                seq![
                    fv(
                        file,
                        None,
                        "error"@,
                        "jinja_balance"@,
                        unbalanced_message("expression"@, oe, "{{"@, ce, "}}"@),
                    ),
                ]
            } else {
                Seq::empty()
            }
        },
        Some(_) => Seq::empty(),
    };
    first + second
}

fn unbalanced(kind: &str, a: usize, open: &str, b: usize, close: &str) -> (r: String)
    ensures
        r@ == unbalanced_message(kind@, a as nat, open@, b as nat, close@),
{
    let mut m = owned("Unbalanced Jinja ");
    push_str(&mut m, kind);
    push_str(&mut m, " delimiters in file: ");
    push_decimal(&mut m, a as u64);
    push_str(&mut m, " '");
    push_str(&mut m, open);
    push_str(&mut m, "' vs ");
    push_decimal(&mut m, b as u64);
    push_str(&mut m, " '");
    push_str(&mut m, close);
    push_str(&mut m, "'");
    m
}

/// Findings for unbalanced Jinja delimiters in a file's content.
pub fn check_jinja_templates(file: &str, content: &str, findings: &mut Vec<Finding>)
    ensures
        finding_views(final(findings)@) == finding_views(old(findings)@) + jinja_findings(
            file@,
            content@,
        ),
{
    proof {
        reveal_strlit("{%");
        reveal_strlit("%}");
        reveal_strlit("{{");
        reveal_strlit("}}");
        reveal_strlit("");
    }
    let ghost start = finding_views(findings@);
    let text = chars_of(content);
    let os = count_occurrences(text.as_slice(), chars_of("{%").as_slice());
    let cs = count_occurrences(text.as_slice(), chars_of("%}").as_slice());
    if os != cs {
        let m = unbalanced("statement", os, "{%", cs, "%}");
        record(findings, file, None, "error", "jinja_balance", m);
    }
    let ghost mid = finding_views(findings@);
    match Pattern::compile("(?s)\\{%.*?%\\}") {
        Ok(re) => {
            let stripped = re.replace_all(content, "");
            let st = chars_of(stripped.as_str());
            let oe = count_occurrences(st.as_slice(), chars_of("{{").as_slice());
            let ce = count_occurrences(st.as_slice(), chars_of("}}").as_slice());
            if oe != ce {
                let m = unbalanced("expression", oe, "{{", ce, "}}");
                record(findings, file, None, "error", "jinja_balance", m);
            }
            proof {
                assert(Seq::<char>::empty() == ""@);
            }
        },
        Err(_) => {},
    }
    proof {
        assert(finding_views(findings@) =~= start + jinja_findings(file@, content@));
    }
}

// ---------------------------------------------------------------------
// Common mistakes, line by line
// ---------------------------------------------------------------------

/// A line that names one of the settings of a template sensor's value.
pub open spec fn context_line(l: Seq<char>) -> bool {
    contains_seq(l, "unit_of_measurement"@) || contains_seq(l, "state_class"@) || contains_seq(
        l,
        "value_template"@,
    )
}

/// The first of the five lines before line `i`.
pub open spec fn context_start(i: int) -> int {
    if i >= 5 {
        i - 5
    } else {
        0
    }
}

/// One of the five lines before line `i` is about a sensor's value.
pub open spec fn has_context(ls: Seq<Seq<char>>, i: int) -> bool {
    exists|k: int| context_start(i) <= k < i && #[trigger] context_line(ls[k])
}

/// The findings for line `i`: a bare `unavailable` (quoted or not) returned
/// where a sensor's value is set, a `None` threshold on `above:` or
/// `below:`, and a tab on a line that is not a comment.
pub open spec fn common_line_findings(file: Seq<char>, ls: Seq<Seq<char>>, i: int) -> Seq<FindingV> {
    let line = ls[i];
    let t = trim_spec(line);
    let bare = if (t == "unavailable"@ || t == "'unavailable'"@) && has_context(ls, i) {
        seq![
            fv(
                file,
                line_no(i),
                "warning"@,
                "bare_unavailable"@,
                "Template sensor returns bare 'unavailable' \u{2014} use {{ none }} instead"@,
            ),
        ]
    } else {
        Seq::empty()
    };
    let threshold = if (has_prefix(t, "above:"@) || has_prefix(t, "below:"@)) && contains_seq(
        t,
        "None"@,
    ) {
        seq![
            fv(
                file,
                line_no(i),
                "error"@,
                "none_threshold"@,
                "numeric_state trigger with None threshold \u{2014} use a number or remove the key"@,
            ),
        ]
    } else {
        Seq::empty()
    };
    let tab = if line.contains('\t') && !(t.len() > 0 && t[0] == '#') {
        seq![
            fv(
                file,
                line_no(i),
                "error"@,
                "tab_indent"@,
                "Tab character found \u{2014} YAML requires spaces for indentation"@,
            ),
        ]
    } else {
        Seq::empty()
    };
    bare + threshold + tab
}

/// The findings for the first `n` lines.
pub open spec fn common_findings(file: Seq<char>, ls: Seq<Seq<char>>, n: int) -> Seq<FindingV>
    decreases n,
{
    if n <= 0 {
        Seq::empty()
    } else {
        common_findings(file, ls, n - 1) + common_line_findings(file, ls, n - 1)
    }
}

fn is_context_line(l: &[char]) -> (r: bool)
    ensures
        r == context_line(l@),
{
    contains(l, chars_of("unit_of_measurement").as_slice()) || contains(
        l,
        chars_of("state_class").as_slice(),
    ) || contains(l, chars_of("value_template").as_slice())
}

fn context_before(ls: &Vec<Vec<char>>, i: usize) -> (r: bool)
    requires
        i <= ls@.len(),
    ensures
        r == exists|k: int| context_start(i as int) <= k < i && #[trigger] context_line(ls@[k]@),
{
    let mut k: usize = if i >= 5 {
        i - 5
    } else {
        0
    };
    while k < i
        invariant
            context_start(i as int) <= k <= i <= ls@.len(),
            forall|j: int| context_start(i as int) <= j < k ==> !#[trigger] context_line(ls@[j]@),
        decreases i - k,
    {
        if is_context_line(ls[k].as_slice()) {
            return true;
        }
        k = k + 1;
    }
    false
}

/// Findings for common mistakes in a file's content.
pub fn check_common_errors(file: &str, content: &str, findings: &mut Vec<Finding>)
    ensures
        finding_views(final(findings)@) == finding_views(old(findings)@) + common_findings(
            file@,
            lines_spec(content@),
            lines_spec(content@).len() as int,
        ),
{
    let ls = lines(chars_of(content).as_slice());
    let ghost lv = lines_spec(content@);
    let ghost start = finding_views(findings@);
    let mut i: usize = 0;
    assert(start + Seq::<FindingV>::empty() =~= start);
    while i < ls.len()
        invariant
            i <= ls.len(),
            lv == lines_spec(content@),
            ls@.len() == lv.len(),
            forall|k: int| 0 <= k < ls@.len() ==> #[trigger] ls@[k]@ == lv[k],
            finding_views(findings@) == start + common_findings(file@, lv, i as int),
        decreases ls.len() - i,
    {
        let ghost before = finding_views(findings@);
        let line = ls[i].as_slice();
        let t = trim(line);
        let is_bare = seq_eq(t.as_slice(), chars_of("unavailable").as_slice()) || seq_eq(
            t.as_slice(),
            chars_of("'unavailable'").as_slice(),
        );
        if is_bare {
            let ctx = context_before(&ls, i);
            proof {
                if ctx {
                    let k = choose|k: int|
                        context_start(i as int) <= k < i && #[trigger] context_line(ls@[k]@);
                    assert(context_line(lv[k]));
                } else {
                    assert forall|k: int| context_start(i as int) <= k < i implies !#[trigger] context_line(lv[k]) by {
                        assert(lv[k] == ls@[k]@);
                    }
                }
            }
            if ctx {
                record(
                    findings,
                    file,
                    Some(i + 1),
                    "warning",
                    "bare_unavailable",
                    owned("Template sensor returns bare 'unavailable' \u{2014} use {{ none }} instead"),
                );
            }
        }
        let ghost after_bare = finding_views(findings@);
        let threshold = (starts_with(t.as_slice(), chars_of("above:").as_slice()) || starts_with(
            t.as_slice(),
            chars_of("below:").as_slice(),
        )) && contains(t.as_slice(), chars_of("None").as_slice());
        if threshold {
            record(
                findings,
                file,
                Some(i + 1),
                "error",
                "none_threshold",
                owned("numeric_state trigger with None threshold \u{2014} use a number or remove the key"),
            );
        }
        let ghost after_threshold = finding_views(findings@);
        let comment = t.len() > 0 && t[0] == '#';
        if has_char(line, '\t') && !comment {
            record(
                findings,
                file,
                Some(i + 1),
                "error",
                "tab_indent",
                owned("Tab character found \u{2014} YAML requires spaces for indentation"),
            );
        }
        proof {
            let parts = common_line_findings(file@, lv, i as int);
            assert(finding_views(findings@) =~= before + parts);
        }
        i = i + 1;
    }
}

// ---------------------------------------------------------------------
// Leftover files
// ---------------------------------------------------------------------

/// What `Path::file_name` gives for `path`: its last component, none when
/// the path ends in `..` or has no component.
pub uninterp spec fn path_file_name(path: Seq<char>) -> Option<Seq<char>>;

/// `std::path::Path::new(path).file_name()` as text (`to_str` cannot fail
/// on a component of a `str`).
#[verifier::external_body]
fn file_name(path: &str) -> (r: Option<String>)
    ensures
        match r {
            Some(n) => path_file_name(path@) == Some(n@),
            None => path_file_name(path@) is None,
        },
{
    std::path::Path::new(path).file_name().and_then(|n| n.to_str()).map(|n| n.to_string())
}

/// The expression for names of versioned or backup copies.
pub open spec fn cruft_pattern() -> Seq<char> {
    "_v\\d+\\.|_old\\.|_backup\\.|_fixed\\.|_improved\\.|_optimized\\."@
}

/// The base name of a file, or nothing.
pub open spec fn base_name(file: Seq<char>) -> Seq<char> {
    match path_file_name(file) {
        Some(n) => n,
        None => Seq::empty(),
    }
}

/// The finding for a file whose name marks a versioned or backup copy.
pub open spec fn cruft_findings(file: Seq<char>) -> Seq<FindingV> {
    if regex_compile_error(cruft_pattern()) is None && regex_matches(cruft_pattern(), base_name(file)) {
        seq![
            fv(
                file,
                None,
                "warning"@,
                "file_cruft"@,
                "Versioned/backup file \u{2014} consider archiving or removing"@,
            ),
        ]
    } else {
        Seq::empty()
    }
}

/// A finding when the file's name marks a versioned or backup copy.
pub fn check_file_cruft(file: &str, findings: &mut Vec<Finding>)
    ensures
        finding_views(final(findings)@) == finding_views(old(findings)@) + cruft_findings(file@),
{
    let base = match file_name(file) {
        Some(n) => n,
        None => String::new(),
    };
    let ghost start = finding_views(findings@);
    match Pattern::compile("_v\\d+\\.|_old\\.|_backup\\.|_fixed\\.|_improved\\.|_optimized\\.") {
        Ok(re) => {
            if re.is_match(base.as_str()) {
                record(
                    findings,
                    file,
                    None,
                    "warning",
                    "file_cruft",
                    owned("Versioned/backup file \u{2014} consider archiving or removing"),
                );
            }
        },
        Err(_) => {},
    }
    proof {
        assert(finding_views(findings@) =~= start + cruft_findings(file@));
    }
}

// ---------------------------------------------------------------------
// Package files
// ---------------------------------------------------------------------

/// A file of the `packages` directory.
pub open spec fn in_packages(file: Seq<char>) -> bool {
    contains_seq(file, "/packages/"@) || has_prefix(file, "packages/"@)
}

/// The top-level keys a package must not set: they override the main
/// configuration.
pub open spec fn blocked_key(k: Seq<char>) -> bool {
    k == "default_config"@ || k == "frontend"@ || k == "http"@ || k == "recorder"@ || k
        == "logger"@ || k == "history"@ || k == "logbook"@
}

/// The findings for the first `n` lines of a package file.
pub open spec fn exclusion_findings(file: Seq<char>, ls: Seq<Seq<char>>, n: int) -> Seq<FindingV>
    decreases n,
{
    if n <= 0 {
        Seq::empty()
    } else {
        let line = ls[n - 1];
        let prev = exclusion_findings(file, ls, n - 1);
        if top_level(line) && blocked_key(line_key(line)) {
            prev.push(
                fv(
                    file,
                    line_no(n - 1),
                    "error"@,
                    "package_exclusion"@,
                    "Package contains '"@ + line_key(line)
                        + ":' which overrides main config \u{2014} move to configuration.yaml"@,
                ),
            )
        } else {
            prev
        }
    }
}

/// The findings of the package check: none outside `packages`.
pub open spec fn package_findings(file: Seq<char>, content: Seq<char>) -> Seq<FindingV> {
    if in_packages(file) {
        exclusion_findings(file, lines_spec(content), lines_spec(content).len() as int)
    } else {
        Seq::empty()
    }
}

fn is_blocked(k: &[char]) -> (r: bool)
    ensures
        r == blocked_key(k@),
{
    seq_eq(k, chars_of("default_config").as_slice()) || seq_eq(k, chars_of("frontend").as_slice())
        || seq_eq(k, chars_of("http").as_slice()) || seq_eq(k, chars_of("recorder").as_slice())
        || seq_eq(k, chars_of("logger").as_slice()) || seq_eq(k, chars_of("history").as_slice())
        || seq_eq(k, chars_of("logbook").as_slice())
}

/// Findings for keys in a package file that override the main
/// configuration.
pub fn check_package_exclusions(file: &str, content: &str, findings: &mut Vec<Finding>)
    ensures
        finding_views(final(findings)@) == finding_views(old(findings)@) + package_findings(
            file@,
            content@,
        ),
{
    let ghost start = finding_views(findings@);
    let f = chars_of(file);
    if !contains(f.as_slice(), chars_of("/packages/").as_slice()) && !starts_with(
        f.as_slice(),
        chars_of("packages/").as_slice(),
    ) {
        assert(finding_views(findings@) =~= start + Seq::<FindingV>::empty());
        return;
    }
    let ls = lines(chars_of(content).as_slice());
    let ghost lv = lines_spec(content@);
    let mut i: usize = 0;
    assert(start + Seq::<FindingV>::empty() =~= start);
    while i < ls.len()
        invariant
            i <= ls.len(),
            lv == lines_spec(content@),
            ls@.len() == lv.len(),
            forall|k: int| 0 <= k < ls@.len() ==> #[trigger] ls@[k]@ == lv[k],
            finding_views(findings@) == start + exclusion_findings(file@, lv, i as int),
        decreases ls.len() - i,
    {
        let ghost before = finding_views(findings@);
        let line = ls[i].as_slice();
        if is_top_level(line) {
            let k = key_of(line);
            if is_blocked(k.as_slice()) {
                let mut msg = owned("Package contains '");
                push_chars(&mut msg, k.as_slice());
                push_str(&mut msg, ":' which overrides main config \u{2014} move to configuration.yaml");
                record(findings, file, Some(i + 1), "error", "package_exclusion", msg);
                proof {
                    assert(finding_views(findings@) =~= start + exclusion_findings(file@, lv, i + 1));
                }
            }
        }
        i = i + 1;
    }
}

// ---------------------------------------------------------------------
// Checks on the parsed document
// ---------------------------------------------------------------------

/// The findings of `n` items, one after the other.
pub open spec fn flat(n: int, f: spec_fn(int) -> Seq<FindingV>) -> Seq<FindingV>
    decreases n,
{
    if n <= 0 {
        Seq::empty()
    } else {
        flat(n - 1, f) + f(n - 1)
    }
}

/// Whether a mapping has an entry under the string `key`.
pub open spec fn has_entry(m: Seq<(YamlV, YamlV)>, key: Seq<char>) -> bool {
    entry_for(m, key) is Some
}

/// The finding for entry `i` of a `sensor:` or `binary_sensor:` list: a
/// mapping without a `platform` key.
pub open spec fn platform_item_finding(file: Seq<char>, domain: Seq<char>, i: int, item: YamlV) -> Seq<FindingV> {
    match item {
        YamlV::Mapping(m) => if !has_entry(m, "platform"@) {
            seq![
                fv(
                    file,
                    None,
                    "warning"@,
                    "missing_platform"@,
                    domain + " list entry #"@ + decimal((i + 1) as nat)
                        + " has no 'platform:' key \u{2014} is this a legacy integration?"@,
                ),
            ]
        } else {
            Seq::empty()
        },
        _ => Seq::empty(),
    }
}

/// The findings for the list under `domain`, when it is a list.
pub open spec fn domain_platform_findings(file: Seq<char>, yaml: YamlV, domain: Seq<char>) -> Seq<FindingV> {
    match yget(yaml, domain) {
        Some(YamlV::Sequence(items)) => flat(
            items.len() as int,
            |i: int| platform_item_finding(file, domain, i, items[i]),
        ),
        _ => Seq::empty(),
    }
}

/// The findings of the platform check: `sensor` first, then `binary_sensor`.
pub open spec fn sensor_platform_findings(file: Seq<char>, yaml: YamlV) -> Seq<FindingV> {
    domain_platform_findings(file, yaml, "sensor"@) + domain_platform_findings(
        file,
        yaml,
        "binary_sensor"@,
    )
}

fn check_domain_platforms(file: &str, yaml: &Yaml, domain: &str, findings: &mut Vec<Finding>)
    ensures
        finding_views(final(findings)@) == finding_views(old(findings)@)
            + domain_platform_findings(file@, yaml@, domain@),
{
    let ghost start = finding_views(findings@);
    match yaml.get(domain) {
        Some(Yaml::Sequence(items)) => {
            let ghost iv = yviews(items@);
            let ghost f = |i: int| platform_item_finding(file@, domain@, i, iv[i]);
            proof {
                crate::yaml::lemma_yviews(items@);
            }
            let mut i: usize = 0;
            assert(start + flat(0, f) =~= start);
            while i < items.len()
                invariant
                    i <= items.len(),
                    iv == yviews(items@),
                    iv.len() == items@.len(),
                    forall|k: int| 0 <= k < items@.len() ==> #[trigger] iv[k] == items@[k]@,
                    f == (|i: int| platform_item_finding(file@, domain@, i, iv[i])),
                    finding_views(findings@) == start + flat(i as int, f),
                decreases items.len() - i,
            {
                let ghost before = finding_views(findings@);
                match &items[i] {
                    Yaml::Mapping(m) => {
                        if !has_key(m, "platform") {
                            let mut msg = owned(domain);
                            push_str(&mut msg, " list entry #");
                            push_decimal(&mut msg, (i + 1) as u64);
                            push_str(
                                &mut msg,
                                " has no 'platform:' key \u{2014} is this a legacy integration?",
                            );
                            record(findings, file, None, "warning", "missing_platform", msg);
                        }
                    },
                    _ => {},
                }
                proof {
                    assert(f(i as int) == platform_item_finding(file@, domain@, i as int, items@[i as int]@));
                    assert(finding_views(findings@) =~= before + f(i as int));
                }
                i = i + 1;
            }
        },
        _ => {
            assert(finding_views(findings@) =~= start + Seq::<FindingV>::empty());
        },
    }
}

/// Findings for `sensor:` and `binary_sensor:` list entries without a
/// platform.
pub fn check_sensor_platforms(file: &str, yaml: &Yaml, findings: &mut Vec<Finding>)
    ensures
        finding_views(final(findings)@) == finding_views(old(findings)@)
            + sensor_platform_findings(file@, yaml@),
{
    let ghost start = finding_views(findings@);
    check_domain_platforms(file, yaml, "sensor", findings);
    check_domain_platforms(file, yaml, "binary_sensor", findings);
    assert(finding_views(findings@) =~= start + sensor_platform_findings(file@, yaml@));
}

/// The name an automation is reported by: its alias, or `#` and its
/// position counted from 1.
pub open spec fn automation_alias(m: Seq<(YamlV, YamlV)>, i: int) -> Seq<char> {
    match entry_for(m, "alias"@) {
        Some(v) => match yas_str(v) {
            Some(s) => s,
            None => "#"@ + decimal((i + 1) as nat),
        },
        None => "#"@ + decimal((i + 1) as nat),
    }
}

/// The findings for automation `i`: one without trigger, one without
/// action, a warning without alias; those using a blueprint and entries
/// that are not mappings are skipped.
pub open spec fn automation_item_findings(file: Seq<char>, i: int, item: YamlV) -> Seq<FindingV> {
    match item {
        YamlV::Mapping(m) => if has_entry(m, "use_blueprint"@) {
            Seq::empty()
        } else {
            let alias = automation_alias(m, i);
            let t = if !(has_entry(m, "trigger"@) || has_entry(m, "triggers"@)) {
                seq![
                    fv(
                        file,
                        None,
                        "error"@,
                        "automation_syntax"@,
                        "Automation '"@ + alias + "' missing trigger/triggers"@,
                    ),
                ]
            } else {
                Seq::empty()
            };
            let a = if !(has_entry(m, "action"@) || has_entry(m, "actions"@)) {
                seq![
                    fv(
                        file,
                        None,
                        "error"@,
                        "automation_syntax"@,
                        "Automation '"@ + alias + "' missing action/actions"@,
                    ),
                ]
            } else {
                Seq::empty()
            };
            let n = if !has_entry(m, "alias"@) {
                seq![
                    fv(
                        file,
                        None,
                        "warning"@,
                        "automation_syntax"@,
                        "Automation #"@ + decimal((i + 1) as nat)
                            + " has no alias \u{2014} add one for readability"@,
                    ),
                ]
            } else {
                Seq::empty()
            };
            t + a + n
        },
        _ => Seq::empty(),
    }
}

/// The findings of the automation check: only for an `automation:` list.
pub open spec fn automation_findings(file: Seq<char>, yaml: YamlV) -> Seq<FindingV> {
    match yget(yaml, "automation"@) {
        Some(YamlV::Sequence(items)) => flat(
            items.len() as int,
            |i: int| automation_item_findings(file, i, items[i]),
        ),
        _ => Seq::empty(),
    }
}

fn alias_of(m: &Vec<(Yaml, Yaml)>, i: usize) -> (r: String)
    requires
        i < usize::MAX,
    ensures
        r@ == automation_alias(yentry_views(m@), i as int),
{
    match entry_in(m, "alias") {
        Some(v) => match v.as_str() {
            Some(s) => return owned(s),
            None => {},
        },
        None => {},
    }
    let mut r = owned("#");
    push_decimal(&mut r, (i + 1) as u64);
    r
}

/// Findings for automations without trigger, action or alias.
pub fn check_automation_syntax(file: &str, yaml: &Yaml, findings: &mut Vec<Finding>)
    ensures
        finding_views(final(findings)@) == finding_views(old(findings)@) + automation_findings(
            file@,
            yaml@,
        ),
{
    let ghost start = finding_views(findings@);
    let items = match yaml.get("automation") {
        Some(Yaml::Sequence(items)) => items,
        _ => {
            assert(finding_views(findings@) =~= start + Seq::<FindingV>::empty());
            return;
        },
    };
    let ghost iv = yviews(items@);
    let ghost f = |i: int| automation_item_findings(file@, i, iv[i]);
    proof {
        crate::yaml::lemma_yviews(items@);
    }
    let mut i: usize = 0;
    assert(start + flat(0, f) =~= start);
    while i < items.len()
        invariant
            i <= items.len(),
            iv == yviews(items@),
            iv.len() == items@.len(),
            forall|k: int| 0 <= k < items@.len() ==> #[trigger] iv[k] == items@[k]@,
            f == (|i: int| automation_item_findings(file@, i, iv[i])),
            finding_views(findings@) == start + flat(i as int, f),
        decreases items.len() - i,
    {
        let ghost before = finding_views(findings@);
        match &items[i] {
            Yaml::Mapping(m) => {
                if !has_key(m, "use_blueprint") {
                    let alias = alias_of(m, i);
                    if !(has_key(m, "trigger") || has_key(m, "triggers")) {
                        let mut msg = owned("Automation '");
                        push_str(&mut msg, alias.as_str());
                        push_str(&mut msg, "' missing trigger/triggers");
                        record(findings, file, None, "error", "automation_syntax", msg);
                    }
                    if !(has_key(m, "action") || has_key(m, "actions")) {
                        let mut msg = owned("Automation '");
                        push_str(&mut msg, alias.as_str());
                        push_str(&mut msg, "' missing action/actions");
                        record(findings, file, None, "error", "automation_syntax", msg);
                    }
                    if !has_key(m, "alias") {
                        let mut msg = owned("Automation #");
                        push_decimal(&mut msg, (i + 1) as u64);
                        push_str(&mut msg, " has no alias \u{2014} add one for readability");
                        record(findings, file, None, "warning", "automation_syntax", msg);
                    }
                }
            },
            _ => {},
        }
        proof {
            assert(f(i as int) == automation_item_findings(file@, i as int, items@[i as int]@));
            assert(finding_views(findings@) =~= before + f(i as int));
        }
        i = i + 1;
    }
}

// ---------------------------------------------------------------------
// Template sensors that read themselves
// ---------------------------------------------------------------------

/// The expression for a call of `states`, `state_attr` or `is_state` on the
/// entity `eid`: the call, optional spaces, a quote, the id, then a quote,
/// a closing parenthesis, a space or a comma.
pub open spec fn self_ref_pattern(eid: Seq<char>) -> Seq<char> {
    "(states|state_attr|is_state)\\(\\s*['\"]"@ + escaped_pattern(eid) + "['\")\\s,]"@
}

/// A template reads the entity `eid`.
pub open spec fn self_reference(template: Seq<char>, eid: Seq<char>) -> bool {
    regex_compile_error(self_ref_pattern(eid)) is None && regex_matches(
        self_ref_pattern(eid),
        template,
    )
}

/// Whether `template` reads the entity `entity_id`.
pub fn contains_self_reference(template: &str, entity_id: &str) -> (r: bool)
    ensures
        r == self_reference(template@, entity_id@),
{
    let escaped = regex_escape(entity_id);
    let mut source = owned("(states|state_attr|is_state)\\(\\s*['\"]");
    push_str(&mut source, escaped.as_str());
    push_str(&mut source, "['\")\\s,]");
    match Pattern::compile(source.as_str()) {
        Ok(re) => re.is_match(template),
        Err(_) => false,
    }
}

/// The `name` of a template sensor, or `unnamed`.
pub open spec fn sensor_name(m: Seq<(YamlV, YamlV)>) -> Seq<char> {
    match entry_for(m, "name"@) {
        Some(v) => match yas_str(v) {
            Some(s) => s,
            None => "unnamed"@,
        },
        None => "unnamed"@,
    }
}

/// The `unique_id` of a template sensor, if it is a string.
pub open spec fn sensor_unique_id(m: Seq<(YamlV, YamlV)>) -> Option<Seq<char>> {
    match entry_for(m, "unique_id"@) {
        Some(v) => yas_str(v),
        None => None,
    }
}

/// The entity id of a template sensor: its type, a dot, and its unique id,
/// or else its name in lower case with spaces turned into underscores.
pub open spec fn sensor_entity_id(sensor_type: Seq<char>, m: Seq<(YamlV, YamlV)>) -> Seq<char> {
    match sensor_unique_id(m) {
        Some(uid) => sensor_type + "."@ + uid,
        None => sensor_type + "."@ + crate::text::replaced(
            crate::text::unicode_lower(sensor_name(m)),
            " "@,
            "_"@,
        ),
    }
}

/// The finding when the string under `field` reads the sensor itself.
pub open spec fn field_findings(
    file: Seq<char>,
    name: Seq<char>,
    eid: Seq<char>,
    m: Seq<(YamlV, YamlV)>,
    field: Seq<char>,
) -> Seq<FindingV> {
    match entry_for(m, field) {
        Some(v) => match yas_str(v) {
            Some(val) => if self_reference(val, eid) {
                seq![
                    fv(
                        file,
                        None,
                        "error"@,
                        "circular_reference"@,
                        "Template sensor '"@ + name + "' ("@ + eid + "): "@ + field
                            + " references itself"@,
                    ),
                ]
            } else {
                Seq::empty()
            },
            None => Seq::empty(),
        },
        None => Seq::empty(),
    }
}

/// The finding when the string value of attribute entry `e` reads the
/// sensor itself; the attribute is named by its key, or `?`.
pub open spec fn attribute_findings(file: Seq<char>, name: Seq<char>, eid: Seq<char>, e: (YamlV, YamlV)) -> Seq<FindingV> {
    let attr = match yas_str(e.0) {
        Some(k) => k,
        None => "?"@,
    };
    match yas_str(e.1) {
        Some(val) => if self_reference(val, eid) {
            seq![
                fv(
                    file,
                    None,
                    "error"@,
                    "circular_reference"@,
                    "Template sensor '"@ + name + "' ("@ + eid + "): attribute '"@ + attr
                        + "' references itself"@,
                ),
            ]
        } else {
            Seq::empty()
        },
        None => Seq::empty(),
    }
}

/// The findings for one template sensor: its `state`, its `availability`,
/// then each of its `attributes`. An entry that is not a mapping has none.
pub open spec fn template_sensor_findings(file: Seq<char>, sensor_type: Seq<char>, sensor: YamlV) -> Seq<FindingV> {
    match yas_map(sensor) {
        Some(m) => {
            let name = sensor_name(m);
            let eid = sensor_entity_id(sensor_type, m);
            let attrs = match entry_for(m, "attributes"@) {
                Some(a) => match yas_map(a) {
                    Some(am) => flat(
                        am.len() as int,
                        |i: int| attribute_findings(file, name, eid, am[i]),
                    ),
                    None => Seq::empty(),
                },
                None => Seq::empty(),
            };
            field_findings(file, name, eid, m, "state"@) + field_findings(
                file,
                name,
                eid,
                m,
                "availability"@,
            ) + attrs
        },
        None => Seq::empty(),
    }
}

/// The findings for the sensors of one type in a `template:` item.
pub open spec fn sensor_type_findings(file: Seq<char>, m: Seq<(YamlV, YamlV)>, sensor_type: Seq<char>) -> Seq<FindingV> {
    match entry_for(m, sensor_type) {
        Some(YamlV::Sequence(sensors)) => flat(
            sensors.len() as int,
            |i: int| template_sensor_findings(file, sensor_type, sensors[i]),
        ),
        _ => Seq::empty(),
    }
}

/// The findings for one `template:` item: `sensor` first, then
/// `binary_sensor`.
pub open spec fn template_item_findings(file: Seq<char>, item: YamlV) -> Seq<FindingV> {
    match yas_map(item) {
        Some(m) => sensor_type_findings(file, m, "sensor"@) + sensor_type_findings(
            file,
            m,
            "binary_sensor"@,
        ),
        None => Seq::empty(),
    }
}

/// The findings of the circular reference check: only for a `template:`
/// list.
pub open spec fn circular_findings(file: Seq<char>, yaml: YamlV) -> Seq<FindingV> {
    match yget(yaml, "template"@) {
        Some(YamlV::Sequence(items)) => flat(
            items.len() as int,
            |i: int| template_item_findings(file, items[i]),
        ),
        _ => Seq::empty(),
    }
}

fn check_field(
    file: &str,
    name: &str,
    eid: &str,
    m: &Vec<(Yaml, Yaml)>,
    field: &str,
    findings: &mut Vec<Finding>,
)
    ensures
        finding_views(final(findings)@) == finding_views(old(findings)@) + field_findings(
            file@,
            name@,
            eid@,
            yentry_views(m@),
            field@,
        ),
{
    let ghost start = finding_views(findings@);
    match entry_in(m, field) {
        Some(v) => match v.as_str() {
            Some(val) => {
                if contains_self_reference(val, eid) {
                    let mut msg = owned("Template sensor '");
                    push_str(&mut msg, name);
                    push_str(&mut msg, "' (");
                    push_str(&mut msg, eid);
                    push_str(&mut msg, "): ");
                    push_str(&mut msg, field);
                    push_str(&mut msg, " references itself");
                    record(findings, file, None, "error", "circular_reference", msg);
                }
            },
            None => {},
        },
        None => {},
    }
    assert(finding_views(findings@) =~= start + field_findings(
        file@,
        name@,
        eid@,
        yentry_views(m@),
        field@,
    ));
}

fn check_attributes(file: &str, name: &str, eid: &str, attrs: &Vec<(Yaml, Yaml)>, findings: &mut Vec<Finding>)
    ensures
        finding_views(final(findings)@) == finding_views(old(findings)@) + flat(
            attrs@.len() as int,
            |i: int| attribute_findings(file@, name@, eid@, yentry_views(attrs@)[i]),
        ),
{
    let ghost start = finding_views(findings@);
    let ghost av = yentry_views(attrs@);
    let ghost f = |i: int| attribute_findings(file@, name@, eid@, av[i]);
    proof {
        crate::yaml::lemma_yentry_views(attrs@);
    }
    let mut i: usize = 0;
    assert(start + flat(0, f) =~= start);
    while i < attrs.len()
        invariant
            i <= attrs.len(),
            av == yentry_views(attrs@),
            av.len() == attrs@.len(),
            forall|k: int| 0 <= k < attrs@.len() ==> #[trigger] av[k] == (attrs@[k].0@, attrs@[k].1@),
            f == (|i: int| attribute_findings(file@, name@, eid@, av[i])),
            finding_views(findings@) == start + flat(i as int, f),
        decreases attrs.len() - i,
    {
        let ghost before = finding_views(findings@);
        let attr_name = match attrs[i].0.as_str() {
            Some(k) => k,
            None => "?",
        };
        match attrs[i].1.as_str() {
            Some(val) => {
                if contains_self_reference(val, eid) {
                    let mut msg = owned("Template sensor '");
                    push_str(&mut msg, name);
                    push_str(&mut msg, "' (");
                    push_str(&mut msg, eid);
                    push_str(&mut msg, "): attribute '");
                    push_str(&mut msg, attr_name);
                    push_str(&mut msg, "' references itself");
                    record(findings, file, None, "error", "circular_reference", msg);
                }
            },
            None => {},
        }
        proof {
            assert(f(i as int) == attribute_findings(file@, name@, eid@, av[i as int]));
            assert(finding_views(findings@) =~= before + f(i as int));
        }
        i = i + 1;
    }
}

fn check_template_sensor(file: &str, sensor_type: &str, sensor: &Yaml, findings: &mut Vec<Finding>)
    ensures
        finding_views(final(findings)@) == finding_views(old(findings)@)
            + template_sensor_findings(file@, sensor_type@, sensor@),
{
    let ghost start = finding_views(findings@);
    let m = match sensor.as_mapping() {
        Some(m) => m,
        None => {
            assert(finding_views(findings@) =~= start + Seq::<FindingV>::empty());
            return;
        },
    };
    let name = match entry_in(m, "name") {
        Some(v) => match v.as_str() {
            Some(s) => s,
            None => "unnamed",
        },
        None => "unnamed",
    };
    let mut eid = owned(sensor_type);
    push_str(&mut eid, ".");
    let uid = match entry_in(m, "unique_id") {
        Some(v) => v.as_str(),
        None => None,
    };
    match uid {
        Some(u) => push_str(&mut eid, u),
        None => {
            proof {
                reveal_strlit(" ");
            }
            let lower = crate::text::to_lowercase(name);
            let under = crate::text::replace(lower.as_str(), " ", "_");
            push_str(&mut eid, under.as_str());
        },
    }
    let ghost mv = yentry_views(m@);
    assert(eid@ == sensor_entity_id(sensor_type@, mv));
    assert(name@ == sensor_name(mv));
    check_field(file, name, eid.as_str(), m, "state", findings);
    check_field(file, name, eid.as_str(), m, "availability", findings);
    let ghost mid = finding_views(findings@);
    let ghost attrs_part = match entry_for(mv, "attributes"@) {
        Some(a) => match yas_map(a) {
            Some(am) => flat(
                am.len() as int,
                |i: int| attribute_findings(file@, name@, eid@, am[i]),
            ),
            None => Seq::empty(),
        },
        None => Seq::empty(),
    };
    match entry_in(m, "attributes") {
        Some(a) => match a.as_mapping() {
            Some(am) => {
                check_attributes(file, name, eid.as_str(), am, findings);
                proof {
                    crate::yaml::lemma_yentry_views(am@);
                    assert(attrs_part == flat(
                        am@.len() as int,
                        |i: int| attribute_findings(file@, name@, eid@, yentry_views(am@)[i]),
                    ));
                }
            },
            None => {
                assert(finding_views(findings@) =~= mid + attrs_part);
            },
        },
        None => {
            assert(finding_views(findings@) =~= mid + attrs_part);
        },
    }
    assert(mid == start + field_findings(file@, name@, eid@, mv, "state"@) + field_findings(
        file@,
        name@,
        eid@,
        mv,
        "availability"@,
    ));
    assert(finding_views(findings@) =~= start + template_sensor_findings(
        file@,
        sensor_type@,
        sensor@,
    ));
}

fn check_sensor_type(file: &str, m: &Vec<(Yaml, Yaml)>, sensor_type: &str, findings: &mut Vec<Finding>)
    ensures
        finding_views(final(findings)@) == finding_views(old(findings)@) + sensor_type_findings(
            file@,
            yentry_views(m@),
            sensor_type@,
        ),
{
    let ghost start = finding_views(findings@);
    let sensors = match entry_in(m, sensor_type) {
        Some(Yaml::Sequence(s)) => s,
        _ => {
            assert(finding_views(findings@) =~= start + Seq::<FindingV>::empty());
            return;
        },
    };
    let ghost sv = yviews(sensors@);
    let ghost f = |i: int| template_sensor_findings(file@, sensor_type@, sv[i]);
    proof {
        crate::yaml::lemma_yviews(sensors@);
    }
    let mut i: usize = 0;
    assert(start + flat(0, f) =~= start);
    while i < sensors.len()
        invariant
            i <= sensors.len(),
            sv == yviews(sensors@),
            sv.len() == sensors@.len(),
            forall|k: int| 0 <= k < sensors@.len() ==> #[trigger] sv[k] == sensors@[k]@,
            f == (|i: int| template_sensor_findings(file@, sensor_type@, sv[i])),
            finding_views(findings@) == start + flat(i as int, f),
        decreases sensors.len() - i,
    {
        let ghost before = finding_views(findings@);
        check_template_sensor(file, sensor_type, &sensors[i], findings);
        proof {
            assert(f(i as int) == template_sensor_findings(file@, sensor_type@, sensors@[i as int]@));
            assert(finding_views(findings@) =~= before + f(i as int));
        }
        i = i + 1;
    }
}

/// Findings for template sensors whose state, availability or attributes
/// read the sensor itself.
pub fn detect_circular_references(file: &str, yaml: &Yaml, findings: &mut Vec<Finding>)
    ensures
        finding_views(final(findings)@) == finding_views(old(findings)@) + circular_findings(
            file@,
            yaml@,
        ),
{
    let ghost start = finding_views(findings@);
    let items = match yaml.get("template") {
        Some(Yaml::Sequence(items)) => items,
        _ => {
            assert(finding_views(findings@) =~= start + Seq::<FindingV>::empty());
            return;
        },
    };
    let ghost iv = yviews(items@);
    let ghost f = |i: int| template_item_findings(file@, iv[i]);
    proof {
        crate::yaml::lemma_yviews(items@);
    }
    let mut i: usize = 0;
    assert(start + flat(0, f) =~= start);
    while i < items.len()
        invariant
            i <= items.len(),
            iv == yviews(items@),
            iv.len() == items@.len(),
            forall|k: int| 0 <= k < items@.len() ==> #[trigger] iv[k] == items@[k]@,
            f == (|i: int| template_item_findings(file@, iv[i])),
            finding_views(findings@) == start + flat(i as int, f),
        decreases items.len() - i,
    {
        let ghost before = finding_views(findings@);
        match items[i].as_mapping() {
            Some(m) => {
                check_sensor_type(file, m, "sensor", findings);
                check_sensor_type(file, m, "binary_sensor", findings);
            },
            None => {},
        }
        proof {
            assert(f(i as int) == template_item_findings(file@, items@[i as int]@));
            assert(finding_views(findings@) =~= before + f(i as int));
        }
        i = i + 1;
    }
}

// ---------------------------------------------------------------------
// Helpers (`input_*`, `counter`, `timer`) defined twice across files
// ---------------------------------------------------------------------

/// The expression for the line that opens a section of helpers.
pub open spec fn section_pattern() -> Seq<char> {
    "(?m)^(input_number|input_boolean|input_datetime|input_select|input_text|counter|timer):\\s*$"@
}

/// The expression for a helper's line inside a section, its name in group 1.
pub open spec fn helper_name_pattern() -> Seq<char> {
    "^  ([a-z][a-z0-9_]+):\\s*$"@
}

/// Group 1 of the first match of `pattern` in `text` (`Regex::captures`).
pub open spec fn first_group1(pattern: Seq<char>, text: Seq<char>) -> Option<Seq<char>> {
    let g = crate::validation::regex_group1_all(pattern, text);
    if g.len() > 0 {
        g[0]
    } else {
        None
    }
}

/// A helper defined in a file: its entity id, the file and the line.
pub type Definition = (Seq<char>, Seq<char>, nat);

/// Scanning the first `n` lines of `file`: the section open at the end, if
/// any, and the helpers defined so far. A section line opens a section of
/// its type; another top-level line closes it; inside a section, a line
/// naming a helper defines `<type>.<name>`.
pub open spec fn definition_scan(file: Seq<char>, ls: Seq<Seq<char>>, n: int) -> (Option<Seq<char>>, Seq<Definition>)
    decreases n,
{
    if n <= 0 {
        (None, Seq::empty())
    } else {
        let prev = definition_scan(file, ls, n - 1);
        let line = ls[n - 1];
        if regex_matches(section_pattern(), line) {
            (Some(line_key(line)), prev.1)
        } else if top_level(line) {
            (None, prev.1)
        } else {
            match prev.0 {
                Some(t) => match first_group1(helper_name_pattern(), line) {
                    Some(name) => (prev.0, prev.1.push((t + "."@ + name, file, n as nat))),
                    None => prev,
                },
                None => prev,
            }
        }
    }
}

/// The helpers defined in the first `n` files, in order.
pub open spec fn all_definitions(files: Seq<(Seq<char>, Seq<char>)>, n: int) -> Seq<Definition>
    decreases n,
{
    if n <= 0 {
        Seq::empty()
    } else {
        let f = files[n - 1];
        all_definitions(files, n - 1) + definition_scan(
            f.0,
            lines_spec(f.1),
            lines_spec(f.1).len() as int,
        ).1
    }
}

/// The entity ids defined, each once, in the order first defined.
pub open spec fn distinct_ids(defs: Seq<Definition>) -> Seq<Seq<char>>
    decreases defs.len(),
{
    if defs.len() == 0 {
        Seq::empty()
    } else {
        let prev = distinct_ids(defs.drop_last());
        if prev.contains(defs.last().0) {
            prev
        } else {
            prev.push(defs.last().0)
        }
    }
}

/// Where `id` is defined, in order: `file:line` for each definition.
pub open spec fn locations(defs: Seq<Definition>, id: Seq<char>) -> Seq<Seq<char>>
    decreases defs.len(),
{
    if defs.len() == 0 {
        Seq::empty()
    } else {
        let prev = locations(defs.drop_last(), id);
        let d = defs.last();
        if d.0 == id {
            prev.push(d.1 + ":"@ + decimal(d.2))
        } else {
            prev
        }
    }
}

/// The first definition of `id`.
pub open spec fn first_definition(defs: Seq<Definition>, id: Seq<char>) -> Definition
    decreases defs.len(),
{
    if defs.len() == 0 {
        (id, Seq::empty(), 0)
    } else if defs[0].0 == id {
        defs[0]
    } else {
        first_definition(defs.drop_first(), id)
    }
}

/// The finding for an entity id defined more than once, placed at its first
/// definition.
pub open spec fn duplicate_entity_finding(defs: Seq<Definition>, id: Seq<char>) -> Seq<FindingV> {
    let locs = locations(defs, id);
    if locs.len() > 1 {
        let first = first_definition(defs, id);
        seq![
            fv(
                first.1,
                Some(first.2 as usize),
                "error"@,
                "duplicate_entity"@,
                "Duplicate entity '"@ + id + "' defined in: "@ + crate::text::join(locs, ", "@),
            ),
        ]
    } else {
        Seq::empty()
    }
}

/// The findings of the cross-file check, by entity id in the order first
/// defined; none when one of its expressions does not compile.
pub open spec fn duplicate_entity_findings(files: Seq<(Seq<char>, Seq<char>)>) -> Seq<FindingV> {
    if regex_compile_error(section_pattern()) is None && regex_compile_error(
        helper_name_pattern(),
    ) is None {
        let defs = all_definitions(files, files.len() as int);
        let ids = distinct_ids(defs);
        flat(ids.len() as int, |i: int| duplicate_entity_finding(defs, ids[i]))
    } else {
        Seq::empty()
    }
}

/// The model of a list of files with their contents.
pub open spec fn file_views(files: Seq<(String, String)>) -> Seq<(Seq<char>, Seq<char>)> {
    files.map_values(|f: (String, String)| (f.0@, f.1@))
}

/// The model of a list of definitions.
pub open spec fn definition_views(defs: Seq<(String, String, usize)>) -> Seq<Definition> {
    defs.map_values(|d: (String, String, usize)| (d.0@, d.1@, d.2 as nat))
}

fn scan_definitions(
    file: &str,
    content: &str,
    section: &Pattern,
    name_re: &Pattern,
    defs: &mut Vec<(String, String, usize)>,
)
    requires
        section.source() == section_pattern(),
        name_re.source() == helper_name_pattern(),
    ensures
        definition_views(final(defs)@) == definition_views(old(defs)@) + definition_scan(
            file@,
            lines_spec(content@),
            lines_spec(content@).len() as int,
        ).1,
{
    let ls = lines(chars_of(content).as_slice());
    let ghost lv = lines_spec(content@);
    let ghost start = definition_views(defs@);
    let mut current: Option<Vec<char>> = None;
    let mut i: usize = 0;
    assert(start + Seq::<Definition>::empty() =~= start);
    while i < ls.len()
        invariant
            i <= ls.len(),
            lv == lines_spec(content@),
            ls@.len() == lv.len(),
            forall|k: int| 0 <= k < ls@.len() ==> #[trigger] ls@[k]@ == lv[k],
            section.source() == section_pattern(),
            name_re.source() == helper_name_pattern(),
            match current {
                Some(c) => definition_scan(file@, lv, i as int).0 == Some(c@),
                None => definition_scan(file@, lv, i as int).0 is None,
            },
            definition_views(defs@) == start + definition_scan(file@, lv, i as int).1,
        decreases ls.len() - i,
    {
        let ghost before = definition_views(defs@);
        let line = ls[i].as_slice();
        let text = string_of(line);
        if section.is_match(text.as_str()) {
            current = Some(key_of(line));
        } else if is_top_level(line) {
            current = None;
        } else {
            match &current {
                Some(t) => {
                    let groups = name_re.group1_all(text.as_str());
                    if groups.len() > 0 {
                        match &groups[0] {
                            Some(name) => {
                                let mut id = string_of(t.as_slice());
                                push_str(&mut id, ".");
                                push_str(&mut id, name.as_str());
                                defs.push((id, owned(file), i + 1));
                                proof {
                                    assert(definition_views(defs@) =~= before.push(
                                        (id@, file@, (i + 1) as nat),
                                    ));
                                }
                            },
                            None => {},
                        }
                    }
                },
                None => {},
            }
        }
        i = i + 1;
    }
}

fn ids_contain(ids: &Vec<String>, id: &String) -> (r: bool)
    ensures
        r == crate::text::string_views(ids@).contains(id@),
{
    let mut i: usize = 0;
    while i < ids.len()
        invariant
            i <= ids.len(),
            forall|k: int| 0 <= k < i ==> ids@[k]@ != id@,
        decreases ids.len() - i,
    {
        if crate::text::str_eq(ids[i].as_str(), id.as_str()) {
            assert(crate::text::string_views(ids@)[i as int] == id@);
            return true;
        }
        i = i + 1;
    }
    assert forall|k: int| 0 <= k < ids@.len() implies crate::text::string_views(ids@)[k] != id@ by {
        assert(crate::text::string_views(ids@)[k] == ids@[k]@);
    }
    false
}

fn duplicate_finding_for(defs: &Vec<(String, String, usize)>, id: &String, findings: &mut Vec<Finding>)
    ensures
        finding_views(final(findings)@) == finding_views(old(findings)@)
            + duplicate_entity_finding(definition_views(defs@), id@),
{
    let ghost dv = definition_views(defs@);
    let ghost start = finding_views(findings@);
    let mut locs: Vec<String> = Vec::new();
    let mut first: Option<usize> = None;
    let mut k: usize = 0;
    while k < defs.len()
        invariant
            k <= defs.len(),
            dv == definition_views(defs@),
            dv.len() == defs@.len(),
            crate::text::string_views(locs@) == locations(dv.take(k as int), id@),
            match first {
                Some(j) => j < k && first_definition(dv, id@) == dv[j as int] && dv[j as int].0
                    == id@,
                None => forall|j: int| 0 <= j < k ==> dv[j].0 != id@,
            },
        decreases defs.len() - k,
    {
        proof {
            assert(dv.take(k + 1).drop_last() =~= dv.take(k as int));
            assert(dv.take(k + 1).last() == dv[k as int]);
            assert(dv[k as int] == (defs@[k as int].0@, defs@[k as int].1@, defs@[k as int].2 as nat));
        }
        if crate::text::str_eq(defs[k].0.as_str(), id.as_str()) {
            let mut l = defs[k].1.clone();
            push_str(&mut l, ":");
            push_decimal(&mut l, defs[k].2 as u64);
            let ghost lv = crate::text::string_views(locs@);
            locs.push(l);
            proof {
                assert(crate::text::string_views(locs@) =~= lv.push(l@));
            }
            if first.is_none() {
                proof {
                    lemma_first_definition(dv, id@, k as int);
                }
                first = Some(k);
            }
        }
        k = k + 1;
    }
    proof {
        assert(dv.take(defs@.len() as int) =~= dv);
    }
    if locs.len() > 1 {
        match first {
            Some(j) => {
                let mut msg = owned("Duplicate entity '");
                push_str(&mut msg, id.as_str());
                push_str(&mut msg, "' defined in: ");
                let joined = crate::text::join_strings(&locs, ", ");
                push_str(&mut msg, joined.as_str());
                let file = defs[j].1.as_str();
                record(findings, file, Some(defs[j].2), "error", "duplicate_entity", msg);
            },
            None => {
                proof {
                    lemma_no_locations(dv, id@);
                }
            },
        }
    }
    assert(finding_views(findings@) =~= start + duplicate_entity_finding(dv, id@));
}

proof fn lemma_first_definition(defs: Seq<Definition>, id: Seq<char>, k: int)
    requires
        0 <= k < defs.len(),
        defs[k].0 == id,
        forall|j: int| 0 <= j < k ==> defs[j].0 != id,
    ensures
        first_definition(defs, id) == defs[k],
    decreases k,
{
    if k > 0 {
        lemma_first_definition(defs.drop_first(), id, k - 1);
    }
}

proof fn lemma_no_locations(defs: Seq<Definition>, id: Seq<char>)
    requires
        forall|j: int| 0 <= j < defs.len() ==> defs[j].0 != id,
    ensures
        locations(defs, id).len() == 0,
    decreases defs.len(),
{
    if defs.len() > 0 {
        lemma_no_locations(defs.drop_last(), id);
    }
}

/// Findings for helpers defined more than once across the files.
pub fn check_duplicate_entities_across_files(files: &Vec<(String, String)>, findings: &mut Vec<Finding>)
    ensures
        finding_views(final(findings)@) == finding_views(old(findings)@)
            + duplicate_entity_findings(file_views(files@)),
{
    let ghost start = finding_views(findings@);
    let ghost fvs = file_views(files@);
    let section = match Pattern::compile(
        "(?m)^(input_number|input_boolean|input_datetime|input_select|input_text|counter|timer):\\s*$",
    ) {
        Ok(p) => p,
        Err(_) => {
            assert(finding_views(findings@) =~= start + duplicate_entity_findings(fvs));
            return;
        },
    };
    let name_re = match Pattern::compile("^  ([a-z][a-z0-9_]+):\\s*$") {
        Ok(p) => p,
        Err(_) => {
            assert(finding_views(findings@) =~= start + duplicate_entity_findings(fvs));
            return;
        },
    };
    let mut defs: Vec<(String, String, usize)> = Vec::new();
    let mut i: usize = 0;
    assert(definition_views(defs@) =~= Seq::<Definition>::empty());
    while i < files.len()
        invariant
            i <= files.len(),
            fvs == file_views(files@),
            section.source() == section_pattern(),
            name_re.source() == helper_name_pattern(),
            definition_views(defs@) == all_definitions(fvs, i as int),
        decreases files.len() - i,
    {
        scan_definitions(files[i].0.as_str(), files[i].1.as_str(), &section, &name_re, &mut defs);
        i = i + 1;
    }
    let ghost dv = definition_views(defs@);
    let mut ids: Vec<String> = Vec::new();
    let mut k: usize = 0;
    while k < defs.len()
        invariant
            k <= defs.len(),
            dv == definition_views(defs@),
            crate::text::string_views(ids@) == distinct_ids(dv.take(k as int)),
        decreases defs.len() - k,
    {
        proof {
            assert(dv.take(k + 1).drop_last() =~= dv.take(k as int));
            assert(dv.take(k + 1).last() == dv[k as int]);
        }
        if !ids_contain(&ids, &defs[k].0) {
            let ghost iv = crate::text::string_views(ids@);
            ids.push(defs[k].0.clone());
            proof {
                assert(crate::text::string_views(ids@) =~= iv.push(defs@[k as int].0@));
            }
        }
        k = k + 1;
    }
    proof {
        assert(dv.take(defs@.len() as int) =~= dv);
    }
    let ghost idv = crate::text::string_views(ids@);
    let ghost f = |j: int| duplicate_entity_finding(dv, idv[j]);
    let mut j: usize = 0;
    assert(start + flat(0, f) =~= start);
    while j < ids.len()
        invariant
            j <= ids.len(),
            dv == definition_views(defs@),
            idv == crate::text::string_views(ids@),
            f == (|j: int| duplicate_entity_finding(dv, idv[j])),
            finding_views(findings@) == start + flat(j as int, f),
        decreases ids.len() - j,
    {
        let ghost before = finding_views(findings@);
        duplicate_finding_for(&defs, &ids[j], findings);
        proof {
            assert(idv[j as int] == ids@[j as int]@);
            assert(finding_views(findings@) =~= before + f(j as int));
        }
        j = j + 1;
    }
    assert(finding_views(findings@) =~= start + duplicate_entity_findings(fvs));
}

// ---------------------------------------------------------------------
// Entities the templates read
// ---------------------------------------------------------------------

/// The expression for `states('<domain>.<object>')`, the id in group 1.
pub open spec fn states_call_pattern() -> Seq<char> {
    "states\\('([a-z_]+\\.[a-z0-9_]+)'\\)"@
}

/// An entity read by a template: its id, the file and the line.
pub type Reference = (Seq<char>, Seq<char>, nat);

/// The references of the ids captured on line `n` of `file`, in order.
pub open spec fn captured_references(ids: Seq<Option<Seq<char>>>, file: Seq<char>, n: nat) -> Seq<Reference>
    decreases ids.len(),
{
    if ids.len() == 0 {
        Seq::empty()
    } else {
        let prev = captured_references(ids.drop_last(), file, n);
        match ids.last() {
            Some(id) => prev.push((id, file, n)),
            None => prev,
        }
    }
}

/// The references on the first `n` lines of `file`.
pub open spec fn file_references(file: Seq<char>, ls: Seq<Seq<char>>, n: int) -> Seq<Reference>
    decreases n,
{
    if n <= 0 {
        Seq::empty()
    } else {
        file_references(file, ls, n - 1) + captured_references(
            crate::validation::regex_group1_all(states_call_pattern(), ls[n - 1]),
            file,
            n as nat,
        )
    }
}

/// The references in the first `n` files.
pub open spec fn all_references(files: Seq<(Seq<char>, Seq<char>)>, n: int) -> Seq<Reference>
    decreases n,
{
    if n <= 0 {
        Seq::empty()
    } else {
        let f = files[n - 1];
        all_references(files, n - 1) + file_references(
            f.0,
            lines_spec(f.1),
            lines_spec(f.1).len() as int,
        )
    }
}

/// The first reference of each entity, in the order first read.
pub open spec fn first_references(refs: Seq<Reference>) -> Seq<Reference>
    decreases refs.len(),
{
    if refs.len() == 0 {
        Seq::empty()
    } else {
        let prev = first_references(refs.drop_last());
        if exists|k: int| 0 <= k < prev.len() && #[trigger] prev[k].0 == refs.last().0 {
            prev
        } else {
            prev.push(refs.last())
        }
    }
}

/// The entities read by the files' templates, each with where it is first
/// read; none when the expression does not compile.
pub open spec fn referenced_entities(files: Seq<(Seq<char>, Seq<char>)>) -> Seq<Reference> {
    if regex_compile_error(states_call_pattern()) is None {
        first_references(all_references(files, files.len() as int))
    } else {
        Seq::empty()
    }
}

fn reference_known(refs: &Vec<(String, String, usize)>, id: &str) -> (r: bool)
    ensures
        r == exists|k: int| 0 <= k < refs@.len() && #[trigger] definition_views(refs@)[k].0 == id@,
{
    let mut i: usize = 0;
    while i < refs.len()
        invariant
            i <= refs.len(),
            forall|k: int| 0 <= k < i ==> #[trigger] definition_views(refs@)[k].0 != id@,
        decreases refs.len() - i,
    {
        if crate::text::str_eq(refs[i].0.as_str(), id) {
            assert(definition_views(refs@)[i as int].0 == id@);
            return true;
        }
        i = i + 1;
    }
    false
}

/// The entities the files' templates read with `states('...')`, each with
/// the file and line where it is first read.
pub fn entity_references(files: &Vec<(String, String)>) -> (r: Vec<(String, String, usize)>)
    ensures
        definition_views(r@) == referenced_entities(file_views(files@)),
{
    let ghost fvs = file_views(files@);
    let mut refs: Vec<(String, String, usize)> = Vec::new();
    let re = match Pattern::compile("states\\('([a-z_]+\\.[a-z0-9_]+)'\\)") {
        Ok(p) => p,
        Err(_) => {
            assert(definition_views(refs@) =~= referenced_entities(fvs));
            return refs;
        },
    };
    let ghost all = all_references(fvs, fvs.len() as int);
    let mut fi: usize = 0;
    let ghost mut seen: Seq<Reference> = Seq::empty();
    assert(definition_views(refs@) =~= first_references(Seq::<Reference>::empty()));
    while fi < files.len()
        invariant
            fi <= files.len(),
            fvs == file_views(files@),
            re.source() == states_call_pattern(),
            seen == all_references(fvs, fi as int),
            definition_views(refs@) == first_references(seen),
        decreases files.len() - fi,
    {
        let file = files[fi].0.as_str();
        let ls = lines(chars_of(files[fi].1.as_str()).as_slice());
        let ghost lv = lines_spec(files@[fi as int].1@);
        let ghost base = seen;
        let mut li: usize = 0;
        assert(base + Seq::<Reference>::empty() =~= base);
        while li < ls.len()
            invariant
                li <= ls.len(),
                fi < files.len(),
                fvs == file_views(files@),
                file@ == fvs[fi as int].0,
                lv == lines_spec(fvs[fi as int].1),
                ls@.len() == lv.len(),
                forall|k: int| 0 <= k < ls@.len() ==> #[trigger] ls@[k]@ == lv[k],
                re.source() == states_call_pattern(),
                seen == base + file_references(file@, lv, li as int),
                definition_views(refs@) == first_references(seen),
            decreases ls.len() - li,
        {
            let text = string_of(ls[li].as_slice());
            let groups = re.group1_all(text.as_str());
            let ghost gv = crate::validation::regex_group1_all(states_call_pattern(), lv[li as int]);
            let ghost line_base = seen;
            let mut gi: usize = 0;
            assert(gv.take(0) =~= Seq::<Option<Seq<char>>>::empty());
            assert(line_base + captured_references(gv.take(0), file@, (li + 1) as nat) =~= line_base);
            while gi < groups.len()
                invariant
                    gi <= groups.len(),
                    groups@.len() == gv.len(),
                    forall|k: int| 0 <= k < groups@.len() ==> crate::text::opt_view(#[trigger] groups@[k]) == gv[k],
                    li < ls.len(),
                    seen == line_base + captured_references(gv.take(gi as int), file@, (li + 1) as nat),
                    definition_views(refs@) == first_references(seen),
                decreases groups.len() - gi,
            {
                proof {
                    assert(gv.take(gi + 1).drop_last() =~= gv.take(gi as int));
                    assert(gv.take(gi + 1).last() == gv[gi as int]);
                    assert(crate::text::opt_view(groups@[gi as int]) == gv[gi as int]);
                }
                match &groups[gi] {
                    Some(id) => {
                        let ghost prev_seen = seen;
                        proof {
                            seen = seen.push((id@, file@, (li + 1) as nat));
                            assert(seen.drop_last() =~= prev_seen);
                        }
                        if !reference_known(&refs, id.as_str()) {
                            let ghost rv = definition_views(refs@);
                            refs.push((id.clone(), owned(file), li + 1));
                            proof {
                                assert(definition_views(refs@) =~= rv.push((id@, file@, (li + 1) as nat)));
                            }
                        }
                        proof {
                            assert(line_base + captured_references(gv.take(gi + 1), file@, (li + 1) as nat)
                                =~= seen);
                        }
                    },
                    None => {
                        assert(line_base + captured_references(gv.take(gi + 1), file@, (li + 1) as nat)
                            =~= seen);
                    },
                }
                gi = gi + 1;
            }
            proof {
                assert(gv.take(groups@.len() as int) =~= gv);
                assert(base + file_references(file@, lv, li + 1) =~= seen);
            }
            li = li + 1;
        }
        proof {
            assert(seen =~= all_references(fvs, fi + 1));
        }
        fi = fi + 1;
    }
    refs
}

/// `Entity '<id>' referenced but not found in HA`.
pub open spec fn missing_entity_message(id: Seq<char>) -> Seq<char> {
    "Entity '"@ + id + "' referenced but not found in HA"@
}

/// Some state has the entity id `id`.
pub open spec fn known_entity(states: Seq<JsonV>, id: Seq<char>) -> bool {
    exists|k: int| 0 <= k < states.len() && crate::json::jget_str(#[trigger] states[k], "entity_id"@) == Some(id)
}

/// The warning for each referenced entity that no state has.
pub open spec fn reference_findings(refs: Seq<Reference>, states: Seq<JsonV>) -> Seq<FindingV> {
    flat(
        refs.len() as int,
        |i: int| if known_entity(states, refs[i].0) {
            Seq::empty()
        } else {
            seq![
                fv(
                    refs[i].1,
                    Some(refs[i].2 as usize),
                    "warning"@,
                    "entity_ref"@,
                    missing_entity_message(refs[i].0),
                ),
            ]
        },
    )
}

/// Whether some state has the entity id `id`.
pub fn has_entity(states: &[Json], id: &str) -> (r: bool)
    ensures
        r == known_entity(crate::json::views(states@), id@),
{
    proof {
        crate::json::lemma_views(states@);
    }
    let ghost vs = crate::json::views(states@);
    let mut i: usize = 0;
    while i < states.len()
        invariant
            i <= states.len(),
            vs == crate::json::views(states@),
            vs.len() == states@.len(),
            forall|k: int| 0 <= k < states@.len() ==> #[trigger] vs[k] == states@[k]@,
            forall|k: int| 0 <= k < i ==> crate::json::jget_str(#[trigger] vs[k], "entity_id"@) != Some(id@),
        decreases states.len() - i,
    {
        match states[i].get_str("entity_id") {
            Some(e) => {
                if crate::text::str_eq(e, id) {
                    assert(crate::json::jget_str(vs[i as int], "entity_id"@) == Some(id@));
                    return true;
                }
            },
            None => {},
        }
        i = i + 1;
    }
    false
}

/// Warnings for the referenced entities that no state has.
pub fn check_entity_references(refs: &Vec<(String, String, usize)>, states: &[Json], findings: &mut Vec<Finding>)
    ensures
        finding_views(final(findings)@) == finding_views(old(findings)@) + reference_findings(
            definition_views(refs@),
            crate::json::views(states@),
        ),
{
    let ghost start = finding_views(findings@);
    let ghost rv = definition_views(refs@);
    let ghost sv = crate::json::views(states@);
    let ghost f = |i: int| if known_entity(sv, rv[i].0) {
        Seq::empty()
    } else {
        seq![
            fv(rv[i].1, Some(rv[i].2 as usize), "warning"@, "entity_ref"@, missing_entity_message(rv[i].0)),
        ]
    };
    let mut i: usize = 0;
    assert(start + flat(0, f) =~= start);
    while i < refs.len()
        invariant
            i <= refs.len(),
            rv == definition_views(refs@),
            sv == crate::json::views(states@),
            f == (|i: int| if known_entity(sv, rv[i].0) {
                Seq::empty()
            } else {
                seq![
                    fv(rv[i].1, Some(rv[i].2 as usize), "warning"@, "entity_ref"@, missing_entity_message(rv[i].0)),
                ]
            }),
            finding_views(findings@) == start + flat(i as int, f),
        decreases refs.len() - i,
    {
        let ghost before = finding_views(findings@);
        if !has_entity(states, refs[i].0.as_str()) {
            let mut msg = owned("Entity '");
            push_str(&mut msg, refs[i].0.as_str());
            push_str(&mut msg, "' referenced but not found in HA");
            record(findings, refs[i].1.as_str(), Some(refs[i].2), "warning", "entity_ref", msg);
        }
        proof {
            assert(rv[i as int] == (refs@[i as int].0@, refs@[i as int].1@, refs@[i as int].2 as nat));
            assert(finding_views(findings@) =~= before + f(i as int));
        }
        i = i + 1;
    }
    assert(finding_views(findings@) =~= start + reference_findings(rv, sv));
}

// ---------------------------------------------------------------------
// Registry entries without a state
// ---------------------------------------------------------------------

/// A registry entry is orphaned: it has an entity id, is not disabled, and
/// no state carries that id.
pub open spec fn orphaned(entry: JsonV, states: Seq<JsonV>) -> bool {
    let eid = crate::json::str_or(entry, "entity_id"@, Seq::empty());
    eid.len() > 0 && crate::json::jget_str(entry, "disabled_by"@) is None && !known_entity(states, eid)
}

/// The orphaned entries of a registry, in order.
pub open spec fn orphaned_entries(registry: Seq<JsonV>, states: Seq<JsonV>) -> Seq<JsonV>
    decreases registry.len(),
{
    if registry.len() == 0 {
        Seq::empty()
    } else {
        let prev = orphaned_entries(registry.drop_last(), states);
        if orphaned(registry.last(), states) {
            prev.push(registry.last())
        } else {
            prev
        }
    }
}

/// The entity registry entries that are enabled but have no state.
pub fn find_orphaned_registry_entries(registry: &[Json], states: &[Json]) -> (r: Vec<Json>)
    ensures
        crate::json::views(r@) == orphaned_entries(crate::json::views(registry@), crate::json::views(states@)),
{
    proof {
        crate::json::lemma_views(registry@);
        reveal_strlit("");
    }
    let ghost rv = crate::json::views(registry@);
    let ghost sv = crate::json::views(states@);
    let mut out: Vec<Json> = Vec::new();
    let mut i: usize = 0;
    while i < registry.len()
        invariant
            i <= registry.len(),
            rv == crate::json::views(registry@),
            sv == crate::json::views(states@),
            rv.len() == registry@.len(),
            forall|k: int| 0 <= k < registry@.len() ==> #[trigger] rv[k] == registry@[k]@,
            crate::json::views(out@) == orphaned_entries(rv.take(i as int), sv),
        decreases registry.len() - i,
    {
        proof {
            reveal_strlit("");
            assert(rv.take(i + 1).drop_last() =~= rv.take(i as int));
            assert(rv.take(i + 1).last() == registry@[i as int]@);
        }
        let e = &registry[i];
        let eid = e.str_or("entity_id", "");
        let disabled = match e.get_str("disabled_by") {
            Some(_) => true,
            None => false,
        };
        if !eid.is_empty() && !disabled && !has_entity(states, eid) {
            let ghost old_out = out@;
            out.push(e.deep_copy());
            proof {
                assert(out@.drop_last() =~= old_out);
            }
        }
        i = i + 1;
    }
    proof {
        assert(rv.take(registry@.len() as int) =~= rv);
    }
    out
}

/// The warning for a registry entry that has no state.
pub open spec fn orphan_finding(e: JsonV) -> FindingV {
    fv(
        "(entity_registry)"@,
        None,
        "warning"@,
        "orphaned_entity"@,
        "Entity '"@ + crate::json::str_or(e, "entity_id"@, "?"@) + "' (platform: "@ + crate::json::str_or(
            e,
            "platform"@,
            "unknown"@,
        ) + ") in registry but has no state"@,
    )
}

/// Adds a warning for each registry entry that has no state, in order.
pub fn report_orphaned_entries(orphaned: &[Json], findings: &mut Vec<Finding>)
    ensures
        finding_views(final(findings)@) == finding_views(old(findings)@) + Seq::new(
            orphaned@.len(),
            |i: int| orphan_finding(orphaned@[i]@),
        ),
{
    let ghost start = finding_views(findings@);
    let mut i: usize = 0;
    while i < orphaned.len()
        invariant
            i <= orphaned@.len(),
            finding_views(findings@) == start + Seq::new(i as nat, |k: int| orphan_finding(orphaned@[k]@)),
        decreases orphaned.len() - i,
    {
        let e = &orphaned[i];
        let mut msg = owned("Entity '");
        push_str(&mut msg, e.str_or("entity_id", "?"));
        push_str(&mut msg, "' (platform: ");
        push_str(&mut msg, e.str_or("platform", "unknown"));
        push_str(&mut msg, ") in registry but has no state");
        record(findings, "(entity_registry)", None, "warning", "orphaned_entity", msg);
        proof {
            assert(start + Seq::new((i + 1) as nat, |k: int| orphan_finding(orphaned@[k]@)) =~= (start
                + Seq::new(i as nat, |k: int| orphan_finding(orphaned@[k]@))).push(orphan_finding(orphaned@[i as int]@)));
        }
        i = i + 1;
    }
}

// ---------------------------------------------------------------------
// Which files are checked
// ---------------------------------------------------------------------

/// Whether a file found under the checked directory is checked: archived
/// copies, git internals and disabled files are not, nor, among `.yaml`
/// files, backups.
pub open spec fn checked_path(path: Seq<char>, yml: bool) -> bool {
    !contains_seq(path, "/archive/"@) && !contains_seq(path, "/.git/"@) && (yml || !contains_seq(
        path,
        "_backup"@,
    )) && !crate::text::has_suffix(path, ".disabled"@)
}

/// Whether a file found by the search for `*.yaml` (or, with `yml`,
/// `*.yml`) files is checked.
pub fn keep_yaml_path(path: &str, yml: bool) -> (r: bool)
    ensures
        r == checked_path(path@, yml),
{
    let p = chars_of(path);
    !contains(p.as_slice(), chars_of("/archive/").as_slice()) && !contains(
        p.as_slice(),
        chars_of("/.git/").as_slice(),
    ) && (yml || !contains(p.as_slice(), chars_of("_backup").as_slice())) && !crate::text::ends_with(
        p.as_slice(),
        chars_of(".disabled").as_slice(),
    )
}

// ---------------------------------------------------------------------
// Checking a set of files
// ---------------------------------------------------------------------

/// Why a file is not valid YAML: the line of the error, when known, and the
/// parser's description.
pub struct YamlError {
    pub line: Option<usize>,
    pub message: String,
}

/// A file to check: its path, its content and what parsing it gave.
pub struct SourceFile {
    pub path: String,
    pub content: String,
    pub parsed: Result<Yaml, YamlError>,
}

/// The model of what parsing a file gave.
pub open spec fn parse_view(p: Result<Yaml, YamlError>) -> Result<YamlV, (Option<usize>, Seq<char>)> {
    match p {
        Ok(y) => Ok(y@),
        Err(e) => Err((e.line, e.message@)),
    }
}

/// The findings for one file: when it parses, the text checks (duplicate
/// keys, Jinja, common mistakes, name, package keys) then the document
/// checks (platforms, automations, circular references); otherwise one
/// syntax error.
pub open spec fn file_findings(path: Seq<char>, content: Seq<char>, parsed: Result<YamlV, (Option<usize>, Seq<char>)>) -> Seq<FindingV> {
    match parsed {
        Ok(y) => duplicate_scan(path, lines_spec(content)).1 + jinja_findings(path, content)
            + common_findings(path, lines_spec(content), lines_spec(content).len() as int)
            + cruft_findings(path) + package_findings(path, content) + sensor_platform_findings(
            path,
            y,
        ) + automation_findings(path, y) + circular_findings(path, y),
        Err((line, message)) => seq![
            fv(path, line, "error"@, "yaml_syntax"@, "Invalid YAML: "@ + message),
        ],
    }
}

/// The model of a set of files to check.
pub open spec fn source_views(files: Seq<SourceFile>) -> Seq<(Seq<char>, Seq<char>)> {
    files.map_values(|f: SourceFile| (f.path@, f.content@))
}

/// The findings for a set of files: each file's own, in order, then the
/// helpers defined in more than one place.
pub open spec fn all_findings(files: Seq<SourceFile>) -> Seq<FindingV> {
    flat(
        files.len() as int,
        |i: int| file_findings(files[i].path@, files[i].content@, parse_view(files[i].parsed)),
    ) + duplicate_entity_findings(source_views(files))
}

/// Adds the findings for one file.
pub fn check_file(path: &str, content: &str, parsed: &Result<Yaml, YamlError>, findings: &mut Vec<Finding>)
    ensures
        finding_views(final(findings)@) == finding_views(old(findings)@) + file_findings(
            path@,
            content@,
            parse_view(*parsed),
        ),
{
    let ghost start = finding_views(findings@);
    match parsed {
        Ok(yaml) => {
            check_duplicate_keys(path, content, findings);
            check_jinja_templates(path, content, findings);
            check_common_errors(path, content, findings);
            check_file_cruft(path, findings);
            check_package_exclusions(path, content, findings);
            check_sensor_platforms(path, yaml, findings);
            check_automation_syntax(path, yaml, findings);
            detect_circular_references(path, yaml, findings);
        },
        Err(e) => {
            let mut msg = owned("Invalid YAML: ");
            push_str(&mut msg, e.message.as_str());
            record(findings, path, e.line, "error", "yaml_syntax", msg);
        },
    }
    assert(finding_views(findings@) =~= start + file_findings(path@, content@, parse_view(*parsed)));
}

/// Checks a set of files: each one, then the helpers defined across them.
pub fn validate_files(files: &Vec<SourceFile>) -> (r: Vec<Finding>)
    ensures
        finding_views(r@) == all_findings(files@),
{
    let mut findings: Vec<Finding> = Vec::new();
    let ghost f = |i: int|
        file_findings(files@[i].path@, files@[i].content@, parse_view(files@[i].parsed));
    let mut pairs: Vec<(String, String)> = Vec::new();
    let mut i: usize = 0;
    assert(finding_views(findings@) =~= flat(0, f));
    while i < files.len()
        invariant
            i <= files.len(),
            f == (|i: int|
                file_findings(files@[i].path@, files@[i].content@, parse_view(files@[i].parsed))),
            finding_views(findings@) == flat(i as int, f),
            file_views(pairs@) == source_views(files@).take(i as int),
        decreases files.len() - i,
    {
        let file = &files[i];
        check_file(file.path.as_str(), file.content.as_str(), &file.parsed, &mut findings);
        let ghost pv = file_views(pairs@);
        let path = file.path.clone();
        let content = file.content.clone();
        pairs.push((path, content));
        proof {
            assert(file_views(pairs@) =~= pv.push((files@[i as int].path@, files@[i as int].content@)));
            assert(source_views(files@).take(i + 1) =~= source_views(files@).take(i as int).push(
                (files@[i as int].path@, files@[i as int].content@),
            ));
        }
        i = i + 1;
    }
    proof {
        assert(source_views(files@).take(files@.len() as int) =~= source_views(files@));
    }
    check_duplicate_entities_across_files(&pairs, &mut findings);
    findings
}

// ---------------------------------------------------------------------
// The report
// ---------------------------------------------------------------------

/// The number of findings of a severity.
pub open spec fn count_severity(fs: Seq<FindingV>, severity: Seq<char>) -> nat
    decreases fs.len(),
{
    if fs.len() == 0 {
        0
    } else {
        count_severity(fs.drop_last(), severity) + if fs.last().severity == severity {
            1nat
        } else {
            0nat
        }
    }
}

proof fn lemma_count_bound(fs: Seq<FindingV>, severity: Seq<char>)
    ensures
        count_severity(fs, severity) <= fs.len(),
    decreases fs.len(),
{
    if fs.len() > 0 {
        lemma_count_bound(fs.drop_last(), severity);
    }
}

/// Where a finding is: the file, with `:line` when known.
pub open spec fn finding_location(file: Seq<char>, line: Option<usize>) -> Seq<char> {
    match line {
        Some(l) => file + ":"@ + decimal(l as nat),
        None => file,
    }
}

/// The compact line of a finding: severity, check, location, message, tab
/// separated.
pub open spec fn compact_finding(f: FindingV) -> Seq<char> {
    f.severity + "\t"@ + f.check + "\t"@ + finding_location(f.file, f.line) + "\t"@ + f.message
}

/// `n` followed by `word`, with an `s` unless `n` is 1.
pub open spec fn plural(n: nat, word: Seq<char>) -> Seq<char> {
    decimal(n) + " "@ + word + if n == 1 {
        Seq::empty()
    } else {
        "s"@
    }
}

/// The human block of a finding: its location (base name of the file)
/// dimmed, then the icon of its severity and the message.
pub open spec fn human_finding(f: FindingV, s: Style) -> Seq<char> {
    let icon = if f.severity == "error"@ {
        s.red@ + "✗"@ + s.reset@ + " "@
    } else {
        s.yellow@ + "▲"@ + s.reset@ + " "@
    };
    "  "@ + s.dim@ + finding_location(basename_spec(f.file), f.line) + s.reset@ + "\n"@ + "  "@
        + icon + " "@ + f.message + "\n\n"@
}

/// The human blocks of all findings, one after the other.
pub open spec fn human_findings(fs: Seq<FindingV>, s: Style) -> Seq<char>
    decreases fs.len(),
{
    if fs.len() == 0 {
        Seq::empty()
    } else {
        human_findings(fs.drop_last(), s) + human_finding(fs.last(), s)
    }
}

/// The human summary line: a tick when there is nothing, else the counts
/// of errors (red) and warnings (yellow) that are not zero.
pub open spec fn human_summary(e: nat, w: nat, s: Style) -> Seq<char> {
    if e == 0 && w == 0 {
        "  "@ + s.green@ + "✓"@ + s.reset@ + " "@ + "No issues found"@ + "\n"@
    } else {
        let errs = s.red@ + plural(e, "error"@) + s.reset@;
        let warns = s.yellow@ + plural(w, "warning"@) + s.reset@;
        let sep = "  "@ + s.dim@ + "·"@ + s.reset@ + "  "@;
        let body = if e > 0 && w > 0 {
            errs + sep + warns
        } else if e > 0 {
            errs
        } else {
            warns
        };
        "  "@ + body + "\n"@
    }
}

/// The JSON form of a finding.
pub open spec fn finding_doc(f: FindingV) -> JsonV {
    JsonV::Object(
        seq![
            ("check"@, JsonV::Str(f.check)),
            ("file"@, JsonV::Str(f.file)),
            ("line"@, match f.line {
                Some(l) => JsonV::PosInt(l as u64),
                None => JsonV::Null,
            }),
            ("message"@, JsonV::Str(f.message)),
            ("severity"@, JsonV::Str(f.severity)),
        ],
    )
}

/// The JSON report: counts, whether there is no error, and the findings.
pub open spec fn report_doc(n: nat, fs: Seq<FindingV>) -> JsonV {
    let e = count_severity(fs, "error"@);
    let w = count_severity(fs, "warning"@);
    JsonV::Object(
        seq![
            ("errors"@, JsonV::PosInt(e as u64)),
            ("files_checked"@, JsonV::PosInt(n as u64)),
            ("findings"@, JsonV::Array(Seq::new(fs.len(), |i: int| finding_doc(fs[i])))),
            ("passed"@, JsonV::Bool(e == 0)),
            ("warnings"@, JsonV::PosInt(w as u64)),
        ],
    )
}

/// The report of a validation run in a mode.
pub open spec fn report_text(n: nat, fs: Seq<FindingV>, mode: OutputMode, s: Style) -> Seq<char> {
    let e = count_severity(fs, "error"@);
    let w = count_severity(fs, "warning"@);
    match mode {
        OutputMode::Compact => crate::text::join(
            seq!["files:"@ + decimal(n) + "\terrors:"@ + decimal(e) + "\twarnings:"@ + decimal(w)]
                + Seq::new(fs.len(), |i: int| compact_finding(fs[i])),
            "\n"@,
        ),
        OutputMode::Human => s.bold@ + "◆ "@ + "YAML Validation \u{2014} "@ + decimal(n)
            + " files"@ + s.reset@ + "\n\n"@ + human_summary(e, w, s) + if fs.len() > 0 {
            "\n"@ + human_findings(fs, s)
        } else {
            Seq::empty()
        },
        OutputMode::Json => pretty(report_doc(n, fs), 0),
    }
}

fn location_text(file: &str, line: Option<usize>) -> (r: String)
    ensures
        r@ == finding_location(file@, line),
{
    let mut out = owned(file);
    match line {
        Some(l) => {
            push_str(&mut out, ":");
            push_decimal(&mut out, l as u64);
        },
        None => {},
    }
    out
}

fn count_of(findings: &Vec<Finding>, severity: &str) -> (r: usize)
    ensures
        r == count_severity(finding_views(findings@), severity@),
{
    let ghost fv = finding_views(findings@);
    let mut n: usize = 0;
    let mut i: usize = 0;
    while i < findings.len()
        invariant
            i <= findings.len(),
            fv == finding_views(findings@),
            n == count_severity(fv.take(i as int), severity@),
            n <= i,
        decreases findings.len() - i,
    {
        proof {
            assert(fv.take(i + 1).drop_last() =~= fv.take(i as int));
            assert(fv.take(i + 1).last() == findings@[i as int]@);
        }
        if crate::text::str_eq(findings[i].severity.as_str(), severity) {
            n = n + 1;
        }
        i = i + 1;
    }
    proof {
        assert(fv.take(findings@.len() as int) =~= fv);
    }
    n
}

fn plural_text(out: &mut String, n: usize, word: &str)
    ensures
        final(out)@ == old(out)@ + plural(n as nat, word@),
{
    push_decimal(out, n as u64);
    push_str(out, " ");
    push_str(out, word);
    if n != 1 {
        push_str(out, "s");
    }
    proof {
        reveal_strlit("");
    }
}

fn finding_json(f: &Finding) -> (r: Json)
    ensures
        r@ == finding_doc(f@),
        depth(r@) == 1,
{
    let mut entries: Vec<(String, Json)> = Vec::new();
    entries.push((owned("check"), Json::string(f.check.as_str())));
    entries.push((owned("file"), Json::string(f.file.as_str())));
    let line = match f.line {
        Some(l) => Json::PosInt(l as u64),
        None => Json::Null,
    };
    entries.push((owned("line"), line));
    entries.push((owned("message"), Json::string(f.message.as_str())));
    entries.push((owned("severity"), Json::string(f.severity.as_str())));
    proof {
        crate::json::lemma_entry_views(entries@);
        assert(entry_views(entries@) =~= finding_doc(f@)->Object_0);
        crate::json::lemma_depth_entries_bound(entry_views(entries@), 0);
    }
    Json::object(entries)
}

fn report_compact(files_checked: usize, findings: &Vec<Finding>, errors: usize, warnings: usize) -> (r: String)
    requires
        errors == count_severity(finding_views(findings@), "error"@),
        warnings == count_severity(finding_views(findings@), "warning"@),
    ensures
        forall|s: Style| r@ == #[trigger] report_text(files_checked as nat, finding_views(findings@), OutputMode::Compact, s),
{
    let ghost fv = finding_views(findings@);
    let mut lines: Vec<String> = Vec::new();
    let mut head = owned("files:");
    push_decimal(&mut head, files_checked as u64);
    push_str(&mut head, "\terrors:");
    push_decimal(&mut head, errors as u64);
    push_str(&mut head, "\twarnings:");
    push_decimal(&mut head, warnings as u64);
    lines.push(head);
    let mut i: usize = 0;
    while i < findings.len()
        invariant
            i <= findings.len(),
            fv == finding_views(findings@),
            lines@.len() == i + 1,
            lines@[0]@ == "files:"@ + decimal(files_checked as nat) + "\terrors:"@ + decimal(
                errors as nat,
            ) + "\twarnings:"@ + decimal(warnings as nat),
            forall|k: int| 0 <= k < i ==> #[trigger] lines@[k + 1]@ == compact_finding(fv[k]),
        decreases findings.len() - i,
    {
        let f = &findings[i];
        let mut l = f.severity.clone();
        push_str(&mut l, "\t");
        push_str(&mut l, f.check.as_str());
        push_str(&mut l, "\t");
        let loc = location_text(f.file.as_str(), f.line);
        push_str(&mut l, loc.as_str());
        push_str(&mut l, "\t");
        push_str(&mut l, f.message.as_str());
        proof {
            assert(fv[i as int] == findings@[i as int]@);
        }
        lines.push(l);
        i = i + 1;
    }
    proof {
        let want = seq![
            "files:"@ + decimal(files_checked as nat) + "\terrors:"@ + decimal(errors as nat)
                + "\twarnings:"@ + decimal(warnings as nat),
        ] + Seq::new(fv.len(), |k: int| compact_finding(fv[k]));
        assert forall|k: int| 0 <= k < lines@.len() implies #[trigger] crate::text::string_views(lines@)[k] == want[k] by {
            if k > 0 {
                assert(lines@[(k - 1) + 1]@ == compact_finding(fv[k - 1]));
            }
        }
        assert(crate::text::string_views(lines@) =~= want);
    }
    crate::text::join_lines(&lines)
}

fn push_human_finding(out: &mut String, f: &Finding, style: &Style)
    ensures
        final(out)@ == old(out)@ + human_finding(f@, *style),
{
    push_str(out, "  ");
    push_str(out, style.dim);
    let loc = location_text(basename(f.file.as_str()), f.line);
    push_str(out, loc.as_str());
    push_str(out, style.reset);
    push_str(out, "\n");
    push_str(out, "  ");
    let icon = if crate::text::str_eq(f.severity.as_str(), "error") {
        style.fail("")
    } else {
        style.warn("")
    };
    push_str(out, icon.as_str());
    push_str(out, " ");
    push_str(out, f.message.as_str());
    push_str(out, "\n\n");
    proof {
        reveal_strlit("");
        assert(final(out)@ =~= old(out)@ + human_finding(f@, *style));
    }
}

fn summary_text(errors: usize, warnings: usize, style: &Style) -> (r: String)
    ensures
        r@ == human_summary(errors as nat, warnings as nat, *style),
{
    let mut out = owned("  ");
    if errors == 0 && warnings == 0 {
        let p = style.pass("No issues found");
        push_str(&mut out, p.as_str());
    } else {
        if errors > 0 {
            push_str(&mut out, style.red);
            plural_text(&mut out, errors, "error");
            push_str(&mut out, style.reset);
        }
        if errors > 0 && warnings > 0 {
            push_str(&mut out, "  ");
            push_str(&mut out, style.dim);
            push_str(&mut out, "·");
            push_str(&mut out, style.reset);
            push_str(&mut out, "  ");
        }
        if warnings > 0 {
            push_str(&mut out, style.yellow);
            plural_text(&mut out, warnings, "warning");
            push_str(&mut out, style.reset);
        }
    }
    push_str(&mut out, "\n");
    proof {
        assert(out@ =~= human_summary(errors as nat, warnings as nat, *style));
    }
    out
}

fn report_human(files_checked: usize, findings: &Vec<Finding>, errors: usize, warnings: usize, style: &Style) -> (r: String)
    requires
        errors == count_severity(finding_views(findings@), "error"@),
        warnings == count_severity(finding_views(findings@), "warning"@),
    ensures
        r@ == report_text(files_checked as nat, finding_views(findings@), OutputMode::Human, *style),
{
    let ghost fv = finding_views(findings@);
    let mut title = owned("YAML Validation \u{2014} ");
    push_decimal(&mut title, files_checked as u64);
    push_str(&mut title, " files");
    let mut out = style.header(title.as_str());
    push_str(&mut out, "\n\n");
    let summary = summary_text(errors, warnings, style);
    push_str(&mut out, summary.as_str());
    let ghost head = out@;
    if findings.len() > 0 {
        push_str(&mut out, "\n");
        let ghost mid = out@;
        let mut i: usize = 0;
        assert(fv.take(0) =~= Seq::<FindingV>::empty());
        assert(mid + human_findings(fv.take(0), *style) =~= mid);
        while i < findings.len()
            invariant
                i <= findings.len(),
                fv == finding_views(findings@),
                out@ == mid + human_findings(fv.take(i as int), *style),
            decreases findings.len() - i,
        {
            let ghost before = out@;
            push_human_finding(&mut out, &findings[i], style);
            proof {
                assert(fv.take(i + 1).drop_last() =~= fv.take(i as int));
                assert(fv.take(i + 1).last() == findings@[i as int]@);
            }
            i = i + 1;
        }
        proof {
            assert(fv.take(findings@.len() as int) =~= fv);
            assert(out@ =~= head + ("\n"@ + human_findings(fv, *style)));
        }
    } else {
        proof {
            reveal_strlit("");
            assert(out@ =~= head + Seq::<char>::empty());
        }
    }
    out
}

fn report_json(files_checked: usize, findings: &Vec<Finding>, errors: usize, warnings: usize) -> (r: Json)
    requires
        errors == count_severity(finding_views(findings@), "error"@),
        warnings == count_severity(finding_views(findings@), "warning"@),
    ensures
        r@ == report_doc(files_checked as nat, finding_views(findings@)),
        depth(r@) <= 3,
{
    let ghost fv = finding_views(findings@);
    let mut items: Vec<Json> = Vec::new();
    let mut i: usize = 0;
    while i < findings.len()
        invariant
            i <= findings.len(),
            fv == finding_views(findings@),
            items@.len() == i,
            forall|k: int| 0 <= k < i ==> #[trigger] items@[k]@ == finding_doc(fv[k]),
            forall|k: int| 0 <= k < i ==> depth(#[trigger] items@[k]@) == 1,
        decreases findings.len() - i,
    {
        let j = finding_json(&findings[i]);
        items.push(j);
        i = i + 1;
    }
    proof {
        crate::json::lemma_views(items@);
        assert(views(items@) =~= Seq::new(fv.len(), |k: int| finding_doc(fv[k])));
        assert forall|k: int| 0 <= k < views(items@).len() implies depth(#[trigger] views(items@)[k]) <= 1 by {
            assert(views(items@)[k] == items@[k]@);
        }
        crate::json::lemma_depth_items_bound(views(items@), 1);
        lemma_count_bound(fv, "error"@);
        lemma_count_bound(fv, "warning"@);
    }
    let mut entries: Vec<(String, Json)> = Vec::new();
    entries.push((owned("errors"), Json::count(errors)));
    entries.push((owned("files_checked"), Json::count(files_checked)));
    entries.push((owned("findings"), Json::array(items)));
    entries.push((owned("passed"), Json::Bool(errors == 0)));
    entries.push((owned("warnings"), Json::count(warnings)));
    proof {
        crate::json::lemma_entry_views(entries@);
        assert(entry_views(entries@) =~= report_doc(files_checked as nat, fv)->Object_0);
        crate::json::lemma_depth_entries_bound(entry_views(entries@), 2);
    }
    Json::object(entries)
}

/// Renders the report of a validation run over `files_checked` files.
pub fn validation_report(files_checked: usize, findings: &Vec<Finding>, mode: OutputMode, style: &Style) -> (r: Result<String, AppError>)
    ensures
        r matches Ok(t) && t@ == report_text(files_checked as nat, finding_views(findings@), mode, *style),
{
    let errors = count_of(findings, "error");
    let warnings = count_of(findings, "warning");
    match mode {
        OutputMode::Compact => Ok(report_compact(files_checked, findings, errors, warnings)),
        OutputMode::Human => Ok(report_human(files_checked, findings, errors, warnings, style)),
        OutputMode::Json => {
            let doc = report_json(files_checked, findings, errors, warnings);
            format_output(&doc, mode)
        },
    }
}
/// None of the findings is an error.
pub open spec fn no_errors(fs: Seq<FindingV>) -> bool {
    forall|i: int| 0 <= i < fs.len() ==> (#[trigger] fs[i]).severity != "error"@
}

/// A validation run passes exactly when none of its findings is an error:
/// warnings alone never fail it, and a single error always does.
pub proof fn passes_iff_no_errors(n: nat, fs: Seq<FindingV>)
    ensures
        (count_severity(fs, "error"@) == 0) == no_errors(fs),
        report_doc(n, fs)->Object_0[3] == ("passed"@, JsonV::Bool(no_errors(fs))),
    decreases fs.len(),
{
    if fs.len() > 0 {
        let prev = fs.drop_last();
        passes_iff_no_errors(n, prev);
        if no_errors(prev) {
            assert forall|i: int| 0 <= i < fs.len() - 1 implies (#[trigger] fs[i]).severity != "error"@ by {
                assert(fs[i] == prev[i]);
            }
        } else {
            let i = choose|i: int| 0 <= i < prev.len() && (#[trigger] prev[i]).severity == "error"@;
            assert(fs[i] == prev[i]);
        }
    }
}

/// Whether a validation run passes: none of its findings is an error.
pub fn passed(findings: &Vec<Finding>) -> (r: bool)
    ensures
        r == no_errors(finding_views(findings@)),
{
    let errors = count_of(findings, "error");
    proof {
        passes_iff_no_errors(0, finding_views(findings@));
    }
    errors == 0
}

proof fn lemma_in_common_findings(file: Seq<char>, ls: Seq<Seq<char>>, n: int, x: FindingV)
    ensures
        common_findings(file, ls, n).contains(x) <==> exists|i: int|
            0 <= i < n && #[trigger] common_line_findings(file, ls, i).contains(x),
    decreases n,
{
    if n > 0 {
        lemma_in_common_findings(file, ls, n - 1, x);
        let a = common_findings(file, ls, n - 1);
        let b = common_line_findings(file, ls, n - 1);
        assert(common_findings(file, ls, n) == a + b);
        if (a + b).contains(x) {
            let j = choose|j: int| 0 <= j < (a + b).len() && (a + b)[j] == x;
            if j < a.len() {
                assert(a[j] == x);
                assert(a.contains(x));
                let i = choose|i: int| 0 <= i < n - 1 && #[trigger] common_line_findings(file, ls, i).contains(x);
                assert(0 <= i < n && common_line_findings(file, ls, i).contains(x));
            } else {
                assert(b[j - a.len()] == x);
                assert(b.contains(x));
                assert(common_line_findings(file, ls, n - 1).contains(x));
            }
        }
        if exists|i: int| 0 <= i < n && #[trigger] common_line_findings(file, ls, i).contains(x) {
            let i = choose|i: int| 0 <= i < n && #[trigger] common_line_findings(file, ls, i).contains(x);
            if i < n - 1 {
                assert(a.contains(x));
                let j = choose|j: int| 0 <= j < a.len() && a[j] == x;
                assert((a + b)[j] == x);
            } else {
                let j = choose|j: int| 0 <= j < b.len() && b[j] == x;
                assert((a + b)[a.len() + j] == x);
            }
        }
    }
}

/// A `bare_unavailable` warning is written for a line whose text is
/// `unavailable` or `'unavailable'` exactly when one of the (up to) five
/// lines before it names `unit_of_measurement`, `state_class` or
/// `value_template`: every such line gets the warning at its line number,
/// and every such warning stands at such a line.
pub proof fn bare_unavailable_needs_sensor_context(file: Seq<char>, ls: Seq<Seq<char>>)
    ensures
        ({
            let fs = common_findings(file, ls, ls.len() as int);
            let warning = |i: int|
                fv(
                    file,
                    Some((i + 1) as usize),
                    "warning"@,
                    "bare_unavailable"@,
                    "Template sensor returns bare 'unavailable' \u{2014} use {{ none }} instead"@,
                );
            let bare = |i: int|
                (trim_spec(ls[i]) == "unavailable"@ || trim_spec(ls[i]) == "'unavailable'"@) && exists|k: int|
                    #![trigger ls[k]]
                    i - 5 <= k < i && 0 <= k && (contains_seq(ls[k], "unit_of_measurement"@) || contains_seq(
                        ls[k],
                        "state_class"@,
                    ) || contains_seq(ls[k], "value_template"@));
            &&& forall|i: int| 0 <= i < ls.len() && #[trigger] bare(i) ==> fs.contains(warning(i))
            &&& forall|x: FindingV|
                #[trigger] fs.contains(x) && x.check == "bare_unavailable"@ ==> exists|i: int|
                    0 <= i < ls.len() && bare(i) && x == #[trigger] warning(i)
        }),
{
    let n = ls.len() as int;
    let fs = common_findings(file, ls, n);
    let warning = |i: int|
        fv(
            file,
            Some((i + 1) as usize),
            "warning"@,
            "bare_unavailable"@,
            "Template sensor returns bare 'unavailable' \u{2014} use {{ none }} instead"@,
        );
    let bare = |i: int|
        (trim_spec(ls[i]) == "unavailable"@ || trim_spec(ls[i]) == "'unavailable'"@) && exists|k: int|
            #![trigger ls[k]]
            i - 5 <= k < i && 0 <= k && (contains_seq(ls[k], "unit_of_measurement"@) || contains_seq(
                ls[k],
                "state_class"@,
            ) || contains_seq(ls[k], "value_template"@));
    assert forall|i: int| 0 <= i < n implies #[trigger] bare(i) == ((trim_spec(ls[i]) == "unavailable"@
        || trim_spec(ls[i]) == "'unavailable'"@) && has_context(ls, i)) by {
        if has_context(ls, i) {
            let k = choose|k: int| context_start(i) <= k < i && #[trigger] context_line(ls[k]);
            assert(i - 5 <= k < i && 0 <= k);
        }
        if exists|k: int|
            #![trigger ls[k]]
            i - 5 <= k < i && 0 <= k && (contains_seq(ls[k], "unit_of_measurement"@) || contains_seq(
                ls[k],
                "state_class"@,
            ) || contains_seq(ls[k], "value_template"@)) {
            let k = choose|k: int|
                #![trigger ls[k]]
                i - 5 <= k < i && 0 <= k && (contains_seq(ls[k], "unit_of_measurement"@) || contains_seq(
                    ls[k],
                    "state_class"@,
                ) || contains_seq(ls[k], "value_template"@));
            assert(context_line(ls[k]));
        }
    }
    assert forall|i: int| 0 <= i < n && #[trigger] bare(i) implies fs.contains(warning(i)) by {
        let parts = common_line_findings(file, ls, i);
        assert(parts[0] == warning(i));
        assert(parts.contains(warning(i)));
        lemma_in_common_findings(file, ls, n, warning(i));
    }
    reveal_strlit("bare_unavailable");
    reveal_strlit("none_threshold");
    reveal_strlit("tab_indent");
    assert forall|x: FindingV| #[trigger] fs.contains(x) && x.check == "bare_unavailable"@ implies exists|i: int|
        0 <= i < n && bare(i) && x == #[trigger] warning(i) by {
        lemma_in_common_findings(file, ls, n, x);
        let i = choose|i: int| 0 <= i < n && #[trigger] common_line_findings(file, ls, i).contains(x);
        let line = ls[i];
        let t = trim_spec(line);
        let parts = common_line_findings(file, ls, i);
        let j = choose|j: int| 0 <= j < parts.len() && parts[j] == x;
        let b = if (t == "unavailable"@ || t == "'unavailable'"@) && has_context(ls, i) {
            seq![warning(i)]
        } else {
            Seq::<FindingV>::empty()
        };
        assert(b[0] == warning(i) || b.len() == 0);
        let rest = parts.subrange(b.len() as int, parts.len() as int);
        assert forall|m: int| 0 <= m < rest.len() implies (#[trigger] rest[m]).check != "bare_unavailable"@ by {
            assert(rest[m].check == "none_threshold"@ || rest[m].check == "tab_indent"@);
        }
        if j >= b.len() {
            assert(rest[j - b.len()] == x);
            assert(false);
        }
        assert(x == warning(i));
        assert(bare(i));
    }
}

} // verus!
