//! Where the Home Assistant URL and token come from: a flag, else the
//! environment, else a credential file in the home directory.
use vstd::prelude::*;
use crate::error::AppError;
use crate::text::{
    chars_of, has_prefix, is_blank_text, owned, push_chars, push_str, slice_range, starts_with,
    string_of, trim, trim_spec,
};

verus! {

/// The URL and token of a Home Assistant instance.
pub struct AuthConfig {
    pub url: String,
    pub token: String,
}

/// `s` without the `c` characters that end it (`trim_end_matches`).
pub open spec fn strip_trailing(s: Seq<char>, c: char) -> Seq<char>
    decreases s.len(),
{
    if s.len() > 0 && s.last() == c {
        strip_trailing(s.drop_last(), c)
    } else {
        s
    }
}

/// Removes every trailing `c`.
pub fn trim_end_char(s: &str, c: char) -> (r: String)
    ensures
        r@ == strip_trailing(s@, c),
{
    let cs = chars_of(s);
    let mut n: usize = cs.len();
    assert(s@.take(s@.len() as int) =~= s@);
    while n > 0 && cs[n - 1] == c
        invariant
            n <= cs.len(),
            cs@ == s@,
            strip_trailing(s@, c) == strip_trailing(s@.take(n as int), c),
        decreases n,
    {
        proof {
            assert(s@.take(n as int).drop_last() =~= s@.take(n - 1));
        }
        n = n - 1;
    }
    proof {
        assert(s@.take(s@.len() as int) =~= s@);
    }
    string_of(slice_range(cs.as_slice(), 0, n).as_slice())
}

/// `Path::join`: an absolute `rest` replaces `base`; otherwise a '/' goes
/// between them unless `base` is empty or already ends with one.
pub open spec fn path_join(base: Seq<char>, rest: Seq<char>) -> Seq<char> {
    if rest.len() > 0 && rest[0] == '/' {
        rest
    } else if base.len() > 0 && base.last() != '/' {
        base + seq!['/'] + rest
    } else {
        base + rest
    }
}

/// A path with a leading `~/` expanded against the home directory, when it
/// is known.
pub open spec fn expanded_path(path: Seq<char>, home: Option<Seq<char>>) -> Seq<char> {
    if has_prefix(path, "~/"@) && home is Some {
        path_join(home->0, path.skip(2))
    } else {
        path
    }
}

/// Expands a leading `~/` to the home directory given (the value of `HOME`).
pub fn expand_tilde(path: &str, home: Option<&str>) -> (r: String)
    ensures
        r@ == expanded_path(
            path@,
            match home {
                Some(h) => Some(h@),
                None => None,
            },
        ),
{
    let cs = chars_of(path);
    let prefix = chars_of("~/");
    proof {
        reveal_strlit("~/");
    }
    if starts_with(cs.as_slice(), prefix.as_slice()) {
        match home {
            Some(h) => {
                let rest = slice_range(cs.as_slice(), 2, cs.len());
                assert(rest@ =~= path@.skip(2));
                if rest.len() > 0 && rest[0] == '/' {
                    return string_of(rest.as_slice());
                }
                let hc = chars_of(h);
                let mut out = owned(h);
                if hc.len() > 0 && hc[hc.len() - 1] != '/' {
                    push_str(&mut out, "/");
                    proof {
                        reveal_strlit("/");
                    }
                }
                push_chars(&mut out, rest.as_slice());
                return out;
            },
            None => {},
        }
    }
    owned(path)
}

/// What reading a credential file gave.
pub enum FileRead {
    /// There is no such file.
    Missing,
    /// Reading failed, with the system's message.
    Failed(String),
    /// The file's text, and its permission bits when they could be read.
    Read { content: String, mode: Option<u32> },
}

/// Whether permission bits let anyone but the owner read or write.
pub open spec fn insecure(mode: u32) -> bool {
    (mode & 0o777u32) & 0o077u32 != 0
}

/// A credential file's value: none when the file is missing or blank; an
/// error when it could not be read, or when permissions are checked and
/// it is open to others; otherwise its trimmed text.
pub fn read_token_file(path: &str, expanded: &str, read: FileRead, check_perms: bool) -> (r: Result<Option<String>, AppError>)
    ensures
        match read {
            FileRead::Missing => r matches Ok(None),
            FileRead::Failed(msg) => r matches Err(AppError::Other(m)) && m@ == "Failed to read "@
                + expanded@ + ": "@ + msg@,
            FileRead::Read { content, mode } => if trim_spec(content@).len() == 0 {
                r matches Ok(None)
            } else if check_perms && mode is Some && insecure(mode->0) {
                r matches Err(AppError::InsecurePermissions { path: p, mode: m }) && p@ == path@
                    && m == mode->0 & 0o777u32
            } else {
                r matches Ok(Some(t)) && t@ == trim_spec(content@)
            },
        },
{
    match read {
        FileRead::Missing => Ok(None),
        FileRead::Failed(msg) => {
            let mut m = owned("Failed to read ");
            push_str(&mut m, expanded);
            push_str(&mut m, ": ");
            push_str(&mut m, msg.as_str());
            Err(AppError::Other(m))
        },
        FileRead::Read { content, mode } => {
            let cs = chars_of(content.as_str());
            let trimmed = trim(cs.as_slice());
            if trimmed.len() == 0 {
                return Ok(None);
            }
            if check_perms {
                match mode {
                    Some(m) => {
                        let bits = m & 0o777u32;
                        if bits & 0o077u32 != 0 {
                            return Err(
                                AppError::InsecurePermissions { path: owned(path), mode: bits },
                            );
                        }
                    },
                    None => {},
                }
            }
            Ok(Some(string_of(trimmed.as_slice())))
        },
    }
}

/// The first of a flag value and an environment value that is present.
pub open spec fn chosen(flag: Option<Seq<char>>, env: Option<Seq<char>>) -> Option<Seq<char>> {
    match flag {
        Some(f) => Some(f),
        None => env,
    }
}

/// The text of an optional `&str`.
pub open spec fn opt_str(o: Option<&str>) -> Option<Seq<char>> {
    match o {
        Some(s) => Some(s@),
        None => None,
    }
}

/// Resolves one credential: the flag, else the environment, else the file
/// (a missing or blank file gives `missing`).
fn resolve_one(flag: Option<&str>, env: Option<String>, file: Result<Option<String>, AppError>, missing: AppError) -> (r: Result<String, AppError>)
    ensures
        match chosen(opt_str(flag), crate::text::opt_view(env)) {
            Some(v) => r matches Ok(s) && s@ == v,
            None => match file {
                Ok(Some(t)) => r matches Ok(s) && s@ == t@,
                Ok(None) => r == Err::<String, AppError>(missing),
                Err(e) => r == Err::<String, AppError>(e),
            },
        },
{
    match flag {
        Some(f) => Ok(owned(f)),
        None => match env {
            Some(e) => Ok(e),
            None => match file {
                Ok(Some(t)) => Ok(t),
                Ok(None) => Err(missing),
                Err(e) => Err(e),
            },
        },
    }
}

/// Resolves the URL and token. Each comes from its flag, else its
/// environment variable (`HA_URL`, `HA_TOKEN`), else its credential file
/// (`~/.ha_url`, `~/.ha_token`, already read by the caller). The URL loses
/// its trailing slashes. A missing URL is reported before the token.
pub fn resolve_auth(
    url_flag: Option<&str>,
    token_flag: Option<&str>,
    url_env: Option<String>,
    token_env: Option<String>,
    url_file: Result<Option<String>, AppError>,
    token_file: Result<Option<String>, AppError>,
) -> (r: Result<AuthConfig, AppError>)
    ensures
        ({
            let url = match chosen(opt_str(url_flag), crate::text::opt_view(url_env)) {
                Some(v) => Ok(v),
                None => match url_file {
                    Ok(Some(t)) => Ok(t@),
                    Ok(None) => Err(AppError::MissingUrl),
                    Err(e) => Err(e),
                },
            };
            let token = match chosen(opt_str(token_flag), crate::text::opt_view(token_env)) {
                Some(v) => Ok(v),
                None => match token_file {
                    Ok(Some(t)) => Ok(t@),
                    Ok(None) => Err(AppError::MissingToken),
                    Err(e) => Err(e),
                },
            };
            match (url, token) {
                (Err(e), _) => r == Err::<AuthConfig, AppError>(e),
                (Ok(_), Err(e)) => r == Err::<AuthConfig, AppError>(e),
                (Ok(u), Ok(t)) => r matches Ok(a) && a.url@ == strip_trailing(u, '/') && a.token@
                    == t,
            }
        }),
{
    let url = resolve_one(url_flag, url_env, url_file, AppError::MissingUrl)?;
    let token = resolve_one(token_flag, token_env, token_file, AppError::MissingToken)?;
    Ok(AuthConfig { url: trim_end_char(url.as_str(), '/'), token })
}

/// A URL with its trailing slashes removed no longer ends with one, and is
/// what the URL starts with: only slashes were removed.
pub proof fn stripped_url_has_no_trailing_slash(s: Seq<char>)
    ensures
        strip_trailing(s, '/').len() == 0 || strip_trailing(s, '/').last() != '/',
        has_prefix(s, strip_trailing(s, '/')),
        forall|j: int| strip_trailing(s, '/').len() <= j < s.len() ==> s[j] == '/',
    decreases s.len(),
{
    if s.len() > 0 && s.last() == '/' {
        stripped_url_has_no_trailing_slash(s.drop_last());
        let t = strip_trailing(s, '/');
        assert(s.subrange(0, t.len() as int) =~= s.drop_last().subrange(0, t.len() as int));
        assert forall|j: int| t.len() <= j < s.len() implies s[j] == '/' by {
            if j < s.len() - 1 {
                assert(s[j] == s.drop_last()[j]);
            }
        }
    } else {
        assert(s.subrange(0, s.len() as int) =~= s);
    }
}

} // verus!
