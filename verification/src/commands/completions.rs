//! Choosing the shell to write completions for.
use vstd::prelude::*;
use crate::error::AppError;
use crate::text::{owned, push_str, str_eq, to_lowercase, unicode_lower};

verus! {

/// A shell that completions can be written for.
#[derive(Debug, Clone, Copy, PartialEq, Eq, Structural)]
pub enum Shell {
    Bash,
    Zsh,
    Fish,
    PowerShell,
    Elvish,
}

/// The shell a name stands for, compared in lower case.
pub open spec fn shell_named(lower: Seq<char>) -> Option<Shell> {
    if lower == "bash"@ {
        Some(Shell::Bash)
    } else if lower == "zsh"@ {
        Some(Shell::Zsh)
    } else if lower == "fish"@ {
        Some(Shell::Fish)
    } else if lower == "powershell"@ {
        Some(Shell::PowerShell)
    } else if lower == "elvish"@ {
        Some(Shell::Elvish)
    } else {
        None
    }
}

/// The shell named by `shell`, in any case; an unknown name is the error,
/// which lists the supported ones.
pub fn parse_shell(shell: &str) -> (r: Result<Shell, AppError>)
    ensures
        match shell_named(unicode_lower(shell@)) {
            Some(s) => r == Ok::<Shell, AppError>(s),
            None => r matches Err(AppError::Other(m)) && m@ == "Unknown shell: "@ + shell@
                + ". Supported: bash, zsh, fish, powershell, elvish"@,
        },
{
    let lower = to_lowercase(shell);
    let l = lower.as_str();
    if str_eq(l, "bash") {
        Ok(Shell::Bash)
    } else if str_eq(l, "zsh") {
        Ok(Shell::Zsh)
    } else if str_eq(l, "fish") {
        Ok(Shell::Fish)
    } else if str_eq(l, "powershell") {
        Ok(Shell::PowerShell)
    } else if str_eq(l, "elvish") {
        Ok(Shell::Elvish)
    } else {
        let mut m = owned("Unknown shell: ");
        push_str(&mut m, shell);
        push_str(&mut m, ". Supported: bash, zsh, fish, powershell, elvish");
        Err(AppError::Other(m))
    }
}

} // verus!
