//! `hive completion SHELL`: which shell a name selects, and the hint on how
//! to install the completion script.
use crate::models::HiveError;
use crate::scripts::is_config_error;
use crate::text::{lowercase, str_eq, to_lowercase};
use vstd::prelude::*;

verus! {

/// A shell that completion scripts are generated for.
#[derive(Debug, Clone, Copy, PartialEq, Eq, Structural)]
pub enum Shell {
    Bash,
    Zsh,
    Fish,
    PowerShell,
}

/// The shell a lower-cased name selects: `bash`, `zsh`, `fish`, and
/// `powershell` or `ps`.
pub open spec fn shell_named(lower: Seq<char>) -> Option<Shell> {
    if lower == "bash"@ {
        Some(Shell::Bash)
    } else if lower == "zsh"@ {
        Some(Shell::Zsh)
    } else if lower == "fish"@ {
        Some(Shell::Fish)
    } else if lower == "powershell"@ || lower == "ps"@ {
        Some(Shell::PowerShell)
    } else {
        None
    }
}

/// The message for a shell name that selects no shell.
pub open spec fn unknown_shell_message(lower: Seq<char>) -> Seq<char> {
    "Unknown shell '"@ + lower + "'. Supported: bash, zsh, fish, powershell"@
}

/// The shell a lower-cased name selects, or a configuration error naming it.
pub fn shell_from_lower(lower: &str) -> (r: Result<Shell, HiveError>)
    ensures
        match shell_named(lower@) {
            Some(s) => r matches Ok(x) && x == s,
            None => r is Err && is_config_error(r->Err_0, unknown_shell_message(lower@)),
        },
{
    if str_eq(lower, "bash") {
        Ok(Shell::Bash)
    } else if str_eq(lower, "zsh") {
        Ok(Shell::Zsh)
    } else if str_eq(lower, "fish") {
        Ok(Shell::Fish)
    } else if str_eq(lower, "powershell") || str_eq(lower, "ps") {
        Ok(Shell::PowerShell)
    } else {
        Err(
            HiveError::Config(
                String::from_str("Unknown shell '").concat(lower).concat(
                    "'. Supported: bash, zsh, fish, powershell",
                ),
            ),
        )
    }
}

/// The shell `hive completion SHELL` generates for: the name is compared
/// lower-cased (see `shell_from_lower`).
pub fn completion_shell(shell: &str) -> (r: Result<Shell, HiveError>)
    ensures
        match shell_named(lowercase(shell@)) {
            Some(s) => r matches Ok(x) && x == s,
            None => r is Err && is_config_error(r->Err_0, unknown_shell_message(lowercase(shell@))),
        },
{
    let lower = to_lowercase(shell);
    shell_from_lower(lower.as_str())
}

/// The steps of the install hint for a lower-cased shell name, as (marker,
/// text) pairs: for bash and zsh, the rc file to add the `eval` line to; for
/// fish, where to write the script; nothing for other shells.
pub open spec fn install_hint_of(lower: Seq<char>) -> Seq<(Seq<char>, Seq<char>)> {
    if lower == "bash"@ {
        seq![("→"@, "Add to ~/.bashrc:"@), (" "@, "  eval \"$(hive completion bash)\""@)]
    } else if lower == "zsh"@ {
        seq![("→"@, "Add to ~/.zshrc:"@), (" "@, "  eval \"$(hive completion zsh)\""@)]
    } else if lower == "fish"@ {
        seq![
            ("→"@, "Run:"@),
            (" "@, "  hive completion fish > ~/.config/fish/completions/hive.fish"@),
        ]
    } else {
        Seq::empty()
    }
}

/// The views of (marker, text) pairs.
pub open spec fn pairs_view(v: Seq<(String, String)>) -> Seq<(Seq<char>, Seq<char>)> {
    v.map_values(|p: (String, String)| (p.0@, p.1@))
}

/// A (marker, text) step.
fn step(marker: &str, text: &str) -> (r: (String, String))
    ensures
        r.0@ == marker@,
        r.1@ == text@,
{
    (String::from_str(marker), String::from_str(text))
}

/// The steps of the install hint for a lower-cased shell name (see
/// `install_hint_of`).
pub fn install_hint(lower: &str) -> (r: Vec<(String, String)>)
    ensures
        pairs_view(r@) == install_hint_of(lower@),
{
    let mut r: Vec<(String, String)> = Vec::new();
    if str_eq(lower, "bash") {
        r.push(step("→", "Add to ~/.bashrc:"));
        r.push(step(" ", "  eval \"$(hive completion bash)\""));
    } else if str_eq(lower, "zsh") {
        r.push(step("→", "Add to ~/.zshrc:"));
        r.push(step(" ", "  eval \"$(hive completion zsh)\""));
    } else if str_eq(lower, "fish") {
        r.push(step("→", "Run:"));
        r.push(step(" ", "  hive completion fish > ~/.config/fish/completions/hive.fish"));
    }
    assert(pairs_view(r@) =~= install_hint_of(lower@));
    r
}

/// The steps `hive` prints to tell how to install completion for a shell,
/// whose name is compared lower-cased (see `install_hint_of`).
pub fn print_install_hint(shell: &str) -> (r: Vec<(String, String)>)
    ensures
        pairs_view(r@) == install_hint_of(lowercase(shell@)),
{
    let lower = to_lowercase(shell);
    install_hint(lower.as_str())
}

} // verus!
