//! The command line, as plain values: what each subcommand was asked to do.
use vstd::prelude::*;
use crate::types::PkgType;

verus! {

/// The whole command line.
pub struct Cli {
    /// The Windows user name given with `--win-user`, if any.
    pub win_user: Option<String>,
    pub command: Command,
}

/// The subcommands.
pub enum Command {
    Create(CreateArgs),
    Sync(SyncArgs),
    Stats(StatsArgs),
    List(ListArgs),
    Diff(DiffArgs),
    Completion(CompletionArgs),
}

/// `completion`: print a completion script.
pub struct CompletionArgs {
    pub shell: CompletionShell,
}

/// The shells a completion script can be made for.
#[derive(Debug, Clone, Copy, PartialEq, Eq, Structural)]
pub enum CompletionShell {
    Bash,
    Zsh,
    Fish,
}

/// `create`: make a package from existing files.
pub struct CreateArgs {
    pub sources: Vec<String>,
    pub app_name: Option<String>,
    pub pkg_type: Option<PkgType>,
    pub no_stow: bool,
    pub no_sync: bool,
    pub dry_run: bool,
    pub yes: bool,
}

/// `sync`: deploy packages to their targets.
pub struct SyncArgs {
    pub pkg_type: Option<PkgType>,
    pub app: Option<String>,
    pub dry_run: bool,
    pub bypass: bool,
    pub quiet: bool,
    pub yes: bool,
}

/// `stats`: repository statistics.
pub struct StatsArgs {
    pub json_output: bool,
}

/// `list`: the packages with details.
pub struct ListArgs {
    pub pkg_type: Option<PkgType>,
    pub json_output: bool,
}

/// `diff`: what is out of sync.
pub struct DiffArgs {
    pub pkg_type: Option<PkgType>,
    pub app: Option<String>,
    pub json_output: bool,
}

/// The effective Windows user name: `--win-user` when given, else the
/// `WIN_USER` value the settings were read with.
pub fn effective_win_user(cli_value: &Option<String>, env_value: &Option<String>) -> (r: Option<String>)
    ensures
        r == (if cli_value is Some { *cli_value } else { *env_value }),
{
    match cli_value {
        Some(u) => Some(u.clone()),
        None => match env_value {
            Some(u) => Some(u.clone()),
            None => None,
        },
    }
}

} // verus!
