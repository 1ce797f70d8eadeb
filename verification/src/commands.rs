//! The command line of `hive`: its commands and subcommands, and the action
//! each subcommand (or its absence) selects.
use vstd::prelude::*;

verus! {

/// The parsed command line.
#[derive(Debug, Clone, PartialEq, Eq)]
pub struct Cli {
    pub command: Commands,
}

/// The commands of `hive`.
#[derive(Debug, Clone, PartialEq, Eq)]
pub enum Commands {
    /// Initialize Hive in the current project.
    Init,
    /// Run a script from `.hive/config.yml` (default: `start`).
    Run { script: Option<String>, list: bool, dry_run: bool },
    /// View and tail run logs.
    Logs { lines: Option<usize>, follow: bool },
    /// Manage environment variables (`.hive/.env`).
    Env { action: Option<EnvCommands> },
    /// Manage secrets (`.hive/.secrets`).
    Secrets { action: Option<SecretsCommands> },
    /// Expose a local port via tunnel.
    Expose { port: u16 },
    /// Show project status and config.
    Status,
    /// Manage registered projects.
    Projects { action: Option<ProjectsCommands> },
    /// Jump to a registered project directory: `eval $(hive cd <name>)`.
    Cd { query: String },
    /// Manage scripts in `.hive/config.yml`.
    Scripts { action: Option<ScriptsCommands> },
    /// View or edit `.hive/config.yml`.
    Config { action: Option<ConfigCommands> },
    /// Check that required tools are installed.
    Doctor,
    /// Generate shell completion scripts.
    Completion { shell: String },
}

/// `hive env` subcommands.
#[derive(Debug, Clone, PartialEq, Eq)]
pub enum EnvCommands {
    List,
    Get { key: String },
    SetValue { key: String, value: String },
    Unset { key: String },
}

/// `hive secrets` subcommands.
#[derive(Debug, Clone, PartialEq, Eq)]
pub enum SecretsCommands {
    List,
    Get { key: String },
    SetValue { key: String, value: String },
    Unset { key: String },
    Export,
}

/// `hive projects` subcommands.
#[derive(Debug, Clone, PartialEq, Eq)]
pub enum ProjectsCommands {
    List,
    Cd { query: String },
    Info { query: String },
}

/// `hive scripts` subcommands.
#[derive(Debug, Clone, PartialEq, Eq)]
pub enum ScriptsCommands {
    List,
    Add { name: String, command: String },
    Remove { name: String },
    Show { name: String },
}

/// `hive config` subcommands.
#[derive(Debug, Clone, PartialEq, Eq)]
pub enum ConfigCommands {
    Show,
    SetValue { key: String, value: String },
}

/// What `hive env` does.
#[derive(Debug, Clone, PartialEq, Eq)]
pub enum EnvAction {
    List,
    Get(String),
    SetValue(String, String),
    Unset(String),
}

/// What `hive secrets` does.
#[derive(Debug, Clone, PartialEq, Eq)]
pub enum SecretsAction {
    List,
    Get(String),
    SetValue(String, String),
    Unset(String),
    Export,
}

/// What `hive projects` does.
#[derive(Debug, Clone, PartialEq, Eq)]
pub enum ProjectsAction {
    List,
    Cd(String),
    Info(String),
}

/// What `hive scripts` does.
#[derive(Debug, Clone, PartialEq, Eq)]
pub enum ScriptsAction {
    List,
    Add(String, String),
    Remove(String),
    Show(String),
}

/// What `hive config` does.
#[derive(Debug, Clone, PartialEq, Eq)]
pub enum ConfigAction {
    Show,
    SetValue(String, String),
}

/// The action of `hive env`: listing when no subcommand is given.
pub fn env_action(cmd: Option<EnvCommands>) -> (r: EnvAction)
    ensures
        r == (match cmd {
            None => EnvAction::List,
            Some(EnvCommands::List) => EnvAction::List,
            Some(EnvCommands::Get { key }) => EnvAction::Get(key),
            Some(EnvCommands::SetValue { key, value }) => EnvAction::SetValue(key, value),
            Some(EnvCommands::Unset { key }) => EnvAction::Unset(key),
        }),
{
    match cmd {
        None => EnvAction::List,
        Some(EnvCommands::List) => EnvAction::List,
        Some(EnvCommands::Get { key }) => EnvAction::Get(key),
        Some(EnvCommands::SetValue { key, value }) => EnvAction::SetValue(key, value),
        Some(EnvCommands::Unset { key }) => EnvAction::Unset(key),
    }
}

/// The action of `hive secrets`: listing when no subcommand is given.
pub fn secrets_action(cmd: Option<SecretsCommands>) -> (r: SecretsAction)
    ensures
        r == (match cmd {
            None => SecretsAction::List,
            Some(SecretsCommands::List) => SecretsAction::List,
            Some(SecretsCommands::Get { key }) => SecretsAction::Get(key),
            Some(SecretsCommands::SetValue { key, value }) => SecretsAction::SetValue(key, value),
            Some(SecretsCommands::Unset { key }) => SecretsAction::Unset(key),
            Some(SecretsCommands::Export) => SecretsAction::Export,
        }),
{
    match cmd {
        None => SecretsAction::List,
        Some(SecretsCommands::List) => SecretsAction::List,
        Some(SecretsCommands::Get { key }) => SecretsAction::Get(key),
        Some(SecretsCommands::SetValue { key, value }) => SecretsAction::SetValue(key, value),
        Some(SecretsCommands::Unset { key }) => SecretsAction::Unset(key),
        Some(SecretsCommands::Export) => SecretsAction::Export,
    }
}

/// The action of `hive projects`: listing when no subcommand is given.
pub fn projects_action(cmd: Option<ProjectsCommands>) -> (r: ProjectsAction)
    ensures
        r == (match cmd {
            None => ProjectsAction::List,
            Some(ProjectsCommands::List) => ProjectsAction::List,
            Some(ProjectsCommands::Cd { query }) => ProjectsAction::Cd(query),
            Some(ProjectsCommands::Info { query }) => ProjectsAction::Info(query),
        }),
{
    match cmd {
        None => ProjectsAction::List,
        Some(ProjectsCommands::List) => ProjectsAction::List,
        Some(ProjectsCommands::Cd { query }) => ProjectsAction::Cd(query),
        Some(ProjectsCommands::Info { query }) => ProjectsAction::Info(query),
    }
}

/// The action of `hive scripts`: listing when no subcommand is given.
pub fn scripts_action(cmd: Option<ScriptsCommands>) -> (r: ScriptsAction)
    ensures
        r == (match cmd {
            None => ScriptsAction::List,
            Some(ScriptsCommands::List) => ScriptsAction::List,
            Some(ScriptsCommands::Add { name, command }) => ScriptsAction::Add(name, command),
            Some(ScriptsCommands::Remove { name }) => ScriptsAction::Remove(name),
            Some(ScriptsCommands::Show { name }) => ScriptsAction::Show(name),
        }),
{
    match cmd {
        None => ScriptsAction::List,
        Some(ScriptsCommands::List) => ScriptsAction::List,
        Some(ScriptsCommands::Add { name, command }) => ScriptsAction::Add(name, command),
        Some(ScriptsCommands::Remove { name }) => ScriptsAction::Remove(name),
        Some(ScriptsCommands::Show { name }) => ScriptsAction::Show(name),
    }
}

/// The action of `hive config`: showing when no subcommand is given.
pub fn config_action(cmd: Option<ConfigCommands>) -> (r: ConfigAction)
    ensures
        r == (match cmd {
            None => ConfigAction::Show,
            Some(ConfigCommands::Show) => ConfigAction::Show,
            Some(ConfigCommands::SetValue { key, value }) => ConfigAction::SetValue(key, value),
        }),
{
    match cmd {
        None => ConfigAction::Show,
        Some(ConfigCommands::Show) => ConfigAction::Show,
        Some(ConfigCommands::SetValue { key, value }) => ConfigAction::SetValue(key, value),
    }
}

} // verus!
