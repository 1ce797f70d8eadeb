//! The data the library works on: frameworks, detected projects, the
//! `.hive/config.yml` configuration, registry entries and errors.
use crate::paths::HivePath;
use indexmap::IndexMap;
use vstd::prelude::*;

verus! {

/// The kinds of project that detection distinguishes.
#[derive(Clone, Copy, Debug, PartialEq, Eq, Structural)]
pub enum Framework {
    Laravel,
    NextJs,
    React,
    Vue,
    Nuxt,
    Node,
    Python,
    Django,
    FastAPI,
    Rust,
    Go,
    Unknown,
}

/// The display name of a framework.
pub open spec fn framework_name(f: Framework) -> Seq<char> {
    match f {
        Framework::Laravel => "Laravel"@,
        Framework::NextJs => "Next.js"@,
        Framework::React => "React"@,
        Framework::Vue => "Vue"@,
        Framework::Nuxt => "Nuxt"@,
        Framework::Node => "Node.js"@,
        Framework::Python => "Python"@,
        Framework::Django => "Django"@,
        Framework::FastAPI => "FastAPI"@,
        Framework::Rust => "Rust"@,
        Framework::Go => "Go"@,
        Framework::Unknown => "Unknown"@,
    }
}

impl Framework {
    /// The display name of the framework ("Next.js", "Node.js", ...).
    pub fn name(&self) -> (r: &'static str)
        ensures
            r@ == framework_name(*self),
    {
        match self {
            Framework::Laravel => "Laravel",
            Framework::NextJs => "Next.js",
            Framework::React => "React",
            Framework::Vue => "Vue",
            Framework::Nuxt => "Nuxt",
            Framework::Node => "Node.js",
            Framework::Python => "Python",
            Framework::Django => "Django",
            Framework::FastAPI => "FastAPI",
            Framework::Rust => "Rust",
            Framework::Go => "Go",
            Framework::Unknown => "Unknown",
        }
    }

    /// The display name as an owned string.
    pub fn to_string(&self) -> (r: String)
        ensures
            r@ == framework_name(*self),
    {
        String::from_str(self.name())
    }
}

/// What detection learned about a project besides its framework.
#[derive(Debug)]
pub struct ProjectMeta {
    pub name: String,
    pub version: Option<String>,
    pub description: Option<String>,
    pub has_docker: bool,
    pub has_env: bool,
    pub extra_services: Vec<String>,
}

/// A detected project.
#[derive(Debug)]
pub struct Project {
    pub name: String,
    pub framework: Framework,
    pub path: HivePath,
    pub meta: ProjectMeta,
}

/// The contents of an optional string.
pub open spec fn opt_view(o: Option<String>) -> Option<Seq<char>> {
    match o {
        Some(s) => Some(s@),
        None => None,
    }
}

/// The contents of each string.
pub open spec fn strings_view(vs: Seq<String>) -> Seq<Seq<char>> {
    vs.map_values(|s: String| s@)
}

/// A service entry of the configuration.
#[derive(Debug)]
pub struct ServiceConfig {
    pub port: Option<u16>,
    pub command: Option<String>,
}

/// The contents of a service entry.
pub struct ServiceConfigView {
    pub port: Option<u16>,
    pub command: Option<Seq<char>>,
}

impl View for ServiceConfig {
    type V = ServiceConfigView;

    open spec fn view(&self) -> ServiceConfigView {
        ServiceConfigView { port: self.port, command: opt_view(self.command) }
    }
}

/// The `project:` section of the configuration.
#[derive(Debug)]
pub struct ProjectConfig {
    pub name: String,
    pub description: Option<String>,
    pub author: Option<String>,
    pub framework: Option<String>,
}

/// A script: one command, or several run side by side.
#[derive(Debug)]
pub enum RunScript {
    Single(String),
    Multiple(Vec<String>),
}

/// The contents of a script.
pub enum RunScriptView {
    Single(Seq<char>),
    Multiple(Seq<Seq<char>>),
}

impl View for RunScript {
    type V = RunScriptView;

    open spec fn view(&self) -> RunScriptView {
        match self {
            RunScript::Single(c) => RunScriptView::Single(c@),
            RunScript::Multiple(cs) => RunScriptView::Multiple(strings_view(cs@)),
        }
    }
}

/// The whole `.hive/config.yml`.
#[derive(Debug)]
pub struct HiveConfig {
    pub project: ProjectConfig,
    pub services: IndexMap<String, ServiceConfig>,
    pub scripts: IndexMap<String, RunScript>,
}

/// A project as recorded in the CLI registry.
#[derive(Debug)]
pub struct RegistryEntry {
    pub name: String,
    pub description: Option<String>,
    pub framework: Option<String>,
    pub path: String,
    pub port: Option<u16>,
    pub created_at: String,
    pub author: Option<String>,
}

/// The errors the library reports.
#[derive(Debug)]
pub enum HiveError {
    Config(String),
    Project(String),
    Tunnel(String),
    Process(String),
}

/// The text shown for an error.
pub open spec fn error_message(e: HiveError) -> Seq<char> {
    match e {
        HiveError::Config(m) => "Config error: "@ + m@,
        HiveError::Project(m) => "Project error: "@ + m@,
        HiveError::Tunnel(m) => "Tunnel error: "@ + m@,
        HiveError::Process(m) => "Process error: "@ + m@,
    }
}

impl HiveError {
    /// The text shown for the error ("Config error: ...").
    pub fn message(&self) -> (r: String)
        ensures
            r@ == error_message(*self),
    {
        match self {
            HiveError::Config(m) => String::from_str("Config error: ").concat(m.as_str()),
            HiveError::Project(m) => String::from_str("Project error: ").concat(m.as_str()),
            HiveError::Tunnel(m) => String::from_str("Tunnel error: ").concat(m.as_str()),
            HiveError::Process(m) => String::from_str("Process error: ").concat(m.as_str()),
        }
    }
}

/// A copy of a string.
pub fn copy_string(s: &String) -> (r: String)
    ensures
        r@ == s@,
{
    s.clone()
}

/// A copy of an optional string.
pub fn copy_opt_string(s: &Option<String>) -> (r: Option<String>)
    ensures
        opt_view(r) == opt_view(*s),
{
    match s {
        Some(x) => Some(x.clone()),
        None => None,
    }
}

/// A copy of a list of strings.
pub fn copy_strings(v: &Vec<String>) -> (r: Vec<String>)
    ensures
        strings_view(r@) == strings_view(v@),
{
    let mut r: Vec<String> = Vec::new();
    let n = v.len();
    for i in 0..n
        invariant
            n == v.len(),
            r.len() == i,
            strings_view(r@) == strings_view(v@).take(i as int),
    {
        let ghost old_r = r@;
        let c = v[i].clone();
        assert(c@ == v@[i as int]@);
        r.push(c);
        proof {
            assert(r@ == old_r.push(c));
            assert(strings_view(r@)[i as int] == v@[i as int]@);
            assert(strings_view(r@) =~= strings_view(v@).take(i + 1));
        }
    }
    proof {
        assert(strings_view(v@).take(n as int) =~= strings_view(v@));
    }
    r
}

/// A copy of a script.
pub fn copy_script(s: &RunScript) -> (r: RunScript)
    ensures
        r@ == s@,
{
    match s {
        RunScript::Single(c) => RunScript::Single(c.clone()),
        RunScript::Multiple(cs) => RunScript::Multiple(copy_strings(cs)),
    }
}

} // verus!
