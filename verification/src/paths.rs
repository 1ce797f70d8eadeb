//! Where things live: the `.hive/` layout inside a project, and the global
//! `~/.hive/` home. A path is a root (as the operating system gave it) and
//! the components joined onto it.
use vstd::prelude::*;

verus! {

/// A root directory and the relative components joined onto it, in order.
#[derive(Debug)]
pub struct HivePath {
    pub root: String,
    pub parts: Vec<String>,
}

/// The contents of a path.
pub struct HivePathView {
    pub root: Seq<char>,
    pub parts: Seq<Seq<char>>,
}

impl View for HivePath {
    type V = HivePathView;

    open spec fn view(&self) -> HivePathView {
        HivePathView { root: self.root@, parts: self.parts@.map_values(|s: String| s@) }
    }
}

/// `p` with the component `c` joined on.
pub open spec fn join(p: HivePathView, c: Seq<char>) -> HivePathView {
    HivePathView { root: p.root, parts: p.parts.push(c) }
}

/// Whether `p` lies inside the directory `dir` (or is `dir`).
pub open spec fn within(p: HivePathView, dir: HivePathView) -> bool {
    p.root == dir.root && dir.parts.len() <= p.parts.len() && p.parts.take(
        dir.parts.len() as int,
    ) == dir.parts
}

/// `.hive/` inside the project root.
pub open spec fn hive_dir_of(root: HivePathView) -> HivePathView {
    join(root, ".hive"@)
}

/// `.hive/config.yml`.
pub open spec fn config_path_of(root: HivePathView) -> HivePathView {
    join(hive_dir_of(root), "config.yml"@)
}

/// `.hive/.env`.
pub open spec fn env_path_of(root: HivePathView) -> HivePathView {
    join(hive_dir_of(root), ".env"@)
}

/// `.hive/.secrets`.
pub open spec fn secrets_path_of(root: HivePathView) -> HivePathView {
    join(hive_dir_of(root), ".secrets"@)
}

/// `.hive/logs/`.
pub open spec fn logs_dir_of(root: HivePathView) -> HivePathView {
    join(hive_dir_of(root), "logs"@)
}

/// `.hive/logs/run.log`.
pub open spec fn run_log_path_of(root: HivePathView) -> HivePathView {
    join(logs_dir_of(root), "run.log"@)
}

/// The home directory: `$HOME`, else `$USERPROFILE`, else `.`.
pub open spec fn home_dir_of(home: Option<Seq<char>>, userprofile: Option<Seq<char>>) -> HivePathView {
    let root = match home {
        Some(h) => h,
        None => match userprofile {
            Some(u) => u,
            None => "."@,
        },
    };
    HivePathView { root, parts: Seq::empty() }
}

impl HivePath {
    /// The path made of `root` alone.
    pub fn new(root: String) -> (r: HivePath)
        ensures
            r@ == (HivePathView { root: root@, parts: Seq::empty() }),
    {
        let r = HivePath { root, parts: Vec::new() };
        assert(r@.parts =~= Seq::<Seq<char>>::empty());
        r
    }

    /// A copy of this path.
    pub fn copy(&self) -> (r: HivePath)
        ensures
            r@ == self@,
    {
        let mut parts: Vec<String> = Vec::new();
        let n = self.parts.len();
        for i in 0..n
            invariant
                n == self.parts.len(),
                parts.len() == i,
                parts@.map_values(|s: String| s@) == self@.parts.take(i as int),
        {
            let c = self.parts[i].clone();
            parts.push(c);
            proof {
                assert(parts@.map_values(|s: String| s@)[i as int] == self@.parts[i as int]);
                assert(parts@.map_values(|s: String| s@) =~= self@.parts.take(i + 1));
            }
        }
        let r = HivePath { root: self.root.clone(), parts };
        proof {
            assert(self@.parts.take(n as int) =~= self@.parts);
        }
        r
    }

    /// This path with `part` joined on.
    pub fn join(&self, part: &str) -> (r: HivePath)
        ensures
            r@ == join(self@, part@),
    {
        let mut parts: Vec<String> = Vec::new();
        let n = self.parts.len();
        for i in 0..n
            invariant
                n == self.parts.len(),
                parts.len() == i,
                parts@.map_values(|s: String| s@) == self@.parts.take(i as int),
        {
            let c = self.parts[i].clone();
            parts.push(c);
            proof {
                assert(parts@.map_values(|s: String| s@)[i as int] == self@.parts[i as int]);
                assert(parts@.map_values(|s: String| s@) =~= self@.parts.take(i + 1));
            }
        }
        parts.push(String::from_str(part));
        let r = HivePath { root: self.root.clone(), parts };
        proof {
            assert(self@.parts.take(n as int) =~= self@.parts);
            assert(r@.parts =~= self@.parts.push(part@));
        }
        r
    }
}

/// The project's `.hive/` directory.
pub fn hive_dir(project_root: &HivePath) -> (r: HivePath)
    ensures
        r@ == hive_dir_of(project_root@),
{
    project_root.join(".hive")
}

/// The project's configuration file, `.hive/config.yml`.
pub fn config_path(project_root: &HivePath) -> (r: HivePath)
    ensures
        r@ == config_path_of(project_root@),
{
    hive_dir(project_root).join("config.yml")
}

/// The project's environment file, `.hive/.env`.
pub fn env_path(project_root: &HivePath) -> (r: HivePath)
    ensures
        r@ == env_path_of(project_root@),
{
    hive_dir(project_root).join(".env")
}

/// The project's secrets file, `.hive/.secrets`.
pub fn secrets_path(project_root: &HivePath) -> (r: HivePath)
    ensures
        r@ == secrets_path_of(project_root@),
{
    hive_dir(project_root).join(".secrets")
}

/// The project's log directory, `.hive/logs/`.
pub fn logs_dir(project_root: &HivePath) -> (r: HivePath)
    ensures
        r@ == logs_dir_of(project_root@),
{
    hive_dir(project_root).join("logs")
}

/// The log of `hive run`, `.hive/logs/run.log`.
pub fn run_log_path(project_root: &HivePath) -> (r: HivePath)
    ensures
        r@ == run_log_path_of(project_root@),
{
    logs_dir(project_root).join("run.log")
}

/// The directory of tunnel logs, `.hive/logs/tunnels/`.
pub fn tunnel_log_dir(project_root: &HivePath) -> (r: HivePath)
    ensures
        r@ == join(logs_dir_of(project_root@), "tunnels"@),
{
    logs_dir(project_root).join("tunnels")
}

/// The log of one tunnel session started at the time stamp `stamp`:
/// `.hive/logs/tunnels/tunnel_<stamp>.log`.
pub fn tunnel_log_path(project_root: &HivePath, stamp: &str) -> (r: HivePath)
    ensures
        r@ == join(join(logs_dir_of(project_root@), "tunnels"@), "tunnel_"@ + stamp@ + ".log"@),
{
    let name = String::from_str("tunnel_").concat(stamp).concat(".log");
    tunnel_log_dir(project_root).join(name.as_str())
}

/// The user's home directory, from the values of `HOME` and `USERPROFILE`.
pub fn home_dir(home: Option<String>, userprofile: Option<String>) -> (r: HivePath)
    ensures
        r@ == home_dir_of(opt_chars(home), opt_chars(userprofile)),
{
    match home {
        Some(h) => HivePath::new(h),
        None => match userprofile {
            Some(u) => HivePath::new(u),
            None => HivePath::new(String::from_str(".")),
        },
    }
}

/// The contents of an optional string.
pub open spec fn opt_chars(o: Option<String>) -> Option<Seq<char>> {
    match o {
        Some(s) => Some(s@),
        None => None,
    }
}

/// The global Hive directory, `~/.hive/`.
pub fn hive_home(home: Option<String>, userprofile: Option<String>) -> (r: HivePath)
    ensures
        r@ == join(home_dir_of(opt_chars(home), opt_chars(userprofile)), ".hive"@),
{
    home_dir(home, userprofile).join(".hive")
}

/// Where the CLI registers projects, `~/.hive/.cli/projects/`.
pub fn cli_projects_dir(home: Option<String>, userprofile: Option<String>) -> (r: HivePath)
    ensures
        r@ == join(
            join(join(home_dir_of(opt_chars(home), opt_chars(userprofile)), ".hive"@), ".cli"@),
            "projects"@,
        ),
{
    hive_home(home, userprofile).join(".cli").join("projects")
}

/// Where the desktop app keeps its projects, `~/.hive/projects/`.
pub fn app_projects_dir(home: Option<String>, userprofile: Option<String>) -> (r: HivePath)
    ensures
        r@ == join(join(home_dir_of(opt_chars(home), opt_chars(userprofile)), ".hive"@), "projects"@),
{
    hive_home(home, userprofile).join("projects")
}

/// The registry file of a project whose sanitized name is `file_stem`:
/// `<dir>/<file_stem>.yml`.
pub fn registry_file(dir: &HivePath, file_stem: &str) -> (r: HivePath)
    ensures
        r@ == join(dir@, file_stem@ + ".yml"@),
{
    let name = String::from_str(file_stem).concat(".yml");
    dir.join(name.as_str())
}

/// The name of the cloudflared executable on this platform.
pub fn cloudflared_bin_name(windows: bool) -> (r: &'static str)
    ensures
        r@ == (if windows { "cloudflared.exe"@ } else { "cloudflared"@ }),
{
    if windows {
        "cloudflared.exe"
    } else {
        "cloudflared"
    }
}

/// The two places cloudflared may live: `~/.hive/bin/` (preferred) and
/// `~/.hive/.cli/bin/` (where the CLI installs it).
pub fn cloudflared_candidates(hive_home: &HivePath, windows: bool) -> (r: (HivePath, HivePath))
    ensures
        r.0@ == join(join(hive_home@, "bin"@), cloudflared_bin_name_of(windows)),
        r.1@ == join(join(join(hive_home@, ".cli"@), "bin"@), cloudflared_bin_name_of(windows)),
{
    let bin = cloudflared_bin_name(windows);
    (hive_home.join("bin").join(bin), hive_home.join(".cli").join("bin").join(bin))
}

/// The name of the cloudflared executable on this platform.
pub open spec fn cloudflared_bin_name_of(windows: bool) -> Seq<char> {
    if windows {
        "cloudflared.exe"@
    } else {
        "cloudflared"@
    }
}

/// Which cloudflared to use, and whether it is already installed: the
/// preferred one if it exists, else the CLI's own location.
pub fn resolve_cloudflared(
    primary: HivePath,
    primary_exists: bool,
    secondary: HivePath,
    secondary_exists: bool,
) -> (r: (HivePath, bool))
    ensures
        primary_exists ==> r.0@ == primary@ && r.1,
        !primary_exists ==> r.0@ == secondary@ && r.1 == secondary_exists,
{
    if primary_exists {
        (primary, true)
    } else {
        (secondary, secondary_exists)
    }
}

/// The layout of `.hive/`: the configuration, environment, secrets and log
/// files all lie inside the project's `.hive/` directory, are distinct from
/// each other, and the run log lies inside the log directory.
pub proof fn law_hive_layout(root: HivePathView)
    ensures
        within(config_path_of(root), hive_dir_of(root)),
        within(env_path_of(root), hive_dir_of(root)),
        within(secrets_path_of(root), hive_dir_of(root)),
        within(logs_dir_of(root), hive_dir_of(root)),
        within(run_log_path_of(root), logs_dir_of(root)),
        within(run_log_path_of(root), hive_dir_of(root)),
        config_path_of(root) != env_path_of(root),
        config_path_of(root) != secrets_path_of(root),
        env_path_of(root) != secrets_path_of(root),
        config_path_of(root) != run_log_path_of(root),
        env_path_of(root) != run_log_path_of(root),
        secrets_path_of(root) != run_log_path_of(root),
{
    reveal_strlit("config.yml");
    reveal_strlit(".env");
    reveal_strlit(".secrets");
    reveal_strlit("logs");
    let h = hive_dir_of(root);
    assert(config_path_of(root).parts.take(h.parts.len() as int) =~= h.parts);
    assert(env_path_of(root).parts.take(h.parts.len() as int) =~= h.parts);
    assert(secrets_path_of(root).parts.take(h.parts.len() as int) =~= h.parts);
    assert(logs_dir_of(root).parts.take(h.parts.len() as int) =~= h.parts);
    let l = logs_dir_of(root);
    assert(run_log_path_of(root).parts.take(l.parts.len() as int) =~= l.parts);
    assert(run_log_path_of(root).parts.take(h.parts.len() as int) =~= h.parts);
    let n = h.parts.len() as int;
    assert(config_path_of(root).parts[n] == "config.yml"@);
    assert(env_path_of(root).parts[n] == ".env"@);
    assert(secrets_path_of(root).parts[n] == ".secrets"@);
    assert(run_log_path_of(root).parts[n] == "logs"@);
    assert("config.yml"@ != ".env"@);
    assert("config.yml"@ != ".secrets"@);
    assert(".env"@ != ".secrets"@);
    assert("config.yml"@ != "logs"@);
    assert(".env"@[0] != "logs"@[0]);
    assert(".secrets"@ != "logs"@);
}

} // verus!
