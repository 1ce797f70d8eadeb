//! Project detection: from the files found in a project directory, its
//! framework, name, version, description and the services it uses.
use crate::dotenv::value_text;
use crate::models::{Framework, Project, ProjectMeta, opt_view, strings_view};
use crate::paths::HivePath;
use crate::text::{
    chars_of, contains, contains_exec, find, find_exec, index_of, index_of_exec, lines, lines_exec,
    lowercase, slice, split_once, split_once_exec, starts_with, starts_with_exec, string_of,
    to_lowercase, trim, trim_char, trim_char_exec, trim_exec, trim_start, trim_start_exec, views,
};
use vstd::prelude::*;

verus! {

/// What was found at one path of the project: whether it exists, and its
/// text if it could be read.
#[derive(Debug)]
pub struct FileProbe {
    pub exists: bool,
    pub text: Option<String>,
}

/// The contents of a probe.
pub struct FileProbeView {
    pub exists: bool,
    pub text: Option<Seq<char>>,
}

impl View for FileProbe {
    type V = FileProbeView;

    open spec fn view(&self) -> FileProbeView {
        FileProbeView { exists: self.exists, text: opt_view(self.text) }
    }
}

/// Everything detection looks at in a project directory: the directory's
/// own name and the files it probes.
#[derive(Debug)]
pub struct ProjectScan {
    pub dir_name: Option<String>,
    pub artisan: FileProbe,
    pub composer_json: FileProbe,
    pub package_json: FileProbe,
    pub manage_py: FileProbe,
    pub requirements_txt: FileProbe,
    pub pyproject_toml: FileProbe,
    pub cargo_toml: FileProbe,
    pub go_mod: FileProbe,
    pub dockerfile: FileProbe,
    pub docker_compose_yml: FileProbe,
    pub docker_compose_yaml: FileProbe,
    pub env: FileProbe,
    pub env_local: FileProbe,
    pub env_example: FileProbe,
}

/// The text of a probed file, empty when it could not be read.
pub open spec fn read_of(p: FileProbeView) -> Seq<char> {
    match p.text {
        Some(t) => t,
        None => Seq::empty(),
    }
}

/// The text of a probed file, empty when it could not be read.
fn read_exec(p: &FileProbe) -> (r: Vec<char>)
    ensures
        r@ == read_of(p@),
{
    match &p.text {
        Some(t) => chars_of(t.as_str()),
        None => Vec::new(),
    }
}

// ---------------------------------------------------------------------------
// Reading values out of JSON and TOML text
// ---------------------------------------------------------------------------

/// The string value of `field` in JSON text, found by scanning: after the
/// first `"field"`, the first `:`, then optional whitespace, a `"`, and the
/// text up to the next `"`; nothing if any step fails or the text is empty.
pub open spec fn json_str_of(content: Seq<char>, field: Seq<char>) -> Option<Seq<char>> {
    let needle = seq!['"'] + field + seq!['"'];
    match find(content, needle) {
        None => None,
        Some(i) => {
            let rest = content.skip(i + needle.len());
            match index_of(rest, ':') {
                None => None,
                Some(j) => {
                    let sl = trim_start(rest.skip(j + 1));
                    if sl.len() == 0 || sl[0] != '"' {
                        None
                    } else {
                        let inner = sl.skip(1);
                        match index_of(inner, '"') {
                            None => None,
                            Some(e) => if e == 0 {
                                None
                            } else {
                                Some(inner.take(e))
                            },
                        }
                    }
                },
            }
        },
    }
}

/// The string value of `field` in JSON text (see `json_str_of`).
pub fn json_str(content: &str, field: &str) -> (r: Option<String>)
    ensures
        opt_view(r) == json_str_of(content@, field@),
{
    let c = chars_of(content);
    let f = chars_of(field);
    let mut needle: Vec<char> = Vec::new();
    needle.push('"');
    let mut needle = crate::text::concat(&needle, &f);
    needle.push('"');
    assert(needle@ =~= seq!['"'] + field@ + seq!['"']);
    let i = match find_exec(&c, &needle) {
        Some(i) => i,
        None => return None,
    };
    let clen = c.len();
    let rest = slice(&c, i + needle.len(), clen);
    assert(rest@ =~= c@.skip(i + needle@.len()));
    let j = match index_of_exec(&rest, ':') {
        Some(j) => j,
        None => return None,
    };
    proof {
        crate::text::lemma_index_of(rest@, ':');
    }
    let after = slice(&rest, j + 1, rest.len());
    assert(after@ =~= rest@.skip(j + 1));
    let sl = trim_start_exec(&after);
    if sl.len() == 0 || sl[0] != '"' {
        return None;
    }
    let inner = slice(&sl, 1, sl.len());
    assert(inner@ =~= sl@.skip(1));
    proof {
        crate::text::lemma_index_of(inner@, '"');
    }
    match index_of_exec(&inner, '"') {
        Some(e) => {
            if e == 0 {
                None
            } else {
                let v = slice(&inner, 0, e);
                assert(v@ =~= inner@.take(e as int));
                Some(string_of(&v))
            }
        },
        None => None,
    }
}

/// What a TOML line gives for `field`: for an uncommented line that starts
/// with `field =` or `field=` (after trimming), the text after the first `=`,
/// trimmed and without surrounding double quotes, if that is not empty.
pub open spec fn toml_line(l: Seq<char>, field: Seq<char>) -> Option<Seq<char>> {
    let t = trim(l);
    if t.len() > 0 && t[0] == '#' {
        None
    } else if starts_with(t, field + " ="@) || starts_with(t, field + "="@) {
        match split_once(t, '=') {
            Some((_, v)) => {
                let val = trim_char(trim(v), '"');
                if val.len() > 0 {
                    Some(val)
                } else {
                    None
                }
            },
            None => None,
        }
    } else {
        None
    }
}

/// The value of `field` in a sequence of TOML lines: that of the first line
/// giving one.
pub open spec fn toml_lines(ls: Seq<Seq<char>>, field: Seq<char>) -> Option<Seq<char>>
    decreases ls.len(),
{
    if ls.len() == 0 {
        None
    } else {
        match toml_line(ls[0], field) {
            Some(v) => Some(v),
            None => toml_lines(ls.drop_first(), field),
        }
    }
}

/// The string value of `field` in TOML text, found line by line.
pub open spec fn toml_str_of(content: Seq<char>, field: Seq<char>) -> Option<Seq<char>> {
    toml_lines(lines(content), field)
}

/// Whether a trimmed TOML line assigns `field`: it is not a comment and
/// starts with `field =` or `field=`.
pub open spec fn toml_assigns(t: Seq<char>, field: Seq<char>) -> bool {
    !(t.len() > 0 && t[0] == '#') && (starts_with(t, field + " ="@) || starts_with(t, field + "="@))
}

/// The value a trimmed assigning line gives: after its first `=`, trimmed
/// and without surrounding double quotes (possibly empty).
pub open spec fn toml_value(t: Seq<char>) -> Seq<char> {
    match split_once(t, '=') {
        Some((_, v)) => trim_char(trim(v), '"'),
        None => Seq::empty(),
    }
}

/// The first non-empty text of `vs`.
pub open spec fn first_non_empty(vs: Seq<Seq<char>>) -> Option<Seq<char>>
    decreases vs.len(),
{
    if vs.len() == 0 {
        None
    } else if vs[0].len() > 0 {
        Some(vs[0])
    } else {
        first_non_empty(vs.drop_first())
    }
}

/// Lemma: the first non-empty text of two blocks.
proof fn lemma_first_non_empty_append(a: Seq<Seq<char>>, b: Seq<Seq<char>>)
    ensures
        first_non_empty(a + b) == (match first_non_empty(a) {
            Some(v) => Some(v),
            None => first_non_empty(b),
        }),
    decreases a.len(),
{
    if a.len() == 0 {
        assert(a + b =~= b);
    } else {
        lemma_first_non_empty_append(a.drop_first(), b);
        assert((a + b).drop_first() =~= a.drop_first() + b);
        assert((a + b)[0] == a[0]);
    }
}

/// Lemma: reading TOML lines one by one is reading the values of the
/// trimmed assigning lines and taking the first non-empty one.
proof fn lemma_toml_lines_filter(ls: Seq<Seq<char>>, field: Seq<char>)
    ensures
        toml_lines(ls, field) == first_non_empty(
            ls.map_values(|l: Seq<char>| trim(l)).filter(|t: Seq<char>| toml_assigns(t, field)).map_values(
                |t: Seq<char>| toml_value(t),
            ),
        ),
    decreases ls.len(),
{
    let p = |t: Seq<char>| toml_assigns(t, field);
    let tv = |t: Seq<char>| toml_value(t);
    let tr = |l: Seq<char>| trim(l);
    if ls.len() == 0 {
        assert(ls.map_values(tr) =~= Seq::<Seq<char>>::empty());
        assert(Seq::<Seq<char>>::empty().filter(p) =~= Seq::<Seq<char>>::empty()) by {
            reveal(Seq::filter);
        }
        assert(Seq::<Seq<char>>::empty().map_values(tv) =~= Seq::<Seq<char>>::empty());
    } else {
        let rest = ls.drop_first();
        lemma_toml_lines_filter(rest, field);
        let t0 = trim(ls[0]);
        assert(ls.map_values(tr) =~= seq![t0] + rest.map_values(tr));
        rest.map_values(tr).lemma_filter_prepend(t0, p);
        let head = if p(t0) {
            seq![t0]
        } else {
            Seq::<Seq<char>>::empty()
        };
        let ft = rest.map_values(tr).filter(p);
        assert((head + ft).map_values(tv) =~= head.map_values(tv) + ft.map_values(tv));
        lemma_first_non_empty_append(head.map_values(tv), ft.map_values(tv));
        if p(t0) {
            assert(head.map_values(tv) =~= seq![toml_value(t0)]);
            assert(seq![toml_value(t0)].drop_first() =~= Seq::<Seq<char>>::empty());
            assert(first_non_empty(Seq::<Seq<char>>::empty()) is None);
            crate::text::lemma_index_of(t0, '=');
        } else {
            assert(head.map_values(tv) =~= Seq::<Seq<char>>::empty());
        }
    }
}

/// The value of a TOML field, read as the lines of the text, each trimmed,
/// those that assign the field kept, each turned into its value, and the
/// first non-empty value taken.
pub proof fn law_toml_str_as_filter(content: Seq<char>, field: Seq<char>)
    ensures
        toml_str_of(content, field) == first_non_empty(
            lines(content).map_values(|l: Seq<char>| trim(l)).filter(
                |t: Seq<char>| toml_assigns(t, field),
            ).map_values(|t: Seq<char>| toml_value(t)),
        ),
{
    lemma_toml_lines_filter(lines(content), field);
}

/// The string value of `field` in TOML text (see `toml_str_of`).
pub fn toml_str(content: &str, field: &str) -> (r: Option<String>)
    ensures
        opt_view(r) == toml_str_of(content@, field@),
{
    let c = chars_of(content);
    let f = chars_of(field);
    let p1 = crate::text::concat(&f, &chars_of(" ="));
    let p2 = crate::text::concat(&f, &chars_of("="));
    let ls = lines_exec(&c);
    let n = ls.len();
    let ghost lsv = views(ls@);
    proof {
        assert(lsv.skip(0) =~= lsv);
    }
    for i in 0..n
        invariant
            n == ls.len(),
            lsv == views(ls@),
            lsv == lines(content@),
            p1@ == field@ + " ="@,
            p2@ == field@ + "="@,
            toml_lines(lsv, field@) == toml_lines(lsv.skip(i as int), field@),
    {
        proof {
            let sk = lsv.skip(i as int);
            assert(sk.drop_first() =~= lsv.skip(i + 1));
            assert(sk[0] == ls@[i as int]@);
        }
        let t = trim_exec(&ls[i]);
        if !(t.len() > 0 && t[0] == '#') {
            if starts_with_exec(&t, &p1) || starts_with_exec(&t, &p2) {
                match split_once_exec(&t, '=') {
                    Some((_, v)) => {
                        let tv = trim_exec(&v);
                        let val = trim_char_exec(&tv, '"');
                        if val.len() > 0 {
                            return Some(string_of(&val));
                        }
                    },
                    None => {},
                }
            }
        }
    }
    proof {
        assert(lsv.skip(n as int) =~= Seq::<Seq<char>>::empty());
    }
    None
}

// ---------------------------------------------------------------------------
// Reading a key out of the project's own .env files
// ---------------------------------------------------------------------------

/// What one line of a `.env` file gives for `key`: for an uncommented line
/// that starts with `key=` (after trimming), the value after it, trimmed and
/// unquoted, if that is not empty.
pub open spec fn env_key_line(l: Seq<char>, key: Seq<char>) -> Option<Seq<char>> {
    let t = trim(l);
    let p = key + "="@;
    if t.len() == 0 || t[0] == '#' {
        None
    } else if starts_with(t, p) {
        let val = value_text(t.skip(p.len() as int));
        if val.len() > 0 {
            Some(val)
        } else {
            None
        }
    } else {
        None
    }
}

/// The value of `key` in a sequence of `.env` lines: the first one given.
pub open spec fn env_key_lines(ls: Seq<Seq<char>>, key: Seq<char>) -> Option<Seq<char>>
    decreases ls.len(),
{
    if ls.len() == 0 {
        None
    } else {
        match env_key_line(ls[0], key) {
            Some(v) => Some(v),
            None => env_key_lines(ls.drop_first(), key),
        }
    }
}

/// The value of `key` in one `.env` text, if it could be read.
pub open spec fn env_key_in(text: Option<Seq<char>>, key: Seq<char>) -> Option<Seq<char>> {
    match text {
        Some(t) => env_key_lines(lines(t), key),
        None => None,
    }
}

/// The value of `key` in one `.env` text.
fn env_key_text(text: &String, key: &Vec<char>) -> (r: Option<Vec<char>>)
    ensures
        match env_key_lines(lines(text@), key@) {
            Some(v) => r matches Some(x) && x@ == v,
            None => r is None,
        },
{
    let c = chars_of(text.as_str());
    let mut p = crate::text::slice(key, 0, key.len());
    p.push('=');
    assert(p@ =~= key@ + "="@) by {
        reveal_strlit("=");
    }
    let ls = lines_exec(&c);
    let n = ls.len();
    let ghost lsv = views(ls@);
    proof {
        assert(lsv.skip(0) =~= lsv);
    }
    for i in 0..n
        invariant
            n == ls.len(),
            lsv == views(ls@),
            lsv == lines(text@),
            p@ == key@ + "="@,
            env_key_lines(lsv, key@) == env_key_lines(lsv.skip(i as int), key@),
    {
        proof {
            let sk = lsv.skip(i as int);
            assert(sk.drop_first() =~= lsv.skip(i + 1));
            assert(sk[0] == ls@[i as int]@);
        }
        let t = trim_exec(&ls[i]);
        if t.len() > 0 && t[0] != '#' && starts_with_exec(&t, &p) {
            let rest = slice(&t, p.len(), t.len());
            assert(rest@ =~= t@.skip(p@.len() as int));
            let tv = trim_exec(&rest);
            let tv = trim_char_exec(&tv, '"');
            let val = trim_char_exec(&tv, '\'');
            if val.len() > 0 {
                return Some(val);
            }
        }
    }
    proof {
        assert(lsv.skip(n as int) =~= Seq::<Seq<char>>::empty());
    }
    None
}

/// The value of `key` in the project's `.env`, `.env.local` and
/// `.env.example`, tried in that order (each when readable): the first one
/// given.
pub open spec fn env_key_of(scan: ProjectScan, key: Seq<char>) -> Option<Seq<char>> {
    match env_key_in(scan.env@.text, key) {
        Some(v) => Some(v),
        None => match env_key_in(scan.env_local@.text, key) {
            Some(v) => Some(v),
            None => env_key_in(scan.env_example@.text, key),
        },
    }
}

/// The value of `key` in the project's `.env`, `.env.local` or
/// `.env.example` (see `env_key_of`).
pub fn read_env_key(scan: &ProjectScan, key: &str) -> (r: Option<String>)
    ensures
        opt_view(r) == env_key_of(*scan, key@),
{
    let k = chars_of(key);
    if let Some(t) = &scan.env.text {
        if let Some(v) = env_key_text(t, &k) {
            return Some(string_of(&v));
        }
    }
    if let Some(t) = &scan.env_local.text {
        if let Some(v) = env_key_text(t, &k) {
            return Some(string_of(&v));
        }
    }
    if let Some(t) = &scan.env_example.text {
        if let Some(v) = env_key_text(t, &k) {
            return Some(string_of(&v));
        }
    }
    None
}

// ---------------------------------------------------------------------------
// Names, versions, descriptions
// ---------------------------------------------------------------------------

/// The directory's name, or `unnamed` when it has none that is text.
pub open spec fn dir_name_of(name: Option<Seq<char>>) -> Seq<char> {
    match name {
        Some(n) => n,
        None => "unnamed"@,
    }
}

/// The directory's name, or `unnamed` when it has none that is text.
pub fn dir_name(name: &Option<String>) -> (r: String)
    ensures
        r@ == dir_name_of(opt_view(*name)),
{
    match name {
        Some(n) => n.clone(),
        None => String::from_str("unnamed"),
    }
}

/// What follows the last `c` in `s` (all of `s` when it has none).
pub open spec fn last_segment(s: Seq<char>, c: char) -> Seq<char>
    decreases s.len(),
{
    match index_of(s, c) {
        None => s,
        Some(i) => if 0 <= i < s.len() {
            last_segment(s.skip(i + 1), c)
        } else {
            s
        },
    }
}

/// What follows the last `c` in `v` (all of `v` when it has none).
fn last_segment_exec(v: &Vec<char>, c: char) -> (r: Vec<char>)
    ensures
        r@ == last_segment(v@, c),
    decreases v.len(),
{
    proof {
        crate::text::lemma_index_of(v@, c);
    }
    match index_of_exec(v, c) {
        None => slice(v, 0, v.len()),
        Some(i) => {
            let rest = slice(v, i + 1, v.len());
            assert(rest@ =~= v@.skip(i + 1));
            last_segment_exec(&rest, c)
        },
    }
}

/// Name, version and description as detection reports them.
pub type NameInfo = (String, Option<String>, Option<String>);

/// The contents of name, version and description.
pub open spec fn info_view(i: NameInfo) -> (Seq<char>, Option<Seq<char>>, Option<Seq<char>>) {
    (i.0@, opt_view(i.1), opt_view(i.2))
}

/// A Node project's name (`APP_NAME` from its `.env` files, else the
/// `name` of `package.json`, else the directory's name), version and
/// description (from `package.json`).
pub open spec fn package_json_info(scan: ProjectScan) -> (Seq<char>, Option<Seq<char>>, Option<Seq<char>>) {
    let content = read_of(scan.package_json@);
    let name = match env_key_of(scan, "APP_NAME"@) {
        Some(n) => n,
        None => match json_str_of(content, "name"@) {
            Some(n) => n,
            None => dir_name_of(opt_view(scan.dir_name)),
        },
    };
    (name, json_str_of(content, "version"@), json_str_of(content, "description"@))
}

/// A Node project's name, version and description (see `package_json_info`).
pub fn extract_from_package_json(scan: &ProjectScan) -> (r: NameInfo)
    ensures
        info_view(r) == package_json_info(*scan),
{
    let content = string_of(&read_exec(&scan.package_json));
    let name = match read_env_key(scan, "APP_NAME") {
        Some(n) => n,
        None => match json_str(content.as_str(), "name") {
            Some(n) => n,
            None => dir_name(&scan.dir_name),
        },
    };
    let version = json_str(content.as_str(), "version");
    let description = json_str(content.as_str(), "description");
    (name, version, description)
}

/// A Laravel project's name (`APP_NAME` from its `.env` files, else the
/// part after the last `/` of the `name` in `composer.json`, else the
/// directory's name), no version, and its description from `composer.json`.
pub open spec fn composer_info(scan: ProjectScan) -> (Seq<char>, Option<Seq<char>>, Option<Seq<char>>) {
    let content = read_of(scan.composer_json@);
    let name = match env_key_of(scan, "APP_NAME"@) {
        Some(n) => n,
        None => match json_str_of(content, "name"@) {
            Some(n) => last_segment(n, '/'),
            None => dir_name_of(opt_view(scan.dir_name)),
        },
    };
    (name, None, json_str_of(content, "description"@))
}

/// A Laravel project's name, version and description (see `composer_info`).
pub fn extract_from_composer(scan: &ProjectScan) -> (r: NameInfo)
    ensures
        info_view(r) == composer_info(*scan),
{
    let content = string_of(&read_exec(&scan.composer_json));
    let name = match read_env_key(scan, "APP_NAME") {
        Some(n) => n,
        None => match json_str(content.as_str(), "name") {
            Some(n) => string_of(&last_segment_exec(&chars_of(n.as_str()), '/')),
            None => dir_name(&scan.dir_name),
        },
    };
    let description = json_str(content.as_str(), "description");
    (name, None, description)
}

/// Name, version and description from a TOML file's `name`, `version` and
/// `description` (the directory's name when there is no `name`).
pub open spec fn toml_info(content: Seq<char>, dir: Option<Seq<char>>) -> (Seq<char>, Option<Seq<char>>, Option<Seq<char>>) {
    let name = match toml_str_of(content, "name"@) {
        Some(n) => n,
        None => dir_name_of(dir),
    };
    (name, toml_str_of(content, "version"@), toml_str_of(content, "description"@))
}

/// Name, version and description read from TOML text.
fn toml_info_exec(content: &String, dir: &Option<String>) -> (r: NameInfo)
    ensures
        info_view(r) == toml_info(content@, opt_view(*dir)),
{
    let name = match toml_str(content.as_str(), "name") {
        Some(n) => n,
        None => dir_name(dir),
    };
    (name, toml_str(content.as_str(), "version"), toml_str(content.as_str(), "description"))
}

/// A Python project's name, version and description: from `pyproject.toml`
/// when it exists, else the directory's name alone.
pub open spec fn pyproject_info(scan: ProjectScan) -> (Seq<char>, Option<Seq<char>>, Option<Seq<char>>) {
    if scan.pyproject_toml@.exists {
        toml_info(read_of(scan.pyproject_toml@), opt_view(scan.dir_name))
    } else {
        (dir_name_of(opt_view(scan.dir_name)), None, None)
    }
}

/// A Python project's name, version and description (see `pyproject_info`).
pub fn extract_from_pyproject(scan: &ProjectScan) -> (r: NameInfo)
    ensures
        info_view(r) == pyproject_info(*scan),
{
    if scan.pyproject_toml.exists {
        let content = string_of(&read_exec(&scan.pyproject_toml));
        return toml_info_exec(&content, &scan.dir_name);
    }
    (dir_name(&scan.dir_name), None, None)
}

/// A Rust project's name, version and description from `Cargo.toml`.
pub fn extract_from_cargo(scan: &ProjectScan) -> (r: NameInfo)
    ensures
        info_view(r) == toml_info(read_of(scan.cargo_toml@), opt_view(scan.dir_name)),
{
    let content = string_of(&read_exec(&scan.cargo_toml));
    toml_info_exec(&content, &scan.dir_name)
}

/// The module path of the first `module ` line of a `go.mod`.
pub open spec fn go_module_lines(ls: Seq<Seq<char>>) -> Option<Seq<char>>
    decreases ls.len(),
{
    if ls.len() == 0 {
        None
    } else if starts_with(ls[0], "module "@) {
        Some(trim(ls[0].skip(7)))
    } else {
        go_module_lines(ls.drop_first())
    }
}

/// A Go project's name: the last `/`-separated part of the module path of
/// the first `module ` line of `go.mod`, else the directory's name; no
/// version or description.
pub open spec fn go_mod_info(scan: ProjectScan) -> (Seq<char>, Option<Seq<char>>, Option<Seq<char>>) {
    let name = match go_module_lines(lines(read_of(scan.go_mod@))) {
        Some(m) => last_segment(m, '/'),
        None => dir_name_of(opt_view(scan.dir_name)),
    };
    (name, None, None)
}

/// A Go project's name, version and description (see `go_mod_info`).
pub fn extract_from_go_mod(scan: &ProjectScan) -> (r: NameInfo)
    ensures
        info_view(r) == go_mod_info(*scan),
{
    let content = read_exec(&scan.go_mod);
    let ls = lines_exec(&content);
    let prefix = chars_of("module ");
    proof {
        reveal_strlit("module ");
    }
    let n = ls.len();
    let ghost lsv = views(ls@);
    proof {
        assert(lsv.skip(0) =~= lsv);
    }
    let mut module: Option<Vec<char>> = None;
    let mut i: usize = 0;
    while i < n
        invariant
            n == ls.len(),
            lsv == views(ls@),
            prefix@ == "module "@,
            prefix@.len() == 7,
            lsv == lines(content@),
            content@ == read_of(scan.go_mod@),
            i <= n,
            module is None,
            go_module_lines(lsv) == go_module_lines(lsv.skip(i as int)),
        decreases n - i,
    {
        proof {
            let sk = lsv.skip(i as int);
            assert(sk.drop_first() =~= lsv.skip(i + 1));
            assert(sk[0] == ls@[i as int]@);
        }
        if starts_with_exec(&ls[i], &prefix) {
            let l = &ls[i];
            let rest = slice(l, 7, l.len());
            assert(rest@ =~= l@.skip(7));
            let m = trim_exec(&rest);
            let name = string_of(&last_segment_exec(&m, '/'));
            return (name, None, None);
        }
        i += 1;
    }
    proof {
        assert(lsv.skip(n as int) =~= Seq::<Seq<char>>::empty());
    }
    (dir_name(&scan.dir_name), None, None)
}

// ---------------------------------------------------------------------------
// Framework and services
// ---------------------------------------------------------------------------

/// The framework detected from the files of a project, tried in this order:
/// `artisan` (Laravel); `composer.json` naming `laravel/framework`
/// (Laravel); `package.json` (Next.js, Nuxt, Vue or React by the first
/// dependency named, else Node); `manage.py` (Django); `requirements.txt`
/// and then `pyproject.toml` (FastAPI or Django when named, else Python);
/// `Cargo.toml` (Rust); `go.mod` (Go); otherwise unknown.
pub open spec fn framework_of(scan: ProjectScan) -> Framework {
    if scan.artisan@.exists {
        Framework::Laravel
    } else if scan.composer_json@.exists && contains(
        read_of(scan.composer_json@),
        "laravel/framework"@,
    ) {
        Framework::Laravel
    } else if scan.package_json@.exists {
        let pkg = read_of(scan.package_json@);
        if contains(pkg, "\"next\""@) {
            Framework::NextJs
        } else if contains(pkg, "\"nuxt\""@) {
            Framework::Nuxt
        } else if contains(pkg, "\"vue\""@) {
            Framework::Vue
        } else if contains(pkg, "\"react\""@) {
            Framework::React
        } else {
            Framework::Node
        }
    } else if scan.manage_py@.exists {
        Framework::Django
    } else if scan.requirements_txt@.exists {
        python_framework(read_of(scan.requirements_txt@))
    } else if scan.pyproject_toml@.exists {
        python_framework(read_of(scan.pyproject_toml@))
    } else if scan.cargo_toml@.exists {
        Framework::Rust
    } else if scan.go_mod@.exists {
        Framework::Go
    } else {
        Framework::Unknown
    }
}

/// A Python project's framework from the text naming its dependencies.
pub open spec fn python_framework(text: Seq<char>) -> Framework {
    if contains(text, "fastapi"@) {
        Framework::FastAPI
    } else if contains(text, "django"@) {
        Framework::Django
    } else {
        Framework::Python
    }
}

/// A Python project's framework from the text naming its dependencies.
fn python_framework_exec(text: &Vec<char>) -> (r: Framework)
    ensures
        r == python_framework(text@),
{
    if contains_exec(text, &chars_of("fastapi")) {
        Framework::FastAPI
    } else if contains_exec(text, &chars_of("django")) {
        Framework::Django
    } else {
        Framework::Python
    }
}

/// The framework of a project (see `framework_of`).
pub fn detect_framework(scan: &ProjectScan) -> (r: Framework)
    ensures
        r == framework_of(*scan),
{
    if scan.artisan.exists {
        return Framework::Laravel;
    }
    if scan.composer_json.exists {
        if contains_exec(&read_exec(&scan.composer_json), &chars_of("laravel/framework")) {
            return Framework::Laravel;
        }
    }
    if scan.package_json.exists {
        let pkg = read_exec(&scan.package_json);
        if contains_exec(&pkg, &chars_of("\"next\"")) {
            return Framework::NextJs;
        }
        if contains_exec(&pkg, &chars_of("\"nuxt\"")) {
            return Framework::Nuxt;
        }
        if contains_exec(&pkg, &chars_of("\"vue\"")) {
            return Framework::Vue;
        }
        if contains_exec(&pkg, &chars_of("\"react\"")) {
            return Framework::React;
        }
        return Framework::Node;
    }
    if scan.manage_py.exists {
        return Framework::Django;
    }
    if scan.requirements_txt.exists {
        return python_framework_exec(&read_exec(&scan.requirements_txt));
    }
    if scan.pyproject_toml.exists {
        return python_framework_exec(&read_exec(&scan.pyproject_toml));
    }
    if scan.cargo_toml.exists {
        return Framework::Rust;
    }
    if scan.go_mod.exists {
        return Framework::Go;
    }
    Framework::Unknown
}

/// The services a (lower-cased) docker-compose text mentions, in this order:
/// MySQL (`mysql` or `mariadb`), PostgreSQL, Redis, MongoDB (`mongo`),
/// Nginx, RabbitMQ, Elasticsearch.
pub open spec fn services_in(c: Seq<char>) -> Seq<Seq<char>> {
    (if contains(c, "mysql"@) || contains(c, "mariadb"@) { seq!["MySQL"@] } else { seq![] })
        + (if contains(c, "postgres"@) { seq!["PostgreSQL"@] } else { seq![] })
        + (if contains(c, "redis"@) { seq!["Redis"@] } else { seq![] })
        + (if contains(c, "mongo"@) { seq!["MongoDB"@] } else { seq![] })
        + (if contains(c, "nginx"@) { seq!["Nginx"@] } else { seq![] })
        + (if contains(c, "rabbitmq"@) { seq!["RabbitMQ"@] } else { seq![] })
        + (if contains(c, "elasticsearch"@) { seq!["Elasticsearch"@] } else { seq![] })
}

/// The docker-compose text of a project: that of `docker-compose.yml` if it
/// exists, else of `docker-compose.yaml`, else none; lower-cased.
pub open spec fn compose_text(scan: ProjectScan) -> Seq<char> {
    if scan.docker_compose_yml@.exists {
        lowercase(read_of(scan.docker_compose_yml@))
    } else if scan.docker_compose_yaml@.exists {
        lowercase(read_of(scan.docker_compose_yaml@))
    } else {
        lowercase(Seq::empty())
    }
}

/// Adds `name` to `services` when `present`.
fn add_service(services: &mut Vec<String>, present: bool, name: &str)
    ensures
        strings_view(final(services)@) == strings_view(old(services)@) + (if present {
            seq![name@]
        } else {
            Seq::<Seq<char>>::empty()
        }),
{
    let ghost before = strings_view(services@);
    if present {
        services.push(String::from_str(name));
        assert(strings_view(services@) =~= before + seq![name@]);
    } else {
        assert(strings_view(services@) =~= before + Seq::<Seq<char>>::empty());
    }
}

/// The services the project's docker-compose file mentions (see
/// `services_in` and `compose_text`).
pub fn detect_extra_services(scan: &ProjectScan) -> (r: Vec<String>)
    ensures
        strings_view(r@) == services_in(compose_text(*scan)),
{
    let raw = if scan.docker_compose_yml.exists {
        string_of(&read_exec(&scan.docker_compose_yml))
    } else if scan.docker_compose_yaml.exists {
        string_of(&read_exec(&scan.docker_compose_yaml))
    } else {
        String::new()
    };
    let lower = to_lowercase(raw.as_str());
    let c = chars_of(lower.as_str());
    let mut services: Vec<String> = Vec::new();
    assert(strings_view(services@) =~= Seq::<Seq<char>>::empty());
    let mysql = contains_exec(&c, &chars_of("mysql")) || contains_exec(&c, &chars_of("mariadb"));
    add_service(&mut services, mysql, "MySQL");
    add_service(&mut services, contains_exec(&c, &chars_of("postgres")), "PostgreSQL");
    add_service(&mut services, contains_exec(&c, &chars_of("redis")), "Redis");
    add_service(&mut services, contains_exec(&c, &chars_of("mongo")), "MongoDB");
    add_service(&mut services, contains_exec(&c, &chars_of("nginx")), "Nginx");
    add_service(&mut services, contains_exec(&c, &chars_of("rabbitmq")), "RabbitMQ");
    add_service(&mut services, contains_exec(&c, &chars_of("elasticsearch")), "Elasticsearch");
    assert(strings_view(services@) =~= services_in(compose_text(*scan)));
    services
}

/// Name, version and description by framework: from `composer.json` for
/// Laravel, `package.json` for the Node family, `pyproject.toml` for the
/// Python family, `Cargo.toml` for Rust, `go.mod` for Go, and the
/// directory's name alone otherwise.
pub open spec fn name_info(scan: ProjectScan, f: Framework) -> (Seq<char>, Option<Seq<char>>, Option<Seq<char>>) {
    match f {
        Framework::Laravel => composer_info(scan),
        Framework::NextJs | Framework::React | Framework::Vue | Framework::Nuxt
        | Framework::Node => package_json_info(scan),
        Framework::Python | Framework::Django | Framework::FastAPI => pyproject_info(scan),
        Framework::Rust => toml_info(read_of(scan.cargo_toml@), opt_view(scan.dir_name)),
        Framework::Go => go_mod_info(scan),
        Framework::Unknown => (dir_name_of(opt_view(scan.dir_name)), None, None),
    }
}

/// Whether the project uses Docker: a `Dockerfile`, `docker-compose.yml` or
/// `docker-compose.yaml` exists.
pub open spec fn has_docker_of(scan: ProjectScan) -> bool {
    scan.dockerfile@.exists || scan.docker_compose_yml@.exists || scan.docker_compose_yaml@.exists
}

/// Whether the project has its own env file: `.env` or `.env.example` exists.
pub open spec fn has_env_of(scan: ProjectScan) -> bool {
    scan.env@.exists || scan.env_example@.exists
}

/// What detection learns about a project of the given framework.
pub fn extract_meta(scan: &ProjectScan, framework: &Framework) -> (r: ProjectMeta)
    ensures
        (r.name@, opt_view(r.version), opt_view(r.description)) == name_info(*scan, *framework),
        r.has_docker == has_docker_of(*scan),
        r.has_env == has_env_of(*scan),
        strings_view(r.extra_services@) == services_in(compose_text(*scan)),
{
    let has_docker = scan.dockerfile.exists || scan.docker_compose_yml.exists
        || scan.docker_compose_yaml.exists;
    let has_env = scan.env.exists || scan.env_example.exists;
    let extra_services = detect_extra_services(scan);
    let (name, version, description) = match framework {
        Framework::Laravel => extract_from_composer(scan),
        Framework::NextJs | Framework::React | Framework::Vue | Framework::Nuxt
        | Framework::Node => extract_from_package_json(scan),
        Framework::Python | Framework::Django | Framework::FastAPI => extract_from_pyproject(scan),
        Framework::Rust => extract_from_cargo(scan),
        Framework::Go => extract_from_go_mod(scan),
        Framework::Unknown => (dir_name(&scan.dir_name), None, None),
    };
    ProjectMeta { name, version, description, has_docker, has_env, extra_services }
}

/// The project found at `path`, from what was found there: its framework
/// (see `framework_of`), its metadata for that framework, and its name (that
/// of the metadata).
pub fn detect(path: &HivePath, scan: &ProjectScan) -> (r: Project)
    ensures
        r.framework == framework_of(*scan),
        r.path@ == path@,
        r.name@ == r.meta.name@,
        (r.meta.name@, opt_view(r.meta.version), opt_view(r.meta.description)) == name_info(
            *scan,
            framework_of(*scan),
        ),
        r.meta.has_docker == has_docker_of(*scan),
        r.meta.has_env == has_env_of(*scan),
        strings_view(r.meta.extra_services@) == services_in(compose_text(*scan)),
{
    let framework = detect_framework(scan);
    let meta = extract_meta(scan, &framework);
    let name = meta.name.clone();
    Project { name, framework, path: path.copy(), meta }
}

/// Whether detection finds a Laravel project: `artisan`, or a
/// `composer.json` naming `laravel/framework`.
pub open spec fn is_laravel(scan: ProjectScan) -> bool {
    scan.artisan@.exists || (scan.composer_json@.exists && contains(
        read_of(scan.composer_json@),
        "laravel/framework"@,
    ))
}

/// The order in which detection decides a project's framework: Laravel
/// first; then a `package.json`, by the first of `"next"`, `"nuxt"`,
/// `"vue"`, `"react"` it names (so a Next.js app is Next.js whatever else
/// it depends on), else Node; then `manage.py` (Django); then
/// `requirements.txt` or `pyproject.toml` (FastAPI before Django before
/// plain Python); then `Cargo.toml` (Rust), `go.mod` (Go); else unknown.
pub proof fn law_framework_order(scan: ProjectScan)
    ensures
        is_laravel(scan) ==> framework_of(scan) == Framework::Laravel,
        ({
            let pkg = read_of(scan.package_json@);
            !is_laravel(scan) && scan.package_json@.exists ==> {
                &&& contains(pkg, "\"next\""@) ==> framework_of(scan) == Framework::NextJs
                &&& !contains(pkg, "\"next\""@) && contains(pkg, "\"nuxt\""@) ==> framework_of(scan)
                    == Framework::Nuxt
                &&& !contains(pkg, "\"next\""@) && !contains(pkg, "\"nuxt\""@) && contains(
                    pkg,
                    "\"vue\""@,
                ) ==> framework_of(scan) == Framework::Vue
                &&& !contains(pkg, "\"next\""@) && !contains(pkg, "\"nuxt\""@) && !contains(
                    pkg,
                    "\"vue\""@,
                ) && contains(pkg, "\"react\""@) ==> framework_of(scan) == Framework::React
                &&& !contains(pkg, "\"next\""@) && !contains(pkg, "\"nuxt\""@) && !contains(
                    pkg,
                    "\"vue\""@,
                ) && !contains(pkg, "\"react\""@) ==> framework_of(scan) == Framework::Node
            }
        }),
        !is_laravel(scan) && !scan.package_json@.exists && scan.manage_py@.exists ==> framework_of(
            scan,
        ) == Framework::Django,
        ({
            let py = if scan.requirements_txt@.exists {
                read_of(scan.requirements_txt@)
            } else {
                read_of(scan.pyproject_toml@)
            };
            !is_laravel(scan) && !scan.package_json@.exists && !scan.manage_py@.exists && (
            scan.requirements_txt@.exists || scan.pyproject_toml@.exists) ==> {
                &&& contains(py, "fastapi"@) ==> framework_of(scan) == Framework::FastAPI
                &&& !contains(py, "fastapi"@) && contains(py, "django"@) ==> framework_of(scan)
                    == Framework::Django
                &&& !contains(py, "fastapi"@) && !contains(py, "django"@) ==> framework_of(scan)
                    == Framework::Python
            }
        }),
        ({
            let none_before = !is_laravel(scan) && !scan.package_json@.exists && !scan.manage_py@.exists
                && !scan.requirements_txt@.exists && !scan.pyproject_toml@.exists;
            &&& none_before && scan.cargo_toml@.exists ==> framework_of(scan) == Framework::Rust
            &&& none_before && !scan.cargo_toml@.exists && scan.go_mod@.exists ==> framework_of(scan)
                == Framework::Go
            &&& none_before && !scan.cargo_toml@.exists && !scan.go_mod@.exists ==> framework_of(scan)
                == Framework::Unknown
        }),
{
}

/// An entry when `b` holds, else nothing.
spec fn optional_entry(b: bool, x: Seq<char>) -> Seq<Seq<char>> {
    if b {
        seq![x]
    } else {
        Seq::<Seq<char>>::empty()
    }
}

/// Lemma: what a concatenation contains.
proof fn lemma_concat_contains(a: Seq<Seq<char>>, b: Seq<Seq<char>>, y: Seq<char>)
    ensures
        (a + b).contains(y) <==> (a.contains(y) || b.contains(y)),
{
    if (a + b).contains(y) {
        let j = choose|j: int| 0 <= j < (a + b).len() && (a + b)[j] == y;
        if j < a.len() {
            assert(a[j] == y);
        } else {
            assert(b[j - a.len()] == y);
        }
    }
    if a.contains(y) {
        let j = choose|j: int| 0 <= j < a.len() && a[j] == y;
        assert((a + b)[j] == y);
    }
    if b.contains(y) {
        let j = choose|j: int| 0 <= j < b.len() && b[j] == y;
        assert((a + b)[j + a.len()] == y);
    }
}

/// Lemma: what an optional entry contains.
proof fn lemma_optional_contains(b: bool, x: Seq<char>, y: Seq<char>)
    ensures
        optional_entry(b, x).contains(y) <==> (b && x == y),
{
    if b && x == y {
        assert(seq![x][0] == y);
    }
}

/// The services a compose file uses, each reported exactly when the
/// (lower-cased) compose text mentions it: MySQL for `mysql` or `mariadb`,
/// PostgreSQL for `postgres`, Redis for `redis`, MongoDB for `mongo`, Nginx
/// for `nginx`, RabbitMQ for `rabbitmq`, Elasticsearch for `elasticsearch`.
pub proof fn law_services_reported(c: Seq<char>)
    ensures
        services_in(c).contains("MySQL"@) <==> (contains(c, "mysql"@) || contains(c, "mariadb"@)),
        services_in(c).contains("PostgreSQL"@) <==> contains(c, "postgres"@),
        services_in(c).contains("Redis"@) <==> contains(c, "redis"@),
        services_in(c).contains("MongoDB"@) <==> contains(c, "mongo"@),
        services_in(c).contains("Nginx"@) <==> contains(c, "nginx"@),
        services_in(c).contains("RabbitMQ"@) <==> contains(c, "rabbitmq"@),
        services_in(c).contains("Elasticsearch"@) <==> contains(c, "elasticsearch"@),
{
    reveal_strlit("MySQL");
    reveal_strlit("PostgreSQL");
    reveal_strlit("Redis");
    reveal_strlit("MongoDB");
    reveal_strlit("Nginx");
    reveal_strlit("RabbitMQ");
    reveal_strlit("Elasticsearch");
    let n1 = "MySQL"@;
    let n2 = "PostgreSQL"@;
    let n3 = "Redis"@;
    let n4 = "MongoDB"@;
    let n5 = "Nginx"@;
    let n6 = "RabbitMQ"@;
    let n7 = "Elasticsearch"@;
    let e1 = optional_entry(contains(c, "mysql"@) || contains(c, "mariadb"@), n1);
    let e2 = optional_entry(contains(c, "postgres"@), n2);
    let e3 = optional_entry(contains(c, "redis"@), n3);
    let e4 = optional_entry(contains(c, "mongo"@), n4);
    let e5 = optional_entry(contains(c, "nginx"@), n5);
    let e6 = optional_entry(contains(c, "rabbitmq"@), n6);
    let e7 = optional_entry(contains(c, "elasticsearch"@), n7);
    assert(services_in(c) == e1 + e2 + e3 + e4 + e5 + e6 + e7);
    let names = seq![n1, n2, n3, n4, n5, n6, n7];
    assert(n1.len() == 5 && n2.len() == 10 && n3.len() == 5 && n4.len() == 7 && n5.len() == 5
        && n6.len() == 8 && n7.len() == 13);
    assert(n1[0] != n3[0] && n1[0] != n5[0] && n3[0] != n5[0]);
    assert forall|y: Seq<char>| #![trigger names.contains(y)] names.contains(y) implies {
        &&& (e1 + e2 + e3 + e4 + e5 + e6 + e7).contains(y) <==> (e1.contains(y) || e2.contains(y)
            || e3.contains(y) || e4.contains(y) || e5.contains(y) || e6.contains(y) || e7.contains(y))
    } by {
        lemma_concat_contains(e1, e2, y);
        lemma_concat_contains(e1 + e2, e3, y);
        lemma_concat_contains(e1 + e2 + e3, e4, y);
        lemma_concat_contains(e1 + e2 + e3 + e4, e5, y);
        lemma_concat_contains(e1 + e2 + e3 + e4 + e5, e6, y);
        lemma_concat_contains(e1 + e2 + e3 + e4 + e5 + e6, e7, y);
    }
    assert forall|y: Seq<char>| #![trigger names.contains(y)] names.contains(y) implies {
        &&& e1.contains(y) <==> ((contains(c, "mysql"@) || contains(c, "mariadb"@)) && n1 == y)
        &&& e2.contains(y) <==> (contains(c, "postgres"@) && n2 == y)
        &&& e3.contains(y) <==> (contains(c, "redis"@) && n3 == y)
        &&& e4.contains(y) <==> (contains(c, "mongo"@) && n4 == y)
        &&& e5.contains(y) <==> (contains(c, "nginx"@) && n5 == y)
        &&& e6.contains(y) <==> (contains(c, "rabbitmq"@) && n6 == y)
        &&& e7.contains(y) <==> (contains(c, "elasticsearch"@) && n7 == y)
    } by {
        lemma_optional_contains(contains(c, "mysql"@) || contains(c, "mariadb"@), n1, y);
        lemma_optional_contains(contains(c, "postgres"@), n2, y);
        lemma_optional_contains(contains(c, "redis"@), n3, y);
        lemma_optional_contains(contains(c, "mongo"@), n4, y);
        lemma_optional_contains(contains(c, "nginx"@), n5, y);
        lemma_optional_contains(contains(c, "rabbitmq"@), n6, y);
        lemma_optional_contains(contains(c, "elasticsearch"@), n7, y);
    }
    assert(names.contains(n1)) by { assert(names[0] == n1); }
    assert(names.contains(n2)) by { assert(names[1] == n2); }
    assert(names.contains(n3)) by { assert(names[2] == n3); }
    assert(names.contains(n4)) by { assert(names[3] == n4); }
    assert(names.contains(n5)) by { assert(names[4] == n5); }
    assert(names.contains(n6)) by { assert(names[5] == n6); }
    assert(names.contains(n7)) by { assert(names[6] == n7); }
}

/// The place of a service in the order detection reports services in
/// (one past the last place for a name that is none of them).
pub open spec fn service_rank(x: Seq<char>) -> int {
    if x == "MySQL"@ {
        0
    } else if x == "PostgreSQL"@ {
        1
    } else if x == "Redis"@ {
        2
    } else if x == "MongoDB"@ {
        3
    } else if x == "Nginx"@ {
        4
    } else if x == "RabbitMQ"@ {
        5
    } else if x == "Elasticsearch"@ {
        6
    } else {
        7
    }
}

/// Whether every entry of a list comes strictly later in the service order
/// than the entries before it (so no service is listed twice).
pub open spec fn ranks_increase(s: Seq<Seq<char>>) -> bool {
    forall|i: int, j: int|
        0 <= i < j < s.len() ==> #[trigger] service_rank(s[i]) < #[trigger] service_rank(s[j])
}

/// Lemma: appending an optional entry of rank `k` to a list ordered below
/// `k` keeps it ordered, below `k + 1`.
proof fn lemma_ranked_append(a: Seq<Seq<char>>, b: bool, x: Seq<char>, k: int)
    requires
        ranks_increase(a),
        forall|i: int| 0 <= i < a.len() ==> #[trigger] service_rank(a[i]) < k,
        service_rank(x) == k,
    ensures
        ranks_increase(a + optional_entry(b, x)),
        forall|i: int|
            0 <= i < (a + optional_entry(b, x)).len() ==> #[trigger] service_rank(
                (a + optional_entry(b, x))[i],
            ) < k + 1,
{
    let r = a + optional_entry(b, x);
    if b {
        assert(r =~= a.push(x));
        assert forall|i: int, j: int| 0 <= i < j < r.len() implies #[trigger] service_rank(r[i])
            < #[trigger] service_rank(r[j]) by {
            assert(r[i] == a[i]);
            if j < a.len() {
                assert(r[j] == a[j]);
            } else {
                assert(r[j] == x);
            }
        }
        assert forall|i: int| 0 <= i < r.len() implies #[trigger] service_rank(r[i]) < k + 1 by {
            if i < a.len() {
                assert(r[i] == a[i]);
            } else {
                assert(r[i] == x);
            }
        }
    } else {
        assert(r =~= a);
    }
}

/// The services come out in a fixed order (MySQL, PostgreSQL, Redis,
/// MongoDB, Nginx, RabbitMQ, Elasticsearch), each at most once, and each is
/// one of those names.
pub proof fn law_services_ordered(c: Seq<char>)
    ensures
        ranks_increase(services_in(c)),
        forall|i: int| 0 <= i < services_in(c).len() ==> #[trigger] service_rank(services_in(c)[i]) < 7,
{
    reveal_strlit("MySQL");
    reveal_strlit("PostgreSQL");
    reveal_strlit("Redis");
    reveal_strlit("MongoDB");
    reveal_strlit("Nginx");
    reveal_strlit("RabbitMQ");
    reveal_strlit("Elasticsearch");
    let n1 = "MySQL"@;
    let n2 = "PostgreSQL"@;
    let n3 = "Redis"@;
    let n4 = "MongoDB"@;
    let n5 = "Nginx"@;
    let n6 = "RabbitMQ"@;
    let n7 = "Elasticsearch"@;
    assert(n1.len() == 5 && n2.len() == 10 && n3.len() == 5 && n4.len() == 7 && n5.len() == 5
        && n6.len() == 8 && n7.len() == 13);
    assert(n1[0] != n3[0] && n1[0] != n5[0] && n3[0] != n5[0]);
    assert(n1 != n2 && n1 != n3 && n1 != n4 && n1 != n5 && n1 != n6 && n1 != n7);
    assert(n2 != n3 && n2 != n4 && n2 != n5 && n2 != n6 && n2 != n7);
    assert(n3 != n4 && n3 != n5 && n3 != n6 && n3 != n7);
    assert(n4 != n5 && n4 != n6 && n4 != n7);
    assert(n5 != n6 && n5 != n7);
    assert(n6 != n7);
    assert(service_rank(n1) == 0 && service_rank(n2) == 1 && service_rank(n3) == 2 && service_rank(
        n4,
    ) == 3 && service_rank(n5) == 4 && service_rank(n6) == 5 && service_rank(n7) == 6);
    let e1 = optional_entry(contains(c, "mysql"@) || contains(c, "mariadb"@), n1);
    let e2 = optional_entry(contains(c, "postgres"@), n2);
    let e3 = optional_entry(contains(c, "redis"@), n3);
    let e4 = optional_entry(contains(c, "mongo"@), n4);
    let e5 = optional_entry(contains(c, "nginx"@), n5);
    let e6 = optional_entry(contains(c, "rabbitmq"@), n6);
    let e7 = optional_entry(contains(c, "elasticsearch"@), n7);
    assert(services_in(c) == e1 + e2 + e3 + e4 + e5 + e6 + e7);
    let z = Seq::<Seq<char>>::empty();
    assert(z + e1 =~= e1);
    lemma_ranked_append(z, contains(c, "mysql"@) || contains(c, "mariadb"@), n1, 0);
    lemma_ranked_append(e1, contains(c, "postgres"@), n2, 1);
    lemma_ranked_append(e1 + e2, contains(c, "redis"@), n3, 2);
    lemma_ranked_append(e1 + e2 + e3, contains(c, "mongo"@), n4, 3);
    lemma_ranked_append(e1 + e2 + e3 + e4, contains(c, "nginx"@), n5, 4);
    lemma_ranked_append(e1 + e2 + e3 + e4 + e5, contains(c, "rabbitmq"@), n6, 5);
    lemma_ranked_append(e1 + e2 + e3 + e4 + e5 + e6, contains(c, "elasticsearch"@), n7, 6);
}

/// The `.env` files are read in order: a value given by `.env` wins; else
/// one given by `.env.local`; else whatever `.env.example` gives. A file
/// that cannot be read gives nothing.
pub proof fn law_env_files_order(scan: ProjectScan, key: Seq<char>)
    ensures
        env_key_in(scan.env@.text, key) matches Some(v) ==> env_key_of(scan, key) == Some(v),
        env_key_in(scan.env@.text, key) is None ==> (env_key_in(scan.env_local@.text, key) matches Some(
            v,
        ) ==> env_key_of(scan, key) == Some(v)),
        env_key_in(scan.env@.text, key) is None && env_key_in(scan.env_local@.text, key) is None
            ==> env_key_of(scan, key) == env_key_in(scan.env_example@.text, key),
        env_key_in(None, key) is None,
{
}

/// An `.env` text whose first line is `KEY=value` gives that value as a
/// reader takes it (trimmed, unquoted), when that is not empty.
pub proof fn law_env_first_line(key: Seq<char>, v: Seq<char>, rest: Seq<char>)
    requires
        key.len() > 0,
        !crate::text::is_ws(key[0]),
        key[0] != '#',
        !crate::text::has_char(key, '\n'),
        !crate::text::has_char(v, '\n'),
        v.len() > 0,
        !crate::text::is_ws(v.last()),
        value_text(v).len() > 0,
    ensures
        env_key_in(Some(key + "="@ + v + "\n"@ + rest), key) == Some(value_text(v)),
{
    reveal_strlit("=");
    reveal_strlit("\n");
    let l = key + "="@ + v;
    assert(key + "="@ + v + "\n"@ + rest =~= l + seq!['\n'] + rest);
    assert forall|k: int| 0 <= k < l.len() implies l[k] != '\n' by {
        if k < key.len() {
            assert(l[k] == key[k]);
        } else if k > key.len() {
            assert(l[k] == v[k - key.len() - 1]);
        }
    }
    crate::text::lemma_lines_cons(l, rest);
    assert(l.last() == v.last());
    assert(l[0] == key[0]);
    crate::text::lemma_trim_unique(l, 0, l.len() as int);
    assert(l.subrange(0, l.len() as int) =~= l);
    assert(crate::text::strip_cr(l) == l);
    let ls = lines(key + "="@ + v + "\n"@ + rest);
    assert(ls[0] == l);
    let p = key + "="@;
    assert(l.subrange(0, p.len() as int) =~= p);
    assert(l.skip(p.len() as int) =~= v);
}

} // verus!
