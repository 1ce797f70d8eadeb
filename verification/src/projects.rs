//! `hive projects` and `hive cd`: the rows listing the registered projects,
//! the project a query selects, and the details shown for it.
use crate::completion::pairs_view;
use crate::models::{HiveError, RegistryEntry, copy_opt_string, copy_string, opt_view};
use crate::registry::{
    RegistryEntryView, entries_view, find_app_project, find_project, first_match, name_matches,
};
use crate::text::{decimal, decimal_exec, string_of};
use vstd::prelude::*;

verus! {

/// A project of the desktop app, as its JSON file gives it.
#[derive(Debug)]
pub struct AppProject {
    /// The `name` member, when it is a string.
    pub name: Option<String>,
    /// The `path` member, when it is a string.
    pub path: Option<String>,
    /// The `type` member, when it is a string.
    pub kind: Option<String>,
    /// The `port` member, when it is a whole number.
    pub port: Option<u64>,
    /// Every member, in order: its key and its value as shown (a string as
    /// it is, anything else as JSON text).
    pub fields: Vec<(String, String)>,
}

/// The contents of a desktop-app project.
pub struct AppProjectView {
    pub name: Option<Seq<char>>,
    pub path: Option<Seq<char>>,
    pub kind: Option<Seq<char>>,
    pub port: Option<u64>,
    pub fields: Seq<(Seq<char>, Seq<char>)>,
}

impl View for AppProject {
    type V = AppProjectView;

    open spec fn view(&self) -> AppProjectView {
        AppProjectView {
            name: opt_view(self.name),
            path: opt_view(self.path),
            kind: opt_view(self.kind),
            port: self.port,
            fields: pairs_view(self.fields@),
        }
    }
}

/// The text of an optional string, or `default`.
pub open spec fn or_text(o: Option<Seq<char>>, default: Seq<char>) -> Seq<char> {
    match o {
        Some(s) => s,
        None => default,
    }
}

/// A port as it follows a name in a listing: `:PORT`, or nothing.
pub open spec fn port_suffix_of(port: Option<u64>) -> Seq<char> {
    match port {
        Some(p) => ":"@ + decimal(p as nat),
        None => Seq::empty(),
    }
}

/// A port as it follows a name in a listing (see `port_suffix_of`).
pub fn port_suffix(port: Option<u64>) -> (r: String)
    ensures
        r@ == port_suffix_of(port),
{
    match port {
        Some(p) => String::from_str(":").concat(string_of(&decimal_exec(p)).as_str()),
        None => String::new(),
    }
}

/// The text of an optional string, or `default`.
fn or_text_exec(o: &Option<String>, default: &str) -> (r: String)
    ensures
        r@ == or_text(opt_view(*o), default@),
{
    match o {
        Some(s) => copy_string(s),
        None => String::from_str(default),
    }
}

/// The text of an optional string, or the empty text.
fn text_or_empty(o: &Option<String>) -> (r: String)
    ensures
        r@ == or_text(opt_view(*o), Seq::empty()),
{
    match o {
        Some(s) => copy_string(s),
        None => String::new(),
    }
}

/// A row of `hive projects`: the name, a bracketed tag, a detail (possibly
/// empty) and the path.
#[derive(Debug)]
pub struct ProjectRow {
    pub name: String,
    pub tag: String,
    pub detail: String,
    pub path: String,
}

/// The contents of a row: name, tag, detail, path.
pub open spec fn row_view(r: ProjectRow) -> (Seq<char>, Seq<char>, Seq<char>, Seq<char>) {
    (r.name@, r.tag@, r.detail@, r.path@)
}

/// The row of a desktop-app project: its name (`?` if none), the tag
/// `[TYPE:PORT]` of its type and port, no detail, and its path (`?` if none).
pub open spec fn app_row_of(p: AppProjectView) -> (Seq<char>, Seq<char>, Seq<char>, Seq<char>) {
    (
        or_text(p.name, "?"@),
        "["@ + or_text(p.kind, Seq::empty()) + port_suffix_of(p.port) + "]"@,
        Seq::empty(),
        or_text(p.path, "?"@),
    )
}

/// The row of a desktop-app project (see `app_row_of`).
pub fn app_project_row(p: &AppProject) -> (r: ProjectRow)
    ensures
        row_view(r) == app_row_of(p@),
{
    let tag = String::from_str("[").concat(text_or_empty(&p.kind).as_str()).concat(
        port_suffix(p.port).as_str(),
    ).concat("]");
    ProjectRow {
        name: or_text_exec(&p.name, "?"),
        tag,
        detail: String::new(),
        path: or_text_exec(&p.path, "?"),
    }
}

/// The port of a registry entry, widened.
pub open spec fn wide_port(port: Option<u16>) -> Option<u64> {
    match port {
        Some(p) => Some(p as u64),
        None => None,
    }
}

/// The row of a project registered by the CLI: its name, the tag
/// `[FRAMEWORK:PORT]` (`?` for an unknown framework), its description
/// (empty if none) and its path.
pub open spec fn cli_row_of(e: RegistryEntryView) -> (Seq<char>, Seq<char>, Seq<char>, Seq<char>) {
    (
        e.name,
        "["@ + or_text(e.framework, "?"@) + port_suffix_of(wide_port(e.port)) + "]"@,
        or_text(e.description, Seq::empty()),
        e.path,
    )
}

/// The row of a project registered by the CLI (see `cli_row_of`).
pub fn cli_project_row(e: &RegistryEntry) -> (r: ProjectRow)
    ensures
        row_view(r) == cli_row_of(e@),
{
    let port = match e.port {
        Some(p) => Some(p as u64),
        None => None,
    };
    let tag = String::from_str("[").concat(or_text_exec(&e.framework, "?").as_str()).concat(
        port_suffix(port).as_str(),
    ).concat("]");
    ProjectRow {
        name: copy_string(&e.name),
        tag,
        detail: text_or_empty(&e.description),
        path: copy_string(&e.path),
    }
}

// ---------------------------------------------------------------------------
// Selecting a project
// ---------------------------------------------------------------------------

/// The names the desktop-app projects are matched by (empty if none).
pub open spec fn app_names(app: Seq<AppProject>) -> Seq<Seq<char>> {
    app.map_values(|p: AppProject| or_text(opt_view(p.name), Seq::empty()))
}

/// The first desktop-app project whose name matches the query.
pub open spec fn first_app_match(names: Seq<Seq<char>>, query: Seq<char>) -> Option<int>
    decreases names.len(),
{
    if names.len() == 0 {
        None
    } else if name_matches(names[0], query) {
        Some(0)
    } else {
        match first_app_match(names.drop_first(), query) {
            Some(i) => Some(i + 1),
            None => None,
        }
    }
}

/// Lemma: `first_app_match` finds the first matching name.
proof fn lemma_first_app_match(names: Seq<Seq<char>>, query: Seq<char>, i: int)
    requires
        0 <= i <= names.len(),
        forall|j: int| 0 <= j < i ==> !name_matches(#[trigger] names[j], query),
        i < names.len() ==> name_matches(names[i], query),
    ensures
        first_app_match(names, query) == (if i < names.len() {
            Some(i)
        } else {
            None::<int>
        }),
    decreases names.len(),
{
    if names.len() > 0 {
        if i > 0 {
            assert(!name_matches(names[0], query));
            assert forall|j: int| 0 <= j < i - 1 implies !name_matches(
                #[trigger] names.drop_first()[j],
                query,
            ) by {
                assert(names.drop_first()[j] == names[j + 1]);
            }
            lemma_first_app_match(names.drop_first(), query, i - 1);
        }
    }
}

/// The position of the first desktop-app project whose name matches the
/// query.
fn find_app_index(app: &Vec<AppProject>, query: &str) -> (r: Option<usize>)
    ensures
        match first_app_match(app_names(app@), query@) {
            Some(i) => r == Some(i as usize),
            None => r is None,
        },
{
    let mut names: Vec<String> = Vec::new();
    let n = app.len();
    for i in 0..n
        invariant
            n == app.len(),
            names.len() == i,
            forall|j: int| 0 <= j < i ==> (#[trigger] names@[j])@ == app_names(app@)[j],
    {
        names.push(text_or_empty(&app[i].name));
    }
    let r = find_app_project(&names, query);
    proof {
        let ns = app_names(app@);
        match r {
            Some(i) => {
                assert forall|j: int| 0 <= j < i implies !name_matches(#[trigger] ns[j], query@) by {
                    assert(names@[j]@ == ns[j]);
                }
                assert(names@[i as int]@ == ns[i as int]);
                lemma_first_app_match(ns, query@, i as int);
            },
            None => {
                assert forall|j: int| 0 <= j < ns.len() implies !name_matches(
                    #[trigger] ns[j],
                    query@,
                ) by {
                    assert(names@[j]@ == ns[j]);
                }
                lemma_first_app_match(ns, query@, ns.len() as int);
            },
        }
    }
    r
}

/// The message when no project matches a query.
pub open spec fn no_match_message(query: Seq<char>) -> Seq<char> {
    "No project matching '"@ + query + "'"@
}

/// Whether `e` is a project error with the message `m`.
pub open spec fn is_project_error(e: HiveError, m: Seq<char>) -> bool {
    e matches HiveError::Project(x) && x@ == m
}

/// A project that a query selects.
#[derive(Debug, PartialEq, Eq)]
pub enum Selected {
    /// The registered project at this position.
    Registered(usize),
    /// The desktop-app project at this position.
    App(usize),
}

/// The project a query selects: the first registered project matching it
/// (see `entry_matches`), else the first desktop-app project whose name
/// matches it; an error when there is none.
pub open spec fn selected_of(
    entries: Seq<RegistryEntryView>,
    app: Seq<Seq<char>>,
    query: Seq<char>,
) -> Option<Selected> {
    match first_match(entries, query) {
        Some(i) => Some(Selected::Registered(i as usize)),
        None => match first_app_match(app, query) {
            Some(j) => Some(Selected::App(j as usize)),
            None => None,
        },
    }
}

/// The project a query selects (see `selected_of`).
pub fn select_project(entries: &Vec<RegistryEntry>, app: &Vec<AppProject>, query: &str) -> (r:
    Result<Selected, HiveError>)
    ensures
        match selected_of(entries_view(entries@), app_names(app@), query@) {
            Some(s) => r matches Ok(x) && x == s,
            None => r is Err && is_project_error(r->Err_0, no_match_message(query@)),
        },
{
    match find_project(entries, query) {
        Some(i) => Ok(Selected::Registered(i)),
        None => match find_app_index(app, query) {
            Some(j) => Ok(Selected::App(j)),
            None => Err(
                HiveError::Project(
                    String::from_str("No project matching '").concat(query).concat("'"),
                ),
            ),
        },
    }
}

/// The line `hive cd` prints for a project at `path`: `cd "PATH"`.
pub open spec fn cd_line_of(path: Seq<char>) -> Seq<char> {
    "cd \""@ + path + "\""@
}

/// The line `hive cd QUERY` prints: the `cd` to the selected project's path
/// (empty for a desktop-app project without one); an error when no project
/// matches.
pub fn cd_line(entries: &Vec<RegistryEntry>, app: &Vec<AppProject>, query: &str) -> (r: Result<
    String,
    HiveError,
>)
    ensures
        match selected_of(entries_view(entries@), app_names(app@), query@) {
            Some(Selected::Registered(i)) => r matches Ok(x) && x@ == cd_line_of(
                entries@[i as int].path@,
            ),
            Some(Selected::App(j)) => r matches Ok(x) && x@ == cd_line_of(
                or_text(opt_view(app@[j as int].path), Seq::empty()),
            ),
            None => r is Err && is_project_error(r->Err_0, no_match_message(query@)),
        },
{
    proof {
        crate::registry::lemma_first_match(entries_view(entries@), query@);
        lemma_first_app_match_bound(app_names(app@), query@);
    }
    match select_project(entries, app, query) {
        Ok(Selected::Registered(i)) => Ok(
            String::from_str("cd \"").concat(entries[i].path.as_str()).concat("\""),
        ),
        Ok(Selected::App(j)) => Ok(
            String::from_str("cd \"").concat(text_or_empty(&app[j].path).as_str()).concat("\""),
        ),
        Err(e) => Err(e),
    }
}

/// Lemma: the position `first_app_match` gives lies among the names.
proof fn lemma_first_app_match_bound(names: Seq<Seq<char>>, query: Seq<char>)
    ensures
        first_app_match(names, query) matches Some(i) ==> 0 <= i < names.len(),
    decreases names.len(),
{
    if names.len() > 0 {
        lemma_first_app_match_bound(names.drop_first(), query);
    }
}

// ---------------------------------------------------------------------------
// Project details
// ---------------------------------------------------------------------------

/// A labelled detail when the value is present.
pub open spec fn optional_detail(label: Seq<char>, value: Option<Seq<char>>) -> Seq<
    (Seq<char>, Seq<char>),
> {
    match value {
        Some(v) => seq![(label, v)],
        None => Seq::empty(),
    }
}

/// The details `hive projects info` shows for a registered project, as
/// (label, value) pairs: name; description, author, framework and port when
/// known; path; creation time.
pub open spec fn registered_details_of(e: RegistryEntryView) -> Seq<(Seq<char>, Seq<char>)> {
    seq![("       Name"@, e.name)] + optional_detail("Description"@, e.description)
        + optional_detail("     Author"@, e.author) + optional_detail("  Framework"@, e.framework)
        + optional_detail(
        "       Port"@,
        match e.port {
            Some(p) => Some(decimal(p as nat)),
            None => None,
        },
    ) + seq![("       Path"@, e.path), ("    Created"@, e.created_at)]
}

/// Appends a labelled detail when the value is present.
fn push_detail(out: &mut Vec<(String, String)>, label: &str, value: &Option<String>)
    ensures
        pairs_view(final(out)@) == pairs_view(old(out)@) + optional_detail(label@, opt_view(*value)),
{
    match value {
        Some(v) => {
            out.push((String::from_str(label), copy_string(v)));
            assert(pairs_view(out@) =~= pairs_view(old(out)@) + optional_detail(
                label@,
                opt_view(*value),
            ));
        },
        None => {
            assert(pairs_view(out@) =~= pairs_view(old(out)@) + optional_detail(
                label@,
                opt_view(*value),
            ));
        },
    }
}

/// The details shown for a registered project (see
/// `registered_details_of`).
pub fn registered_details(e: &RegistryEntry) -> (r: Vec<(String, String)>)
    ensures
        pairs_view(r@) == registered_details_of(e@),
{
    let mut out: Vec<(String, String)> = Vec::new();
    out.push((String::from_str("       Name"), copy_string(&e.name)));
    assert(pairs_view(out@) =~= seq![("       Name"@, e@.name)]);
    push_detail(&mut out, "Description", &e.description);
    push_detail(&mut out, "     Author", &e.author);
    push_detail(&mut out, "  Framework", &e.framework);
    let port = match e.port {
        Some(p) => Some(string_of(&decimal_exec(p as u64))),
        None => None,
    };
    let ghost port_text = match e.port {
        Some(p) => Some(decimal(p as nat)),
        None => None,
    };
    assert(opt_view(port) == port_text);
    push_detail(&mut out, "       Port", &port);
    let ghost before = pairs_view(out@);
    out.push((String::from_str("       Path"), copy_string(&e.path)));
    out.push((String::from_str("    Created"), copy_string(&e.created_at)));
    assert(pairs_view(out@) =~= before + seq![("       Path"@, e@.path), ("    Created"@, e@.created_at)]);
    out
}

/// `s` right-aligned in a field of `width` characters: spaces before it
/// when it is shorter.
pub open spec fn right_aligned(s: Seq<char>, width: nat) -> Seq<char> {
    if s.len() < width {
        Seq::new((width - s.len()) as nat, |i: int| ' ') + s
    } else {
        s
    }
}

/// `s` right-aligned in a field of `width` characters.
fn right_align(s: &str, width: usize) -> (r: String)
    ensures
        r@ == right_aligned(s@, width as nat),
{
    let len = s.unicode_len();
    let mut r = String::new();
    if len < width {
        let pad = width - len;
        for i in 0..pad
            invariant
                r@ == Seq::new(i as nat, |k: int| ' '),
        {
            r.push(' ');
            assert(r@ =~= Seq::new((i + 1) as nat, |k: int| ' '));
        }
    }
    r.concat(s)
}

/// The details `hive projects info` shows for a desktop-app project: each
/// member, its key right-aligned in 15 characters.
pub open spec fn app_details_of(p: AppProjectView) -> Seq<(Seq<char>, Seq<char>)> {
    p.fields.map_values(|f: (Seq<char>, Seq<char>)| (right_aligned(f.0, 15), f.1))
}

/// The details shown for a desktop-app project (see `app_details_of`).
pub fn app_details(p: &AppProject) -> (r: Vec<(String, String)>)
    ensures
        pairs_view(r@) == app_details_of(p@),
{
    let mut out: Vec<(String, String)> = Vec::new();
    let n = p.fields.len();
    for i in 0..n
        invariant
            n == p.fields.len(),
            out.len() == i,
            pairs_view(out@) == app_details_of(p@).take(i as int),
    {
        let (k, v) = &p.fields[i];
        out.push((right_align(k.as_str(), 15), copy_string(v)));
        assert(pairs_view(out@) =~= app_details_of(p@).take(i + 1));
    }
    assert(app_details_of(p@).take(n as int) =~= app_details_of(p@));
    out
}

/// The heading of `hive projects info`: `Project: NAME`, with `  (Hive App)`
/// after a desktop-app project's name (empty if it has none).
pub fn details_heading(entries: &Vec<RegistryEntry>, app: &Vec<AppProject>, selected: &Selected) -> (r:
    String)
    requires
        selected matches Selected::Registered(i) ==> i < entries.len(),
        selected matches Selected::App(j) ==> j < app.len(),
    ensures
        selected matches Selected::Registered(i) ==> r@ == "Project: "@ + entries@[i as int].name@,
        selected matches Selected::App(j) ==> r@ == "Project: "@ + or_text(
            opt_view(app@[j as int].name),
            Seq::empty(),
        ) + "  (Hive App)"@,
{
    match selected {
        Selected::Registered(i) => String::from_str("Project: ").concat(entries[*i].name.as_str()),
        Selected::App(j) => String::from_str("Project: ").concat(
            text_or_empty(&app[*j].name).as_str(),
        ).concat("  (Hive App)"),
    }
}

} // verus!
