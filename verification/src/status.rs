//! `hive status` and `hive config show`: what they show of the
//! configuration and of the files under `.hive/`.
use crate::completion::pairs_view;
use crate::maps::{
    entry_keys, script_entries, scripts_get_index, scripts_len, service_entries,
    services_get_index, services_len,
};
use crate::models::{HiveConfig, ServiceConfigView, copy_string, opt_view};
use crate::projects::{optional_detail, or_text, port_suffix, port_suffix_of};
use crate::text::{
    chars_of, decimal, decimal_exec, has_char, index_of_exec, split_once, split_once_exec,
    string_of, trim_start, trim_start_exec,
};
use vstd::prelude::*;

verus! {

/// The project details `hive status` shows, as (label, value) pairs: the
/// name, then the description, author and framework when given.
pub open spec fn project_details_of(cfg: HiveConfig) -> Seq<(Seq<char>, Seq<char>)> {
    seq![("       Name"@, cfg.project.name@)] + optional_detail(
        "Description"@,
        opt_view(cfg.project.description),
    ) + optional_detail("     Author"@, opt_view(cfg.project.author)) + optional_detail(
        "  Framework"@,
        opt_view(cfg.project.framework),
    )
}

/// Appends a labelled detail when the value is present.
fn push_detail(out: &mut Vec<(String, String)>, label: &str, value: &Option<String>)
    ensures
        pairs_view(final(out)@) == pairs_view(old(out)@) + optional_detail(label@, opt_view(*value)),
{
    match value {
        Some(v) => {
            out.push((String::from_str(label), copy_string(v)));
        },
        None => {},
    }
    assert(pairs_view(out@) =~= pairs_view(old(out)@) + optional_detail(label@, opt_view(*value)));
}

/// The project details `hive status` shows (see `project_details_of`).
pub fn project_details(cfg: &HiveConfig) -> (r: Vec<(String, String)>)
    ensures
        pairs_view(r@) == project_details_of(*cfg),
{
    let mut out: Vec<(String, String)> = Vec::new();
    out.push((String::from_str("       Name"), copy_string(&cfg.project.name)));
    assert(pairs_view(out@) =~= seq![("       Name"@, cfg.project.name@)]);
    push_detail(&mut out, "Description", &cfg.project.description);
    push_detail(&mut out, "     Author", &cfg.project.author);
    push_detail(&mut out, "  Framework", &cfg.project.framework);
    out
}

/// The status shown for `.hive/.env` or `.hive/.secrets`.
pub fn file_status(exists: bool) -> (r: &'static str)
    ensures
        r@ == (if exists {
            "✦  present"@
        } else {
            "✗  missing"@
        }),
{
    if exists {
        "✦  present"
    } else {
        "✗  missing"
    }
}

/// The status shown for the run log: its size in bytes when it exists
/// (nothing after the mark when the size cannot be read), else that there
/// were no runs yet.
pub open spec fn log_status_of(exists: bool, size: Option<u64>) -> Seq<char> {
    if exists {
        "✦  "@ + match size {
            Some(n) => decimal(n as nat) + " bytes"@,
            None => Seq::empty(),
        }
    } else {
        "—  no runs yet"@
    }
}

/// The status shown for the run log (see `log_status_of`).
pub fn log_status(exists: bool, size: Option<u64>) -> (r: String)
    ensures
        r@ == log_status_of(exists, size),
{
    if exists {
        match size {
            Some(n) => String::from_str("✦  ").concat(string_of(&decimal_exec(n)).as_str()).concat(
                " bytes",
            ),
            None => String::from_str("✦  "),
        }
    } else {
        String::from_str("—  no runs yet")
    }
}

/// The names of the scripts, in order.
pub fn script_names(cfg: &HiveConfig) -> (r: Vec<String>)
    ensures
        r@.map_values(|s: String| s@) == entry_keys(script_entries(cfg.scripts)),
{
    let ghost es = script_entries(cfg.scripts);
    let n = scripts_len(&cfg.scripts);
    let mut out: Vec<String> = Vec::new();
    for i in 0..n
        invariant
            n == es.len(),
            es == script_entries(cfg.scripts),
            out.len() == i,
            out@.map_values(|s: String| s@) == entry_keys(es).take(i as int),
    {
        let (k, _) = scripts_get_index(&cfg.scripts, i).unwrap();
        out.push(copy_string(k));
        assert(out@.map_values(|s: String| s@) =~= entry_keys(es).take(i + 1));
    }
    assert(entry_keys(es).take(n as int) =~= entry_keys(es));
    out
}

/// The row `hive status` shows for a service: its name, `:PORT` when it has
/// a port, and its command (empty if none).
pub open spec fn service_row_of(e: (Seq<char>, ServiceConfigView)) -> (Seq<char>, Seq<char>, Seq<char>) {
    (
        e.0,
        port_suffix_of(
            match e.1.port {
                Some(p) => Some(p as u64),
                None => None,
            },
        ),
        or_text(e.1.command, Seq::empty()),
    )
}

/// The rows `hive status` shows for the services, in order (see
/// `service_row_of`).
pub fn service_rows(cfg: &HiveConfig) -> (r: Vec<(String, String, String)>)
    ensures
        r@.map_values(|t: (String, String, String)| (t.0@, t.1@, t.2@)) == service_entries(
            cfg.services,
        ).map_values(|e: (Seq<char>, ServiceConfigView)| service_row_of(e)),
{
    let ghost es = service_entries(cfg.services);
    let ghost rows = es.map_values(|e: (Seq<char>, ServiceConfigView)| service_row_of(e));
    let n = services_len(&cfg.services);
    let mut out: Vec<(String, String, String)> = Vec::new();
    for i in 0..n
        invariant
            n == es.len(),
            es == service_entries(cfg.services),
            rows == es.map_values(|e: (Seq<char>, ServiceConfigView)| service_row_of(e)),
            out.len() == i,
            out@.map_values(|t: (String, String, String)| (t.0@, t.1@, t.2@)) == rows.take(i as int),
    {
        let (k, svc) = services_get_index(&cfg.services, i).unwrap();
        let port = match svc.port {
            Some(p) => Some(p as u64),
            None => None,
        };
        let cmd = match &svc.command {
            Some(c) => copy_string(c),
            None => String::new(),
        };
        out.push((copy_string(k), port_suffix(port), cmd));
        assert(out@.map_values(|t: (String, String, String)| (t.0@, t.1@, t.2@)) =~= rows.take(
            i + 1,
        ));
    }
    assert(rows.take(n as int) =~= rows);
    out
}

/// How `hive config show` shows a line of `.hive/config.yml`.
#[derive(Debug, PartialEq, Eq)]
pub enum ConfigLine {
    /// A comment.
    Comment,
    /// A `key: value` line, split at its first colon.
    KeyValue { key: String, value: String },
    /// Anything else, such as a list item.
    Plain,
}

/// The view of a configuration line.
pub enum ConfigLineView {
    Comment,
    KeyValue { key: Seq<char>, value: Seq<char> },
    Plain,
}

/// The view of a configuration line.
pub open spec fn config_line_view(l: ConfigLine) -> ConfigLineView {
    match l {
        ConfigLine::Comment => ConfigLineView::Comment,
        ConfigLine::KeyValue { key, value } => ConfigLineView::KeyValue { key: key@, value: value@ },
        ConfigLine::Plain => ConfigLineView::Plain,
    }
}

/// How a line of the configuration is shown: a comment when it starts
/// (after whitespace) with `#`; split at its first `:` when it has one and
/// does not start (after whitespace) with `-`; else as it is.
pub open spec fn config_line_of(line: Seq<char>) -> ConfigLineView {
    let t = trim_start(line);
    if t.len() > 0 && t[0] == '#' {
        ConfigLineView::Comment
    } else if has_char(line, ':') && !(t.len() > 0 && t[0] == '-') {
        match split_once(line, ':') {
            Some((k, v)) => ConfigLineView::KeyValue { key: k, value: v },
            None => ConfigLineView::Plain,
        }
    } else {
        ConfigLineView::Plain
    }
}

/// How a line of the configuration is shown (see `config_line_of`).
pub fn classify_config_line(line: &str) -> (r: ConfigLine)
    ensures
        config_line_view(r) == config_line_of(line@),
{
    let cs = chars_of(line);
    let t = trim_start_exec(&cs);
    if t.len() > 0 && t[0] == '#' {
        return ConfigLine::Comment;
    }
    proof {
        crate::text::lemma_index_of(cs@, ':');
    }
    let colon = index_of_exec(&cs, ':').is_some();
    if colon && !(t.len() > 0 && t[0] == '-') {
        match split_once_exec(&cs, ':') {
            Some((k, v)) => ConfigLine::KeyValue { key: string_of(&k), value: string_of(&v) },
            None => ConfigLine::Plain,
        }
    } else {
        ConfigLine::Plain
    }
}

} // verus!
