//! Editing `.hive/config.yml` and deciding what `hive run`, `hive scripts`,
//! `hive config set` and `hive expose` do with it.
use crate::maps::{
    entry_get, entry_insert, entry_keys, entry_remove, lemma_entry_index, lemma_entry_insert_get,
    lemma_entry_insert_other, lemma_entry_remove, script_entries, scripts_get, scripts_get_index,
    scripts_insert, scripts_len, scripts_shift_remove,
};
use crate::models::{
    HiveConfig, HiveError, RunScript, RunScriptView, copy_script, copy_string, copy_strings,
    opt_view, strings_view,
};
use crate::process::{process_label, process_labels};
use crate::text::str_eq;
use vstd::prelude::*;

verus! {

/// `ls` joined with `sep` between neighbours.
pub open spec fn join_with(ls: Seq<Seq<char>>, sep: Seq<char>) -> Seq<char>
    decreases ls.len(),
{
    if ls.len() == 0 {
        Seq::empty()
    } else if ls.len() == 1 {
        ls[0]
    } else {
        join_with(ls.drop_last(), sep) + sep + ls.last()
    }
}

/// The message for a configuration key that cannot be set.
pub open spec fn unknown_key_message(key: Seq<char>) -> Seq<char> {
    "Unknown config key '"@ + key
        + "'. Supported: project.name, project.description, project.author, project.framework"@
}

/// Whether `e` is a configuration error with the message `m`.
pub open spec fn is_config_error(e: HiveError, m: Seq<char>) -> bool {
    e matches HiveError::Config(x) && x@ == m
}

/// `hive config set KEY VALUE`: sets the project's name, or its
/// description, author or framework, by `project.name`,
/// `project.description`, `project.author` or `project.framework`; any
/// other key is an error and changes nothing.
pub fn set_config_value(cfg: &mut HiveConfig, key: &str, value: String) -> (r: Result<(), HiveError>)
    ensures
        final(cfg).services == old(cfg).services,
        final(cfg).scripts == old(cfg).scripts,
        key@ == "project.name"@ ==> r is Ok && final(cfg).project.name@ == value@
            && final(cfg).project.description == old(cfg).project.description
            && final(cfg).project.author == old(cfg).project.author
            && final(cfg).project.framework == old(cfg).project.framework,
        key@ == "project.description"@ ==> r is Ok && opt_view(final(cfg).project.description)
            == Some(value@) && final(cfg).project.name == old(cfg).project.name
            && final(cfg).project.author == old(cfg).project.author
            && final(cfg).project.framework == old(cfg).project.framework,
        key@ == "project.author"@ ==> r is Ok && opt_view(final(cfg).project.author) == Some(value@)
            && final(cfg).project.name == old(cfg).project.name
            && final(cfg).project.description == old(cfg).project.description
            && final(cfg).project.framework == old(cfg).project.framework,
        key@ == "project.framework"@ ==> r is Ok && opt_view(final(cfg).project.framework) == Some(
            value@,
        ) && final(cfg).project.name == old(cfg).project.name
            && final(cfg).project.description == old(cfg).project.description
            && final(cfg).project.author == old(cfg).project.author,
        key@ != "project.name"@ && key@ != "project.description"@ && key@ != "project.author"@
            && key@ != "project.framework"@ ==> r is Err && is_config_error(
            r->Err_0,
            unknown_key_message(key@),
        ) && final(cfg).project == old(cfg).project,
{
    proof {
        reveal_strlit("project.name");
        reveal_strlit("project.description");
        reveal_strlit("project.author");
        reveal_strlit("project.framework");
        assert("project.name"@.len() == 12);
        assert("project.description"@.len() == 19);
        assert("project.author"@.len() == 14);
        assert("project.framework"@.len() == 17);
    }
    if str_eq(key, "project.name") {
        cfg.project.name = value;
        Ok(())
    } else if str_eq(key, "project.description") {
        cfg.project.description = Some(value);
        Ok(())
    } else if str_eq(key, "project.author") {
        cfg.project.author = Some(value);
        Ok(())
    } else if str_eq(key, "project.framework") {
        cfg.project.framework = Some(value);
        Ok(())
    } else {
        let m = String::from_str("Unknown config key '").concat(key).concat(
            "'. Supported: project.name, project.description, project.author, project.framework",
        );
        Err(HiveError::Config(m))
    }
}

/// `hive scripts add NAME COMMAND`: stores the single command under the
/// name (an existing script of that name keeps its place and is replaced).
pub fn add_script(cfg: &mut HiveConfig, name: String, command: String)
    ensures
        script_entries(final(cfg).scripts) == entry_insert(
            script_entries(old(cfg).scripts),
            name@,
            RunScriptView::Single(command@),
        ),
        final(cfg).project == old(cfg).project,
        final(cfg).services == old(cfg).services,
{
    let _ = scripts_insert(&mut cfg.scripts, name, RunScript::Single(command));
}

/// The message for a script that does not exist.
pub open spec fn script_not_found(name: Seq<char>) -> Seq<char> {
    "Script '"@ + name + "' not found"@
}

/// `hive scripts remove NAME`: removes the script; it is an error if there
/// was none of that name.
pub fn remove_script(cfg: &mut HiveConfig, name: &str) -> (r: Result<(), HiveError>)
    ensures
        script_entries(final(cfg).scripts) == entry_remove(script_entries(old(cfg).scripts), name@),
        final(cfg).project == old(cfg).project,
        final(cfg).services == old(cfg).services,
        entry_get(script_entries(old(cfg).scripts), name@) is Some <==> r is Ok,
        r is Err ==> is_config_error(r->Err_0, script_not_found(name@)),
{
    match scripts_shift_remove(&mut cfg.scripts, name) {
        Some(_) => Ok(()),
        None => {
            let m = String::from_str("Script '").concat(name).concat("' not found");
            Err(HiveError::Config(m))
        },
    }
}

/// The commands of a script: its one command, or its commands in order.
pub open spec fn commands_of(s: RunScriptView) -> Seq<Seq<char>> {
    match s {
        RunScriptView::Single(c) => seq![c],
        RunScriptView::Multiple(cs) => cs,
    }
}

/// `hive scripts show NAME`: the commands of the script, one per line; an
/// error if there is none of that name.
pub fn script_commands(cfg: &HiveConfig, name: &str) -> (r: Result<Vec<String>, HiveError>)
    ensures
        match entry_get(script_entries(cfg.scripts), name@) {
            Some(s) => r is Ok && strings_view(r->Ok_0@) == commands_of(s),
            None => r is Err && is_config_error(r->Err_0, script_not_found(name@)),
        },
{
    match scripts_get(&cfg.scripts, String::from_str(name)) {
        Some(RunScript::Single(c)) => {
            let mut v: Vec<String> = Vec::new();
            v.push(c.clone());
            assert(strings_view(v@) =~= seq![c@]);
            Ok(v)
        },
        Some(RunScript::Multiple(cs)) => Ok(copy_strings(cs)),
        None => {
            let m = String::from_str("Script '").concat(name).concat("' not found");
            Err(HiveError::Config(m))
        },
    }
}

/// What `hive run` does.
#[derive(Debug)]
pub enum RunPlan {
    /// List the scripts.
    List,
    /// Show what the named script would run.
    DryRun(String, RunScript),
    /// Run the named script.
    Execute(String, RunScript),
}

/// The message for a script that `hive run` cannot find.
pub open spec fn run_not_found(key: Seq<char>, keys: Seq<Seq<char>>) -> Seq<char> {
    "Script '"@ + key + "' not found.\n\n  Available: "@ + join_with(keys, ", "@)
        + "\n\n  Run `hive run --list` to see all scripts."@
}

/// The message when the configuration has no scripts.
pub open spec fn no_scripts_message() -> Seq<char> {
    "No scripts defined in .hive/config.yml"@
}

/// The names of the scripts joined with `, `.
fn script_keys_joined(cfg: &HiveConfig) -> (r: String)
    ensures
        r@ == join_with(entry_keys(script_entries(cfg.scripts)), ", "@),
{
    let ghost es = script_entries(cfg.scripts);
    let ghost keys = entry_keys(es);
    let n = scripts_len(&cfg.scripts);
    let mut r = String::new();
    for i in 0..n
        invariant
            n == es.len(),
            es == script_entries(cfg.scripts),
            keys == entry_keys(es),
            r@ == join_with(keys.take(i as int), ", "@),
    {
        let (k, _) = scripts_get_index(&cfg.scripts, i).unwrap();
        proof {
            let t = keys.take(i + 1);
            assert(t.drop_last() =~= keys.take(i as int));
            assert(t.last() == es[i as int].0);
        }
        if i == 0 {
            r = copy_string(k);
            proof {
                assert(keys.take(1).len() == 1);
            }
        } else {
            r = r.concat(", ").concat(k.as_str());
        }
    }
    proof {
        assert(keys.take(n as int) =~= keys);
    }
    r
}

/// `hive run [SCRIPT] [--list] [--dry-run]`: list the scripts when asked to,
/// or when no script is named and there are none; otherwise the named script
/// (`start` by default) is dry-run or run; it is an error if there are no
/// scripts or none of that name.
pub fn plan_run(cfg: &HiveConfig, script_name: Option<String>, list: bool, dry_run: bool) -> (r:
    Result<RunPlan, HiveError>)
    ensures
        ({
            let es = script_entries(cfg.scripts);
            let key = match script_name {
                Some(s) => s@,
                None => "start"@,
            };
            if list || (script_name is None && es.len() == 0) {
                r matches Ok(RunPlan::List)
            } else if es.len() == 0 {
                r is Err && is_config_error(r->Err_0, no_scripts_message())
            } else {
                match entry_get(es, key) {
                    None => r is Err && is_config_error(r->Err_0, run_not_found(key, entry_keys(es))),
                    Some(s) => if dry_run {
                        r matches Ok(RunPlan::DryRun(k, x)) && k@ == key && x@ == s
                    } else {
                        r matches Ok(RunPlan::Execute(k, x)) && k@ == key && x@ == s
                    },
                }
            }
        }),
{
    let n = scripts_len(&cfg.scripts);
    if list || (script_name.is_none() && n == 0) {
        return Ok(RunPlan::List);
    }
    let key = match script_name {
        Some(s) => s,
        None => String::from_str("start"),
    };
    if n == 0 {
        return Err(HiveError::Config(String::from_str("No scripts defined in .hive/config.yml")));
    }
    match scripts_get(&cfg.scripts, copy_string(&key)) {
        Some(s) => {
            let s = copy_script(s);
            if dry_run {
                Ok(RunPlan::DryRun(key, s))
            } else {
                Ok(RunPlan::Execute(key, s))
            }
        },
        None => {
            let available = script_keys_joined(cfg);
            let m = String::from_str("Script '").concat(key.as_str()).concat(
                "' not found.\n\n  Available: ",
            ).concat(available.as_str()).concat("\n\n  Run `hive run --list` to see all scripts.");
            Err(HiveError::Config(m))
        },
    }
}

/// The message for a multi-command script without commands.
pub open spec fn no_commands_message(key: Seq<char>) -> Seq<char> {
    "Script '"@ + key + "' has no commands"@
}

/// The processes `hive run` starts for a script: one process named after
/// the script for a single command; for several, each command named by
/// `process_label`; a script of several commands with none is an error.
pub fn run_processes(key: &str, script: &RunScript) -> (r: Result<Vec<(String, String)>, HiveError>)
    requires
        script matches RunScript::Multiple(cs) ==> cs.len() < u64::MAX,
    ensures
        match script@ {
            RunScriptView::Single(c) => r is Ok && r->Ok_0.len() == 1 && r->Ok_0@[0].0@ == key@
                && r->Ok_0@[0].1@ == c,
            RunScriptView::Multiple(cs) => if cs.len() == 0 {
                r is Err && is_config_error(r->Err_0, no_commands_message(key@))
            } else {
                r is Ok && r->Ok_0.len() == cs.len() && forall|i: int|
                    0 <= i < cs.len() ==> (#[trigger] r->Ok_0@[i]).0@ == process_label(cs[i], i as nat)
                        && r->Ok_0@[i].1@ == cs[i]
            },
        },
{
    match script {
        RunScript::Single(c) => {
            let mut v: Vec<(String, String)> = Vec::new();
            v.push((String::from_str(key), c.clone()));
            Ok(v)
        },
        RunScript::Multiple(cs) => {
            if cs.len() == 0 {
                let m = String::from_str("Script '").concat(key).concat("' has no commands");
                Err(HiveError::Config(m))
            } else {
                Ok(process_labels(cs))
            }
        },
    }
}

/// The script `hive expose` starts when nothing listens on the port: `start`
/// if there is one, else the first script.
pub open spec fn expose_script(es: Seq<(Seq<char>, RunScriptView)>) -> Option<RunScriptView> {
    match entry_get(es, "start"@) {
        Some(s) => Some(s),
        None => if es.len() > 0 {
            Some(es[0].1)
        } else {
            None
        },
    }
}

/// The command `hive expose` starts when nothing listens on the port: that
/// of the script `expose_script` picks (the first command of a
/// multi-command script); an error if there is no script, or the script has
/// no command.
pub fn expose_command(cfg: &HiveConfig) -> (r: Result<String, HiveError>)
    ensures
        match expose_script(script_entries(cfg.scripts)) {
            None => r is Err && is_config_error(r->Err_0, no_scripts_message()),
            Some(RunScriptView::Single(c)) => r matches Ok(x) && x@ == c,
            Some(RunScriptView::Multiple(cs)) => if cs.len() > 0 {
                r matches Ok(x) && x@ == cs[0]
            } else {
                r is Err && is_config_error(r->Err_0, "Script has no commands"@)
            },
        },
{
    let script = match scripts_get(&cfg.scripts, String::from_str("start")) {
        Some(s) => s,
        None => match scripts_get_index(&cfg.scripts, 0) {
            Some((_, s)) => s,
            None => {
                return Err(
                    HiveError::Config(String::from_str("No scripts defined in .hive/config.yml")),
                );
            },
        },
    };
    match script {
        RunScript::Single(c) => Ok(c.clone()),
        RunScript::Multiple(cs) => {
            if cs.len() > 0 {
                Ok(cs[0].clone())
            } else {
                Err(HiveError::Config(String::from_str("Script has no commands")))
            }
        },
    }
}

/// Adding a script and then showing it gives its command; adding it leaves
/// every other script as it was.
pub proof fn law_add_then_show(
    scripts: Seq<(Seq<char>, RunScriptView)>,
    name: Seq<char>,
    command: Seq<char>,
    other: Seq<char>,
)
    ensures
        entry_get(entry_insert(scripts, name, RunScriptView::Single(command)), name) == Some(
            RunScriptView::Single(command),
        ),
        other != name ==> entry_get(
            entry_insert(scripts, name, RunScriptView::Single(command)),
            other,
        ) == entry_get(scripts, other),
{
    lemma_entry_insert_get(scripts, name, RunScriptView::Single(command));
    if other != name {
        lemma_entry_insert_other(scripts, name, RunScriptView::Single(command), other);
    }
}

/// Removing a script and then showing it finds nothing; removing it leaves
/// every other script as it was.
pub proof fn law_remove_then_show(
    scripts: Seq<(Seq<char>, RunScriptView)>,
    name: Seq<char>,
    other: Seq<char>,
)
    ensures
        entry_get(entry_remove(scripts, name), name) is None,
        other != name ==> entry_get(entry_remove(scripts, name), other) == entry_get(scripts, other),
{
    lemma_entry_remove(scripts, name);
    if other != name {
        lemma_entry_remove_other(scripts, name, other);
    }
}

/// Lemma: removing one key keeps the first entry of every other key.
proof fn lemma_entry_remove_other(
    es: Seq<(Seq<char>, RunScriptView)>,
    name: Seq<char>,
    other: Seq<char>,
)
    requires
        other != name,
    ensures
        entry_get(entry_remove(es, name), other) == entry_get(es, other),
    decreases es.len(),
{
    if es.len() > 0 {
        let init = es.drop_last();
        lemma_entry_remove_other(init, name, other);
        lemma_entry_get_push(init, es.last(), other);
        assert(es =~= init.push(es.last()));
        let ri = entry_remove(init, name);
        if es.last().0 != name {
            lemma_entry_get_push(ri, es.last(), other);
        }
    }
}

/// Lemma: looking a key up in entries with one more at the end.
proof fn lemma_entry_get_push(
    es: Seq<(Seq<char>, RunScriptView)>,
    e: (Seq<char>, RunScriptView),
    k: Seq<char>,
)
    ensures
        entry_get(es.push(e), k) == (match entry_get(es, k) {
            Some(v) => Some(v),
            None => if e.0 == k {
                Some(e.1)
            } else {
                None
            },
        }),
{
    lemma_entry_index(es, k);
    lemma_entry_index(es.push(e), k);
    let p = es.push(e);
    match crate::maps::entry_index(es, k) {
        Some(i) => {
            assert(p[i] == es[i]);
            match crate::maps::entry_index(p, k) {
                Some(j) => {
                    if j < i {
                        assert(p[j] == es[j]);
                    } else if j > i {
                    }
                },
                None => {},
            }
        },
        None => {
            match crate::maps::entry_index(p, k) {
                Some(j) => {
                    if j < es.len() {
                        assert(p[j] == es[j]);
                    }
                },
                None => {
                    if e.0 == k {
                        assert(p[es.len() as int].0 == k);
                    }
                },
            }
        },
    }
}

} // verus!
