//! The registry of projects kept under `~/.hive/`: the entry recorded for a
//! project, the file it is kept in, and finding a project by a query.
use crate::models::{HiveConfig, RegistryEntry, copy_opt_string, copy_string, opt_view};
use crate::text::{
    alphanumeric, chars_of, contains, contains_exec, is_alphanumeric, lowercase, string_of,
    to_lowercase,
};
use vstd::prelude::*;

verus! {

/// The contents of a registry entry.
pub struct RegistryEntryView {
    pub name: Seq<char>,
    pub description: Option<Seq<char>>,
    pub framework: Option<Seq<char>>,
    pub path: Seq<char>,
    pub port: Option<u16>,
    pub created_at: Seq<char>,
    pub author: Option<Seq<char>>,
}

impl View for RegistryEntry {
    type V = RegistryEntryView;

    open spec fn view(&self) -> RegistryEntryView {
        RegistryEntryView {
            name: self.name@,
            description: opt_view(self.description),
            framework: opt_view(self.framework),
            path: self.path@,
            port: self.port,
            created_at: self.created_at@,
            author: opt_view(self.author),
        }
    }
}

/// A character of a project name as kept in a file name: letters, digits,
/// `-` and `_` stay, anything else becomes `-`.
pub open spec fn file_char(c: char) -> char {
    if alphanumeric(c) || c == '-' || c == '_' {
        c
    } else {
        '-'
    }
}

/// A project name made fit for a file name: every character kept by
/// `file_char`, then the whole lower-cased.
pub open spec fn sanitized(name: Seq<char>) -> Seq<char> {
    lowercase(name.map_values(|c: char| file_char(c)))
}

/// A project name made fit for a file name (see `sanitized`).
pub fn sanitize_name(name: &str) -> (r: String)
    ensures
        r@ == sanitized(name@),
{
    let cs = chars_of(name);
    let mut out: Vec<char> = Vec::new();
    let n = cs.len();
    for i in 0..n
        invariant
            n == cs.len(),
            cs@ == name@,
            out@ == cs@.take(i as int).map_values(|c: char| file_char(c)),
    {
        let c = cs[i];
        let keep = is_alphanumeric(c) || c == '-' || c == '_';
        if keep {
            out.push(c);
        } else {
            out.push('-');
        }
        proof {
            assert(cs@.take(i + 1) =~= cs@.take(i as int).push(c));
            assert(out@ =~= cs@.take(i + 1).map_values(|c: char| file_char(c)));
        }
    }
    proof {
        assert(cs@.take(n as int) =~= cs@);
    }
    let mapped = string_of(&out);
    to_lowercase(mapped.as_str())
}

/// The registry entry recorded for a project: its configured name,
/// description, framework and author, where it lives, its port and when it
/// was registered.
pub fn registry_entry(config: &HiveConfig, path: String, port: Option<u16>, created_at: String) -> (r:
    RegistryEntry)
    ensures
        r@.name == config.project.name@,
        r@.description == opt_view(config.project.description),
        r@.framework == opt_view(config.project.framework),
        r@.path == path@,
        r@.port == port,
        r@.created_at == created_at@,
        r@.author == opt_view(config.project.author),
{
    RegistryEntry {
        name: copy_string(&config.project.name),
        description: copy_opt_string(&config.project.description),
        framework: copy_opt_string(&config.project.framework),
        path,
        port,
        created_at,
        author: copy_opt_string(&config.project.author),
    }
}

/// The position of the last `c` in `s`.
pub open spec fn last_index_of(s: Seq<char>, c: char) -> Option<int>
    decreases s.len(),
{
    if s.len() == 0 {
        None
    } else if s.last() == c {
        Some(s.len() - 1)
    } else {
        last_index_of(s.drop_last(), c)
    }
}

/// The extension of a file name, as `Path::extension` gives it: what
/// follows the last `.`, unless there is none, it is the first character,
/// or the name is `..`.
pub open spec fn extension_of(name: Seq<char>) -> Option<Seq<char>> {
    if name == ".."@ {
        None
    } else {
        match last_index_of(name, '.') {
            None => None,
            Some(i) => if i <= 0 {
                None
            } else {
                Some(name.skip(i + 1))
            },
        }
    }
}

/// The stem of a file name, as `Path::file_stem` gives it: what precedes the
/// extension's `.`, or the whole name when it has no extension.
pub open spec fn stem_of(name: Seq<char>) -> Seq<char> {
    if name == ".."@ {
        name
    } else {
        match last_index_of(name, '.') {
            None => name,
            Some(i) => if i <= 0 {
                name
            } else {
                name.take(i)
            },
        }
    }
}

/// The position of the last `c` in `v`.
fn last_index_of_exec(v: &Vec<char>, c: char) -> (r: Option<usize>)
    ensures
        match last_index_of(v@, c) {
            Some(i) => r == Some(i as usize) && 0 <= i < v@.len(),
            None => r is None,
        },
{
    let mut i = v.len();
    assert(v@.take(i as int) =~= v@);
    while i > 0
        invariant
            i <= v.len(),
            last_index_of(v@, c) == last_index_of(v@.take(i as int), c),
        decreases i,
    {
        proof {
            assert(v@.take(i as int).drop_last() =~= v@.take(i - 1));
        }
        if v[i - 1] == c {
            return Some(i - 1);
        }
        i -= 1;
    }
    None
}

/// Whether a file in the registry directory holds a registry entry: its
/// extension is `yml`.
pub fn is_registry_file(file_name: &str) -> (r: bool)
    ensures
        r == (extension_of(file_name@) == Some("yml"@)),
{
    let v = chars_of(file_name);
    let vlen = v.len();
    if crate::text::eq(&v, &chars_of("..")) {
        return false;
    }
    match last_index_of_exec(&v, '.') {
        None => false,
        Some(i) => {
            if i == 0 {
                false
            } else {
                let ext = crate::text::slice(&v, i + 1, vlen);
                assert(ext@ =~= v@.skip(i + 1));
                crate::text::eq(&ext, &chars_of("yml"))
            }
        },
    }
}

/// The name a registry file is listed under: its stem.
pub fn registry_name(file_name: &str) -> (r: String)
    ensures
        r@ == stem_of(file_name@),
{
    let v = chars_of(file_name);
    if crate::text::eq(&v, &chars_of("..")) {
        return String::from_str(file_name);
    }
    match last_index_of_exec(&v, '.') {
        None => String::from_str(file_name),
        Some(i) => {
            if i == 0 {
                String::from_str(file_name)
            } else {
                let stem = crate::text::slice(&v, 0, i);
                assert(stem@ =~= v@.take(i as int));
                string_of(&stem)
            }
        },
    }
}

/// Whether a registry entry matches a query: the query, lower-cased,
/// occurs in the entry's lower-cased name or path.
pub open spec fn entry_matches(e: RegistryEntryView, query: Seq<char>) -> bool {
    contains(lowercase(e.name), lowercase(query)) || contains(lowercase(e.path), lowercase(query))
}

/// The position of the first entry matching the query.
pub open spec fn first_match(es: Seq<RegistryEntryView>, query: Seq<char>) -> Option<int>
    decreases es.len(),
{
    if es.len() == 0 {
        None
    } else if entry_matches(es[0], query) {
        Some(0)
    } else {
        match first_match(es.drop_first(), query) {
            Some(i) => Some(i + 1),
            None => None,
        }
    }
}

/// The contents of the entries.
pub open spec fn entries_view(es: Seq<RegistryEntry>) -> Seq<RegistryEntryView> {
    es.map_values(|e: RegistryEntry| e@)
}

/// Lemma: the position `first_match` gives is that of the first match.
pub proof fn lemma_first_match(es: Seq<RegistryEntryView>, query: Seq<char>)
    ensures
        match first_match(es, query) {
            Some(i) => 0 <= i < es.len() && entry_matches(es[i], query) && forall|j: int|
                0 <= j < i ==> !entry_matches(#[trigger] es[j], query),
            None => forall|j: int| 0 <= j < es.len() ==> !entry_matches(#[trigger] es[j], query),
        },
    decreases es.len(),
{
    if es.len() > 0 {
        lemma_first_match(es.drop_first(), query);
        assert forall|j: int| 1 <= j < es.len() implies es[j] == es.drop_first()[j - 1] by {}
    }
}

/// Whether the entry's name or path holds the lower-cased query.
fn entry_matches_exec(e: &RegistryEntry, q: &Vec<char>, query: &str) -> (r: bool)
    requires
        q@ == lowercase(query@),
    ensures
        r == entry_matches(e@, query@),
{
    let name = chars_of(to_lowercase(e.name.as_str()).as_str());
    let path = chars_of(to_lowercase(e.path.as_str()).as_str());
    contains_exec(&name, q) || contains_exec(&path, q)
}

/// The first registered project matching the query (see `entry_matches`),
/// as its position among `entries`.
pub fn find_project(entries: &Vec<RegistryEntry>, query: &str) -> (r: Option<usize>)
    ensures
        match first_match(entries_view(entries@), query@) {
            Some(i) => r == Some(i as usize),
            None => r is None,
        },
{
    let q = chars_of(to_lowercase(query).as_str());
    let ghost es = entries_view(entries@);
    proof {
        lemma_first_match(es, query@);
    }
    let n = entries.len();
    for i in 0..n
        invariant
            n == entries.len(),
            es == entries_view(entries@),
            q@ == lowercase(query@),
            forall|j: int| 0 <= j < i ==> !entry_matches(#[trigger] es[j], query@),
            match first_match(es, query@) {
                Some(k) => 0 <= k < es.len() && entry_matches(es[k], query@) && forall|j: int|
                    0 <= j < k ==> !entry_matches(#[trigger] es[j], query@),
                None => forall|j: int| 0 <= j < es.len() ==> !entry_matches(#[trigger] es[j], query@),
            },
    {
        if entry_matches_exec(&entries[i], &q, query) {
            assert(es[i as int] == entries@[i as int]@);
            proof {
                match first_match(es, query@) {
                    Some(k) => {
                        if k > i {
                            assert(!entry_matches(es[i as int], query@));
                        }
                    },
                    None => {},
                }
            }
            return Some(i);
        }
        assert(es[i as int] == entries@[i as int]@);
    }
    None
}

/// Whether a desktop-app project name matches a query: the lower-cased
/// query occurs in the lower-cased name.
pub open spec fn name_matches(name: Seq<char>, query: Seq<char>) -> bool {
    contains(lowercase(name), lowercase(query))
}

/// The first desktop-app project whose name matches the query (see
/// `name_matches`), as its position among `names`.
pub fn find_app_project(names: &Vec<String>, query: &str) -> (r: Option<usize>)
    ensures
        match r {
            Some(i) => i < names.len() && name_matches(names@[i as int]@, query@) && forall|j: int|
                0 <= j < i ==> !name_matches(#[trigger] names@[j]@, query@),
            None => forall|j: int| 0 <= j < names.len() ==> !name_matches(#[trigger] names@[j]@, query@),
        },
{
    let q = chars_of(to_lowercase(query).as_str());
    let n = names.len();
    for i in 0..n
        invariant
            n == names.len(),
            q@ == lowercase(query@),
            forall|j: int| 0 <= j < i ==> !name_matches(#[trigger] names@[j]@, query@),
    {
        let name = chars_of(to_lowercase(names[i].as_str()).as_str());
        if contains_exec(&name, &q) {
            return Some(i);
        }
    }
    None
}

/// Lemma: every text occurs in itself.
proof fn lemma_contains_self(s: Seq<char>)
    ensures
        contains(s, s),
{
    assert(s.subrange(0, s.len() as int) =~= s);
    assert(crate::text::matches_at(s, s, 0));
}

/// A registered project is always found by its own name: the first match
/// for that query is the project or one registered before it.
pub proof fn law_found_by_own_name(es: Seq<RegistryEntryView>, k: int)
    requires
        0 <= k < es.len(),
    ensures
        first_match(es, es[k].name) matches Some(i) && i <= k,
{
    lemma_contains_self(lowercase(es[k].name));
    assert(entry_matches(es[k], es[k].name));
    lemma_first_match(es, es[k].name);
}

/// A project registered under a non-empty file stem is listed back under
/// that stem: the file `STEM.yml` counts as a registry file and its stem is
/// `STEM`.
pub proof fn law_registry_file_round_trip(stem: Seq<char>)
    requires
        stem.len() > 0,
    ensures
        extension_of(stem + ".yml"@) == Some("yml"@),
        stem_of(stem + ".yml"@) == stem,
{
    reveal_strlit(".yml");
    reveal_strlit("yml");
    reveal_strlit("..");
    let f = stem + ".yml"@;
    let n = stem.len() as int;
    assert(f.len() == n + 4);
    assert(f != ".."@) by {
        assert(f.len() != ".."@.len());
    }
    assert(f.last() == 'l');
    assert(f.drop_last().last() == 'm');
    assert(f.drop_last().drop_last().last() == 'y');
    assert(f.drop_last().drop_last().drop_last().last() == '.');
    assert(last_index_of(f.drop_last().drop_last().drop_last(), '.') == Some(n));
    assert(last_index_of(f.drop_last().drop_last(), '.') == Some(n));
    assert(last_index_of(f.drop_last(), '.') == Some(n));
    assert(last_index_of(f, '.') == Some(n));
    assert(f.skip(n + 1) =~= "yml"@);
    assert(f.take(n) =~= stem);
}

} // verus!
