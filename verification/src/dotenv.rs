//! `KEY=value` files (`.hive/.env`, `.hive/.secrets`): reading a key,
//! setting it, removing it, and the views `hive env` and `hive secrets`
//! print.
use crate::text::{
    chars_of, eq, has_char, index_of, is_ws, join_lines, join_lines_exec, lemma_index_of,
    lemma_index_of_after, lemma_index_of_unique, lemma_lines_join, lemma_lines_no_nl,
    lemma_trim_bounds, lemma_trim_skip_ws, lemma_trim_strip_cr, lemma_trim_take_ws,
    lemma_trimmed_ends, lines, lines_exec, split_once, split_once_exec, string_of, strip_cr, trim,
    trim_bounds, trim_char, trim_char_exec, trim_exec, views, terminated,
};
use vstd::prelude::*;

verus! {

// ---------------------------------------------------------------------------
// Specification
// ---------------------------------------------------------------------------

/// The key of a `KEY=value` line: the text before the first `=`, trimmed.
pub open spec fn line_key(l: Seq<char>) -> Option<Seq<char>> {
    match split_once(l, '=') {
        Some((k, _)) => Some(trim(k)),
        None => None,
    }
}

/// Whether a line, read back, holds an entry: after trimming it is neither
/// empty nor a `#` comment.
pub open spec fn is_entry(l: Seq<char>) -> bool {
    let t = trim(l);
    t.len() > 0 && t[0] != '#'
}

/// The value a reader takes from the text after `=`: trimmed, then without
/// surrounding double quotes, then without surrounding single quotes.
pub open spec fn value_text(v: Seq<char>) -> Seq<char> {
    trim_char(trim_char(trim(v), '"'), '\'')
}

/// What a line says of `key` when read: its value if it is an entry for `key`.
pub open spec fn lookup_line(l: Seq<char>, key: Seq<char>) -> Option<Seq<char>> {
    let t = trim(l);
    if is_entry(l) && line_key(t) == Some(key) {
        Some(value_text(split_once(t, '=').unwrap().1))
    } else {
        None
    }
}

/// The value of `key` in a list of lines: that of the first entry for it.
pub open spec fn lookup_lines(ls: Seq<Seq<char>>, key: Seq<char>) -> Option<Seq<char>>
    decreases ls.len(),
{
    if ls.len() == 0 {
        None
    } else {
        match lookup_line(ls[0], key) {
            Some(v) => Some(v),
            None => lookup_lines(ls.drop_first(), key),
        }
    }
}

/// The value of `key` in the file `content`.
pub open spec fn find_key_spec(content: Seq<char>, key: Seq<char>) -> Option<Seq<char>> {
    lookup_lines(lines(content), key)
}

/// Whether writing `key` replaces the line `l`: it is not a `#` comment, not
/// blank, and its key is `key`.
pub open spec fn replaces(l: Seq<char>, key: Seq<char>) -> bool {
    !(l.len() > 0 && l[0] == '#') && trim(l).len() > 0 && line_key(l) == Some(key)
}

/// The line `key=val`.
pub open spec fn assignment(key: Seq<char>, val: Seq<char>) -> Seq<char> {
    key + seq!['='] + val
}

/// The line `l` after writing `key=val`.
pub open spec fn set_line(l: Seq<char>, key: Seq<char>, val: Seq<char>) -> Seq<char> {
    if replaces(l, key) {
        assignment(key, val)
    } else {
        l
    }
}

/// Whether some line is replaced by writing `key`.
pub open spec fn any_replaced(ls: Seq<Seq<char>>, key: Seq<char>) -> bool {
    exists|i: int| 0 <= i < ls.len() && replaces(ls[i], key)
}

/// The lines after writing `key=val`: every line for `key` replaced, or the
/// assignment added at the end if there was none.
pub open spec fn set_lines(ls: Seq<Seq<char>>, key: Seq<char>, val: Seq<char>) -> Seq<Seq<char>> {
    let mapped = ls.map_values(|l: Seq<char>| set_line(l, key, val));
    if any_replaced(ls, key) {
        mapped
    } else {
        mapped.push(assignment(key, val))
    }
}

/// The file `content` after writing `key=val`.
pub open spec fn set_key_spec(content: Seq<char>, key: Seq<char>, val: Seq<char>) -> Seq<char> {
    join_lines(set_lines(lines(content), key, val))
}

/// The lines without those whose key is `key`.
pub open spec fn remove_lines(ls: Seq<Seq<char>>, key: Seq<char>) -> Seq<Seq<char>>
    decreases ls.len(),
{
    if ls.len() == 0 {
        ls
    } else {
        let rest = remove_lines(ls.drop_last(), key);
        if line_key(ls.last()) == Some(key) {
            rest
        } else {
            rest.push(ls.last())
        }
    }
}

/// The file `content` after removing `key`.
pub open spec fn remove_key_spec(content: Seq<char>, key: Seq<char>) -> Seq<char> {
    join_lines(remove_lines(lines(content), key))
}

// ---------------------------------------------------------------------------
// Implementation
// ---------------------------------------------------------------------------

/// The value text of what follows `=`.
fn value_text_exec(v: &Vec<char>) -> (r: Vec<char>)
    ensures
        r@ == value_text(v@),
{
    let t = trim_exec(v);
    let t = trim_char_exec(&t, '"');
    trim_char_exec(&t, '\'')
}

/// The key of a line, if it has a `=`.
fn line_key_exec(l: &Vec<char>) -> (r: Option<Vec<char>>)
    ensures
        match line_key(l@) {
            Some(k) => r matches Some(x) && x@ == k,
            None => r is None,
        },
{
    match split_once_exec(l, '=') {
        Some((k, _)) => Some(trim_exec(&k)),
        None => None,
    }
}

/// What line `l` says of `key` when read.
fn lookup_line_exec(l: &Vec<char>, key: &Vec<char>) -> (r: Option<Vec<char>>)
    ensures
        match lookup_line(l@, key@) {
            Some(v) => r matches Some(x) && x@ == v,
            None => r is None,
        },
{
    let t = trim_exec(l);
    if t.len() == 0 || t[0] == '#' {
        return None;
    }
    match split_once_exec(&t, '=') {
        Some((k, v)) => {
            let k = trim_exec(&k);
            if eq(&k, key) {
                Some(value_text_exec(&v))
            } else {
                None
            }
        },
        None => None,
    }
}

/// The value of `key` in the `KEY=value` file `content`: that of the first
/// line (trimmed, not blank, not a `#` comment) whose text before the first
/// `=`, trimmed, is `key`; the value is the text after the `=`, trimmed and
/// stripped of surrounding double, then single, quotes.
pub fn find_key(content: &str, key: &str) -> (r: Option<String>)
    ensures
        match find_key_spec(content@, key@) {
            Some(v) => r matches Some(x) && x@ == v,
            None => r is None,
        },
{
    let c = chars_of(content);
    let k = chars_of(key);
    let ls = lines_exec(&c);
    let n = ls.len();
    proof {
        assert(views(ls@).skip(0) =~= views(ls@));
    }
    for i in 0..n
        invariant
            n == ls.len(),
            k@ == key@,
            lookup_lines(views(ls@), k@) == lookup_lines(views(ls@).skip(i as int), k@),
            views(ls@) == lines(content@),
    {
        proof {
            let s = views(ls@).skip(i as int);
            assert(s.drop_first() =~= views(ls@).skip(i + 1));
            assert(s[0] == ls@[i as int]@);
        }
        match lookup_line_exec(&ls[i], &k) {
            Some(v) => {
                return Some(string_of(&v));
            },
            None => {},
        }
    }
    proof {
        assert(views(ls@).skip(n as int) =~= Seq::<Seq<char>>::empty());
    }
    None
}

/// Whether writing `key` replaces the line `l`.
fn replaces_exec(l: &Vec<char>, key: &Vec<char>) -> (r: bool)
    ensures
        r == replaces(l@, key@),
{
    if l.len() > 0 && l[0] == '#' {
        return false;
    }
    let t = trim_exec(l);
    if t.len() == 0 {
        return false;
    }
    match line_key_exec(l) {
        Some(k) => eq(&k, key),
        None => false,
    }
}

/// The line `key=val`.
fn assignment_exec(key: &Vec<char>, val: &Vec<char>) -> (r: Vec<char>)
    ensures
        r@ == assignment(key@, val@),
{
    let mut r = crate::text::slice(key, 0, key.len());
    r.push('=');
    let r = crate::text::concat(&r, val);
    proof {
        assert(key@.subrange(0, key@.len() as int) =~= key@);
    }
    r
}

/// The `KEY=value` file `content` with `key` set to `val`: every line that
/// is not a `#` comment (as written), not blank, and whose key is `key`
/// becomes `key=val`; if there was none, `key=val` is added at the end. The
/// lines are joined with `\n` and the file ends with `\n`.
pub fn set_key(content: &str, key: &str, val: &str) -> (r: String)
    ensures
        r@ == set_key_spec(content@, key@, val@),
{
    let c = chars_of(content);
    let k = chars_of(key);
    let v = chars_of(val);
    let ls = lines_exec(&c);
    let n = ls.len();
    let mut out: Vec<Vec<char>> = Vec::new();
    let mut found = false;
    let ghost lsv = views(ls@);
    for i in 0..n
        invariant
            n == ls.len(),
            lsv == views(ls@),
            k@ == key@,
            v@ == val@,
            views(out@) == lsv.take(i as int).map_values(|l: Seq<char>| set_line(l, key@, val@)),
            found == any_replaced(lsv.take(i as int), key@),
    {
        let ghost before = views(out@);
        let line = &ls[i];
        if replaces_exec(line, &k) {
            found = true;
            out.push(assignment_exec(&k, &v));
        } else {
            out.push(crate::text::slice(line, 0, line.len()));
            proof {
                assert(line@.subrange(0, line@.len() as int) =~= line@);
            }
        }
        proof {
            let t1 = lsv.take(i + 1);
            assert(t1 =~= lsv.take(i as int).push(lsv[i as int]));
            assert(lsv[i as int] == line@);
            assert(views(out@) =~= before.push(set_line(line@, key@, val@)));
            assert(t1.map_values(|l: Seq<char>| set_line(l, key@, val@)) =~= lsv.take(
                i as int,
            ).map_values(|l: Seq<char>| set_line(l, key@, val@)).push(
                set_line(line@, key@, val@),
            ));
            if replaces(line@, key@) {
                assert(t1[i as int] == line@);
            } else {
                if any_replaced(t1, key@) {
                    let j = choose|j: int| 0 <= j < t1.len() && replaces(t1[j], key@);
                    if j < i {
                        assert(lsv.take(i as int)[j] == t1[j]);
                    }
                }
                if any_replaced(lsv.take(i as int), key@) {
                    let j = choose|j: int|
                        0 <= j < lsv.take(i as int).len() && replaces(lsv.take(i as int)[j], key@);
                    assert(t1[j] == lsv.take(i as int)[j]);
                }
            }
        }
    }
    proof {
        assert(lsv.take(n as int) =~= lsv);
    }
    let ghost mapped = views(out@);
    if !found {
        out.push(assignment_exec(&k, &v));
        proof {
            assert(views(out@) =~= mapped.push(assignment(key@, val@)));
        }
    }
    assert(views(out@) == set_lines(lsv, key@, val@));
    let joined = join_lines_exec(&out);
    string_of(&joined)
}

/// The `KEY=value` file `content` without the lines whose key (the text
/// before the first `=`, trimmed) is `key`, comments included. The lines are
/// joined with `\n` and the file ends with `\n`.
pub fn remove_key(content: &str, key: &str) -> (r: String)
    ensures
        r@ == remove_key_spec(content@, key@),
{
    let c = chars_of(content);
    let k = chars_of(key);
    let ls = lines_exec(&c);
    let n = ls.len();
    let mut out: Vec<Vec<char>> = Vec::new();
    let ghost lsv = views(ls@);
    for i in 0..n
        invariant
            n == ls.len(),
            lsv == views(ls@),
            k@ == key@,
            views(out@) == remove_lines(lsv.take(i as int), key@),
    {
        let ghost before = views(out@);
        let line = &ls[i];
        let drop = match line_key_exec(line) {
            Some(lk) => eq(&lk, &k),
            None => false,
        };
        proof {
            let t1 = lsv.take(i + 1);
            assert(t1.drop_last() =~= lsv.take(i as int));
            assert(t1.last() == line@);
        }
        if !drop {
            out.push(crate::text::slice(line, 0, line.len()));
            proof {
                assert(line@.subrange(0, line@.len() as int) =~= line@);
                assert(views(out@) =~= before.push(line@));
            }
        }
    }
    proof {
        assert(lsv.take(n as int) =~= lsv);
    }
    let joined = join_lines_exec(&out);
    string_of(&joined)
}



// ---------------------------------------------------------------------------
// Listing and exporting
// ---------------------------------------------------------------------------

/// One line of a listing of an env file.
#[derive(Debug)]
pub enum EnvLine {
    /// A blank line.
    Blank,
    /// A `#` comment, trimmed.
    Comment(String),
    /// A `KEY=value` line: the text before and after the first `=` of the
    /// trimmed line.
    Pair(String, String),
}

/// The contents of a listing line.
pub enum EnvLineView {
    Blank,
    Comment(Seq<char>),
    Pair(Seq<char>, Seq<char>),
}

impl View for EnvLine {
    type V = EnvLineView;

    open spec fn view(&self) -> EnvLineView {
        match self {
            EnvLine::Blank => EnvLineView::Blank,
            EnvLine::Comment(c) => EnvLineView::Comment(c@),
            EnvLine::Pair(k, v) => EnvLineView::Pair(k@, v@),
        }
    }
}

/// How a line of an env file is listed (nothing for a line that is neither
/// blank, a comment, nor holds a `=`).
pub open spec fn listed_line(l: Seq<char>) -> Option<EnvLineView> {
    let t = trim(l);
    if t.len() == 0 {
        Some(EnvLineView::Blank)
    } else if t[0] == '#' {
        Some(EnvLineView::Comment(t))
    } else {
        match split_once(t, '=') {
            Some((k, v)) => Some(EnvLineView::Pair(k, v)),
            None => None,
        }
    }
}

/// The listing of a sequence of lines.
pub open spec fn listed_lines(ls: Seq<Seq<char>>) -> Seq<EnvLineView>
    decreases ls.len(),
{
    if ls.len() == 0 {
        Seq::empty()
    } else {
        let rest = listed_lines(ls.drop_last());
        match listed_line(ls.last()) {
            Some(e) => rest.push(e),
            None => rest,
        }
    }
}

/// The export statement for a line of a secrets file, if it has a value:
/// `export KEY="value"` with key and value trimmed.
pub open spec fn export_line(l: Seq<char>) -> Option<Seq<char>> {
    let t = trim(l);
    if t.len() == 0 || t[0] == '#' {
        None
    } else {
        match split_once(t, '=') {
            Some((k, v)) => if v.len() == 0 {
                None
            } else {
                Some("export "@ + trim(k) + "=\""@ + trim(v) + "\""@)
            },
            None => None,
        }
    }
}

/// The export statements of a sequence of lines.
pub open spec fn export_lines_of(ls: Seq<Seq<char>>) -> Seq<Seq<char>>
    decreases ls.len(),
{
    if ls.len() == 0 {
        Seq::empty()
    } else {
        let rest = export_lines_of(ls.drop_last());
        match export_line(ls.last()) {
            Some(e) => rest.push(e),
            None => rest,
        }
    }
}

/// The listing of an env file, line by line (`hive env`, `hive secrets`).
pub fn list_entries(content: &str) -> (r: Vec<EnvLine>)
    ensures
        r@.map_values(|e: EnvLine| e@) == listed_lines(lines(content@)),
{
    let c = chars_of(content);
    let ls = lines_exec(&c);
    let n = ls.len();
    let ghost lsv = views(ls@);
    let mut out: Vec<EnvLine> = Vec::new();
    for i in 0..n
        invariant
            n == ls.len(),
            lsv == views(ls@),
            lsv == lines(content@),
            out@.map_values(|e: EnvLine| e@) == listed_lines(lsv.take(i as int)),
    {
        let ghost before = out@;
        let t = trim_exec(&ls[i]);
        proof {
            let t1 = lsv.take(i + 1);
            assert(t1.drop_last() =~= lsv.take(i as int));
            assert(t1.last() == ls@[i as int]@);
        }
        if t.len() == 0 {
            out.push(EnvLine::Blank);
            proof {
                assert(out@.map_values(|e: EnvLine| e@) =~= before.map_values(|e: EnvLine| e@).push(
                    EnvLineView::Blank,
                ));
            }
        } else if t[0] == '#' {
            let tv = string_of(&t);
            let ghost e = EnvLineView::Comment(tv@);
            out.push(EnvLine::Comment(tv));
            proof {
                assert(out@.map_values(|e: EnvLine| e@) =~= before.map_values(|e: EnvLine| e@).push(e));
            }
        } else {
            match split_once_exec(&t, '=') {
                Some((k, v)) => {
                    let ks = string_of(&k);
                    let vs = string_of(&v);
                    let ghost e = EnvLineView::Pair(ks@, vs@);
                    out.push(EnvLine::Pair(ks, vs));
                    proof {
                        assert(out@.map_values(|e: EnvLine| e@) =~= before.map_values(
                            |e: EnvLine| e@,
                        ).push(e));
                    }
                },
                None => {},
            }
        }
    }
    proof {
        assert(lsv.take(n as int) =~= lsv);
    }
    out
}

/// One line of the masked listing of a secrets file: a value is never
/// shown, only whether there is one.
#[derive(Debug, PartialEq, Eq)]
pub enum SecretLine {
    /// A blank line.
    Blank,
    /// A `#` comment, trimmed.
    Comment(String),
    /// A `KEY=value` line: its key, and whether its value is non-empty.
    Masked(String, bool),
}

/// The contents of a masked listing line.
pub enum SecretLineView {
    Blank,
    Comment(Seq<char>),
    Masked(Seq<char>, bool),
}

/// The contents of a masked listing line.
pub open spec fn secret_line_view(l: SecretLine) -> SecretLineView {
    match l {
        SecretLine::Blank => SecretLineView::Blank,
        SecretLine::Comment(c) => SecretLineView::Comment(c@),
        SecretLine::Masked(k, has) => SecretLineView::Masked(k@, has),
    }
}

/// A listing line with its value masked.
pub open spec fn masked(e: EnvLineView) -> SecretLineView {
    match e {
        EnvLineView::Blank => SecretLineView::Blank,
        EnvLineView::Comment(c) => SecretLineView::Comment(c),
        EnvLineView::Pair(k, v) => SecretLineView::Masked(k, v.len() > 0),
    }
}

/// The listing of a secrets file (`hive secrets`): the lines of
/// `list_entries`, each value replaced by whether it is non-empty.
pub fn secret_listing(content: &str) -> (r: Vec<SecretLine>)
    ensures
        r@.map_values(|l: SecretLine| secret_line_view(l)) == listed_lines(lines(content@)).map_values(
            |e: EnvLineView| masked(e),
        ),
{
    let es = list_entries(content);
    let ghost ev = es@.map_values(|e: EnvLine| e@);
    let mut out: Vec<SecretLine> = Vec::new();
    let n = es.len();
    for i in 0..n
        invariant
            n == es.len(),
            ev == es@.map_values(|e: EnvLine| e@),
            out.len() == i,
            out@.map_values(|l: SecretLine| secret_line_view(l)) == ev.map_values(
                |e: EnvLineView| masked(e),
            ).take(i as int),
    {
        let line = match &es[i] {
            EnvLine::Blank => SecretLine::Blank,
            EnvLine::Comment(c) => SecretLine::Comment(c.clone()),
            EnvLine::Pair(k, v) => SecretLine::Masked(k.clone(), v.unicode_len() > 0),
        };
        out.push(line);
        assert(out@.map_values(|l: SecretLine| secret_line_view(l)) =~= ev.map_values(
            |e: EnvLineView| masked(e),
        ).take(i + 1));
    }
    assert(ev.map_values(|e: EnvLineView| masked(e)).take(n as int) =~= ev.map_values(
        |e: EnvLineView| masked(e),
    ));
    out
}

/// The shell export statements for the entries of a secrets file that have
/// a value, in order: `export KEY="value"` (`hive secrets export`).
pub fn export_lines(content: &str) -> (r: Vec<String>)
    ensures
        r@.map_values(|s: String| s@) == export_lines_of(lines(content@)),
{
    let c = chars_of(content);
    let ls = lines_exec(&c);
    let n = ls.len();
    let ghost lsv = views(ls@);
    let mut out: Vec<String> = Vec::new();
    for i in 0..n
        invariant
            n == ls.len(),
            lsv == views(ls@),
            lsv == lines(content@),
            out@.map_values(|s: String| s@) == export_lines_of(lsv.take(i as int)),
    {
        let ghost before = out@;
        let t = trim_exec(&ls[i]);
        proof {
            let t1 = lsv.take(i + 1);
            assert(t1.drop_last() =~= lsv.take(i as int));
            assert(t1.last() == ls@[i as int]@);
        }
        if t.len() > 0 && t[0] != '#' {
            match split_once_exec(&t, '=') {
                Some((k, v)) => {
                    if v.len() > 0 {
                        let kt = string_of(&trim_exec(&k));
                        let vt = string_of(&trim_exec(&v));
                        let line = String::from_str("export ").concat(kt.as_str()).concat(
                            "=\"",
                        ).concat(vt.as_str()).concat("\"");
                        let ghost e = line@;
                        out.push(line);
                        proof {
                            assert(out@.map_values(|s: String| s@) =~= before.map_values(
                                |s: String| s@,
                            ).push(e));
                        }
                    }
                },
                None => {},
            }
        }
    }
    proof {
        assert(lsv.take(n as int) =~= lsv);
    }
    out
}

// ---------------------------------------------------------------------------
// Laws
// ---------------------------------------------------------------------------

/// Whether `key` can be written and read back: it holds no `=` and no
/// newline, has no surrounding whitespace, and does not start with `#`.
pub open spec fn writable_key(key: Seq<char>) -> bool {
    &&& !has_char(key, '=')
    &&& !has_char(key, '\n')
    &&& trim(key) == key
    &&& !(key.len() > 0 && key[0] == '#')
}

/// Lemma: the key of a line does not depend on surrounding whitespace.
pub proof fn lemma_line_key_trim(l: Seq<char>)
    ensures
        line_key(trim(l)) == line_key(l),
{
    let (a, b) = lemma_trim_bounds(l);
    let t = l.subrange(a, b);
    assert(!is_ws('='));
    lemma_index_of(t, '=');
    lemma_index_of(l, '=');
    match index_of(t, '=') {
        Some(q) => {
            assert forall|j: int| 0 <= j < a + q implies l[j] != '=' by {
                if j >= a {
                    assert(l[j] == t[j - a]);
                }
            }
            assert(l[a + q] == t[q]);
            lemma_index_of_unique(l, '=', a + q);
            let kl = l.take(a + q);
            assert forall|j: int| 0 <= j < a implies is_ws(kl[j]) by {}
            lemma_trim_skip_ws(kl, a);
            assert(kl.skip(a) =~= t.take(q));
        },
        None => {
            match index_of(l, '=') {
                Some(p) => {
                    if a <= p < b {
                        assert(t[p - a] == l[p]);
                    }
                },
                None => {},
            }
        },
    }
}

/// Lemma: for a writable key, a line is replaced by writing the key exactly
/// when reading it finds the key there.
pub proof fn lemma_replaces_iff_lookup(l: Seq<char>, key: Seq<char>)
    requires
        writable_key(key),
    ensures
        replaces(l, key) <==> lookup_line(l, key) is Some,
{
    lemma_line_key_trim(l);
    let (a, b) = lemma_trim_bounds(l);
    assert(!is_ws('#'));
    assert(!is_ws('='));
    if l.len() > 0 && l[0] == '#' {
        assert(a == 0);
        assert(b > 0);
        assert(trim(l)[0] == '#');
    } else if trim(l).len() > 0 && trim(l)[0] == '#' && line_key(l) == Some(key) {
        assert(l[a] == '#');
        lemma_index_of(l, '=');
        let p = index_of(l, '=').unwrap();
        assert(p > a) by {
            if p < a {
                assert(is_ws(l[p]));
            }
        }
        let kl = l.take(p);
        assert forall|j: int| 0 <= j < a implies is_ws(kl[j]) by {}
        lemma_trim_skip_ws(kl, a);
        let y = kl.skip(a);
        assert(y[0] == '#');
        let (c, d) = lemma_trim_bounds(y);
        assert(c == 0) by {
            if c > 0 {
                assert(is_ws(y[0]));
            }
        }
        assert(d > 0) by {
            if d == 0 {
                assert(is_ws(y[0]));
            }
        }
        assert(trim(y)[0] == '#');
        assert(key[0] == '#');
    }
}

/// Lemma: the assignment line reads back as the written value, and holds no
/// other key.
pub proof fn lemma_assignment_lookup(key: Seq<char>, val: Seq<char>, other: Seq<char>)
    requires
        writable_key(key),
        !has_char(val, '\n'),
        other != key,
    ensures
        lookup_line(assignment(key, val), key) == Some(value_text(val)),
        lookup_line(assignment(key, val), other) is None,
        !has_char(assignment(key, val), '\n'),
{
    let m = assignment(key, val);
    let n = key.len() as int;
    assert(!is_ws('='));
    assert(!is_ws('#'));
    assert(m[n] == '=');
    assert forall|j: int| 0 <= j < n implies m[j] != '=' by {
        assert(m[j] == key[j]);
    }
    lemma_index_of_unique(m, '=', n);
    assert(m.take(n) =~= key);
    assert(m.skip(n + 1) =~= val);
    assert(line_key(m) == Some(key));
    lemma_line_key_trim(m);
    let (a, b) = lemma_trim_bounds(m);
    if n > 0 {
        lemma_trimmed_ends(key);
        assert(m[0] == key[0]);
    }
    assert(a == 0) by {
        if a > 0 {
            assert(is_ws(m[0]));
        }
    }
    assert(b > n) by {
        if b <= n {
            assert(is_ws(m[n]));
        }
    }
    let t = trim(m);
    assert(t == m.subrange(0, b));
    assert(t[0] == m[0]);
    assert forall|j: int| 0 <= j < n implies t[j] != '=' by {
        assert(t[j] == m[j]);
    }
    assert(t[n] == '=');
    lemma_index_of_unique(t, '=', n);
    let v = t.skip(n + 1);
    assert(v =~= val.take(b - n - 1));
    assert forall|j: int| b - n - 1 <= j < val.len() implies is_ws(val[j]) by {
        assert(val[j] == m[j + n + 1]);
    }
    lemma_trim_take_ws(val, b - n - 1);
    assert forall|j: int| 0 <= j < m.len() implies m[j] != '\n' by {
        if j < n {
            assert(m[j] == key[j]);
        } else if j > n {
            assert(m[j] == val[j - n - 1]);
        }
    }
}

/// Lemma: reading a line without its trailing carriage return reads the same.
pub proof fn lemma_lookup_strip_cr(l: Seq<char>, key: Seq<char>)
    ensures
        lookup_line(strip_cr(l), key) == lookup_line(l, key),
{
    lemma_trim_strip_cr(l);
}

/// Lemma: reading one more line at the end.
pub proof fn lemma_lookup_push(ls: Seq<Seq<char>>, l: Seq<char>, key: Seq<char>)
    ensures
        lookup_lines(ls.push(l), key) == (match lookup_lines(ls, key) {
            Some(v) => Some(v),
            None => lookup_line(l, key),
        }),
    decreases ls.len(),
{
    if ls.len() == 0 {
        assert(ls.push(l).drop_first() =~= Seq::<Seq<char>>::empty());
    } else {
        assert(ls.push(l).drop_first() =~= ls.drop_first().push(l));
        lemma_lookup_push(ls.drop_first(), l, key);
    }
}

/// Lemma: lines that read alike, position by position, read alike together.
pub proof fn lemma_lookup_same(xs: Seq<Seq<char>>, ys: Seq<Seq<char>>, key: Seq<char>)
    requires
        xs.len() == ys.len(),
        forall|i: int| 0 <= i < xs.len() ==> lookup_line(#[trigger] xs[i], key) == lookup_line(ys[i], key),
    ensures
        lookup_lines(xs, key) == lookup_lines(ys, key),
    decreases xs.len(),
{
    if xs.len() > 0 {
        assert forall|i: int| 0 <= i < xs.drop_first().len() implies lookup_line(
            #[trigger] xs.drop_first()[i],
            key,
        ) == lookup_line(ys.drop_first()[i], key) by {
            assert(xs.drop_first()[i] == xs[i + 1]);
            assert(ys.drop_first()[i] == ys[i + 1]);
        }
        assert(lookup_line(xs[0], key) == lookup_line(ys[0], key));
        lemma_lookup_same(xs.drop_first(), ys.drop_first(), key);
    }
}

/// Lemma: lines of which some read `v` for the key and the others nothing
/// read `v` together.
pub proof fn lemma_lookup_found(xs: Seq<Seq<char>>, key: Seq<char>, v: Seq<char>)
    requires
        forall|i: int| 0 <= i < xs.len() ==> (lookup_line(#[trigger] xs[i], key) is None
            || lookup_line(xs[i], key) == Some(v)),
        exists|i: int| 0 <= i < xs.len() && lookup_line(#[trigger] xs[i], key) == Some(v),
    ensures
        lookup_lines(xs, key) == Some(v),
    decreases xs.len(),
{
    if lookup_line(xs[0], key) is None {
        let ys = xs.drop_first();
        let k = choose|i: int| 0 <= i < xs.len() && lookup_line(#[trigger] xs[i], key) == Some(v);
        assert(k > 0);
        assert(ys[k - 1] == xs[k]);
        assert forall|i: int| 0 <= i < ys.len() implies (lookup_line(#[trigger] ys[i], key) is None
            || lookup_line(ys[i], key) == Some(v)) by {
            assert(ys[i] == xs[i + 1]);
        }
        lemma_lookup_found(ys, key, v);
    }
}

/// Lemma: reading the file that joining the lines `ls` gives reads as `ls`.
pub proof fn lemma_lookup_joined(ls: Seq<Seq<char>>, key: Seq<char>)
    requires
        forall|i: int| 0 <= i < ls.len() ==> !has_char(#[trigger] ls[i], '\n'),
    ensures
        lookup_lines(lines(join_lines(ls)), key) == lookup_lines(ls, key),
{
    lemma_lines_join(ls);
    if ls.len() > 0 {
        let xs = ls.map_values(|l: Seq<char>| strip_cr(l));
        assert forall|i: int| 0 <= i < xs.len() implies lookup_line(#[trigger] xs[i], key)
            == lookup_line(ls[i], key) by {
            lemma_lookup_strip_cr(ls[i], key);
        }
        lemma_lookup_same(xs, ls, key);
    } else {
        let e = Seq::<char>::empty();
        assert(trim(e) =~= e);
        let one = seq![e];
        assert(one.drop_first() =~= Seq::<Seq<char>>::empty());
        assert(lookup_line(one[0], key) is None);
        assert(lookup_lines(Seq::<Seq<char>>::empty(), key) is None);
        assert(lookup_lines(one, key) == lookup_lines(one.drop_first(), key));
        assert(lines(join_lines(ls)) == one);
        assert(lookup_lines(ls, key) is None);
    }
}

/// Lemma: what removing `key` leaves reads nothing for `key`, and reads
/// every other key as before.
pub proof fn lemma_lookup_remove(ls: Seq<Seq<char>>, key: Seq<char>, other: Seq<char>)
    ensures
        lookup_lines(remove_lines(ls, key), key) is None,
        other != key ==> lookup_lines(remove_lines(ls, key), other) == lookup_lines(ls, other),
    decreases ls.len(),
{
    if ls.len() > 0 {
        let init = ls.drop_last();
        let l = ls.last();
        lemma_lookup_remove(init, key, other);
        assert(ls =~= init.push(l));
        lemma_lookup_push(init, l, other);
        lemma_lookup_push(remove_lines(init, key), l, key);
        lemma_lookup_push(remove_lines(init, key), l, other);
        lemma_line_key_trim(l);
        if line_key(l) == Some(key) {
            assert(lookup_line(l, other) is None || other == key);
        }
    } else {
        assert(lookup_lines(ls, key) is None);
    }
}

/// Lemma: every line of a file, and of what writing a key to it gives, is
/// free of newlines.
proof fn lemma_set_lines_no_nl(ls: Seq<Seq<char>>, key: Seq<char>, val: Seq<char>)
    requires
        writable_key(key),
        !has_char(val, '\n'),
        forall|i: int| 0 <= i < ls.len() ==> !has_char(#[trigger] ls[i], '\n'),
    ensures
        forall|i: int|
            0 <= i < set_lines(ls, key, val).len() ==> !has_char(
                #[trigger] set_lines(ls, key, val)[i],
                '\n',
            ),
{
    let other = if key.len() == 0 { seq!['x'] } else { Seq::<char>::empty() };
    lemma_assignment_lookup(key, val, other);
    let new = set_lines(ls, key, val);
    assert forall|i: int| 0 <= i < new.len() implies !has_char(#[trigger] new[i], '\n') by {
        if i < ls.len() {
            assert(new[i] == set_line(ls[i], key, val));
        }
    }
}

/// Reading a key back after writing it: once `key=val` is written to an env
/// file, looking `key` up gives `val` (trimmed and unquoted), whatever the
/// file held before. The key must hold no `=` or newline, have no
/// surrounding whitespace and not start with `#`; the value must hold no
/// newline.
pub proof fn law_set_then_find(content: Seq<char>, key: Seq<char>, val: Seq<char>)
    requires
        writable_key(key),
        !has_char(val, '\n'),
    ensures
        find_key_spec(set_key_spec(content, key, val), key) == Some(value_text(val)),
{
    let ls = lines(content);
    lemma_lines_no_nl(content);
    lemma_set_lines_no_nl(ls, key, val);
    let new = set_lines(ls, key, val);
    lemma_lookup_joined(new, key);
    let other = if key.len() == 0 { seq!['x'] } else { Seq::<char>::empty() };
    lemma_assignment_lookup(key, val, other);
    let v = value_text(val);
    assert forall|i: int| 0 <= i < new.len() implies (lookup_line(#[trigger] new[i], key) is None
        || lookup_line(new[i], key) == Some(v)) by {
        if i < ls.len() {
            lemma_replaces_iff_lookup(ls[i], key);
        }
    }
    if any_replaced(ls, key) {
        let i = choose|i: int| 0 <= i < ls.len() && replaces(ls[i], key);
        assert(new[i] == assignment(key, val));
    } else {
        assert(new[ls.len() as int] == assignment(key, val));
    }
    lemma_lookup_found(new, key, v);
}

/// Writing one key leaves every other key as it was: after `key=val` is
/// written, looking up any other key gives what it gave before. The key must
/// hold no `=` or newline, have no surrounding whitespace and not start with
/// `#`; the value must hold no newline.
pub proof fn law_set_keeps_others(
    content: Seq<char>,
    key: Seq<char>,
    val: Seq<char>,
    other: Seq<char>,
)
    requires
        writable_key(key),
        !has_char(val, '\n'),
        other != key,
    ensures
        find_key_spec(set_key_spec(content, key, val), other) == find_key_spec(content, other),
{
    let ls = lines(content);
    lemma_lines_no_nl(content);
    lemma_set_lines_no_nl(ls, key, val);
    let new = set_lines(ls, key, val);
    lemma_lookup_joined(new, other);
    lemma_assignment_lookup(key, val, other);
    let mapped = ls.map_values(|l: Seq<char>| set_line(l, key, val));
    assert forall|i: int| 0 <= i < mapped.len() implies lookup_line(#[trigger] mapped[i], other)
        == lookup_line(ls[i], other) by {
        if replaces(ls[i], key) {
            lemma_line_key_trim(ls[i]);
        }
    }
    lemma_lookup_same(mapped, ls, other);
    if !any_replaced(ls, key) {
        lemma_lookup_push(mapped, assignment(key, val), other);
    }
}

/// Removing a key removes it: after `key` is removed from an env file,
/// looking it up finds nothing, and every other key reads as before.
pub proof fn law_remove_then_find(content: Seq<char>, key: Seq<char>, other: Seq<char>)
    ensures
        find_key_spec(remove_key_spec(content, key), key) is None,
        other != key ==> find_key_spec(remove_key_spec(content, key), other) == find_key_spec(
            content,
            other,
        ),
{
    let ls = lines(content);
    lemma_lines_no_nl(content);
    let kept = remove_lines(ls, key);
    lemma_remove_lines_subseq(ls, key);
    lemma_lookup_joined(kept, key);
    lemma_lookup_joined(kept, other);
    lemma_lookup_remove(ls, key, other);
}

/// Lemma: removing lines keeps only lines that were there before.
proof fn lemma_remove_lines_subseq(ls: Seq<Seq<char>>, key: Seq<char>)
    requires
        forall|i: int| 0 <= i < ls.len() ==> !has_char(#[trigger] ls[i], '\n'),
    ensures
        forall|i: int|
            0 <= i < remove_lines(ls, key).len() ==> !has_char(
                #[trigger] remove_lines(ls, key)[i],
                '\n',
            ),
    decreases ls.len(),
{
    if ls.len() > 0 {
        let init = ls.drop_last();
        assert forall|i: int| 0 <= i < init.len() implies !has_char(#[trigger] init[i], '\n') by {
            assert(init[i] == ls[i]);
        }
        lemma_remove_lines_subseq(init, key);
        assert(!has_char(ls[ls.len() - 1], '\n'));
        let r = remove_lines(ls, key);
        let ri = remove_lines(init, key);
        assert forall|i: int| 0 <= i < r.len() implies !has_char(#[trigger] r[i], '\n') by {
            if i < ri.len() {
                assert(r[i] == ri[i]);
            }
        }
    }
}

/// Lemma: removing lines is filtering them by their key.
proof fn lemma_remove_lines_filter(ls: Seq<Seq<char>>, key: Seq<char>)
    ensures
        remove_lines(ls, key) == ls.filter(|l: Seq<char>| line_key(l) != Some(key)),
    decreases ls.len(),
{
    reveal(Seq::filter);
    if ls.len() > 0 {
        lemma_remove_lines_filter(ls.drop_last(), key);
    }
}

/// Lemma: no line left after removing `key` has the key.
proof fn lemma_remove_lines_keys(ls: Seq<Seq<char>>, key: Seq<char>)
    ensures
        forall|i: int|
            0 <= i < remove_lines(ls, key).len() ==> line_key(#[trigger] remove_lines(ls, key)[i])
                != Some(key),
    decreases ls.len(),
{
    if ls.len() > 0 {
        lemma_remove_lines_keys(ls.drop_last(), key);
        let r = remove_lines(ls, key);
        let ri = remove_lines(ls.drop_last(), key);
        assert forall|i: int| 0 <= i < r.len() implies line_key(#[trigger] r[i]) != Some(key) by {
            if i < ri.len() {
                assert(r[i] == ri[i]);
            }
        }
    }
}

/// Lemma: removing a key no line has changes nothing.
proof fn lemma_remove_lines_none(ls: Seq<Seq<char>>, key: Seq<char>)
    requires
        forall|i: int| 0 <= i < ls.len() ==> line_key(#[trigger] ls[i]) != Some(key),
    ensures
        remove_lines(ls, key) == ls,
    decreases ls.len(),
{
    if ls.len() > 0 {
        let init = ls.drop_last();
        assert forall|i: int| 0 <= i < init.len() implies line_key(#[trigger] init[i]) != Some(key) by {
            assert(init[i] == ls[i]);
        }
        lemma_remove_lines_none(init, key);
        assert(line_key(ls[ls.len() - 1]) != Some(key));
        assert(init.push(ls.last()) =~= ls);
    }
}

/// Whether a line ends with a carriage return.
pub open spec fn ends_with_cr(l: Seq<char>) -> bool {
    l.len() > 0 && l.last() == '\r'
}

/// Removing a key keeps exactly the lines whose key is another one (or
/// that have none), joined with newlines and ended by one.
pub proof fn law_remove_key_filters(content: Seq<char>, key: Seq<char>)
    ensures
        remove_key_spec(content, key) == join_lines(
            lines(content).filter(|l: Seq<char>| line_key(l) != Some(key)),
        ),
{
    lemma_remove_lines_filter(lines(content), key);
}

/// Removing a key twice is removing it once, when no line kept ends with a
/// carriage return (such a line would lose it when read again).
pub proof fn law_remove_key_idempotent(content: Seq<char>, key: Seq<char>)
    requires
        forall|i: int|
            0 <= i < remove_lines(lines(content), key).len() ==> !ends_with_cr(
                #[trigger] remove_lines(lines(content), key)[i],
            ),
    ensures
        remove_key_spec(remove_key_spec(content, key), key) == remove_key_spec(content, key),
{
    let ls = lines(content);
    lemma_lines_no_nl(content);
    let kept = remove_lines(ls, key);
    lemma_remove_lines_subseq(ls, key);
    lemma_remove_lines_keys(ls, key);
    lemma_lines_join(kept);
    let r = join_lines(kept);
    if kept.len() > 0 {
        assert(kept.map_values(|l: Seq<char>| strip_cr(l)) =~= kept);
        lemma_remove_lines_none(kept, key);
    } else {
        let one = seq![Seq::<char>::empty()];
        assert(lines(r) == one);
        assert(split_once(Seq::<char>::empty(), '=') is None);
        assert(line_key(one[0]) != Some(key));
        lemma_remove_lines_none(one, key);
        assert(one.drop_last() =~= Seq::<Seq<char>>::empty());
        assert(terminated(Seq::<Seq<char>>::empty()) == Seq::<char>::empty());
        assert(join_lines(one) =~= seq!['\n']);
    }
}

/// Lemma: a key is read from lines exactly when some line has it.
proof fn lemma_lookup_some_iff(ls: Seq<Seq<char>>, key: Seq<char>)
    ensures
        lookup_lines(ls, key) is Some <==> exists|i: int|
            0 <= i < ls.len() && (#[trigger] lookup_line(ls[i], key)) is Some,
    decreases ls.len(),
{
    if ls.len() > 0 {
        lemma_lookup_some_iff(ls.drop_first(), key);
        if lookup_line(ls[0], key) is None {
            if exists|i: int| 0 <= i < ls.len() && (#[trigger] lookup_line(ls[i], key)) is Some {
                let i = choose|i: int| 0 <= i < ls.len() && (#[trigger] lookup_line(ls[i], key)) is Some;
                assert(ls.drop_first()[i - 1] == ls[i]);
            }
            assert forall|i: int| 0 <= i < ls.drop_first().len() && (#[trigger] lookup_line(
                ls.drop_first()[i],
                key,
            )) is Some implies exists|j: int| 0 <= j < ls.len() && (#[trigger] lookup_line(ls[j], key)) is Some by {
                assert(ls[i + 1] == ls.drop_first()[i]);
            }
        }
    }
}

/// Setting a key rewrites the file line by line: every line that holds the
/// key becomes the assignment, every other line stays (read as a line: a
/// final carriage return dropped), the assignment is added at the end when
/// no line held the key, and the file ends with a newline.
pub proof fn law_set_key_lines(content: Seq<char>, key: Seq<char>, val: Seq<char>)
    requires
        writable_key(key),
        !has_char(val, '\n'),
    ensures
        ({
            let r = set_key_spec(content, key, val);
            let ls = lines(content);
            &&& r.len() > 0 && r.last() == '\n'
            &&& lines(r).len() == ls.len() + (if find_key_spec(content, key) is Some {
                0int
            } else {
                1int
            })
            &&& forall|i: int|
                0 <= i < ls.len() ==> lines(r)[i] == (if replaces(#[trigger] ls[i], key) {
                    strip_cr(assignment(key, val))
                } else {
                    strip_cr(ls[i])
                })
            &&& find_key_spec(content, key) is None ==> lines(r)[ls.len() as int] == strip_cr(
                assignment(key, val),
            )
        }),
{
    let ls = lines(content);
    lemma_lines_no_nl(content);
    assert(key.push('x').len() != key.len());
    lemma_assignment_lookup(key, val, key.push('x'));
    let a = assignment(key, val);
    let mapped = ls.map_values(|l: Seq<char>| set_line(l, key, val));
    let sl = set_lines(ls, key, val);
    assert forall|i: int| 0 <= i < sl.len() implies !has_char(#[trigger] sl[i], '\n') by {
        if i < ls.len() {
            assert(sl[i] == set_line(ls[i], key, val));
            assert(!has_char(ls[i], '\n'));
        } else {
            assert(sl[i] == a);
        }
    }
    lemma_lines_join(sl);
    assert forall|i: int| 0 <= i < ls.len() implies (replaces(#[trigger] ls[i], key) <==> lookup_line(
        ls[i],
        key,
    ) is Some) by {
        lemma_replaces_iff_lookup(ls[i], key);
    }
    lemma_lookup_some_iff(ls, key);
    if any_replaced(ls, key) {
        let i = choose|i: int| 0 <= i < ls.len() && replaces(ls[i], key);
        assert(lookup_line(ls[i], key) is Some);
    } else {
        assert forall|i: int| 0 <= i < ls.len() implies (#[trigger] lookup_line(ls[i], key)) is None by {
            assert(!replaces(ls[i], key));
        }
    }
    assert(sl.len() > 0);
    let r = join_lines(sl);
    assert(r == terminated(sl));
    assert(r == terminated(sl.drop_last()) + sl.last() + seq!['\n']);
    assert(lines(r) == sl.map_values(|l: Seq<char>| strip_cr(l)));
}

/// Whether two lines differ at most in the value of an entry: trimmed,
/// they are the same; or both hold a `=`, the first is not a comment, they
/// agree up to their first `=`, and their values after it are both empty or
/// both not.
pub open spec fn same_but_value(a: Seq<char>, b: Seq<char>) -> bool {
    let ta = trim(a);
    let tb = trim(b);
    ||| ta == tb
    ||| match (split_once(ta, '='), split_once(tb, '=')) {
        (Some((ka, va)), Some((kb, vb))) => ta[0] != '#' && ka == kb && (va.len() == 0) == (vb.len()
            == 0),
        _ => false,
    }
}

/// Lemma: a line split at its first `=` is its key, the `=` and its value.
proof fn lemma_split_once_parts(t: Seq<char>)
    ensures
        split_once(t, '=') matches Some((k, v)) ==> t == k + seq!['='] + v,
{
    lemma_index_of(t, '=');
    if let Some((k, v)) = split_once(t, '=') {
        let i = index_of(t, '=').unwrap();
        assert(t =~= t.take(i) + seq!['='] + t.skip(i + 1));
    }
}

/// Lemma: lines that differ at most in an entry's value are listed alike
/// once values are masked.
proof fn lemma_same_but_value_listed(a: Seq<char>, b: Seq<char>)
    requires
        same_but_value(a, b),
    ensures
        (match listed_line(a) {
            Some(e) => Some(masked(e)),
            None => None,
        }) == (match listed_line(b) {
            Some(e) => Some(masked(e)),
            None => None,
        }),
{
    let ta = trim(a);
    let tb = trim(b);
    if ta != tb {
        lemma_split_once_parts(ta);
        lemma_split_once_parts(tb);
        let (ka, va) = split_once(ta, '=').unwrap();
        let (kb, vb) = split_once(tb, '=').unwrap();
        assert(ta.len() > 0);
        assert(tb.len() > 0);
        if ka.len() > 0 {
            assert(ta[0] == ka[0]);
            assert(tb[0] == kb[0]);
        } else {
            assert(tb[0] == '=');
        }
    }
}

/// The masked listing of a sequence of lines.
pub open spec fn masked_listing(ls: Seq<Seq<char>>) -> Seq<SecretLineView> {
    listed_lines(ls).map_values(|e: EnvLineView| masked(e))
}

/// Lemma: lines that pairwise differ at most in entries' values have the
/// same masked listing.
proof fn lemma_masked_listing_same(xs: Seq<Seq<char>>, ys: Seq<Seq<char>>)
    requires
        xs.len() == ys.len(),
        forall|i: int| 0 <= i < xs.len() ==> same_but_value(#[trigger] xs[i], ys[i]),
    ensures
        masked_listing(xs) == masked_listing(ys),
    decreases xs.len(),
{
    if xs.len() > 0 {
        let xi = xs.drop_last();
        let yi = ys.drop_last();
        assert forall|i: int| 0 <= i < xi.len() implies same_but_value(#[trigger] xi[i], yi[i]) by {
            assert(xi[i] == xs[i]);
            assert(yi[i] == ys[i]);
        }
        lemma_masked_listing_same(xi, yi);
        assert(same_but_value(xs[xs.len() - 1], ys[ys.len() - 1]));
        lemma_same_but_value_listed(xs.last(), ys.last());
        let rx = listed_lines(xi);
        let ry = listed_lines(yi);
        match listed_line(xs.last()) {
            Some(e) => {
                assert(rx.push(e).map_values(|e: EnvLineView| masked(e)) =~= masked_listing(xi).push(
                    masked(e),
                ));
            },
            None => {},
        }
        match listed_line(ys.last()) {
            Some(e) => {
                assert(ry.push(e).map_values(|e: EnvLineView| masked(e)) =~= masked_listing(yi).push(
                    masked(e),
                ));
            },
            None => {},
        }
    }
}

/// `hive secrets` shows no secret: two secrets files whose lines differ at
/// most in the values of entries (each value empty in both or non-empty in
/// both) are listed exactly alike.
pub proof fn law_secret_listing_hides_values(c1: Seq<char>, c2: Seq<char>)
    requires
        lines(c1).len() == lines(c2).len(),
        forall|i: int| 0 <= i < lines(c1).len() ==> same_but_value(#[trigger] lines(c1)[i], lines(c2)[i]),
    ensures
        listed_lines(lines(c1)).map_values(|e: EnvLineView| masked(e)) == listed_lines(
            lines(c2),
        ).map_values(|e: EnvLineView| masked(e)),
{
    lemma_masked_listing_same(lines(c1), lines(c2));
}

/// Setting a key to a value a reader takes as it is, in a file none of
/// whose lines ends with a carriage return: reading the key back gives the
/// value, the file ends with a newline, it has one more line exactly when
/// the key was absent, and every line that does not hold the key stays
/// unchanged at its place.
pub proof fn law_set_key_in_place(content: Seq<char>, key: Seq<char>, val: Seq<char>)
    requires
        writable_key(key),
        !has_char(val, '\n'),
        value_text(val) == val,
        forall|i: int| 0 <= i < lines(content).len() ==> !ends_with_cr(#[trigger] lines(content)[i]),
    ensures
        ({
            let r = set_key_spec(content, key, val);
            let ls = lines(content);
            &&& find_key_spec(r, key) == Some(val)
            &&& r.len() > 0 && r.last() == '\n'
            &&& lines(r).len() == ls.len() + (if find_key_spec(content, key) is Some {
                0int
            } else {
                1int
            })
            &&& forall|i: int|
                0 <= i < ls.len() && !replaces(#[trigger] ls[i], key) ==> lines(r)[i] == ls[i]
        }),
{
    law_set_then_find(content, key, val);
    law_set_key_lines(content, key, val);
    let ls = lines(content);
    let r = set_key_spec(content, key, val);
    assert forall|i: int| 0 <= i < ls.len() && !replaces(#[trigger] ls[i], key) implies lines(r)[i]
        == ls[i] by {
        assert(!ends_with_cr(ls[i]));
        assert(strip_cr(ls[i]) == ls[i]);
    }
}

} // verus!
