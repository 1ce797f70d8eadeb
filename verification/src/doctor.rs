//! `hive doctor`: the tools it looks for, how a tool's version is read from
//! what it prints, and the verdict.
use crate::models::opt_view;
use crate::scripts::join_with;
use crate::text::{chars_of, is_whitespace, is_ws, lines, lines_exec, string_of, trim, trim_exec, views};
use vstd::prelude::*;

verus! {

/// A tool that `hive doctor` looks for.
#[derive(Debug, Clone, Copy)]
pub struct Tool {
    /// The name shown.
    pub name: &'static str,
    /// The program looked up on the `PATH`.
    pub check: &'static str,
    /// The argument that makes it print its version.
    pub version_flag: &'static str,
    /// Whether Hive needs it.
    pub required: bool,
}

/// The contents of a tool entry: name, program, version argument, required.
pub open spec fn tool_view(t: Tool) -> (Seq<char>, Seq<char>, Seq<char>, bool) {
    (t.name@, t.check@, t.version_flag@, t.required)
}

/// An optional tool whose program has its name and prints its version with
/// `--version`.
pub open spec fn optional_tool(name: Seq<char>) -> (Seq<char>, Seq<char>, Seq<char>, bool) {
    (name, name, "--version"@, false)
}

/// The tools `hive doctor` looks for, in order: node, npm, bun, php,
/// composer, python3, pip, cargo, go (whose version argument is `version`),
/// docker, all optional, and git, which is required.
pub open spec fn tools_of() -> Seq<(Seq<char>, Seq<char>, Seq<char>, bool)> {
    seq![
        optional_tool("node"@),
        optional_tool("npm"@),
        optional_tool("bun"@),
        optional_tool("php"@),
        optional_tool("composer"@),
        optional_tool("python3"@),
        optional_tool("pip"@),
        optional_tool("cargo"@),
        ("go"@, "go"@, "version"@, false),
        optional_tool("docker"@),
        ("git"@, "git"@, "--version"@, true),
    ]
}

/// An optional tool whose program has its name and prints its version with
/// `--version`.
fn optional(name: &'static str) -> (t: Tool)
    ensures
        tool_view(t) == optional_tool(name@),
{
    Tool { name, check: name, version_flag: "--version", required: false }
}

/// The tools `hive doctor` looks for (see `tools_of`).
pub fn tools() -> (r: Vec<Tool>)
    ensures
        r@.map_values(|t: Tool| tool_view(t)) == tools_of(),
{
    let mut r: Vec<Tool> = Vec::new();
    r.push(optional("node"));
    r.push(optional("npm"));
    r.push(optional("bun"));
    r.push(optional("php"));
    r.push(optional("composer"));
    r.push(optional("python3"));
    r.push(optional("pip"));
    r.push(optional("cargo"));
    r.push(Tool { name: "go", check: "go", version_flag: "version", required: false });
    r.push(optional("docker"));
    r.push(Tool { name: "git", check: "git", version_flag: "--version", required: true });
    assert(r@.map_values(|t: Tool| tool_view(t)) =~= tools_of());
    r
}

// ---------------------------------------------------------------------------
// Reading a version
// ---------------------------------------------------------------------------

/// The pieces of `s` between whitespace characters (some of them empty).
pub open spec fn pieces(s: Seq<char>) -> Seq<Seq<char>>
    decreases s.len(),
{
    if s.len() == 0 {
        seq![Seq::<char>::empty()]
    } else {
        let prev = pieces(s.drop_last());
        if is_ws(s.last()) {
            prev.push(Seq::<char>::empty())
        } else {
            prev.update(prev.len() - 1, prev.last().push(s.last()))
        }
    }
}

/// Whether `c` is an ASCII digit.
pub open spec fn is_ascii_digit(c: char) -> bool {
    '0' <= c && c <= '9'
}

/// The first of the pieces that starts with an ASCII digit.
pub open spec fn first_digit_piece(ps: Seq<Seq<char>>) -> Option<Seq<char>>
    decreases ps.len(),
{
    if ps.len() == 0 {
        None
    } else if ps[0].len() > 0 && is_ascii_digit(ps[0][0]) {
        Some(ps[0])
    } else {
        first_digit_piece(ps.drop_first())
    }
}

/// The version a tool printed: none when it printed no line; else, of its
/// first line, the first whitespace-separated word that starts with a
/// digit, or the whole line trimmed.
pub open spec fn version_of(raw: Seq<char>) -> Option<Seq<char>> {
    let ls = lines(raw);
    if ls.len() == 0 {
        None
    } else {
        match first_digit_piece(pieces(ls[0])) {
            Some(w) => Some(w),
            None => Some(trim(ls[0])),
        }
    }
}

/// Lemma: there is always at least one piece.
proof fn lemma_pieces_len(s: Seq<char>)
    ensures
        pieces(s).len() >= 1,
    decreases s.len(),
{
    if s.len() > 0 {
        lemma_pieces_len(s.drop_last());
    }
}

/// The pieces of `v` between whitespace characters (see `pieces`).
fn pieces_exec(v: &Vec<char>) -> (r: Vec<Vec<char>>)
    ensures
        views(r@) == pieces(v@),
{
    let mut out: Vec<Vec<char>> = Vec::new();
    let mut cur: Vec<char> = Vec::new();
    let n = v.len();
    proof {
        assert(v@.take(0) =~= Seq::<char>::empty());
    }
    for i in 0..n
        invariant
            n == v.len(),
            views(out@).push(cur@) == pieces(v@.take(i as int)),
    {
        let ghost pre = v@.take(i as int);
        let ghost old_out = out@;
        proof {
            assert(v@.take(i + 1).drop_last() =~= pre);
            assert(v@.take(i + 1).last() == v@[i as int]);
            lemma_pieces_len(pre);
        }
        if is_whitespace(v[i]) {
            out.push(cur);
            cur = Vec::new();
            proof {
                assert(views(out@).push(cur@) =~= pieces(pre).push(Seq::<char>::empty()));
            }
        } else {
            cur.push(v[i]);
            proof {
                let p = pieces(pre);
                assert(views(out@).push(cur@) =~= p.update(p.len() - 1, p.last().push(v@[i as int])));
            }
        }
    }
    proof {
        assert(v@.take(n as int) =~= v@);
    }
    out.push(cur);
    out
}

/// The version in a tool's output (see `version_of`).
pub fn version_from_text(raw: &str) -> (r: Option<String>)
    ensures
        opt_view(r) == version_of(raw@),
{
    let ls = lines_exec(&chars_of(raw));
    if ls.len() == 0 {
        return None;
    }
    let first = &ls[0];
    let ps = pieces_exec(first);
    let n = ps.len();
    assert(views(ps@).skip(0) =~= views(ps@));
    for i in 0..n
        invariant
            n == ps.len(),
            lines(raw@).len() > 0,
            first@ == lines(raw@)[0],
            views(ps@) == pieces(first@),
            first_digit_piece(views(ps@)) == first_digit_piece(views(ps@).skip(i as int)),
    {
        let p = &ps[i];
        proof {
            assert(views(ps@).skip(i as int).drop_first() =~= views(ps@).skip(i + 1));
            assert(views(ps@).skip(i as int)[0] == p@);
        }
        if p.len() > 0 && '0' <= p[0] && p[0] <= '9' {
            return Some(string_of(p));
        }
    }
    proof {
        assert(views(ps@).skip(n as int) =~= Seq::<Seq<char>>::empty());
    }
    Some(string_of(&trim_exec(first)))
}

/// What `String::from_utf8_lossy` makes of `bytes`: the UTF-8 text they
/// hold, with each invalid sequence replaced by U+FFFD.
pub uninterp spec fn lossy_text(bytes: Seq<u8>) -> Seq<char>;

/// `String::from_utf8_lossy`: the bytes read as UTF-8, invalid sequences
/// replaced. Its result is named `lossy_text`.
#[verifier::external_body]
fn from_utf8_lossy(bytes: &[u8]) -> (r: String)
    ensures
        r@ == lossy_text(bytes@),
{
    String::from_utf8_lossy(bytes).into_owned()
}

/// The version in what a tool printed on standard output (see
/// `version_of`).
pub fn version_from_output(stdout: &[u8]) -> (r: Option<String>)
    ensures
        opt_view(r) == version_of(lossy_text(stdout@)),
{
    let text = from_utf8_lossy(stdout);
    version_from_text(text.as_str())
}

// ---------------------------------------------------------------------------
// The verdict
// ---------------------------------------------------------------------------

/// How many of the flags are set.
pub open spec fn count_found(found: Seq<bool>) -> nat
    decreases found.len(),
{
    if found.len() == 0 {
        0
    } else {
        count_found(found.drop_last()) + if found.last() {
            1nat
        } else {
            0nat
        }
    }
}

/// The names of the required tools that were not found, in order.
pub open spec fn missing_required(
    tools: Seq<(Seq<char>, Seq<char>, Seq<char>, bool)>,
    found: Seq<bool>,
) -> Seq<Seq<char>>
    decreases found.len(),
{
    if found.len() == 0 || tools.len() < found.len() {
        Seq::empty()
    } else {
        let prev = missing_required(tools, found.drop_last());
        let t = tools[found.len() - 1];
        if t.3 && !found.last() {
            prev.push(t.0)
        } else {
            prev
        }
    }
}

/// What `hive doctor` concludes.
#[derive(Debug, PartialEq, Eq)]
pub enum DoctorVerdict {
    /// Every required tool was found; the message counts the tools found.
    Ready(String),
    /// Some required tools are missing; the message names them.
    MissingRequired(String),
}

/// The verdict for the tools of `tools_of`, given which were found: ready
/// (`N tools found`) when no required tool is missing, else the missing
/// required tools, named and separated by commas.
pub open spec fn verdict_of(found: Seq<bool>) -> (bool, Seq<char>) {
    let missing = missing_required(tools_of(), found);
    if missing.len() == 0 {
        (true, crate::text::decimal(count_found(found)) + " tools found"@)
    } else {
        (false, "Missing required tools: "@ + join_with(missing, ", "@))
    }
}

/// The verdict of `hive doctor`, given for each tool of `tools()` whether it
/// was found (see `verdict_of`).
pub fn doctor_verdict(found: &Vec<bool>) -> (r: DoctorVerdict)
    requires
        found.len() == tools_of().len(),
    ensures
        match r {
            DoctorVerdict::Ready(m) => verdict_of(found@) == (true, m@),
            DoctorVerdict::MissingRequired(m) => verdict_of(found@) == (false, m@),
        },
{
    let ts = tools();
    let n = found.len();
    let mut count: u64 = 0;
    let mut missing: Vec<&'static str> = Vec::new();
    let mut msg = String::new();
    for i in 0..n
        invariant
            n == found.len(),
            n == ts.len(),
            ts@.map_values(|t: Tool| tool_view(t)) == tools_of(),
            count == count_found(found@.take(i as int)),
            count <= i,
            missing@.map_values(|s: &'static str| s@) == missing_required(
                tools_of(),
                found@.take(i as int),
            ),
            msg@ == join_with(missing@.map_values(|s: &'static str| s@), ", "@),
    {
        proof {
            assert(found@.take(i + 1).drop_last() =~= found@.take(i as int));
            assert(found@.take(i + 1).last() == found@[i as int]);
            assert(tool_view(ts@[i as int]) == tools_of()[i as int]);
        }
        if found[i] {
            count = count + 1;
        } else if ts[i].required {
            let ghost old_missing = missing@.map_values(|s: &'static str| s@);
            let name = ts[i].name;
            if missing.len() == 0 {
                msg = String::from_str(name);
            } else {
                msg = msg.concat(", ").concat(name);
            }
            missing.push(name);
            proof {
                let nm = missing@.map_values(|s: &'static str| s@);
                assert(nm =~= old_missing.push(name@));
                assert(nm.drop_last() =~= old_missing);
            }
        }
    }
    proof {
        assert(found@.take(n as int) =~= found@);
    }
    if missing.len() == 0 {
        DoctorVerdict::Ready(
            string_of(&crate::text::decimal_exec(count)).concat(" tools found"),
        )
    } else {
        DoctorVerdict::MissingRequired(String::from_str("Missing required tools: ").concat(msg.as_str()))
    }
}

/// Lemma: among the first `k` tools, up to the tenth, none is required, so
/// none can be missing.
proof fn lemma_optional_prefix(found: Seq<bool>, k: int)
    requires
        0 <= k <= 10,
        found.len() == tools_of().len(),
    ensures
        missing_required(tools_of(), found.take(k)) == Seq::<Seq<char>>::empty(),
    decreases k,
{
    if k > 0 {
        assert(found.take(k).drop_last() =~= found.take(k - 1));
        lemma_optional_prefix(found, k - 1);
        assert(!tools_of()[k - 1].3);
    }
}

/// `hive doctor` is satisfied exactly when git, the one required tool, was
/// found: the other tools are optional.
pub proof fn law_ready_iff_git_found(found: Seq<bool>)
    requires
        found.len() == tools_of().len(),
    ensures
        tools_of()[10].0 == "git"@,
        verdict_of(found).0 == found[10],
{
    lemma_optional_prefix(found, 10);
    assert(found.drop_last() =~= found.take(10));
    assert(tools_of()[10].3);
}

} // verus!
