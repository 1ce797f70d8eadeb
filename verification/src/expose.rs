//! `hive expose PORT`: which cloudflared build to download, where to put it,
//! what the tunnel log records, and how the public URL is read from
//! cloudflared's output.
use crate::models::{HiveError, opt_view};
use crate::paths::{HivePath, HivePathView, join};
use crate::text::{
    chars_of, contains, contains_exec, decimal, decimal_exec, ends_with, ends_with_exec, find,
    find_exec, has_char, index_of_exec, is_whitespace, is_ws, lemma_find_from_bounds, lowercase,
    slice, starts_with, starts_with_exec, str_contains, str_eq, string_of, to_lowercase, trim_start,
    trim_start_exec,
};
use vstd::prelude::*;

verus! {

// ---------------------------------------------------------------------------
// Downloading cloudflared
// ---------------------------------------------------------------------------

/// The release of cloudflared to download for an operating system and
/// architecture (as Rust names them): Windows, Linux on x86-64, x86, ARM64
/// and ARM, and macOS on ARM64 or else x86-64; the Linux x86-64 build for
/// anything else.
pub open spec fn download_url_of(os: Seq<char>, arch: Seq<char>) -> Seq<char> {
    if os == "windows"@ {
        "https://github.com/cloudflare/cloudflared/releases/latest/download/cloudflared-windows-amd64.exe"@
    } else if os == "linux"@ && arch == "x86_64"@ {
        "https://github.com/cloudflare/cloudflared/releases/latest/download/cloudflared-linux-amd64"@
    } else if os == "linux"@ && (arch == "x86"@ || arch == "i686"@ || arch == "i386"@) {
        "https://github.com/cloudflare/cloudflared/releases/latest/download/cloudflared-linux-386"@
    } else if os == "linux"@ && (arch == "aarch64"@ || arch == "arm64"@) {
        "https://github.com/cloudflare/cloudflared/releases/latest/download/cloudflared-linux-arm64"@
    } else if os == "linux"@ && arch == "arm"@ {
        "https://github.com/cloudflare/cloudflared/releases/latest/download/cloudflared-linux-arm"@
    } else if os == "macos"@ && (arch == "aarch64"@ || arch == "arm64"@) {
        "https://github.com/cloudflare/cloudflared/releases/latest/download/cloudflared-darwin-arm64.tgz"@
    } else if os == "macos"@ {
        "https://github.com/cloudflare/cloudflared/releases/latest/download/cloudflared-darwin-amd64.tgz"@
    } else {
        "https://github.com/cloudflare/cloudflared/releases/latest/download/cloudflared-linux-amd64"@
    }
}

/// The release of cloudflared to download (see `download_url_of`).
pub fn download_url(os: &str, arch: &str) -> (r: &'static str)
    ensures
        r@ == download_url_of(os@, arch@),
{
    let linux = str_eq(os, "linux");
    let arm64 = str_eq(arch, "aarch64") || str_eq(arch, "arm64");
    if str_eq(os, "windows") {
        "https://github.com/cloudflare/cloudflared/releases/latest/download/cloudflared-windows-amd64.exe"
    } else if linux && str_eq(arch, "x86_64") {
        "https://github.com/cloudflare/cloudflared/releases/latest/download/cloudflared-linux-amd64"
    } else if linux && (str_eq(arch, "x86") || str_eq(arch, "i686") || str_eq(arch, "i386")) {
        "https://github.com/cloudflare/cloudflared/releases/latest/download/cloudflared-linux-386"
    } else if linux && arm64 {
        "https://github.com/cloudflare/cloudflared/releases/latest/download/cloudflared-linux-arm64"
    } else if linux && str_eq(arch, "arm") {
        "https://github.com/cloudflare/cloudflared/releases/latest/download/cloudflared-linux-arm"
    } else if str_eq(os, "macos") && arm64 {
        "https://github.com/cloudflare/cloudflared/releases/latest/download/cloudflared-darwin-arm64.tgz"
    } else if str_eq(os, "macos") {
        "https://github.com/cloudflare/cloudflared/releases/latest/download/cloudflared-darwin-amd64.tgz"
    } else {
        "https://github.com/cloudflare/cloudflared/releases/latest/download/cloudflared-linux-amd64"
    }
}

/// `p` with its last component replaced by `name`.
pub open spec fn sibling(p: HivePathView, name: Seq<char>) -> HivePathView {
    join(HivePathView { root: p.root, parts: p.parts.drop_last() }, name)
}

/// Where a download is written: an archive (a URL ending in `.tgz`) goes
/// to `cloudflared.tgz` beside the destination, anything else to the
/// destination itself.
pub open spec fn download_target_of(dest: HivePathView, url: Seq<char>) -> HivePathView {
    if ends_with(url, ".tgz"@) {
        sibling(dest, "cloudflared.tgz"@)
    } else {
        dest
    }
}

/// The path beside `p` named `name`.
fn sibling_exec(p: &HivePath, name: &str) -> (r: HivePath)
    requires
        p@.parts.len() > 0,
    ensures
        r@ == sibling(p@, name@),
{
    let mut parts: Vec<String> = Vec::new();
    let n = p.parts.len() - 1;
    for i in 0..n
        invariant
            n == p.parts.len() - 1,
            parts.len() == i,
            parts@.map_values(|s: String| s@) == p@.parts.take(i as int),
    {
        let c = p.parts[i].clone();
        parts.push(c);
        proof {
            assert(parts@.map_values(|s: String| s@)[i as int] == p@.parts[i as int]);
            assert(parts@.map_values(|s: String| s@) =~= p@.parts.take(i + 1));
        }
    }
    parts.push(String::from_str(name));
    let r = HivePath { root: p.root.clone(), parts };
    proof {
        assert(p@.parts.take(n as int) =~= p@.parts.drop_last());
        assert(r@.parts =~= p@.parts.drop_last().push(name@));
    }
    r
}

/// Where the download from `url` is written for the destination `dest`
/// (see `download_target_of`), and whether it is an archive to extract.
pub fn download_target(dest: &HivePath, url: &str) -> (r: (HivePath, bool))
    requires
        dest@.parts.len() > 0,
    ensures
        r.0@ == download_target_of(dest@, url@),
        r.1 == ends_with(url@, ".tgz"@),
{
    let is_tgz = ends_with_exec(&chars_of(url), &chars_of(".tgz"));
    if is_tgz {
        (sibling_exec(dest, "cloudflared.tgz"), true)
    } else {
        (dest.copy(), false)
    }
}

/// Where an archive beside the destination extracts cloudflared to: the
/// file `cloudflared` beside it.
pub fn extracted_binary(archive: &HivePath) -> (r: HivePath)
    requires
        archive@.parts.len() > 0,
    ensures
        r@ == sibling(archive@, "cloudflared"@),
{
    sibling_exec(archive, "cloudflared")
}

/// A step of installing cloudflared.
#[derive(Debug, Clone, Copy, PartialEq, Eq, Structural)]
pub enum DownloadStep {
    /// Download with `curl`.
    Curl,
    /// Download with `wget`.
    Wget,
    /// Unpack the archive with `tar`.
    Extract,
}

/// What to do after a step of installing cloudflared.
#[derive(Debug)]
pub enum DownloadAction {
    /// Run this step next.
    Run(DownloadStep),
    /// The binary is in place.
    Done,
    /// Give up with this error.
    Fail(HiveError),
}

/// The message when neither `curl` nor `wget` could download cloudflared.
pub open spec fn download_failed_message() -> Seq<char> {
    "Could not download cloudflared. Install curl or wget, or download manually."@
}

/// The message when the archive could not be unpacked.
pub open spec fn extract_failed_message() -> Seq<char> {
    "Failed to extract cloudflared archive"@
}

/// What follows a step of installing cloudflared: after a download (by
/// `curl`, or `wget` when `curl` failed), unpack an archive or finish;
/// when `wget` fails too, or unpacking fails, give up with a process error.
pub fn download_next(step: DownloadStep, succeeded: bool, is_tgz: bool) -> (r: DownloadAction)
    ensures
        match step {
            DownloadStep::Curl | DownloadStep::Wget => if succeeded {
                if is_tgz {
                    r == DownloadAction::Run(DownloadStep::Extract)
                } else {
                    r == DownloadAction::Done
                }
            } else if step == DownloadStep::Curl {
                r == DownloadAction::Run(DownloadStep::Wget)
            } else {
                r matches DownloadAction::Fail(HiveError::Process(m)) && m@ == download_failed_message()
            },
            DownloadStep::Extract => if succeeded {
                r == DownloadAction::Done
            } else {
                r matches DownloadAction::Fail(HiveError::Process(m)) && m@ == extract_failed_message()
            },
        },
{
    match step {
        DownloadStep::Curl | DownloadStep::Wget => {
            if succeeded {
                if is_tgz {
                    DownloadAction::Run(DownloadStep::Extract)
                } else {
                    DownloadAction::Done
                }
            } else if step == DownloadStep::Curl {
                DownloadAction::Run(DownloadStep::Wget)
            } else {
                DownloadAction::Fail(
                    HiveError::Process(
                        String::from_str(
                            "Could not download cloudflared. Install curl or wget, or download manually.",
                        ),
                    ),
                )
            }
        },
        DownloadStep::Extract => {
            if succeeded {
                DownloadAction::Done
            } else {
                DownloadAction::Fail(
                    HiveError::Process(String::from_str("Failed to extract cloudflared archive")),
                )
            }
        },
    }
}

// ---------------------------------------------------------------------------
// The tunnel log
// ---------------------------------------------------------------------------

/// The local address the tunnel forwards to.
pub open spec fn local_url_of(port: u16) -> Seq<char> {
    "http://localhost:"@ + decimal(port as nat)
}

/// The local address the tunnel forwards to: `http://localhost:PORT`.
pub fn local_url(port: u16) -> (r: String)
    ensures
        r@ == local_url_of(port),
{
    String::from_str("http://localhost:").concat(string_of(&decimal_exec(port as u64)).as_str())
}

/// A line of the tunnel log: the time stamp and the level (`ERR` or `INF`)
/// in brackets, then the text.
pub open spec fn tunnel_log_line_of(stamp: Seq<char>, line: Seq<char>, is_err: bool) -> Seq<char> {
    "["@ + stamp + "] ["@ + (if is_err {
        "ERR"@
    } else {
        "INF"@
    }) + "] "@ + line
}

/// A line of the tunnel log (see `tunnel_log_line_of`).
pub fn tunnel_log_line(stamp: &str, line: &str, is_err: bool) -> (r: String)
    ensures
        r@ == tunnel_log_line_of(stamp@, line@, is_err),
{
    let level = if is_err {
        "ERR"
    } else {
        "INF"
    };
    String::from_str("[").concat(stamp).concat("] [").concat(level).concat("] ").concat(line)
}

// ---------------------------------------------------------------------------
// Reading the public URL from cloudflared's output
// ---------------------------------------------------------------------------

/// What `serde_json` reads as the member `key` of `line` taken as a JSON
/// object, when that member is a string.
pub uninterp spec fn json_string_member_of(line: Seq<char>, key: Seq<char>) -> Option<Seq<char>>;

/// `serde_json::from_str::<serde_json::Value>`, then the member `key` when
/// the value is an object whose member `key` is a string; `None` when the
/// line is not JSON, not an object, or has no such string member. Its
/// result is named `json_string_member_of`.
#[verifier::external_body]
fn json_string_member(line: &str, key: &str) -> (r: Option<String>)
    ensures
        opt_view(r) == json_string_member_of(line@, key@),
{
    match serde_json::from_str::<serde_json::Value>(line) {
        Ok(serde_json::Value::Object(m)) => match m.get(key) {
            Some(serde_json::Value::String(s)) => Some(s.clone()),
            _ => None,
        },
        _ => None,
    }
}

/// Whether `c` ends a URL in plain text: whitespace, a quote or a comma.
pub open spec fn url_stop(c: char) -> bool {
    is_ws(c) || c == '"' || c == '\'' || c == ','
}

/// The first position at or after `i` where `s` has a character that ends a
/// URL, or the length of `s`.
pub open spec fn url_end_from(s: Seq<char>, i: int) -> int
    decreases s.len() - i,
{
    if i < 0 || i >= s.len() {
        s.len() as int
    } else if url_stop(s[i]) {
        i
    } else {
        url_end_from(s, i + 1)
    }
}

/// The quick tunnel URL written in plain text in `line`: from the first
/// `https://` up to whitespace, a quote, a comma or the end, when it has a
/// `.` and is on `trycloudflare.com` or `cfargotunnel.com`.
pub open spec fn plain_url(line: Seq<char>) -> Option<Seq<char>> {
    match find(line, "https://"@) {
        Some(pos) => {
            let rest = line.skip(pos);
            let url = rest.take(url_end_from(rest, 0));
            if has_char(url, '.') && (contains(url, "trycloudflare.com"@) || contains(
                url,
                "cfargotunnel.com"@,
            )) {
                Some(url)
            } else {
                None
            }
        },
        None => None,
    }
}

/// The public URL in a line of cloudflared's output, given `json`, the
/// `url` member of the line read as JSON (a string): for a line that starts (after
/// whitespace) with `{`, that member when it is an `https://` URL; else the
/// URL in plain text (see `plain_url`).
pub open spec fn extract_url_of(line: Seq<char>, json: Option<Seq<char>>) -> Option<Seq<char>> {
    let from_json = if starts_with(trim_start(line), "{"@) {
        match json {
            Some(u) => if starts_with(u, "https://"@) {
                Some(u)
            } else {
                None
            },
            None => None,
        }
    } else {
        None
    };
    if from_json is Some {
        from_json
    } else {
        plain_url(line)
    }
}

/// The end of the URL that starts `rest` (see `url_end_from`).
fn url_end(rest: &Vec<char>) -> (r: usize)
    ensures
        r == url_end_from(rest@, 0),
        r <= rest.len(),
{
    let mut i: usize = 0;
    while i < rest.len()
        invariant
            i <= rest.len(),
            url_end_from(rest@, 0) == url_end_from(rest@, i as int),
        decreases rest.len() - i,
    {
        let c = rest[i];
        if is_whitespace(c) || c == '"' || c == '\'' || c == ',' {
            return i;
        }
        i = i + 1;
    }
    i
}

/// The quick tunnel URL written in plain text in a line (see `plain_url`).
pub fn find_plain_url(line: &str) -> (r: Option<String>)
    ensures
        opt_view(r) == plain_url(line@),
{
    let cs = chars_of(line);
    match find_exec(&cs, &chars_of("https://")) {
        Some(pos) => {
            proof {
                lemma_find_from_bounds(cs@, "https://"@, 0);
            }
            let rest = slice(&cs, pos, cs.len());
            assert(rest@ =~= line@.skip(pos as int));
            let end = url_end(&rest);
            let url = slice(&rest, 0, end);
            assert(url@ =~= rest@.take(end as int));
            let dot = index_of_exec(&url, '.').is_some();
            proof {
                crate::text::lemma_index_of(url@, '.');
            }
            if dot && (contains_exec(&url, &chars_of("trycloudflare.com")) || contains_exec(
                &url,
                &chars_of("cfargotunnel.com"),
            )) {
                Some(string_of(&url))
            } else {
                None
            }
        },
        None => None,
    }
}

/// The public URL in a line of cloudflared's output, given the `url`
/// member of the line read as JSON (see `extract_url_of`).
pub fn extract_url_from(line: &str, json: Option<String>) -> (r: Option<String>)
    ensures
        opt_view(r) == extract_url_of(line@, opt_view(json)),
{
    let cs = chars_of(line);
    if starts_with_exec(&trim_start_exec(&cs), &chars_of("{")) {
        if let Some(u) = json {
            if starts_with_exec(&chars_of(u.as_str()), &chars_of("https://")) {
                return Some(u);
            }
        }
    }
    find_plain_url(line)
}

/// The public URL in a line of cloudflared's output (see `extract_url_of`);
/// a line that starts with `{` is read as JSON first.
pub fn extract_url(line: &str) -> (r: Option<String>)
    ensures
        opt_view(r) == extract_url_of(line@, json_string_member_of(line@, "url"@)),
{
    let cs = chars_of(line);
    let json = if starts_with_exec(&trim_start_exec(&cs), &chars_of("{")) {
        json_string_member(line, "url")
    } else {
        None
    };
    extract_url_from(line, json)
}

/// Whether lower-cased tunnel output reports a failure: it mentions `error`
/// or `failed`.
pub open spec fn tunnel_error(lower: Seq<char>) -> bool {
    contains(lower, "error"@) || contains(lower, "failed"@)
}

/// What `hive expose` makes of a line of cloudflared's output.
#[derive(Debug)]
pub struct TunnelLine {
    /// Whether the line is logged and shown as an error.
    pub is_err: bool,
    /// The public URL the line announces.
    pub url: Option<String>,
}

/// What `hive expose` makes of a line of cloudflared's output: a line on
/// standard error is an error when, lower-cased, it mentions `error` or
/// `failed` (standard output never is); the URL is that of `extract_url`.
pub fn tunnel_line(line: &str, from_stderr: bool) -> (r: TunnelLine)
    ensures
        r.is_err == (from_stderr && tunnel_error(lowercase(line@))),
        opt_view(r.url) == extract_url_of(line@, json_string_member_of(line@, "url"@)),
{
    let is_err = if from_stderr {
        let lower = to_lowercase(line);
        str_contains(lower.as_str(), "error") || str_contains(lower.as_str(), "failed")
    } else {
        false
    };
    TunnelLine { is_err, url: extract_url(line) }
}

/// Lemma: the end of a URL lies after any stretch of characters that do
/// not end one.
proof fn lemma_url_end_after(s: Seq<char>, i: int, k: int)
    requires
        0 <= i <= k <= s.len(),
        forall|j: int| i <= j < k ==> !url_stop(#[trigger] s[j]),
    ensures
        url_end_from(s, i) == url_end_from(s, k),
        k <= url_end_from(s, i) <= s.len(),
    decreases k - i,
{
    if i < k {
        lemma_url_end_after(s, i + 1, k);
    } else {
        lemma_url_end_bound(s, k);
    }
}

/// Lemma: the end of a URL found from `i` lies between `i` and the end.
proof fn lemma_url_end_bound(s: Seq<char>, i: int)
    requires
        0 <= i <= s.len(),
    ensures
        i <= url_end_from(s, i) <= s.len(),
    decreases s.len() - i,
{
    if i < s.len() && !url_stop(s[i]) {
        lemma_url_end_bound(s, i + 1);
    }
}

/// The public URL read from cloudflared's output is always an `https://`
/// address, whatever the line and whatever its JSON reading gave.
pub proof fn law_public_url_is_https(line: Seq<char>, json: Option<Seq<char>>)
    ensures
        extract_url_of(line, json) matches Some(u) ==> starts_with(u, "https://"@),
{
    reveal_strlit("https://");
    let p = "https://"@;
    match find(line, p) {
        Some(pos) => {
            lemma_find_from_bounds(line, p, 0);
            let rest = line.skip(pos);
            assert(rest.subrange(0, 8) =~= line.subrange(pos, pos + 8));
            assert forall|j: int| 0 <= j < 8 implies !url_stop(#[trigger] rest[j]) by {
                assert(rest[j] == p[j]);
            }
            lemma_url_end_after(rest, 0, 8);
            let url = rest.take(url_end_from(rest, 0));
            assert(url.subrange(0, 8) =~= p);
        },
        None => {},
    }
}

} // verus!
