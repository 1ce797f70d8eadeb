//! What `hive init` writes: the configuration, `.hive/.env`,
//! `.hive/.secrets` and the `.gitignore` entries that keep secrets and logs
//! out of version control.
use crate::maps::{
    entry_index, entry_insert, script_entries, scripts_insert, scripts_new, service_entries, services_insert,
    services_new,
};
use crate::models::{
    Framework, HiveConfig, ProjectConfig, RunScript, RunScriptView, ServiceConfig,
    ServiceConfigView, framework_name, opt_view, strings_view,
};
use crate::dotenv::{
    assignment, find_key_spec, lemma_assignment_lookup, lemma_lookup_strip_cr, lookup_line,
    lookup_lines, value_text, writable_key,
};
use crate::text::{
    lemma_lines_cons, lemma_trim_end_char_take, lemma_trim_start_char_skip,
    chars_of, decimal, decimal_exec, has_char, is_ws, lemma_split_nl_len,
    lemma_split_nl_after, lemma_split_nl_last_empty, lemma_split_nl_terminated,
    lemma_trim_strip_cr, lemma_trim_unique, lines, lines_exec,
    lowercase, split_nl, string_of, strip_cr, terminated, to_lowercase, trim, trim_exec, views,
};
use vstd::prelude::*;

verus! {

// ---------------------------------------------------------------------------
// .hive/.env and .hive/.secrets
// ---------------------------------------------------------------------------

/// `s` with every space replaced by `_`.
pub open spec fn underscored(s: Seq<char>) -> Seq<char> {
    s.map_values(|c: char| if c == ' ' { '_' } else { c })
}

/// The optional `KEY=value` line of the env file: present for a non-empty
/// value.
pub open spec fn optional_line(key: Seq<char>, value: Seq<char>) -> Seq<char> {
    if value.len() == 0 {
        Seq::empty()
    } else {
        key + value + "\n"@
    }
}

/// The `.hive/.env` that `hive init` writes: a note (saying whether it
/// follows an existing `.env`), the application settings (name, port, URL,
/// and description and author when given), database settings with a
/// database named after the project (lower-cased, spaces as `_`), and cache
/// and queue settings.
pub open spec fn env_content_of(
    name: Seq<char>,
    port: u16,
    has_existing: bool,
    desc: Seq<char>,
    author: Seq<char>,
) -> Seq<char> {
    let note = if has_existing {
        "# Synced from your existing .env — add overrides below"@
    } else {
        "# Hive environment variables — edit freely"@
    };
    let p = decimal(port as nat);
    note + "\n\nAPP_NAME="@ + name + "\nAPP_ENV=development\nAPP_PORT="@ + p
        + "\nAPP_DEBUG=true\nAPP_URL=http://localhost:"@ + p + "\n"@ + optional_line(
        "APP_DESCRIPTION="@,
        desc,
    ) + optional_line("APP_AUTHOR="@, author)
        + "\n# Database\nDB_CONNECTION=mysql\nDB_HOST=127.0.0.1\nDB_PORT=3306\nDB_DATABASE="@
        + underscored(lowercase(name))
        + "\nDB_USERNAME=root\nDB_PASSWORD=\n\n# Cache / Queue\nCACHE_DRIVER=file\nQUEUE_CONNECTION=sync\nSESSION_DRIVER=file\n"@
}

/// `s` with every space replaced by `_`.
fn underscored_exec(s: &str) -> (r: String)
    ensures
        r@ == underscored(s@),
{
    let cs = chars_of(s);
    let mut out: Vec<char> = Vec::new();
    let n = cs.len();
    for i in 0..n
        invariant
            n == cs.len(),
            cs@ == s@,
            out@ == underscored(cs@.take(i as int)),
    {
        if cs[i] == ' ' {
            out.push('_');
        } else {
            out.push(cs[i]);
        }
        proof {
            assert(cs@.take(i + 1) =~= cs@.take(i as int).push(cs@[i as int]));
            assert(out@ =~= underscored(cs@.take(i + 1)));
        }
    }
    proof {
        assert(cs@.take(n as int) =~= cs@);
    }
    string_of(&out)
}

/// The optional `KEY=value` line.
fn optional_line_exec(key: &str, value: &str) -> (r: String)
    ensures
        r@ == optional_line(key@, value@),
{
    if value.unicode_len() == 0 {
        String::new()
    } else {
        String::from_str(key).concat(value).concat("\n")
    }
}

/// The `.hive/.env` that `hive init` writes (see `env_content_of`).
pub fn build_env_content(name: &str, port: u16, has_existing: bool, desc: &str, author: &str) -> (r:
    String)
    ensures
        r@ == env_content_of(name@, port, has_existing, desc@, author@),
        !has_char(name@, '\n') && !has_char(desc@, '\n') && !has_char(author@, '\n') ==> {
            &&& r@.len() > 0 && r@.last() == '\n'
            &&& find_key_spec(r@, "APP_NAME"@) == Some(value_text(name@))
            &&& find_key_spec(r@, "APP_PORT"@) == Some(decimal(port as nat))
            &&& find_key_spec(r@, "APP_URL"@) == Some("http://localhost:"@ + decimal(port as nat))
            &&& find_key_spec(r@, "APP_DESCRIPTION"@) == (if desc@.len() == 0 {
                None
            } else {
                Some(value_text(desc@))
            })
            &&& find_key_spec(r@, "APP_AUTHOR"@) == (if author@.len() == 0 {
                None
            } else {
                Some(value_text(author@))
            })
        },
{
    let note = if has_existing {
        "# Synced from your existing .env — add overrides below"
    } else {
        "# Hive environment variables — edit freely"
    };
    let p = string_of(&decimal_exec(port as u64));
    let lower = to_lowercase(name);
    let db = underscored_exec(lower.as_str());
    proof {
        if !has_char(name@, '\n') && !has_char(desc@, '\n') && !has_char(author@, '\n') {
            assert(!has_char(lowercase(name@), '\n'));
            law_init_env_reads_back(name@, port, has_existing, desc@, author@);
            law_init_env_settings(name@, port, has_existing, desc@, author@);
        }
    }
    let r = String::from_str(note).concat("\n\nAPP_NAME=").concat(name).concat(
        "\nAPP_ENV=development\nAPP_PORT=",
    ).concat(p.as_str()).concat("\nAPP_DEBUG=true\nAPP_URL=http://localhost:").concat(
        p.as_str(),
    ).concat("\n").concat(optional_line_exec("APP_DESCRIPTION=", desc).as_str()).concat(
        optional_line_exec("APP_AUTHOR=", author).as_str(),
    ).concat(
        "\n# Database\nDB_CONNECTION=mysql\nDB_HOST=127.0.0.1\nDB_PORT=3306\nDB_DATABASE=",
    ).concat(db.as_str()).concat(
        "\nDB_USERNAME=root\nDB_PASSWORD=\n\n# Cache / Queue\nCACHE_DRIVER=file\nQUEUE_CONNECTION=sync\nSESSION_DRIVER=file\n",
    );
    r
}

/// The `.hive/.secrets` that `hive init` writes: a header naming the
/// project, a warning and examples as comments, then empty entries for
/// common secrets.
pub open spec fn secrets_content_of(name: Seq<char>) -> Seq<char> {
    "# Hive Secrets — "@ + name
        + "\n# ⚠  Do NOT commit this file\n# Add sensitive values here; access via `hive secrets get KEY`\n#\n# Example:\n#   JWT_SECRET=your-super-secret-key\n#   STRIPE_KEY=sk_live_...\n#   SMTP_PASSWORD=hunter2\n#\n\nJWT_SECRET=\nAPI_KEY=\nSTRIPE_SECRET=\nSMTP_HOST=\nSMTP_PORT=587\nSMTP_USER=\nSMTP_PASS=\n"@
}

/// The `.hive/.secrets` that `hive init` writes (see `secrets_content_of`).
pub fn build_secrets_content(name: &str) -> (r: String)
    ensures
        r@ == secrets_content_of(name@),
{
    String::from_str("# Hive Secrets — ").concat(name).concat(
        "\n# ⚠  Do NOT commit this file\n# Add sensitive values here; access via `hive secrets get KEY`\n#\n# Example:\n#   JWT_SECRET=your-super-secret-key\n#   STRIPE_KEY=sk_live_...\n#   SMTP_PASSWORD=hunter2\n#\n\nJWT_SECRET=\nAPI_KEY=\nSTRIPE_SECRET=\nSMTP_HOST=\nSMTP_PORT=587\nSMTP_USER=\nSMTP_PASS=\n",
    )
}

// ---------------------------------------------------------------------------
// The port typed in at the prompt
// ---------------------------------------------------------------------------

/// Whether `c` is an ASCII digit.
pub open spec fn is_digit(c: char) -> bool {
    '0' <= c && c <= '9'
}

/// The number the decimal digits `s` spell.
pub open spec fn digits_value(s: Seq<char>) -> nat
    decreases s.len(),
{
    if s.len() == 0 {
        0
    } else {
        digits_value(s.drop_last()) * 10 + ((s.last() as u32) - ('0' as u32)) as nat
    }
}

/// The digits of a port number: the text without a leading `+`.
pub open spec fn port_digits(text: Seq<char>) -> Seq<char> {
    if text.len() > 0 && text[0] == '+' {
        text.skip(1)
    } else {
        text
    }
}

/// The port `text` gives, as `u16::from_str` reads it (an optional `+`, then
/// one or more decimal digits, at most 65535), or `default` when it is not
/// one.
pub open spec fn port_of_text(text: Seq<char>, default: u16) -> u16 {
    let d = port_digits(text);
    if d.len() > 0 && (forall|i: int| 0 <= i < d.len() ==> is_digit(#[trigger] d[i]))
        && digits_value(d) <= 65535 {
        digits_value(d) as u16
    } else {
        default
    }
}

/// The port typed in at the prompt, or `default` when the text is not one
/// (see `port_of_text`).
pub fn parse_port(text: &str, default: u16) -> (r: u16)
    ensures
        r == port_of_text(text@, default),
{
    let cs = chars_of(text);
    let start: usize = if cs.len() > 0 && cs[0] == '+' {
        1
    } else {
        0
    };
    let d = crate::text::slice(&cs, start, cs.len());
    assert(d@ =~= port_digits(text@));
    if d.len() == 0 {
        return default;
    }
    let mut value: u32 = 0;
    let n = d.len();
    for i in 0..n
        invariant
            n == d.len(),
            d@ == port_digits(text@),
            value == digits_value(d@.take(i as int)),
            value <= 65535,
            forall|j: int| 0 <= j < i ==> is_digit(#[trigger] d@[j]),
    {
        let c = d[i];
        proof {
            assert(d@.take(i + 1).drop_last() =~= d@.take(i as int));
            assert(d@.take(i + 1).last() == c);
        }
        if !('0' <= c && c <= '9') {
            assert(!is_digit(d@[i as int]));
            return default;
        }
        let next = value * 10 + (c as u32 - '0' as u32);
        assert(digits_value(d@.take(i + 1)) == next);
        if next > 65535 {
            proof {
                if forall|j: int| 0 <= j < d@.len() ==> is_digit(#[trigger] d@[j]) {
                    lemma_digits_value_prefix(d@, i + 1);
                }
            }
            return default;
        }
        value = next;
    }
    proof {
        assert(d@.take(n as int) =~= d@);
    }
    value as u16
}

/// Lemma: the value of the digits only grows as more are read.
proof fn lemma_digits_value_prefix(s: Seq<char>, k: int)
    requires
        0 <= k <= s.len(),
        forall|j: int| 0 <= j < s.len() ==> is_digit(#[trigger] s[j]),
    ensures
        digits_value(s.take(k)) <= digits_value(s),
    decreases s.len() - k,
{
    if k < s.len() {
        let t = s.take(k + 1);
        assert(t.drop_last() =~= s.take(k));
        assert(is_digit(s[k]));
        lemma_digits_value_prefix(s, k + 1);
    } else {
        assert(s.take(k) =~= s);
    }
}

// ---------------------------------------------------------------------------
// The configuration hive init writes
// ---------------------------------------------------------------------------

/// The preset script for the `idx`-th choice offered at init: `dev` (the run
/// command, and `docker compose up` when the project uses Docker), `build`,
/// `test`, `migrate`, `seed`, `queue`.
pub open spec fn preset(idx: int, run_cmd: Seq<char>, has_docker: bool) -> Option<
    (Seq<char>, RunScriptView),
> {
    if idx == 0 {
        Some(
            (
                "dev"@,
                RunScriptView::Multiple(
                    if has_docker {
                        seq![run_cmd, "docker compose up"@]
                    } else {
                        seq![run_cmd]
                    },
                ),
            ),
        )
    } else if idx == 1 {
        Some(("build"@, RunScriptView::Single("npm run build"@)))
    } else if idx == 2 {
        Some(("test"@, RunScriptView::Single("npm test"@)))
    } else if idx == 3 {
        Some(("migrate"@, RunScriptView::Single("php artisan migrate"@)))
    } else if idx == 4 {
        Some(("seed"@, RunScriptView::Single("php artisan db:seed"@)))
    } else if idx == 5 {
        Some(("queue"@, RunScriptView::Single("php artisan queue:listen"@)))
    } else {
        None
    }
}

/// The scripts after adding the chosen presets in order.
pub open spec fn with_presets(
    es: Seq<(Seq<char>, RunScriptView)>,
    selected: Seq<usize>,
    run_cmd: Seq<char>,
    has_docker: bool,
) -> Seq<(Seq<char>, RunScriptView)>
    decreases selected.len(),
{
    if selected.len() == 0 {
        es
    } else {
        let prev = with_presets(es, selected.drop_last(), run_cmd, has_docker);
        match preset(selected.last() as int, run_cmd, has_docker) {
            Some((k, v)) => entry_insert(prev, k, v),
            None => prev,
        }
    }
}

/// The scripts `hive init` writes: `start` running the run command, then
/// the chosen presets.
pub open spec fn init_scripts(selected: Seq<usize>, run_cmd: Seq<char>, has_docker: bool) -> Seq<
    (Seq<char>, RunScriptView),
> {
    with_presets(
        seq![("start"@, RunScriptView::Single(run_cmd))],
        selected,
        run_cmd,
        has_docker,
    )
}

/// The services `hive init` writes: `app` on the port with the run command,
/// and `docker` (`docker compose up -d`) when the project uses Docker.
pub open spec fn init_services(port: u16, run_cmd: Seq<char>, has_docker: bool) -> Seq<
    (Seq<char>, ServiceConfigView),
> {
    let app = ("app"@, ServiceConfigView { port: Some(port), command: Some(run_cmd) });
    if has_docker {
        seq![
            app,
            ("docker"@, ServiceConfigView { port: None, command: Some("docker compose up -d"@) }),
        ]
    } else {
        seq![app]
    }
}

/// An optional text: none when empty.
pub open spec fn non_empty(s: Seq<char>) -> Option<Seq<char>> {
    if s.len() == 0 {
        None
    } else {
        Some(s)
    }
}

/// An optional text: none when empty.
fn non_empty_exec(s: &str) -> (r: Option<String>)
    ensures
        opt_view(r) == non_empty(s@),
{
    if s.unicode_len() == 0 {
        None
    } else {
        Some(String::from_str(s))
    }
}

/// A multi-command script of the given commands.
fn dev_script(run_cmd: &str, has_docker: bool) -> (r: RunScript)
    ensures
        r@ == RunScriptView::Multiple(
            if has_docker {
                seq![run_cmd@, "docker compose up"@]
            } else {
                seq![run_cmd@]
            },
        ),
{
    let mut cmds: Vec<String> = Vec::new();
    cmds.push(String::from_str(run_cmd));
    if has_docker {
        cmds.push(String::from_str("docker compose up"));
        assert(strings_view(cmds@) =~= seq![run_cmd@, "docker compose up"@]);
    } else {
        assert(strings_view(cmds@) =~= seq![run_cmd@]);
    }
    RunScript::Multiple(cmds)
}

/// Adds the `idx`-th preset to the scripts.
fn add_preset(
    scripts: &mut indexmap::IndexMap<String, RunScript>,
    idx: usize,
    run_cmd: &str,
    has_docker: bool,
)
    ensures
        script_entries(*final(scripts)) == (match preset(idx as int, run_cmd@, has_docker) {
            Some((k, v)) => entry_insert(script_entries(*old(scripts)), k, v),
            None => script_entries(*old(scripts)),
        }),
{
    if idx == 0 {
        let _ = scripts_insert(scripts, String::from_str("dev"), dev_script(run_cmd, has_docker));
    } else if idx == 1 {
        let _ = scripts_insert(
            scripts,
            String::from_str("build"),
            RunScript::Single(String::from_str("npm run build")),
        );
    } else if idx == 2 {
        let _ = scripts_insert(
            scripts,
            String::from_str("test"),
            RunScript::Single(String::from_str("npm test")),
        );
    } else if idx == 3 {
        let _ = scripts_insert(
            scripts,
            String::from_str("migrate"),
            RunScript::Single(String::from_str("php artisan migrate")),
        );
    } else if idx == 4 {
        let _ = scripts_insert(
            scripts,
            String::from_str("seed"),
            RunScript::Single(String::from_str("php artisan db:seed")),
        );
    } else if idx == 5 {
        let _ = scripts_insert(
            scripts,
            String::from_str("queue"),
            RunScript::Single(String::from_str("php artisan queue:listen")),
        );
    }
}

/// The configuration `hive init` writes: the project's name, description and
/// author (none when empty) and framework name; the services of
/// `init_services`; the scripts of `init_scripts`.
pub fn build_config(
    name: &str,
    description: &str,
    author: &str,
    framework: Framework,
    port: u16,
    run_cmd: &str,
    has_docker: bool,
    selected: &Vec<usize>,
) -> (r: HiveConfig)
    ensures
        r.project.name@ == name@,
        opt_view(r.project.description) == non_empty(description@),
        opt_view(r.project.author) == non_empty(author@),
        opt_view(r.project.framework) == Some(framework_name(framework)),
        service_entries(r.services) == init_services(port, run_cmd@, has_docker),
        script_entries(r.scripts) == init_scripts(selected@, run_cmd@, has_docker),
{
    let mut services = services_new();
    let _ = services_insert(
        &mut services,
        String::from_str("app"),
        ServiceConfig { port: Some(port), command: Some(String::from_str(run_cmd)) },
    );
    if has_docker {
        let _ = services_insert(
            &mut services,
            String::from_str("docker"),
            ServiceConfig { port: None, command: Some(String::from_str("docker compose up -d")) },
        );
        proof {
            reveal_strlit("app");
            reveal_strlit("docker");
            assert("app"@.len() == 3);
            assert("docker"@.len() == 6);
            let one = seq![("app"@, ServiceConfigView { port: Some(port), command: Some(run_cmd@) })];
            assert(one.drop_first() =~= Seq::<(Seq<char>, ServiceConfigView)>::empty());
            assert(entry_index(one.drop_first(), "docker"@) is None);
            assert(entry_index(one, "docker"@) is None);
        }
    }
    let mut scripts = scripts_new();
    let _ = scripts_insert(
        &mut scripts,
        String::from_str("start"),
        RunScript::Single(String::from_str(run_cmd)),
    );
    let ghost start = seq![("start"@, RunScriptView::Single(run_cmd@))];
    assert(script_entries(scripts) =~= start);
    let n = selected.len();
    for i in 0..n
        invariant
            n == selected.len(),
            script_entries(scripts) == with_presets(start, selected@.take(i as int), run_cmd@, has_docker),
    {
        add_preset(&mut scripts, selected[i], run_cmd, has_docker);
        proof {
            assert(selected@.take(i + 1).drop_last() =~= selected@.take(i as int));
            assert(selected@.take(i + 1).last() == selected@[i as int]);
        }
    }
    proof {
        assert(selected@.take(n as int) =~= selected@);
    }
    HiveConfig {
        project: ProjectConfig {
            name: String::from_str(name),
            description: non_empty_exec(description),
            author: non_empty_exec(author),
            framework: Some(framework.to_string()),
        },
        services,
        scripts,
    }
}

// ---------------------------------------------------------------------------
// .gitignore
// ---------------------------------------------------------------------------

/// The entries `.gitignore` must hold: the secrets file and the logs.
pub open spec fn ignore_entries() -> Seq<Seq<char>> {
    seq![".hive/.secrets"@, ".hive/logs/"@]
}

/// Whether some line of `content`, trimmed, is `entry`.
pub open spec fn has_line(content: Seq<char>, entry: Seq<char>) -> bool {
    exists|i: int| 0 <= i < lines(content).len() && trim(#[trigger] lines(content)[i]) == entry
}

/// The entries missing from `content`, in order.
pub open spec fn missing_entries(content: Seq<char>) -> Seq<Seq<char>> {
    ignore_entries().filter(|e: Seq<char>| !has_line(content, e))
}

/// `content` ready to have lines appended: with a final newline added when
/// it is not empty and lacks one.
pub open spec fn with_final_newline(content: Seq<char>) -> Seq<char> {
    if content.len() > 0 && content.last() != '\n' {
        content.push('\n')
    } else {
        content
    }
}

/// The `.gitignore` after patching: unchanged (none) when both entries are
/// there; otherwise the content with a final newline, an empty line, a
/// `# Hive CLI` comment and the missing entries, one per line.
pub open spec fn patched_gitignore(content: Seq<char>) -> Option<Seq<char>> {
    let missing = missing_entries(content);
    if missing.len() == 0 {
        None
    } else {
        Some(
            with_final_newline(content) + terminated(
                seq![Seq::<char>::empty(), "# Hive CLI"@] + missing,
            ),
        )
    }
}

/// Whether a line of the lines `ls`, trimmed, is `entry`.
fn has_line_exec(ls: &Vec<Vec<char>>, entry: &Vec<char>) -> (r: bool)
    ensures
        r == exists|i: int| 0 <= i < ls@.len() && trim(#[trigger] views(ls@)[i]) == entry@,
{
    let n = ls.len();
    for i in 0..n
        invariant
            n == ls.len(),
            forall|j: int| 0 <= j < i ==> trim(#[trigger] views(ls@)[j]) != entry@,
    {
        let t = trim_exec(&ls[i]);
        if crate::text::eq(&t, entry) {
            assert(trim(views(ls@)[i as int]) == entry@);
            return true;
        }
    }
    false
}

/// The `.gitignore` after patching (see `patched_gitignore`): `None` when it
/// already ignores the secrets file and the logs.
pub fn patch_gitignore(existing: &str) -> (r: Option<String>)
    ensures
        opt_view(r) == patched_gitignore(existing@),
{
    let c = chars_of(existing);
    let ls = lines_exec(&c);
    let e1 = chars_of(".hive/.secrets");
    let e2 = chars_of(".hive/logs/");
    let has1 = has_line_exec(&ls, &e1);
    let has2 = has_line_exec(&ls, &e2);
    let ghost missing = missing_entries(existing@);
    proof {
        reveal_strlit(".hive/.secrets");
        reveal_strlit(".hive/logs/");
        lemma_missing_entries(existing@);
    }
    if has1 && has2 {
        return None;
    }
    let mut content = String::from_str(existing);
    if c.len() > 0 && c[c.len() - 1] != '\n' {
        content.push('\n');
    }
    let mut content = content.concat("\n# Hive CLI\n");
    if !has1 {
        content = content.concat(".hive/.secrets\n");
    }
    if !has2 {
        content = content.concat(".hive/logs/\n");
    }
    proof {
        let header = seq![Seq::<char>::empty(), "# Hive CLI"@];
        reveal_strlit("# Hive CLI");
        reveal_strlit("\n");
        reveal_strlit("\n# Hive CLI\n");
        reveal_strlit(".hive/.secrets\n");
        reveal_strlit(".hive/logs/\n");
        lemma_terminated_one(Seq::<char>::empty());
        lemma_terminated_one("# Hive CLI"@);
        lemma_terminated_one(".hive/.secrets"@);
        lemma_terminated_one(".hive/logs/"@);
        assert(header =~= seq![Seq::<char>::empty()] + seq!["# Hive CLI"@]);
        lemma_terminated_append(seq![Seq::<char>::empty()], seq!["# Hive CLI"@]);
        assert(terminated(header) =~= "\n# Hive CLI\n"@);
        lemma_terminated_append(header, missing);
        if !has1 && !has2 {
            assert(missing =~= seq![".hive/.secrets"@] + seq![".hive/logs/"@]);
            lemma_terminated_append(seq![".hive/.secrets"@], seq![".hive/logs/"@]);
        }
        assert(content@ =~= with_final_newline(existing@) + terminated(header) + terminated(missing));
    }
    Some(content)
}

/// What patching `.gitignore` gives: nothing exactly when no entry is
/// missing; otherwise the old content (with a final newline added when it
/// lacks one), an empty line, the `# Hive CLI` comment, then each missing
/// entry on a line of its own.
pub proof fn law_patch_gitignore_output(content: Seq<char>)
    ensures
        patched_gitignore(content) is None <==> missing_entries(content).len() == 0,
        patched_gitignore(content) matches Some(p) ==> p == with_final_newline(content)
            + "\n# Hive CLI\n"@ + terminated(missing_entries(content)),
{
    let header = seq![Seq::<char>::empty(), "# Hive CLI"@];
    reveal_strlit("# Hive CLI");
    reveal_strlit("\n# Hive CLI\n");
    reveal_strlit("\n");
    lemma_terminated_one(Seq::<char>::empty());
    lemma_terminated_one("# Hive CLI"@);
    assert(header =~= seq![Seq::<char>::empty()] + seq!["# Hive CLI"@]);
    lemma_terminated_append(seq![Seq::<char>::empty()], seq!["# Hive CLI"@]);
    assert(terminated(header) =~= "\n# Hive CLI\n"@);
    lemma_terminated_append(header, missing_entries(content));
    assert(with_final_newline(content) + terminated(header) + terminated(missing_entries(content))
        =~= with_final_newline(content) + (terminated(header) + terminated(
        missing_entries(content),
    )));
}

/// Lemma: which entries are missing, entry by entry.
proof fn lemma_missing_entries(content: Seq<char>)
    ensures
        missing_entries(content) == (if !has_line(content, ".hive/.secrets"@) && !has_line(
            content,
            ".hive/logs/"@,
        ) {
            seq![".hive/.secrets"@, ".hive/logs/"@]
        } else if !has_line(content, ".hive/.secrets"@) {
            seq![".hive/.secrets"@]
        } else if !has_line(content, ".hive/logs/"@) {
            seq![".hive/logs/"@]
        } else {
            Seq::<Seq<char>>::empty()
        }),
{
    let es = ignore_entries();
    let f = |e: Seq<char>| !has_line(content, e);
    reveal(Seq::filter);
    assert(es.drop_last() =~= seq![".hive/.secrets"@]);
    assert(es.drop_last().drop_last() =~= Seq::<Seq<char>>::empty());
    assert(es.drop_last().filter(f) == (if f(".hive/.secrets"@) {
        Seq::<Seq<char>>::empty().filter(f).push(".hive/.secrets"@)
    } else {
        Seq::<Seq<char>>::empty().filter(f)
    }));
    assert(Seq::<Seq<char>>::empty().filter(f) =~= Seq::<Seq<char>>::empty());
    if f(".hive/.secrets"@) {
        assert(Seq::<Seq<char>>::empty().push(".hive/.secrets"@) =~= seq![".hive/.secrets"@]);
    }
    if f(".hive/.secrets"@) && f(".hive/logs/"@) {
        assert(seq![".hive/.secrets"@].push(".hive/logs/"@) =~= seq![
            ".hive/.secrets"@,
            ".hive/logs/"@,
        ]);
    } else if f(".hive/logs/"@) {
        assert(Seq::<Seq<char>>::empty().push(".hive/logs/"@) =~= seq![".hive/logs/"@]);
    }
}

/// Lemma: the terminated form of one line.
proof fn lemma_terminated_one(l: Seq<char>)
    ensures
        terminated(seq![l]) == l + "\n"@,
{
    reveal_strlit("\n");
    assert(seq![l].drop_last() =~= Seq::<Seq<char>>::empty());
    assert(terminated(Seq::<Seq<char>>::empty()) == Seq::<char>::empty());
    assert(terminated(seq![l]) == terminated(seq![l].drop_last()) + l + seq!['\n']);
    assert(Seq::<char>::empty() + l + seq!['\n'] =~= l + "\n"@);
}

/// Lemma: terminating lines one block after another.
proof fn lemma_terminated_append(a: Seq<Seq<char>>, b: Seq<Seq<char>>)
    ensures
        terminated(a + b) == terminated(a) + terminated(b),
    decreases b.len(),
{
    if b.len() == 0 {
        assert(a + b =~= a);
        assert(terminated(a) + Seq::<char>::empty() =~= terminated(a));
    } else {
        lemma_terminated_append(a, b.drop_last());
        assert((a + b).drop_last() =~= a + b.drop_last());
        assert((a + b).last() == b.last());
        assert(terminated(a) + terminated(b.drop_last()) + b.last() + seq!['\n'] =~= terminated(a)
            + (terminated(b.drop_last()) + b.last() + seq!['\n']));
    }
}


/// Lemma: the lines of `a + terminated(ls)`, for `a` empty or ending with a
/// newline and lines `ls` without newlines.
proof fn lemma_lines_after(a: Seq<char>, ls: Seq<Seq<char>>)
    requires
        a.len() == 0 || a.last() == '\n',
        forall|i: int| 0 <= i < ls.len() ==> !has_char(#[trigger] ls[i], '\n'),
    ensures
        lines(a + terminated(ls)) == (split_nl(a).drop_last() + ls).map_values(
            |l: Seq<char>| strip_cr(l),
        ),
{
    lemma_split_nl_after(a, terminated(ls));
    lemma_split_nl_terminated(ls);
    let segs = split_nl(a).drop_last() + ls.push(Seq::<char>::empty());
    assert(segs =~= (split_nl(a).drop_last() + ls).push(Seq::<char>::empty()));
    assert(segs.drop_last() =~= split_nl(a).drop_last() + ls);
}

/// Lemma: a line that a text has, trimmed, it still has after a final
/// newline and more lines are added.
proof fn lemma_has_line_kept(content: Seq<char>, ls: Seq<Seq<char>>, e: Seq<char>)
    requires
        has_line(content, e),
        forall|i: int| 0 <= i < ls.len() ==> !has_char(#[trigger] ls[i], '\n'),
    ensures
        has_line(with_final_newline(content) + terminated(ls), e),
{
    let a = with_final_newline(content);
    let p = a + terminated(ls);
    lemma_lines_after(a, ls);
    lemma_split_nl_len(content);
    let i = choose|i: int| 0 <= i < lines(content).len() && trim(#[trigger] lines(content)[i]) == e;
    let s = split_nl(content);
    let big = split_nl(a).drop_last() + ls;
    if content.len() == 0 || content.last() == '\n' {
        lemma_split_nl_last_empty(content);
        assert(lines(p)[i] == strip_cr(big[i]));
        assert(big[i] == s[i]);
    } else {
        lemma_split_nl_len(content.drop_last());
        assert(a.drop_last() =~= content);
        assert(split_nl(a) == s.push(Seq::<char>::empty()));
        assert(split_nl(a).drop_last() =~= s);
        assert(s.last().len() > 0);
        assert(lines(p)[i] == strip_cr(big[i]));
        assert(big[i] == s[i]);
        if i == s.len() - 1 {
            lemma_trim_strip_cr(s[i]);
        }
    }
    assert(trim(lines(p)[i]) == e);
}

/// Lemma: each added line, trimmed, is a line of the text after it is added.
proof fn lemma_has_line_added(a: Seq<char>, ls: Seq<Seq<char>>, k: int)
    requires
        a.len() == 0 || a.last() == '\n',
        forall|i: int| 0 <= i < ls.len() ==> !has_char(#[trigger] ls[i], '\n'),
        0 <= k < ls.len(),
    ensures
        has_line(a + terminated(ls), trim(strip_cr(ls[k]))),
{
    lemma_lines_after(a, ls);
    let big = split_nl(a).drop_last() + ls;
    let j = split_nl(a).drop_last().len() + k;
    assert(big[j] == ls[k]);
    assert(lines(a + terminated(ls))[j] == strip_cr(ls[k]));
}

/// Lemma: an entry to ignore is its own trimmed line.
proof fn lemma_entry_trimmed(e: Seq<char>)
    requires
        e.len() > 0,
        !is_ws(e[0]),
        !is_ws(e.last()),
        e.last() != '\r',
    ensures
        trim(strip_cr(e)) == e,
{
    lemma_trim_unique(e, 0, e.len() as int);
    assert(e.subrange(0, e.len() as int) =~= e);
}

/// Patching `.gitignore` is idempotent: once patched, the file ignores the
/// secrets file and the logs, and a second patch leaves it unchanged.
pub proof fn law_patch_gitignore_idempotent(content: Seq<char>)
    ensures
        patched_gitignore(content) matches Some(p) ==> has_line(p, ".hive/.secrets"@) && has_line(
            p,
            ".hive/logs/"@,
        ) && patched_gitignore(p) is None,
{
    let missing = missing_entries(content);
    if missing.len() > 0 {
        let a = with_final_newline(content);
        let header = seq![Seq::<char>::empty(), "# Hive CLI"@];
        let t = header + missing;
        let p = a + terminated(t);
        reveal_strlit(".hive/.secrets");
        reveal_strlit(".hive/logs/");
        reveal_strlit("# Hive CLI");
        lemma_missing_entries(content);
        let s1 = ".hive/.secrets"@;
        let s2 = ".hive/logs/"@;
        assert(!has_char(s1, '\n'));
        assert(!has_char(s2, '\n'));
        assert(!has_char("# Hive CLI"@, '\n'));
        assert(!has_char(Seq::<char>::empty(), '\n'));
        assert forall|i: int| 0 <= i < t.len() implies !has_char(#[trigger] t[i], '\n') by {
            if i >= 2 {
                assert(t[i] == missing[i - 2]);
            }
        }
        assert(a.len() == 0 || a.last() == '\n');
        lemma_entry_trimmed(s1);
        lemma_entry_trimmed(s2);
        if has_line(content, s1) {
            lemma_has_line_kept(content, t, s1);
        } else {
            assert(t[2] == s1);
            lemma_has_line_added(a, t, 2);
        }
        if has_line(content, s2) {
            lemma_has_line_kept(content, t, s2);
        } else if has_line(content, s1) {
            assert(t[2] == s2);
            lemma_has_line_added(a, t, 2);
        } else {
            assert(t[3] == s2);
            lemma_has_line_added(a, t, 3);
        }
        lemma_missing_entries(p);
    }
}

// ---------------------------------------------------------------------------
// Reading back what init writes
// ---------------------------------------------------------------------------

/// Lemma: reading a line, then the lines after it.
proof fn lemma_lookup_cons(l: Seq<char>, ls: Seq<Seq<char>>, key: Seq<char>)
    ensures
        lookup_lines(seq![l] + ls, key) == (match lookup_line(l, key) {
            Some(v) => Some(v),
            None => lookup_lines(ls, key),
        }),
{
    assert((seq![l] + ls)[0] == l);
    assert((seq![l] + ls).drop_first() =~= ls);
}

/// Lemma: decimal digits are read back as they are.
proof fn lemma_digits_value_text(d: Seq<char>)
    requires
        d.len() > 0,
        forall|i: int| 0 <= i < d.len() ==> is_digit(#[trigger] d[i]),
    ensures
        value_text(d) == d,
{
    assert(is_digit(d[0]));
    assert(is_digit(d[d.len() - 1]));
    lemma_trim_unique(d, 0, d.len() as int);
    assert(d.subrange(0, d.len() as int) =~= d);
    lemma_trim_end_char_take(d, '"', d.len() as int);
    assert(d.take(d.len() as int) =~= d);
    lemma_trim_start_char_skip(d, '"', 0);
    assert(d.skip(0) =~= d);
    lemma_trim_end_char_take(d, '\'', d.len() as int);
    lemma_trim_start_char_skip(d, '\'', 0);
}

/// Lemma: the decimal digits of a number are digits.
proof fn lemma_decimal_is_digits(n: nat)
    ensures
        decimal(n).len() > 0,
        forall|i: int| 0 <= i < decimal(n).len() ==> is_digit(#[trigger] decimal(n)[i]),
    decreases n,
{
    if n >= 10 {
        lemma_decimal_is_digits(n / 10);
        let d = decimal(n / 10);
        assert forall|i: int| 0 <= i < decimal(n).len() implies is_digit(#[trigger] decimal(n)[i]) by {
            if i < d.len() {
                assert(decimal(n)[i] == d[i]);
            }
        }
    }
}

/// Lemma: a key made of capitals and `_` can be written and read back.
proof fn lemma_plain_key(k: Seq<char>)
    requires
        k.len() > 0,
        forall|i: int| 0 <= i < k.len() ==> ('A' <= #[trigger] k[i] <= 'Z' || k[i] == '_'),
    ensures
        writable_key(k),
{
    assert(!is_ws(k[0]));
    assert(!is_ws(k[k.len() - 1]));
    lemma_trim_unique(k, 0, k.len() as int);
    assert(k.subrange(0, k.len() as int) =~= k);
}

/// The first line of the env file `hive init` writes.
spec fn env_note(has_existing: bool) -> Seq<char> {
    if has_existing {
        "# Synced from your existing .env — add overrides below"@
    } else {
        "# Hive environment variables — edit freely"@
    }
}

/// The env file `hive init` writes after its `APP_PORT` line.
spec fn env_rest(name: Seq<char>, port: u16, desc: Seq<char>, author: Seq<char>) -> Seq<char> {
    "APP_DEBUG=true\nAPP_URL=http://localhost:"@ + decimal(port as nat) + "\n"@ + optional_line(
        "APP_DESCRIPTION="@,
        desc,
    ) + optional_line("APP_AUTHOR="@, author)
        + "\n# Database\nDB_CONNECTION=mysql\nDB_HOST=127.0.0.1\nDB_PORT=3306\nDB_DATABASE="@
        + underscored(lowercase(name))
        + "\nDB_USERNAME=root\nDB_PASSWORD=\n\n# Cache / Queue\nCACHE_DRIVER=file\nQUEUE_CONNECTION=sync\nSESSION_DRIVER=file\n"@
}

/// Lemma: the env file `hive init` writes, line by line up to `APP_PORT`.
proof fn lemma_env_shape(name: Seq<char>, port: u16, has_existing: bool, desc: Seq<char>, author: Seq<char>)
    ensures
        env_content_of(name, port, has_existing, desc, author) == env_note(has_existing) + seq!['\n']
            + (Seq::<char>::empty() + seq!['\n'] + (assignment("APP_NAME"@, name) + seq!['\n'] + (
        assignment("APP_ENV"@, "development"@) + seq!['\n'] + (assignment(
            "APP_PORT"@,
            decimal(port as nat),
        ) + seq!['\n'] + env_rest(name, port, desc, author))))),
{
    reveal_strlit("\n\nAPP_NAME=");
    reveal_strlit("\nAPP_ENV=development\nAPP_PORT=");
    reveal_strlit("\nAPP_DEBUG=true\nAPP_URL=http://localhost:");
    reveal_strlit("APP_DEBUG=true\nAPP_URL=http://localhost:");
    reveal_strlit("APP_NAME");
    reveal_strlit("APP_PORT");
    reveal_strlit("APP_ENV");
    reveal_strlit("development");
    let nl = seq!['\n'];
    let p = decimal(port as nat);
    let tail = "\n"@ + optional_line("APP_DESCRIPTION="@, desc) + optional_line("APP_AUTHOR="@, author)
        + "\n# Database\nDB_CONNECTION=mysql\nDB_HOST=127.0.0.1\nDB_PORT=3306\nDB_DATABASE="@
        + underscored(lowercase(name))
        + "\nDB_USERNAME=root\nDB_PASSWORD=\n\n# Cache / Queue\nCACHE_DRIVER=file\nQUEUE_CONNECTION=sync\nSESSION_DRIVER=file\n"@;
    assert(env_rest(name, port, desc, author) =~= "APP_DEBUG=true\nAPP_URL=http://localhost:"@ + p
        + tail);
    assert(env_content_of(name, port, has_existing, desc, author) =~= env_note(has_existing)
        + "\n\nAPP_NAME="@ + name + "\nAPP_ENV=development\nAPP_PORT="@ + p
        + "\nAPP_DEBUG=true\nAPP_URL=http://localhost:"@ + p + tail);
    assert(env_note(has_existing) + "\n\nAPP_NAME="@ + name + "\nAPP_ENV=development\nAPP_PORT="@
        + p + "\nAPP_DEBUG=true\nAPP_URL=http://localhost:"@ + p + tail =~= env_note(has_existing)
        + nl + (Seq::<char>::empty() + nl + (assignment("APP_NAME"@, name) + nl + (assignment(
        "APP_ENV"@,
        "development"@,
    ) + nl + (assignment("APP_PORT"@, p) + nl + env_rest(name, port, desc, author))))));
}

/// Lemma: the lines of the env file `hive init` writes, up to `APP_PORT`.
proof fn lemma_env_lines(name: Seq<char>, port: u16, has_existing: bool, desc: Seq<char>, author: Seq<char>)
    requires
        !has_char(name, '\n'),
    ensures
        lines(env_content_of(name, port, has_existing, desc, author)) == seq![env_note(has_existing)]
            + (seq![Seq::<char>::empty()] + (seq![strip_cr(assignment("APP_NAME"@, name))] + (seq![
            strip_cr(assignment("APP_ENV"@, "development"@)),
        ] + (seq![strip_cr(assignment("APP_PORT"@, decimal(port as nat)))] + lines(
            env_rest(name, port, desc, author),
        ))))),
{
    reveal_strlit("# Synced from your existing .env — add overrides below");
    reveal_strlit("# Hive environment variables — edit freely");
    reveal_strlit("APP_NAME");
    reveal_strlit("APP_PORT");
    reveal_strlit("APP_ENV");
    reveal_strlit("development");
    lemma_env_shape(name, port, has_existing, desc, author);
    let p = decimal(port as nat);
    lemma_decimal_is_digits(port as nat);
    assert forall|i: int| 0 <= i < p.len() implies p[i] != '\n' by {
        assert(is_digit(p[i]));
    }
    let k_name = "APP_NAME"@;
    let k_port = "APP_PORT"@;
    let k_env = "APP_ENV"@;
    lemma_plain_key(k_name);
    lemma_plain_key(k_port);
    lemma_plain_key(k_env);
    assert(!has_char("development"@, '\n'));
    assert(k_env != k_name);
    lemma_assignment_lookup(k_name, name, k_env);
    lemma_assignment_lookup(k_env, "development"@, k_name);
    lemma_assignment_lookup(k_port, p, k_name);
    assert(!has_char(env_note(has_existing), '\n'));
    assert(!has_char(Seq::<char>::empty(), '\n'));
    let rest = env_rest(name, port, desc, author);
    let a_port = assignment(k_port, p);
    let a_env = assignment(k_env, "development"@);
    let a_name = assignment(k_name, name);
    let nl = seq!['\n'];
    lemma_lines_cons(a_port, rest);
    lemma_lines_cons(a_env, a_port + nl + rest);
    lemma_lines_cons(a_name, a_env + nl + (a_port + nl + rest));
    lemma_lines_cons(Seq::<char>::empty(), a_name + nl + (a_env + nl + (a_port + nl + rest)));
    lemma_lines_cons(
        env_note(has_existing),
        Seq::<char>::empty() + nl + (a_name + nl + (a_env + nl + (a_port + nl + rest))),
    );
    assert(strip_cr(Seq::<char>::empty()) == Seq::<char>::empty());
    assert(strip_cr(env_note(has_existing)) == env_note(has_existing));
}

/// The env file `hive init` writes from its empty line before the database
/// settings on, for the database name `db`.
spec fn env_tail(db: Seq<char>) -> Seq<char> {
    "\n# Database\nDB_CONNECTION=mysql\nDB_HOST=127.0.0.1\nDB_PORT=3306\nDB_DATABASE="@ + db
        + "\nDB_USERNAME=root\nDB_PASSWORD=\n\n# Cache / Queue\nCACHE_DRIVER=file\nQUEUE_CONNECTION=sync\nSESSION_DRIVER=file\n"@
}

/// Lemma: the last lines of the env file, from the database settings on.
proof fn lemma_env_tail_end_lines()
    ensures
        lines(
            "DB_USERNAME=root\nDB_PASSWORD=\n\n# Cache / Queue\nCACHE_DRIVER=file\nQUEUE_CONNECTION=sync\nSESSION_DRIVER=file\n"@,
        ) == seq![
            assignment("DB_USERNAME"@, "root"@),
            assignment("DB_PASSWORD"@, Seq::<char>::empty()),
            Seq::<char>::empty(),
            "# Cache / Queue"@,
            assignment("CACHE_DRIVER"@, "file"@),
            assignment("QUEUE_CONNECTION"@, "sync"@),
            assignment("SESSION_DRIVER"@, "file"@),
        ],
{
    reveal_strlit(
        "DB_USERNAME=root\nDB_PASSWORD=\n\n# Cache / Queue\nCACHE_DRIVER=file\nQUEUE_CONNECTION=sync\nSESSION_DRIVER=file\n",
    );
    reveal_strlit("DB_USERNAME");
    reveal_strlit("root");
    reveal_strlit("DB_PASSWORD");
    reveal_strlit("# Cache / Queue");
    reveal_strlit("CACHE_DRIVER");
    reveal_strlit("file");
    reveal_strlit("QUEUE_CONNECTION");
    reveal_strlit("sync");
    reveal_strlit("SESSION_DRIVER");
    let nl = seq!['\n'];
    let e = Seq::<char>::empty();
    let l1 = assignment("DB_USERNAME"@, "root"@);
    let l2 = assignment("DB_PASSWORD"@, e);
    let l4 = "# Cache / Queue"@;
    let l5 = assignment("CACHE_DRIVER"@, "file"@);
    let l6 = assignment("QUEUE_CONNECTION"@, "sync"@);
    let l7 = assignment("SESSION_DRIVER"@, "file"@);
    let t7 = l7 + nl + e;
    let t6 = l6 + nl + t7;
    let t5 = l5 + nl + t6;
    let t4 = l4 + nl + t5;
    let t3 = e + nl + t4;
    let t2 = l2 + nl + t3;
    let t1 = l1 + nl + t2;
    assert("DB_USERNAME=root\nDB_PASSWORD=\n\n# Cache / Queue\nCACHE_DRIVER=file\nQUEUE_CONNECTION=sync\nSESSION_DRIVER=file\n"@ =~= t1);
    assert(!has_char(l1, '\n'));
    assert(!has_char(l2, '\n'));
    assert(!has_char(e, '\n'));
    assert(!has_char(l4, '\n'));
    assert(!has_char(l5, '\n'));
    assert(!has_char(l6, '\n'));
    assert(!has_char(l7, '\n'));
    lemma_lines_cons(l7, e);
    lemma_lines_cons(l6, t7);
    lemma_lines_cons(l5, t6);
    lemma_lines_cons(l4, t5);
    lemma_lines_cons(e, t4);
    lemma_lines_cons(l2, t3);
    lemma_lines_cons(l1, t2);
    assert(lines(e) =~= Seq::<Seq<char>>::empty());
    assert(strip_cr(l1) == l1);
    assert(strip_cr(l2) == l2);
    assert(strip_cr(e) == e);
    assert(strip_cr(l4) == l4);
    assert(strip_cr(l5) == l5);
    assert(strip_cr(l6) == l6);
    assert(strip_cr(l7) == l7);
    assert(seq![strip_cr(l1)] + (seq![strip_cr(l2)] + (seq![strip_cr(e)] + (seq![strip_cr(l4)] + (
    seq![strip_cr(l5)] + (seq![strip_cr(l6)] + (seq![strip_cr(l7)] + Seq::<Seq<char>>::empty()))))))
        =~= seq![l1, l2, e, l4, l5, l6, l7]);
}

/// The lines of the env file after the database settings' database name.
spec fn env_end_lines() -> Seq<Seq<char>> {
    seq![
        assignment("DB_USERNAME"@, "root"@),
        assignment("DB_PASSWORD"@, Seq::<char>::empty()),
        Seq::<char>::empty(),
        "# Cache / Queue"@,
        assignment("CACHE_DRIVER"@, "file"@),
        assignment("QUEUE_CONNECTION"@, "sync"@),
        assignment("SESSION_DRIVER"@, "file"@),
    ]
}

/// Lemma: the lines of the env file from the database settings on.
proof fn lemma_env_tail_lines(db: Seq<char>)
    requires
        !has_char(db, '\n'),
    ensures
        lines(env_tail(db)) == seq![
            Seq::<char>::empty(),
            "# Database"@,
            assignment("DB_CONNECTION"@, "mysql"@),
            assignment("DB_HOST"@, "127.0.0.1"@),
            assignment("DB_PORT"@, "3306"@),
            strip_cr(assignment("DB_DATABASE"@, db)),
        ] + env_end_lines(),
{
    reveal_strlit("\n# Database\nDB_CONNECTION=mysql\nDB_HOST=127.0.0.1\nDB_PORT=3306\nDB_DATABASE=");
    reveal_strlit(
        "\nDB_USERNAME=root\nDB_PASSWORD=\n\n# Cache / Queue\nCACHE_DRIVER=file\nQUEUE_CONNECTION=sync\nSESSION_DRIVER=file\n",
    );
    reveal_strlit(
        "DB_USERNAME=root\nDB_PASSWORD=\n\n# Cache / Queue\nCACHE_DRIVER=file\nQUEUE_CONNECTION=sync\nSESSION_DRIVER=file\n",
    );
    reveal_strlit("# Database");
    reveal_strlit("DB_CONNECTION");
    reveal_strlit("mysql");
    reveal_strlit("DB_HOST");
    reveal_strlit("127.0.0.1");
    reveal_strlit("DB_PORT");
    reveal_strlit("3306");
    reveal_strlit("DB_DATABASE");
    lemma_env_tail_end_lines();
    let nl = seq!['\n'];
    let e = Seq::<char>::empty();
    let end = "DB_USERNAME=root\nDB_PASSWORD=\n\n# Cache / Queue\nCACHE_DRIVER=file\nQUEUE_CONNECTION=sync\nSESSION_DRIVER=file\n"@;
    let l2 = "# Database"@;
    let l3 = assignment("DB_CONNECTION"@, "mysql"@);
    let l4 = assignment("DB_HOST"@, "127.0.0.1"@);
    let l5 = assignment("DB_PORT"@, "3306"@);
    let l6 = assignment("DB_DATABASE"@, db);
    let t6 = l6 + nl + end;
    let t5 = l5 + nl + t6;
    let t4 = l4 + nl + t5;
    let t3 = l3 + nl + t4;
    let t2 = l2 + nl + t3;
    let t1 = e + nl + t2;
    assert(env_tail(db) =~= t1);
    assert(!has_char(e, '\n'));
    assert(!has_char(l2, '\n'));
    assert(!has_char(l3, '\n'));
    assert(!has_char(l4, '\n'));
    assert(!has_char(l5, '\n'));
    assert forall|k: int| 0 <= k < l6.len() implies l6[k] != '\n' by {
        if k >= 12 {
            assert(l6[k] == db[k - 12]);
        }
    }
    lemma_lines_cons(l6, end);
    lemma_lines_cons(l5, t6);
    lemma_lines_cons(l4, t5);
    lemma_lines_cons(l3, t4);
    lemma_lines_cons(l2, t3);
    lemma_lines_cons(e, t2);
    assert(strip_cr(e) == e);
    assert(strip_cr(l2) == l2);
    assert(strip_cr(l3) == l3);
    assert(strip_cr(l4) == l4);
    assert(strip_cr(l5) == l5);
    assert(seq![e] + (seq![l2] + (seq![l3] + (seq![l4] + (seq![l5] + (seq![strip_cr(l6)]
        + env_end_lines()))))) =~= seq![e, l2, l3, l4, l5, strip_cr(l6)] + env_end_lines());
}

/// Lemma: lines none of which holds the key read nothing for it.
proof fn lemma_lookup_none(xs: Seq<Seq<char>>, key: Seq<char>)
    requires
        forall|i: int| 0 <= i < xs.len() ==> (#[trigger] lookup_line(xs[i], key)) is None,
    ensures
        lookup_lines(xs, key) is None,
    decreases xs.len(),
{
    if xs.len() > 0 {
        assert(lookup_line(xs[0], key) is None);
        assert forall|i: int| 0 <= i < xs.drop_first().len() implies (#[trigger] lookup_line(
            xs.drop_first()[i],
            key,
        )) is None by {
            assert(xs.drop_first()[i] == xs[i + 1]);
        }
        lemma_lookup_none(xs.drop_first(), key);
    }
}

/// Lemma: a `#` comment line holds no key.
proof fn lemma_comment_lookup(c: Seq<char>, key: Seq<char>)
    requires
        c.len() > 0,
        c[0] == '#',
        !is_ws(c.last()),
    ensures
        lookup_line(c, key) is None,
{
    assert(!is_ws('#'));
    lemma_trim_unique(c, 0, c.len() as int);
    assert(c.subrange(0, c.len() as int) =~= c);
}

/// Lemma: an assignment of another key holds nothing for `key`.
proof fn lemma_other_assignment(k: Seq<char>, v: Seq<char>, key: Seq<char>)
    requires
        k.len() > 0,
        forall|i: int| 0 <= i < k.len() ==> ('A' <= #[trigger] k[i] <= 'Z' || k[i] == '_'),
        !has_char(v, '\n'),
        k != key,
    ensures
        lookup_line(assignment(k, v), key) is None,
        lookup_line(strip_cr(assignment(k, v)), key) is None,
{
    lemma_plain_key(k);
    lemma_assignment_lookup(k, v, key);
    lemma_lookup_strip_cr(assignment(k, v), key);
}

/// Lemma: no line from the database settings on holds a key that starts
/// with `A`.
proof fn lemma_env_tail_none(db: Seq<char>, key: Seq<char>)
    requires
        !has_char(db, '\n'),
        key.len() > 0,
        key[0] == 'A',
    ensures
        lookup_lines(lines(env_tail(db)), key) is None,
{
    lemma_env_tail_lines(db);
    reveal_strlit("# Database");
    reveal_strlit("DB_CONNECTION");
    reveal_strlit("mysql");
    reveal_strlit("DB_HOST");
    reveal_strlit("127.0.0.1");
    reveal_strlit("DB_PORT");
    reveal_strlit("3306");
    reveal_strlit("DB_DATABASE");
    reveal_strlit("DB_USERNAME");
    reveal_strlit("root");
    reveal_strlit("DB_PASSWORD");
    reveal_strlit("# Cache / Queue");
    reveal_strlit("CACHE_DRIVER");
    reveal_strlit("file");
    reveal_strlit("QUEUE_CONNECTION");
    reveal_strlit("sync");
    reveal_strlit("SESSION_DRIVER");
    let e = Seq::<char>::empty();
    assert(trim(e) =~= e);
    assert(lookup_line(e, key) is None);
    lemma_comment_lookup("# Database"@, key);
    lemma_comment_lookup("# Cache / Queue"@, key);
    assert("DB_CONNECTION"@[0] != key[0]);
    assert("DB_HOST"@[0] != key[0]);
    assert("DB_PORT"@[0] != key[0]);
    assert("DB_DATABASE"@[0] != key[0]);
    assert("DB_USERNAME"@[0] != key[0]);
    assert("DB_PASSWORD"@[0] != key[0]);
    assert("CACHE_DRIVER"@[0] != key[0]);
    assert("QUEUE_CONNECTION"@[0] != key[0]);
    assert("SESSION_DRIVER"@[0] != key[0]);
    assert(!has_char("mysql"@, '\n'));
    assert(!has_char("127.0.0.1"@, '\n'));
    assert(!has_char("3306"@, '\n'));
    assert(!has_char("root"@, '\n'));
    assert(!has_char(e, '\n'));
    assert(!has_char("file"@, '\n'));
    assert(!has_char("sync"@, '\n'));
    lemma_other_assignment("DB_CONNECTION"@, "mysql"@, key);
    lemma_other_assignment("DB_HOST"@, "127.0.0.1"@, key);
    lemma_other_assignment("DB_PORT"@, "3306"@, key);
    lemma_other_assignment("DB_DATABASE"@, db, key);
    lemma_other_assignment("DB_USERNAME"@, "root"@, key);
    lemma_other_assignment("DB_PASSWORD"@, e, key);
    lemma_other_assignment("CACHE_DRIVER"@, "file"@, key);
    lemma_other_assignment("QUEUE_CONNECTION"@, "sync"@, key);
    lemma_other_assignment("SESSION_DRIVER"@, "file"@, key);
    let xs = lines(env_tail(db));
    assert forall|i: int| 0 <= i < xs.len() implies (#[trigger] lookup_line(xs[i], key)) is None by {
        if i == 0 { assert(xs[i] == e); }
        else if i == 1 { assert(xs[i] == "# Database"@); }
        else if i == 2 { assert(xs[i] == assignment("DB_CONNECTION"@, "mysql"@)); }
        else if i == 3 { assert(xs[i] == assignment("DB_HOST"@, "127.0.0.1"@)); }
        else if i == 4 { assert(xs[i] == assignment("DB_PORT"@, "3306"@)); }
        else if i == 5 { assert(xs[i] == strip_cr(assignment("DB_DATABASE"@, db))); }
        else if i == 6 { assert(xs[i] == assignment("DB_USERNAME"@, "root"@)); }
        else if i == 7 { assert(xs[i] == assignment("DB_PASSWORD"@, e)); }
        else if i == 8 { assert(xs[i] == e); }
        else if i == 9 { assert(xs[i] == "# Cache / Queue"@); }
        else if i == 10 { assert(xs[i] == assignment("CACHE_DRIVER"@, "file"@)); }
        else if i == 11 { assert(xs[i] == assignment("QUEUE_CONNECTION"@, "sync"@)); }
        else { assert(xs[i] == assignment("SESSION_DRIVER"@, "file"@)); }
    }
    lemma_lookup_none(xs, key);
}

/// What `hive init` writes to `.hive/.env` is read back by `hive env get`:
/// `APP_NAME` gives the project's name (as a reader takes a value: trimmed
/// and unquoted) and `APP_PORT` the port's digits, for a name without a
/// newline.
pub proof fn law_init_env_reads_back(
    name: Seq<char>,
    port: u16,
    has_existing: bool,
    desc: Seq<char>,
    author: Seq<char>,
)
    requires
        !has_char(name, '\n'),
    ensures
        find_key_spec(env_content_of(name, port, has_existing, desc, author), "APP_NAME"@) == Some(
            value_text(name),
        ),
        find_key_spec(env_content_of(name, port, has_existing, desc, author), "APP_PORT"@) == Some(
            decimal(port as nat),
        ),
{
    reveal_strlit("# Synced from your existing .env — add overrides below");
    reveal_strlit("# Hive environment variables — edit freely");
    reveal_strlit("APP_NAME");
    reveal_strlit("APP_PORT");
    reveal_strlit("APP_ENV");
    reveal_strlit("development");
    lemma_env_lines(name, port, has_existing, desc, author);
    let note = env_note(has_existing);
    let p = decimal(port as nat);
    let k_name = "APP_NAME"@;
    let k_port = "APP_PORT"@;
    let k_env = "APP_ENV"@;
    let a_name = assignment(k_name, name);
    let a_env = assignment(k_env, "development"@);
    let a_port = assignment(k_port, p);
    lemma_decimal_is_digits(port as nat);
    assert forall|i: int| 0 <= i < p.len() implies p[i] != '\n' by {
        assert(is_digit(p[i]));
    }
    lemma_plain_key(k_name);
    lemma_plain_key(k_port);
    lemma_plain_key(k_env);
    assert(!has_char("development"@, '\n'));
    assert(k_name != k_port);
    assert(k_env != k_port);
    lemma_assignment_lookup(k_name, name, k_port);
    lemma_assignment_lookup(k_env, "development"@, k_port);
    lemma_assignment_lookup(k_env, "development"@, k_name);
    lemma_assignment_lookup(k_port, p, k_name);
    lemma_lookup_strip_cr(a_name, k_name);
    lemma_lookup_strip_cr(a_name, k_port);
    lemma_lookup_strip_cr(a_env, k_port);
    lemma_lookup_strip_cr(a_port, k_port);
    lemma_digits_value_text(p);
    assert(trim(note) == note);
    assert(trim(Seq::<char>::empty()) == Seq::<char>::empty());

    let tail = lines(env_rest(name, port, desc, author));
    let l4 = seq![strip_cr(a_port)] + tail;
    let l3 = seq![strip_cr(a_env)] + l4;
    let l2 = seq![strip_cr(a_name)] + l3;
    let l1 = seq![Seq::<char>::empty()] + l2;
    lemma_lookup_cons(note, l1, k_name);
    lemma_lookup_cons(Seq::<char>::empty(), l2, k_name);
    lemma_lookup_cons(strip_cr(a_name), l3, k_name);
    lemma_lookup_cons(note, l1, k_port);
    lemma_lookup_cons(Seq::<char>::empty(), l2, k_port);
    lemma_lookup_cons(strip_cr(a_name), l3, k_port);
    lemma_lookup_cons(strip_cr(a_env), l4, k_port);
    lemma_lookup_cons(strip_cr(a_port), tail, k_port);
}

/// Lemma: reading lines one block after another.
proof fn lemma_lookup_append(a: Seq<Seq<char>>, b: Seq<Seq<char>>, key: Seq<char>)
    ensures
        lookup_lines(a + b, key) == (match lookup_lines(a, key) {
            Some(v) => Some(v),
            None => lookup_lines(b, key),
        }),
    decreases a.len(),
{
    if a.len() == 0 {
        assert(a + b =~= b);
    } else {
        lemma_lookup_append(a.drop_first(), b, key);
        assert((a + b).drop_first() =~= a.drop_first() + b);
        assert((a + b)[0] == a[0]);
    }
}

/// Lemma: a value without surrounding whitespace or quotes is read as it
/// is.
proof fn lemma_value_text_plain(v: Seq<char>)
    requires
        v.len() > 0,
        !is_ws(v[0]),
        !is_ws(v.last()),
        v[0] != '"' && v[0] != '\'',
        v.last() != '"' && v.last() != '\'',
    ensures
        value_text(v) == v,
{
    lemma_trim_unique(v, 0, v.len() as int);
    assert(v.subrange(0, v.len() as int) =~= v);
    lemma_trim_end_char_take(v, '"', v.len() as int);
    assert(v.take(v.len() as int) =~= v);
    lemma_trim_start_char_skip(v, '"', 0);
    assert(v.skip(0) =~= v);
    lemma_trim_end_char_take(v, '\'', v.len() as int);
    lemma_trim_start_char_skip(v, '\'', 0);
}

/// The line an optional setting gives, read as a line: none for an empty
/// value.
spec fn optional_lines(key: Seq<char>, value: Seq<char>) -> Seq<Seq<char>> {
    if value.len() == 0 {
        Seq::empty()
    } else {
        seq![strip_cr(assignment(key, value))]
    }
}

/// Lemma: the lines of an optional setting followed by more text.
proof fn lemma_optional_line_lines(key: Seq<char>, value: Seq<char>, rest: Seq<char>)
    requires
        !has_char(key, '\n'),
        !has_char(value, '\n'),
    ensures
        lines(optional_line(key + "="@, value) + rest) == optional_lines(key, value) + lines(rest),
{
    reveal_strlit("=");
    reveal_strlit("\n");
    if value.len() == 0 {
        assert(optional_line(key + "="@, value) + rest =~= rest);
        assert(optional_lines(key, value) + lines(rest) =~= lines(rest));
    } else {
        let a = assignment(key, value);
        assert(optional_line(key + "="@, value) + rest =~= a + seq!['\n'] + rest);
        assert forall|k: int| 0 <= k < a.len() implies a[k] != '\n' by {
            if k < key.len() {
                assert(a[k] == key[k]);
            } else if k > key.len() {
                assert(a[k] == value[k - key.len() - 1]);
            }
        }
        lemma_lines_cons(a, rest);
    }
}

/// Lemma: the lines of the env file after its `APP_PORT` line.
proof fn lemma_env_rest_lines(name: Seq<char>, port: u16, desc: Seq<char>, author: Seq<char>)
    requires
        !has_char(desc, '\n'),
        !has_char(author, '\n'),
    ensures
        lines(env_rest(name, port, desc, author)) == seq![
            assignment("APP_DEBUG"@, "true"@),
            assignment("APP_URL"@, local_url_text(port)),
        ] + (optional_lines("APP_DESCRIPTION"@, desc) + (optional_lines("APP_AUTHOR"@, author)
            + lines(env_tail(underscored(lowercase(name)))))),
{
    reveal_strlit("APP_DEBUG=true\nAPP_URL=http://localhost:");
    reveal_strlit("APP_DEBUG");
    reveal_strlit("true");
    reveal_strlit("APP_URL");
    reveal_strlit("http://localhost:");
    reveal_strlit("APP_DESCRIPTION=");
    reveal_strlit("APP_DESCRIPTION");
    reveal_strlit("APP_AUTHOR=");
    reveal_strlit("APP_AUTHOR");
    reveal_strlit("\n");
    let nl = seq!['\n'];
    let p = decimal(port as nat);
    let db = underscored(lowercase(name));
    let tail = env_tail(db);
    let od = optional_line("APP_DESCRIPTION="@, desc);
    let oa = optional_line("APP_AUTHOR="@, author);
    let a_debug = assignment("APP_DEBUG"@, "true"@);
    let a_url = assignment("APP_URL"@, local_url_text(port));
    let r2 = od + (oa + tail);
    assert(env_rest(name, port, desc, author) =~= a_debug + nl + (a_url + nl + r2)) by {
        reveal_strlit("\n# Database\nDB_CONNECTION=mysql\nDB_HOST=127.0.0.1\nDB_PORT=3306\nDB_DATABASE=");
    }
    assert("APP_DESCRIPTION="@ =~= "APP_DESCRIPTION"@ + "="@) by {
        reveal_strlit("=");
    }
    assert("APP_AUTHOR="@ =~= "APP_AUTHOR"@ + "="@) by {
        reveal_strlit("=");
    }
    assert(!has_char("APP_DESCRIPTION"@, '\n'));
    assert(!has_char("APP_AUTHOR"@, '\n'));
    lemma_optional_line_lines("APP_AUTHOR"@, author, tail);
    lemma_optional_line_lines("APP_DESCRIPTION"@, desc, oa + tail);
    lemma_decimal_is_digits(port as nat);
    assert forall|k: int| 0 <= k < a_url.len() implies a_url[k] != '\n' by {
        if k >= 25 {
            assert(a_url[k] == p[k - 25]);
            assert(is_digit(p[k - 25]));
        }
    }
    assert(!has_char(a_debug, '\n'));
    lemma_lines_cons(a_url, r2);
    lemma_lines_cons(a_debug, a_url + nl + r2);
    assert(strip_cr(a_debug) == a_debug);
    assert(a_url.last() == p.last());
    assert(is_digit(p[p.len() - 1]));
    assert(strip_cr(a_url) == a_url);
}

/// The address the env file gives as `APP_URL`.
spec fn local_url_text(port: u16) -> Seq<char> {
    "http://localhost:"@ + decimal(port as nat)
}

/// What else `hive init` writes to `.hive/.env` is read back by `hive env
/// get`: the file ends with a newline, `APP_URL` gives the local address,
/// and `APP_DESCRIPTION` and `APP_AUTHOR` are there exactly when given
/// (read trimmed and unquoted); for a name, description and author without
/// newlines, and a lower-cased name without one.
pub proof fn law_init_env_settings(
    name: Seq<char>,
    port: u16,
    has_existing: bool,
    desc: Seq<char>,
    author: Seq<char>,
)
    requires
        !has_char(name, '\n'),
        !has_char(desc, '\n'),
        !has_char(author, '\n'),
        !has_char(lowercase(name), '\n'),
    ensures
        ({
            let env = env_content_of(name, port, has_existing, desc, author);
            &&& env.len() > 0 && env.last() == '\n'
            &&& find_key_spec(env, "APP_URL"@) == Some("http://localhost:"@ + decimal(port as nat))
            &&& find_key_spec(env, "APP_DESCRIPTION"@) == (if desc.len() == 0 {
                None
            } else {
                Some(value_text(desc))
            })
            &&& find_key_spec(env, "APP_AUTHOR"@) == (if author.len() == 0 {
                None
            } else {
                Some(value_text(author))
            })
        }),
{
    reveal_strlit("# Synced from your existing .env — add overrides below");
    reveal_strlit("# Hive environment variables — edit freely");
    reveal_strlit("APP_NAME");
    reveal_strlit("APP_PORT");
    reveal_strlit("APP_ENV");
    reveal_strlit("development");
    reveal_strlit("APP_DEBUG");
    reveal_strlit("true");
    reveal_strlit("APP_URL");
    reveal_strlit("http://localhost:");
    reveal_strlit("APP_DESCRIPTION");
    reveal_strlit("APP_AUTHOR");
    let env = env_content_of(name, port, has_existing, desc, author);
    let p = decimal(port as nat);
    let db = underscored(lowercase(name));
    assert forall|k: int| 0 <= k < db.len() implies db[k] != '\n' by {
        assert(lowercase(name)[k] != '\n');
    }
    lemma_env_shape(name, port, has_existing, desc, author);
    lemma_env_lines(name, port, has_existing, desc, author);
    lemma_env_rest_lines(name, port, desc, author);
    reveal_strlit(
        "\nDB_USERNAME=root\nDB_PASSWORD=\n\n# Cache / Queue\nCACHE_DRIVER=file\nQUEUE_CONNECTION=sync\nSESSION_DRIVER=file\n",
    );
    assert(env.last() == '\n');

    let note = env_note(has_existing);
    let e = Seq::<char>::empty();
    let k_url = "APP_URL"@;
    let k_desc = "APP_DESCRIPTION"@;
    let k_author = "APP_AUTHOR"@;
    let a_name = assignment("APP_NAME"@, name);
    let a_env = assignment("APP_ENV"@, "development"@);
    let a_port = assignment("APP_PORT"@, p);
    let a_debug = assignment("APP_DEBUG"@, "true"@);
    let a_url = assignment(k_url, local_url_text(port));
    lemma_decimal_is_digits(port as nat);
    assert forall|k: int| 0 <= k < p.len() implies p[k] != '\n' by {
        assert(is_digit(p[k]));
    }
    let url = local_url_text(port);
    assert forall|k: int| 0 <= k < url.len() implies url[k] != '\n' by {
        if k >= 17 {
            assert(url[k] == p[k - 17]);
        }
    }
    assert(!has_char("development"@, '\n'));
    assert(!has_char("true"@, '\n'));
    assert(trim(note) == note);
    assert(trim(e) =~= e);
    let prefix = seq![note, e, strip_cr(a_name), strip_cr(a_env), strip_cr(a_port), a_debug];
    let od = optional_lines(k_desc, desc);
    let oa = optional_lines(k_author, author);
    let tl = lines(env_tail(db));
    assert(lines(env) =~= prefix + (seq![a_url] + (od + (oa + tl))));
    lemma_env_tail_none(db, k_desc);
    lemma_env_tail_none(db, k_author);
    lemma_plain_key(k_url);
    lemma_plain_key(k_desc);
    lemma_plain_key(k_author);
    assert forall|key: Seq<char>| key == k_url || key == k_desc || key == k_author implies lookup_lines(
        prefix,
        key,
    ) is None by {
        assert(key[0] == 'A' && key[4] != 'N' && key[4] != 'E' && key[4] != 'P');
        lemma_other_assignment("APP_NAME"@, name, key);
        lemma_other_assignment("APP_ENV"@, "development"@, key);
        lemma_other_assignment("APP_PORT"@, p, key);
        lemma_other_assignment("APP_DEBUG"@, "true"@, key);
        assert forall|i: int| 0 <= i < prefix.len() implies (#[trigger] lookup_line(prefix[i], key))
            is None by {
            if i == 0 { assert(prefix[i] == note); }
            else if i == 1 { assert(prefix[i] == e); }
            else if i == 2 { assert(prefix[i] == strip_cr(a_name)); }
            else if i == 3 { assert(prefix[i] == strip_cr(a_env)); }
            else if i == 4 { assert(prefix[i] == strip_cr(a_port)); }
            else { assert(prefix[i] == a_debug); }
        }
        lemma_lookup_none(prefix, key);
    }
    assert(lookup_lines(prefix, k_url) is None);
    assert(lookup_lines(prefix, k_desc) is None);
    assert(lookup_lines(prefix, k_author) is None);
    let rest = seq![a_url] + (od + (oa + tl));
    assert(find_key_spec(env, k_url) == lookup_lines(prefix + rest, k_url));
    // APP_URL
    lemma_assignment_lookup(k_url, url, k_desc);
    lemma_value_text_plain(url);
    lemma_lookup_append(prefix, seq![a_url] + (od + (oa + tl)), k_url);
    lemma_lookup_cons(a_url, od + (oa + tl), k_url);
    // APP_DESCRIPTION and APP_AUTHOR
    lemma_other_assignment(k_url, url, k_desc);
    lemma_other_assignment(k_url, url, k_author);
    lemma_lookup_append(prefix, seq![a_url] + (od + (oa + tl)), k_desc);
    lemma_lookup_append(prefix, seq![a_url] + (od + (oa + tl)), k_author);
    lemma_lookup_cons(a_url, od + (oa + tl), k_desc);
    lemma_lookup_cons(a_url, od + (oa + tl), k_author);
    lemma_lookup_append(od, oa + tl, k_desc);
    lemma_lookup_append(od, oa + tl, k_author);
    lemma_lookup_append(oa, tl, k_desc);
    lemma_lookup_append(oa, tl, k_author);
    assert(lookup_lines(rest, k_url) == Some(url));
    assert(find_key_spec(env, k_url) == Some(url));
    assert(lookup_lines(rest, k_desc) == lookup_lines(od + (oa + tl), k_desc));
    assert(lookup_lines(rest, k_author) == lookup_lines(od + (oa + tl), k_author));
    assert(lookup_lines(tl, k_desc) is None);
    assert(lookup_lines(tl, k_author) is None);
    if author.len() > 0 {
        assert(k_author.len() != k_desc.len());
        lemma_assignment_lookup(k_author, author, k_desc);
        lemma_other_assignment(k_author, author, k_desc);
        lemma_lookup_strip_cr(assignment(k_author, author), k_author);
        assert(oa == seq![strip_cr(assignment(k_author, author))]);
        assert(oa.drop_first() =~= Seq::<Seq<char>>::empty());
        assert(lookup_lines(oa, k_author) == Some(value_text(author)));
        assert(lookup_lines(Seq::<Seq<char>>::empty(), k_desc) is None);
        assert(lookup_lines(oa, k_desc) is None);
    } else {
        assert(oa =~= Seq::<Seq<char>>::empty());
        assert(lookup_lines(oa, k_author) is None);
        assert(lookup_lines(oa, k_desc) is None);
    }
    assert(lookup_lines(oa + tl, k_desc) is None);
    assert(lookup_lines(oa + tl, k_author) == (if author.len() == 0 {
        None
    } else {
        Some(value_text(author))
    }));
    if desc.len() > 0 {
        assert(k_author.len() != k_desc.len());
        lemma_assignment_lookup(k_desc, desc, k_author);
        lemma_other_assignment(k_desc, desc, k_author);
        lemma_lookup_strip_cr(assignment(k_desc, desc), k_desc);
        assert(od == seq![strip_cr(assignment(k_desc, desc))]);
        assert(od.drop_first() =~= Seq::<Seq<char>>::empty());
        assert(lookup_lines(od, k_desc) == Some(value_text(desc)));
        assert(lookup_lines(Seq::<Seq<char>>::empty(), k_author) is None);
        assert(lookup_lines(od, k_author) is None);
    } else {
        assert(od =~= Seq::<Seq<char>>::empty());
        assert(lookup_lines(od, k_desc) is None);
        assert(lookup_lines(od, k_author) is None);
    }
    assert(find_key_spec(env, k_desc) == lookup_lines(prefix + rest, k_desc));
    assert(find_key_spec(env, k_author) == lookup_lines(prefix + rest, k_author));
}

} // verus!
