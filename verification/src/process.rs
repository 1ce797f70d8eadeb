//! Running scripts: splitting a command line into words, naming the
//! processes of a script, and the lines written to the run log.
use crate::models::strings_view;
use crate::text::{chars_of, decimal, decimal_exec, is_whitespace, is_ws, string_of, trim_start, trim_start_exec, views};
use vstd::prelude::*;

verus! {

/// Where splitting a command line stands after some characters: the words
/// finished so far, the word being read, and whether (and by which quote)
/// a quoted part is open.
pub struct SplitState {
    pub words: Seq<Seq<char>>,
    pub current: Seq<char>,
    pub in_quote: bool,
    pub quote: char,
}

/// Where splitting starts.
pub open spec fn split_start() -> SplitState {
    SplitState { words: Seq::empty(), current: Seq::empty(), in_quote: false, quote: ' ' }
}

/// One character read: an opening `"` or `'` starts a quoted part, the same
/// quote closes it, an unquoted space ends the current word (if any), and
/// anything else goes into the current word.
pub open spec fn split_step(st: SplitState, c: char) -> SplitState {
    if (c == '"' || c == '\'') && !st.in_quote {
        SplitState { words: st.words, current: st.current, in_quote: true, quote: c }
    } else if st.in_quote && c == st.quote {
        SplitState { words: st.words, current: st.current, in_quote: false, quote: st.quote }
    } else if c == ' ' && !st.in_quote {
        if st.current.len() > 0 {
            SplitState {
                words: st.words.push(st.current),
                current: Seq::empty(),
                in_quote: st.in_quote,
                quote: st.quote,
            }
        } else {
            st
        }
    } else {
        SplitState { words: st.words, current: st.current.push(c), in_quote: st.in_quote, quote: st.quote }
    }
}

/// Where splitting stands after reading all of `s`.
pub open spec fn split_run(s: Seq<char>) -> SplitState
    decreases s.len(),
{
    if s.len() == 0 {
        split_start()
    } else {
        split_step(split_run(s.drop_last()), s.last())
    }
}

/// The words of a command line: those finished, and the last one if any.
pub open spec fn shell_words_of(s: Seq<char>) -> Seq<Seq<char>> {
    let st = split_run(s);
    if st.current.len() > 0 {
        st.words.push(st.current)
    } else {
        st.words
    }
}

/// The words of a command line (see `split_step`): quotes group words and
/// are dropped, unquoted spaces separate words, and no word is empty.
pub fn shell_words(s: &str) -> (r: Vec<String>)
    ensures
        strings_view(r@) == shell_words_of(s@),
        forall|i: int| 0 <= i < r@.len() ==> (#[trigger] r@[i])@.len() > 0,
{
    let cs = chars_of(s);
    let mut words: Vec<Vec<char>> = Vec::new();
    let mut current: Vec<char> = Vec::new();
    let mut in_quote = false;
    let mut quote_char = ' ';
    let n = cs.len();
    proof {
        assert(cs@.take(0) =~= Seq::<char>::empty());
        assert(views(words@) =~= Seq::<Seq<char>>::empty());
        assert(current@ =~= Seq::<char>::empty());
    }
    for i in 0..n
        invariant
            n == cs.len(),
            cs@ == s@,
            split_run(cs@.take(i as int)) == (SplitState {
                words: views(words@),
                current: current@,
                in_quote,
                quote: quote_char,
            }),
            forall|j: int| 0 <= j < words@.len() ==> (#[trigger] words@[j])@.len() > 0,
    {
        let c = cs[i];
        proof {
            assert(cs@.take(i + 1).drop_last() =~= cs@.take(i as int));
            assert(cs@.take(i + 1).last() == c);
        }
        let ghost before = views(words@);
        if (c == '"' || c == '\'') && !in_quote {
            in_quote = true;
            quote_char = c;
        } else if in_quote && c == quote_char {
            in_quote = false;
        } else if c == ' ' && !in_quote {
            if current.len() > 0 {
                words.push(current);
                current = Vec::new();
                proof {
                    assert(views(words@) =~= before.push(views(words@).last()));
                }
            }
        } else {
            current.push(c);
        }
    }
    proof {
        assert(cs@.take(n as int) =~= cs@);
    }
    if current.len() > 0 {
        let ghost before = views(words@);
        words.push(current);
        proof {
            assert(views(words@) =~= before.push(views(words@).last()));
        }
    }
    let mut out: Vec<String> = Vec::new();
    let m = words.len();
    for i in 0..m
        invariant
            m == words.len(),
            strings_view(out@) == views(words@).take(i as int),
            out.len() == i,
            forall|j: int| 0 <= j < words@.len() ==> (#[trigger] words@[j])@.len() > 0,
            forall|j: int| 0 <= j < out@.len() ==> (#[trigger] out@[j])@.len() > 0,
    {
        let w = string_of(&words[i]);
        out.push(w);
        proof {
            assert(strings_view(out@) =~= views(words@).take(i + 1));
        }
    }
    proof {
        assert(views(words@).take(m as int) =~= views(words@));
    }
    out
}

/// The first whitespace-separated word of `s`, if any.
pub open spec fn first_word(s: Seq<char>) -> Option<Seq<char>> {
    let t = trim_start(s);
    if t.len() == 0 {
        None
    } else {
        Some(t.take(word_end(t, 0)))
    }
}

/// The position of the first whitespace in `t` at or after `i` (its length
/// when there is none).
pub open spec fn word_end(t: Seq<char>, i: int) -> int
    decreases t.len() - i,
{
    if i < 0 || i >= t.len() {
        t.len() as int
    } else if is_ws(t[i]) {
        i
    } else {
        word_end(t, i + 1)
    }
}

/// The first whitespace-separated word of `v`, if any.
fn first_word_exec(v: &Vec<char>) -> (r: Option<Vec<char>>)
    ensures
        match first_word(v@) {
            Some(w) => r matches Some(x) && x@ == w,
            None => r is None,
        },
{
    let t = trim_start_exec(v);
    if t.len() == 0 {
        return None;
    }
    let mut i: usize = 0;
    while i < t.len() && !is_whitespace(t[i])
        invariant
            i <= t.len(),
            word_end(t@, 0) == word_end(t@, i as int),
        decreases t.len() - i,
    {
        i += 1;
    }
    let w = crate::text::slice(&t, 0, i);
    assert(w@ =~= t@.take(i as int));
    Some(w)
}

/// The name a process of a multi-command script runs under: the first word
/// of its command (`proc` if it has none), `:`, and its position counted
/// from one.
pub open spec fn process_label(cmd: Seq<char>, i: nat) -> Seq<char> {
    let w = match first_word(cmd) {
        Some(w) => w,
        None => "proc"@,
    };
    w + ":"@ + decimal(i + 1)
}

/// The processes of a multi-command script: each command with its label
/// (see `process_label`).
pub fn process_labels(cmds: &Vec<String>) -> (r: Vec<(String, String)>)
    requires
        cmds.len() < u64::MAX,
    ensures
        r.len() == cmds.len(),
        forall|i: int|
            0 <= i < r.len() ==> (#[trigger] r@[i]).0@ == process_label(cmds@[i]@, i as nat)
                && r@[i].1@ == cmds@[i]@,
{
    let mut out: Vec<(String, String)> = Vec::new();
    let n = cmds.len();
    for i in 0..n
        invariant
            n == cmds.len(),
            n < u64::MAX,
            out.len() == i,
            forall|j: int|
                0 <= j < i ==> (#[trigger] out@[j]).0@ == process_label(cmds@[j]@, j as nat)
                    && out@[j].1@ == cmds@[j]@,
    {
        let cmd = &cmds[i];
        let word = match first_word_exec(&chars_of(cmd.as_str())) {
            Some(w) => string_of(&w),
            None => String::from_str("proc"),
        };
        let num = string_of(&decimal_exec((i + 1) as u64));
        let label = word.concat(":").concat(num.as_str());
        out.push((label, cmd.clone()));
    }
    out
}

/// The line the run log records for one line of a process's output:
/// `<time> [<name>] <line>`, with `[stderr]` before the line when it came
/// from standard error.
pub open spec fn log_line_of(stamp: Seq<char>, name: Seq<char>, line: Seq<char>, stderr: bool) -> Seq<char> {
    stamp + " ["@ + name + "] "@ + (if stderr { "[stderr] "@ } else { ""@ }) + line + "\n"@
}

/// The run log's line for one line of a process's output (see `log_line_of`).
pub fn log_line(stamp: &str, name: &str, line: &str, stderr: bool) -> (r: String)
    ensures
        r@ == log_line_of(stamp@, name@, line@, stderr),
{
    let head = String::from_str(stamp).concat(" [").concat(name).concat("] ");
    let head = if stderr {
        head.concat("[stderr] ")
    } else {
        head.concat("")
    };
    head.concat(line).concat("\n")
}

/// The header written to the run log when a script starts.
pub open spec fn session_header_of(stamp: Seq<char>, key: Seq<char>) -> Seq<char> {
    "\n╔══════════════════════════════════════╗\n║  "@ + stamp + " — script: "@ + key
        + "  \n╚══════════════════════════════════════╝\n"@
}

/// The header written to the run log when a script starts.
pub fn session_header(stamp: &str, key: &str) -> (r: String)
    ensures
        r@ == session_header_of(stamp@, key@),
{
    String::from_str("\n╔══════════════════════════════════════╗\n║  ").concat(stamp).concat(
        " — script: ",
    ).concat(key).concat("  \n╚══════════════════════════════════════╝\n")
}

/// The colour a script's `idx`-th process is shown in, of the six in turn.
pub fn color_index(idx: usize) -> (r: usize)
    ensures
        r == idx % 6,
        r < 6,
{
    idx % 6
}

/// Whether the other processes of a group must be stopped once a process
/// ends: it failed (or its status is unknown) and no stop is under way.
pub fn should_stop_all(exited_ok: bool, already_stopping: bool) -> (r: bool)
    ensures
        r == (!exited_ok && !already_stopping),
{
    !exited_ok && !already_stopping
}

/// Lemma: the decimal digits of a number are digits, and there is at least
/// one; there are at least two from 10 on.
proof fn lemma_decimal_digits(n: nat)
    ensures
        decimal(n).len() >= 1,
        n >= 10 ==> decimal(n).len() >= 2,
        forall|k: int| 0 <= k < decimal(n).len() ==> '0' <= #[trigger] decimal(n)[k] <= '9',
    decreases n,
{
    if n >= 10 {
        lemma_decimal_digits(n / 10);
        let d = decimal(n / 10);
        assert forall|k: int| 0 <= k < decimal(n).len() implies '0' <= #[trigger] decimal(n)[k]
            <= '9' by {
            if k < d.len() {
                assert(decimal(n)[k] == d[k]);
            }
        }
    }
}

/// Lemma: different numbers have different decimal digits.
proof fn lemma_decimal_injective(a: nat, b: nat)
    requires
        decimal(a) == decimal(b),
    ensures
        a == b,
    decreases a,
{
    lemma_decimal_digits(a);
    lemma_decimal_digits(b);
    if a >= 10 && b >= 10 {
        let da = decimal(a / 10);
        let db = decimal(b / 10);
        assert(decimal(a) == da + seq![crate::text::digit_char(a % 10)]);
        assert(decimal(b) == db + seq![crate::text::digit_char(b % 10)]);
        assert(da =~= decimal(a).drop_last());
        assert(db =~= decimal(b).drop_last());
        lemma_decimal_injective(a / 10, b / 10);
        assert(decimal(a).last() == crate::text::digit_char(a % 10));
        assert(decimal(b).last() == crate::text::digit_char(b % 10));
        assert(a % 10 == b % 10);
        assert(a == 10 * (a / 10) + a % 10) by (nonlinear_arith);
        assert(b == 10 * (b / 10) + b % 10) by (nonlinear_arith);
    } else if a < 10 && b < 10 {
        assert(decimal(a)[0] == crate::text::digit_char(a));
        assert(decimal(b)[0] == crate::text::digit_char(b));
    }
}

/// The processes of a multi-command script run under distinct names:
/// commands at different positions get different labels, whatever the
/// commands are.
pub proof fn law_process_labels_distinct(c1: Seq<char>, i: nat, c2: Seq<char>, j: nat)
    requires
        i != j,
    ensures
        process_label(c1, i) != process_label(c2, j),
{
    let w1 = match first_word(c1) {
        Some(w) => w,
        None => "proc"@,
    };
    let w2 = match first_word(c2) {
        Some(w) => w,
        None => "proc"@,
    };
    let d1 = decimal(i + 1);
    let d2 = decimal(j + 1);
    let a = process_label(c1, i);
    let b = process_label(c2, j);
    lemma_decimal_digits(i + 1);
    lemma_decimal_digits(j + 1);
    reveal_strlit(":");
    assert(a =~= w1 + seq![':'] + d1);
    assert(b =~= w2 + seq![':'] + d2);
    if a == b {
        if d1.len() == d2.len() {
            assert(d1 =~= a.skip(a.len() - d1.len()));
            assert(d2 =~= b.skip(b.len() - d2.len()));
            lemma_decimal_injective(i + 1, j + 1);
        } else if d1.len() < d2.len() {
            let k = a.len() - d1.len() - 1;
            assert(a[k] == ':');
            assert(b[k] == d2[k - (b.len() - d2.len())]);
        } else {
            let k = b.len() - d2.len() - 1;
            assert(b[k] == ':');
            assert(a[k] == d1[k - (a.len() - d1.len())]);
        }
    }
}

/// Where splitting stands after reading `b`, starting from `st`.
pub open spec fn split_from(st: SplitState, b: Seq<char>) -> SplitState
    decreases b.len(),
{
    if b.len() == 0 {
        st
    } else {
        split_step(split_from(st, b.drop_last()), b.last())
    }
}

/// Lemma: reading `a + b` is reading `a`, then `b`.
proof fn lemma_split_run_append(a: Seq<char>, b: Seq<char>)
    ensures
        split_run(a + b) == split_from(split_run(a), b),
    decreases b.len(),
{
    if b.len() == 0 {
        assert(a + b =~= a);
    } else {
        lemma_split_run_append(a, b.drop_last());
        assert((a + b).drop_last() =~= a + b.drop_last());
        assert((a + b).last() == b.last());
    }
}

/// A word that splitting keeps as it is: not empty, without spaces or
/// quotes.
pub open spec fn plain_word(w: Seq<char>) -> bool {
    w.len() > 0 && forall|i: int| 0 <= i < w.len() ==> #[trigger] w[i] != ' ' && w[i] != '"' && w[i]
        != '\''
}

/// Lemma: outside quotes, the characters of a plain word go into the
/// current word.
proof fn lemma_split_plain(st: SplitState, w: Seq<char>)
    requires
        !st.in_quote,
        forall|i: int| 0 <= i < w.len() ==> #[trigger] w[i] != ' ' && w[i] != '"' && w[i] != '\'',
    ensures
        split_from(st, w) == (SplitState {
            words: st.words,
            current: st.current + w,
            in_quote: false,
            quote: st.quote,
        }),
    decreases w.len(),
{
    if w.len() > 0 {
        assert forall|i: int| 0 <= i < w.drop_last().len() implies #[trigger] w.drop_last()[i] != ' '
            && w.drop_last()[i] != '"' && w.drop_last()[i] != '\'' by {
            assert(w.drop_last()[i] == w[i]);
        }
        lemma_split_plain(st, w.drop_last());
        assert(w.last() == w[w.len() - 1]);
        assert((st.current + w.drop_last()).push(w.last()) =~= st.current + w);
    } else {
        assert(st.current + w =~= st.current);
    }
}

/// Lemma: splitting plain words joined with single spaces leaves all but
/// the last as finished words and the last as the current one.
proof fn lemma_split_joined(ws: Seq<Seq<char>>)
    requires
        ws.len() > 0,
        forall|i: int| 0 <= i < ws.len() ==> plain_word(#[trigger] ws[i]),
    ensures
        split_run(crate::scripts::join_with(ws, " "@)) == (SplitState {
            words: ws.drop_last(),
            current: ws.last(),
            in_quote: false,
            quote: ' ',
        }),
    decreases ws.len(),
{
    reveal_strlit(" ");
    let w = ws.last();
    assert(plain_word(w));
    if ws.len() == 1 {
        lemma_split_run_append(Seq::<char>::empty(), ws[0]);
        assert(Seq::<char>::empty() + ws[0] =~= ws[0]);
        lemma_split_plain(split_start(), ws[0]);
        assert(Seq::<char>::empty() + ws[0] =~= ws[0]);
        assert(ws.drop_last() =~= Seq::<Seq<char>>::empty());
    } else {
        let init = ws.drop_last();
        assert forall|i: int| 0 <= i < init.len() implies plain_word(#[trigger] init[i]) by {
            assert(init[i] == ws[i]);
        }
        lemma_split_joined(init);
        let j = crate::scripts::join_with(init, " "@);
        let js = j + " "@;
        assert(js.drop_last() =~= j);
        assert(js.last() == ' ');
        assert(init.last().len() > 0);
        lemma_split_run_append(js, w);
        lemma_split_plain(split_run(js), w);
        assert(Seq::<char>::empty() + w =~= w);
        assert(init.drop_last().push(init.last()) =~= init);
    }
}

/// Commands made of plain words (no spaces or quotes in them) joined by
/// single spaces split back into those words.
pub proof fn law_shell_words_round_trip(ws: Seq<Seq<char>>)
    requires
        forall|i: int| 0 <= i < ws.len() ==> plain_word(#[trigger] ws[i]),
    ensures
        shell_words_of(crate::scripts::join_with(ws, " "@)) == ws,
{
    if ws.len() == 0 {
        assert(split_run(Seq::<char>::empty()) == split_start());
    } else {
        lemma_split_joined(ws);
        assert(plain_word(ws.last()));
        assert(ws.drop_last().push(ws.last()) =~= ws);
    }
}

/// Lemma: inside a quoted part opened by `q`, every character but `q`
/// goes into the current word, spaces and the other quote included.
proof fn lemma_split_quoted(st: SplitState, t: Seq<char>)
    requires
        st.in_quote,
        forall|i: int| 0 <= i < t.len() ==> #[trigger] t[i] != st.quote,
    ensures
        split_from(st, t) == (SplitState {
            words: st.words,
            current: st.current + t,
            in_quote: true,
            quote: st.quote,
        }),
    decreases t.len(),
{
    if t.len() > 0 {
        assert forall|i: int| 0 <= i < t.drop_last().len() implies #[trigger] t.drop_last()[i]
            != st.quote by {
            assert(t.drop_last()[i] == t[i]);
        }
        lemma_split_quoted(st, t.drop_last());
        assert(t.last() == t[t.len() - 1]);
        assert((st.current + t.drop_last()).push(t.last()) =~= st.current + t);
    } else {
        assert(st.current + t =~= st.current);
    }
}

/// A quote only groups: a plain word followed by a part quoted with `"` or
/// `'` (holding anything but that quote, spaces included) is one word, the
/// word and the quoted text joined, the quotes dropped.
pub proof fn law_quoted_part_joins_word(w: Seq<char>, q: char, t: Seq<char>)
    requires
        plain_word(w),
        q == '"' || q == '\'',
        forall|i: int| 0 <= i < t.len() ==> #[trigger] t[i] != q,
    ensures
        shell_words_of(w + seq![q] + t + seq![q]) == seq![w + t],
{
    let s0 = split_start();
    lemma_split_run_append(Seq::<char>::empty(), w);
    assert(Seq::<char>::empty() + w =~= w);
    lemma_split_plain(s0, w);
    assert(Seq::<char>::empty() + w =~= w);
    let s1 = split_run(w);
    assert(s1.current == w && !s1.in_quote && s1.words == Seq::<Seq<char>>::empty());
    let wq = w + seq![q];
    assert(wq.drop_last() =~= w);
    let s2 = split_run(wq);
    assert(s2 == SplitState { words: s1.words, current: w, in_quote: true, quote: q });
    lemma_split_run_append(wq, t);
    lemma_split_quoted(s2, t);
    let wqt = wq + t;
    let all = wqt + seq![q];
    assert(all =~= w + seq![q] + t + seq![q]);
    assert(all.drop_last() =~= wqt);
    assert(split_run(all).current == w + t);
    assert(!split_run(all).in_quote);
    assert(split_run(all).words =~= Seq::<Seq<char>>::empty());
    assert((w + t).len() > 0);
    assert(Seq::<Seq<char>>::empty().push(w + t) =~= seq![w + t]);
}

/// Splitting never ends a word at an opening quote: outside a quoted part,
/// a `"` or `'` leaves the finished words and the current word as they are.
pub proof fn law_opening_quote_keeps_word(st: SplitState, q: char)
    requires
        !st.in_quote,
        q == '"' || q == '\'',
    ensures
        split_step(st, q).words == st.words,
        split_step(st, q).current == st.current,
        split_step(st, q).in_quote,
        split_step(st, q).quote == q,
{
}

/// Nor at a closing quote: the quote that opened a quoted part closes it
/// and leaves the finished words and the current word as they are, so what
/// follows goes on in the same word.
pub proof fn law_closing_quote_keeps_word(st: SplitState)
    requires
        st.in_quote,
    ensures
        split_step(st, st.quote).words == st.words,
        split_step(st, st.quote).current == st.current,
        !split_step(st, st.quote).in_quote,
{
}

/// A quoted part in the middle of a word joins the text before and after
/// it: `w"t"b` (or with `'`), where `w` and `b` hold no spaces or quotes and
/// `t` no closing quote, is the one word `w` + `t` + `b`.
pub proof fn law_quoted_part_inside_word(w: Seq<char>, q: char, t: Seq<char>, b: Seq<char>)
    requires
        plain_word(w),
        q == '"' || q == '\'',
        forall|i: int| 0 <= i < t.len() ==> #[trigger] t[i] != q,
        forall|i: int| 0 <= i < b.len() ==> #[trigger] b[i] != ' ' && b[i] != '"' && b[i] != '\'',
    ensures
        shell_words_of(w + seq![q] + t + seq![q] + b) == seq![w + t + b],
{
    let s0 = split_start();
    lemma_split_run_append(Seq::<char>::empty(), w);
    assert(Seq::<char>::empty() + w =~= w);
    lemma_split_plain(s0, w);
    let s1 = split_run(w);
    assert(s1.current == w && !s1.in_quote && s1.words == Seq::<Seq<char>>::empty());
    let wq = w + seq![q];
    assert(wq.drop_last() =~= w);
    let s2 = split_run(wq);
    assert(s2 == SplitState { words: s1.words, current: w, in_quote: true, quote: q });
    lemma_split_run_append(wq, t);
    lemma_split_quoted(s2, t);
    let wqt = wq + t;
    let closed = wqt + seq![q];
    assert(closed.drop_last() =~= wqt);
    let s3 = split_run(closed);
    assert(s3 == SplitState { words: Seq::<Seq<char>>::empty(), current: w + t, in_quote: false, quote: q });
    lemma_split_run_append(closed, b);
    lemma_split_plain(s3, b);
    let all = closed + b;
    assert(all =~= w + seq![q] + t + seq![q] + b);
    assert(split_run(all).current == w + t + b);
    assert(split_run(all).words =~= Seq::<Seq<char>>::empty());
    assert((w + t + b).len() > 0);
    assert(Seq::<Seq<char>>::empty().push(w + t + b) =~= seq![w + t + b]);
}

} // verus!
