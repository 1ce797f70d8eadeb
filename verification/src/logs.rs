//! `hive logs`: which lines of the run log are shown, and how each line is
//! classified for display.
use crate::text::{
    chars_of, contains, contains_exec, index_of, lines, lines_exec, split_once, split_once_exec,
    starts_with, string_of, views,
};
use vstd::prelude::*;

verus! {

/// How many lines `hive logs` shows: the number asked for, 50 by default.
pub fn line_count(lines: Option<usize>) -> (r: usize)
    ensures
        r == (match lines {
            Some(n) => n,
            None => 50,
        }),
{
    match lines {
        Some(n) => n,
        None => 50,
    }
}

/// The last `n` lines of `content` (all of them when there are fewer).
pub open spec fn tail_of(content: Seq<char>, n: nat) -> Seq<Seq<char>> {
    let ls = lines(content);
    if ls.len() > n {
        ls.skip(ls.len() - n)
    } else {
        ls
    }
}

/// The views of strings.
pub open spec fn string_views(v: Seq<String>) -> Seq<Seq<char>> {
    v.map_values(|s: String| s@)
}

/// The last `n` lines of the log (see `tail_of`).
pub fn tail_lines(content: &str, n: usize) -> (r: Vec<String>)
    ensures
        string_views(r@) == tail_of(content@, n as nat),
{
    let ls = lines_exec(&chars_of(content));
    let total = ls.len();
    let start: usize = if total > n {
        total - n
    } else {
        0
    };
    let mut out: Vec<String> = Vec::new();
    for i in start..total
        invariant
            total == ls.len(),
            start <= total,
            views(ls@) == lines(content@),
            out.len() == i - start,
            string_views(out@) == views(ls@).subrange(start as int, i as int),
    {
        out.push(string_of(&ls[i]));
        proof {
            assert(string_views(out@) =~= views(ls@).subrange(start as int, i + 1));
        }
    }
    proof {
        assert(views(ls@).subrange(start as int, total as int) =~= tail_of(content@, n as nat));
    }
    out
}

/// How `hive logs` shows a line of the run log.
#[derive(Debug, PartialEq, Eq)]
pub enum LogLine {
    /// A process's standard error.
    Stderr,
    /// A line of a session header box.
    Banner,
    /// A line that mentions an error.
    Error,
    /// A line that mentions a warning.
    Warn,
    /// A time-stamped line whose text starts with a `[label]`.
    Labelled { stamp: String, label: String, message: String },
    /// Another time-stamped line.
    Stamped { stamp: String, rest: String },
    /// Anything else.
    Plain,
}

/// The view of a classified line.
pub enum LogLineView {
    Stderr,
    Banner,
    Error,
    Warn,
    Labelled { stamp: Seq<char>, label: Seq<char>, message: Seq<char> },
    Stamped { stamp: Seq<char>, rest: Seq<char> },
    Plain,
}

impl View for LogLine {
    type V = LogLineView;

    open spec fn view(&self) -> LogLineView {
        match self {
            LogLine::Stderr => LogLineView::Stderr,
            LogLine::Banner => LogLineView::Banner,
            LogLine::Error => LogLineView::Error,
            LogLine::Warn => LogLineView::Warn,
            LogLine::Labelled { stamp, label, message } => LogLineView::Labelled {
                stamp: stamp@,
                label: label@,
                message: message@,
            },
            LogLine::Stamped { stamp, rest } => LogLineView::Stamped { stamp: stamp@, rest: rest@ },
            LogLine::Plain => LogLineView::Plain,
        }
    }
}

/// A time-stamped text: the first two space-separated words (date and
/// time) and what follows them.
pub open spec fn stamped(line: Seq<char>) -> LogLineView {
    match split_once(line, ' ') {
        Some((date, after)) => match split_once(after, ' ') {
            Some((time, rest)) => {
                let stamp = date + " "@ + time;
                if rest.len() > 0 && rest[0] == '[' {
                    match index_of(rest, ']') {
                        Some(e) => LogLineView::Labelled {
                            stamp,
                            label: rest.take(e + 1),
                            message: rest.skip(e + 1),
                        },
                        None => LogLineView::Stamped { stamp, rest },
                    }
                } else {
                    LogLineView::Stamped { stamp, rest }
                }
            },
            None => LogLineView::Plain,
        },
        None => LogLineView::Plain,
    }
}

/// How a line of the run log is shown: standard error first, then the
/// lines of a session header (starting with a box-drawing edge), then lines
/// mentioning `ERROR` or `error`, then `WARN` or `warn`; otherwise by its
/// time stamp (see `stamped`).
pub open spec fn log_line_of(line: Seq<char>) -> LogLineView {
    if contains(line, "[stderr]"@) {
        LogLineView::Stderr
    } else if line.len() > 0 && (line[0] == '╔' || line[0] == '╚' || line[0] == '║') {
        LogLineView::Banner
    } else if contains(line, "ERROR"@) || contains(line, "error"@) {
        LogLineView::Error
    } else if contains(line, "WARN"@) || contains(line, "warn"@) {
        LogLineView::Warn
    } else {
        stamped(line)
    }
}

/// A time-stamped line (see `stamped`).
fn stamped_exec(cs: &Vec<char>) -> (r: LogLine)
    ensures
        r@ == stamped(cs@),
{
    match split_once_exec(cs, ' ') {
        Some((date, after)) => match split_once_exec(&after, ' ') {
            Some((time, rest)) => {
                let stamp = string_of(&date).concat(" ").concat(string_of(&time).as_str());
                if rest.len() > 0 && rest[0] == '[' {
                    match crate::text::index_of_exec(&rest, ']') {
                        Some(e) => {
                            proof {
                                crate::text::lemma_index_of(rest@, ']');
                            }
                            let label = crate::text::slice(&rest, 0, e + 1);
                            let message = crate::text::slice(&rest, e + 1, rest.len());
                            assert(label@ =~= rest@.take(e + 1));
                            assert(message@ =~= rest@.skip(e + 1));
                            LogLine::Labelled {
                                stamp,
                                label: string_of(&label),
                                message: string_of(&message),
                            }
                        },
                        None => LogLine::Stamped { stamp, rest: string_of(&rest) },
                    }
                } else {
                    LogLine::Stamped { stamp, rest: string_of(&rest) }
                }
            },
            None => LogLine::Plain,
        },
        None => LogLine::Plain,
    }
}

/// How a line of the run log is shown (see `log_line_of`).
pub fn classify_log_line(line: &str) -> (r: LogLine)
    ensures
        r@ == log_line_of(line@),
{
    let cs = chars_of(line);
    if contains_exec(&cs, &chars_of("[stderr]")) {
        LogLine::Stderr
    } else if cs.len() > 0 && (cs[0] == '╔' || cs[0] == '╚' || cs[0] == '║') {
        LogLine::Banner
    } else if contains_exec(&cs, &chars_of("ERROR")) || contains_exec(&cs, &chars_of("error")) {
        LogLine::Error
    } else if contains_exec(&cs, &chars_of("WARN")) || contains_exec(&cs, &chars_of("warn")) {
        LogLine::Warn
    } else {
        stamped_exec(&cs)
    }
}

/// Whether `s` is two words without spaces joined by one space.
pub open spec fn two_words(s: Seq<char>) -> bool {
    exists|d: Seq<char>, t: Seq<char>|
        s == d + " "@ + t && !crate::text::has_char(d, ' ') && !crate::text::has_char(t, ' ')
}

/// Whether a line starts with an edge of a session header box.
pub open spec fn starts_with_box_edge(line: Seq<char>) -> bool {
    line.len() > 0 && (line[0] == '╔' || line[0] == '╚' || line[0] == '║')
}

/// Lemma: a text split at its first `c` is the part before, `c`, and the
/// part after.
proof fn lemma_split_parts(t: Seq<char>, c: char)
    ensures
        split_once(t, c) matches Some((a, b)) ==> t == a + seq![c] + b && !crate::text::has_char(a, c),
{
    crate::text::lemma_index_of(t, c);
    if let Some((a, b)) = split_once(t, c) {
        let i = index_of(t, c).unwrap();
        assert(t =~= t.take(i) + seq![c] + t.skip(i + 1));
        assert forall|j: int| 0 <= j < a.len() implies a[j] != c by {
            assert(a[j] == t[j]);
        }
    }
}

/// How `hive logs` classifies a line, in order: a line from standard error
/// (it mentions `[stderr]`) is shown as such; else a line starting with a
/// box edge is part of a header; else a line mentioning `ERROR` or `error`
/// is an error; else one mentioning `WARN` or `warn` a warning. Any other
/// line is shown by its time stamp, which is taken apart without losing
/// anything: the stamp is the first two space-separated words (each without
/// a space), and the stamp, a space, the label and the message (or the
/// rest) give back the line; a label runs from a `[` to the first `]`.
pub proof fn law_log_line_classes(line: Seq<char>)
    ensures
        contains(line, "[stderr]"@) ==> log_line_of(line) == LogLineView::Stderr,
        !contains(line, "[stderr]"@) && starts_with_box_edge(line) ==> log_line_of(line)
            == LogLineView::Banner,
        !contains(line, "[stderr]"@) && !starts_with_box_edge(line) && (contains(line, "ERROR"@)
            || contains(line, "error"@)) ==> log_line_of(line) == LogLineView::Error,
        !contains(line, "[stderr]"@) && !starts_with_box_edge(line) && !contains(line, "ERROR"@)
            && !contains(line, "error"@) && (contains(line, "WARN"@) || contains(line, "warn"@))
            ==> log_line_of(line) == LogLineView::Warn,
        log_line_of(line) matches LogLineView::Labelled { stamp, label, message } ==> {
            &&& line == stamp + " "@ + label + message
            &&& label.len() > 0 && label[0] == '[' && label.last() == ']'
            &&& forall|j: int| 0 <= j < label.len() - 1 ==> label[j] != ']'
        },
        log_line_of(line) matches LogLineView::Stamped { stamp, rest } ==> line == stamp + " "@
            + rest,
        log_line_of(line) matches LogLineView::Labelled { stamp, .. } ==> two_words(stamp),
        log_line_of(line) matches LogLineView::Stamped { stamp, .. } ==> two_words(stamp),
{
    reveal_strlit(" ");
    lemma_split_parts(line, ' ');
    if let Some((d, after)) = split_once(line, ' ') {
        lemma_split_parts(after, ' ');
        if let Some((t, rest)) = split_once(after, ' ') {
            let stamp = d + " "@ + t;
            assert(line =~= stamp + " "@ + rest);
            assert(stamp == d + " "@ + t);
            assert(two_words(stamp));
            if rest.len() > 0 && rest[0] == '[' {
                crate::text::lemma_index_of(rest, ']');
                if let Some(e) = index_of(rest, ']') {
                    let label = rest.take(e + 1);
                    let message = rest.skip(e + 1);
                    assert(rest =~= label + message);
                    assert(line =~= stamp + " "@ + label + message);
                    assert(label[0] == '[');
                    assert(label.last() == ']');
                    assert forall|j: int| 0 <= j < label.len() - 1 implies label[j] != ']' by {
                        assert(label[j] == rest[j]);
                    }
                }
            }
        }
    }
}

} // verus!
