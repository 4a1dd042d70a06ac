//! `pet new`: the input rules of a new snippet.
use vstd::prelude::*;
use crate::cmd::joined_with;
use crate::selector::nonempty_lines;
use crate::snippet::{SnippetInfo, SnippetView};
use crate::text::{is_whitespace, is_ws, push_str, str_eq, string_from, to_chars};

verus! {

/// The options of `pet new`.
#[derive(Debug, Clone, Default)]
pub struct NewOptions {
    pub command_args: Vec<String>,
    pub prompt_tag: bool,
    pub multiline: bool,
    pub use_editor: bool,
    pub last: bool,
}

/// Where multiline entry stands.
#[derive(Debug, Clone, Copy, PartialEq, Eq, Structural)]
pub enum MultilineState {
    /// No non-blank line yet.
    Start,
    /// The last line was not blank.
    LastLineNotEmpty,
    /// The last line was blank, after some non-blank one.
    LastLineEmpty,
}

/// The outcome of one line of multiline entry.
#[derive(Debug, Clone, Copy, PartialEq, Eq, Structural)]
pub enum MultilineStep {
    /// Go on from this state.
    Continue(MultilineState),
    /// Two consecutive blank lines after a non-blank one: the command is complete.
    Done,
}

/// The step that `line` makes from `state` with the command so far `buf`:
/// the next state and command, or `None` when entry is complete. Blank lines
/// are never kept; a non-blank line is added, after a line break unless it
/// is the first.
pub open spec fn step_spec(state: MultilineState, buf: Seq<char>, line: Seq<char>) -> Option<(MultilineState, Seq<char>)> {
    match state {
        MultilineState::Start => if line.len() == 0 {
            Some((MultilineState::Start, buf))
        } else {
            Some((MultilineState::LastLineNotEmpty, buf + line))
        },
        MultilineState::LastLineNotEmpty => if line.len() == 0 {
            Some((MultilineState::LastLineEmpty, buf))
        } else {
            Some((MultilineState::LastLineNotEmpty, buf + seq!['\n'] + line))
        },
        MultilineState::LastLineEmpty => if line.len() == 0 {
            None
        } else {
            Some((MultilineState::LastLineNotEmpty, buf + seq!['\n'] + line))
        },
    }
}

/// One line of multiline entry (see `step_spec`): appends to `buf` as needed
/// and says how entry goes on.
pub fn multiline_step(state: MultilineState, buf: &mut String, line: &str) -> (r: MultilineStep)
    ensures
        match step_spec(state, old(buf)@, line@) {
            Some((next, text)) => r == MultilineStep::Continue(next) && final(buf)@ == text,
            None => r == MultilineStep::Done && final(buf)@ == old(buf)@,
        },
{
    let empty = to_chars(line).len() == 0;
    match state {
        MultilineState::Start => {
            if empty {
                MultilineStep::Continue(MultilineState::Start)
            } else {
                push_str(buf, line);
                MultilineStep::Continue(MultilineState::LastLineNotEmpty)
            }
        },
        MultilineState::LastLineNotEmpty => {
            if empty {
                MultilineStep::Continue(MultilineState::LastLineEmpty)
            } else {
                buf.push('\n');
                push_str(buf, line);
                MultilineStep::Continue(MultilineState::LastLineNotEmpty)
            }
        },
        MultilineState::LastLineEmpty => {
            if empty {
                MultilineStep::Done
            } else {
                buf.push('\n');
                push_str(buf, line);
                MultilineStep::Continue(MultilineState::LastLineNotEmpty)
            }
        },
    }
}

/// Multiline entry fed `lines` from the start: the state and command after
/// them, or `None` once it is complete.
pub open spec fn feed(lines: Seq<Seq<char>>) -> Option<(MultilineState, Seq<char>)>
    decreases lines.len(),
{
    if lines.len() == 0 {
        Some((MultilineState::Start, seq![]))
    } else {
        match feed(lines.drop_last()) {
            Some((state, buf)) => step_spec(state, buf, lines.last()),
            None => None,
        }
    }
}

/// Law: while multiline entry goes on, the command is the non-blank lines
/// so far joined by line breaks; the state is `Start` exactly while there is
/// none, and `LastLineEmpty` only right after a blank line.
pub proof fn law_multiline_keeps_nonblank_lines(lines: Seq<Seq<char>>)
    ensures
        feed(lines) matches Some((state, buf)) ==> {
            &&& buf == joined_with(nonempty_lines(lines), seq!['\n'])
            &&& (state == MultilineState::Start <==> nonempty_lines(lines).len() == 0)
            &&& (state == MultilineState::LastLineEmpty ==> lines.last().len() == 0)
            &&& (state == MultilineState::LastLineNotEmpty ==> lines.last().len() > 0)
        },
    decreases lines.len(),
{
    if lines.len() > 0 {
        law_multiline_keeps_nonblank_lines(lines.drop_last());
        let ne = nonempty_lines(lines.drop_last());
        if lines.last().len() > 0 {
            assert(nonempty_lines(lines) == ne.push(lines.last()));
            assert(ne.push(lines.last()).drop_last() =~= ne);
            if ne.len() == 0 {
                assert(joined_with(ne.push(lines.last()), seq!['\n']) == lines.last());
            }
        }
    }
}

/// Law: entry completes exactly on a blank line that follows a blank line
/// that follows some non-blank line.
pub proof fn law_multiline_done_on_second_blank(lines: Seq<Seq<char>>)
    requires
        lines.len() > 0,
        feed(lines.drop_last()) is Some,
    ensures
        feed(lines) is None <==> (lines.len() >= 2 && lines.last().len() == 0 && lines[lines.len() - 2].len() == 0
            && nonempty_lines(lines).len() > 0),
{
    let prev = lines.drop_last();
    law_multiline_keeps_nonblank_lines(prev);
    if lines.len() >= 2 {
        law_multiline_keeps_nonblank_lines(prev.drop_last());
        assert(prev.drop_last().len() == lines.len() - 2);
        assert(prev.last() == lines[lines.len() - 2]);
        if feed(prev.drop_last()) is None {
            assert(false);
        }
    }
    if lines.last().len() == 0 {
        assert(nonempty_lines(lines) == nonempty_lines(prev));
    } else {
        assert(nonempty_lines(lines) == nonempty_lines(prev).push(lines.last()));
    }
}

/// The words of `s` split at whitespace, and the word still open at its end.
pub open spec fn split_state(s: Seq<char>) -> (Seq<Seq<char>>, Seq<char>)
    decreases s.len(),
{
    if s.len() == 0 {
        (seq![], seq![])
    } else {
        let (done, cur) = split_state(s.drop_last());
        if is_ws(s.last()) {
            if cur.len() > 0 {
                (done.push(cur), seq![])
            } else {
                (done, seq![])
            }
        } else {
            (done, cur.push(s.last()))
        }
    }
}

/// The maximal runs of non-whitespace characters of `s`, in order.
pub open spec fn words(s: Seq<char>) -> Seq<Seq<char>> {
    let (done, cur) = split_state(s);
    if cur.len() > 0 {
        done.push(cur)
    } else {
        done
    }
}

/// The tags typed at the tag prompt: its whitespace-separated words.
pub fn split_tags(line: &str) -> (r: Vec<String>)
    ensures
        r@.map_values(|t: String| t@) == words(line@),
{
    let v = to_chars(line);
    let mut done: Vec<String> = Vec::new();
    let mut cur: Vec<char> = Vec::new();
    let mut i: usize = 0;
    while i < v.len()
        invariant
            i <= v.len(),
            v@ == line@,
            (done@.map_values(|t: String| t@), cur@) == split_state(v@.take(i as int)),
        decreases v.len() - i,
    {
        assert(v@.take(i + 1).drop_last() =~= v@.take(i as int));
        let ghost before = done@.map_values(|t: String| t@);
        if is_whitespace(v[i]) {
            if cur.len() > 0 {
                let w = string_from(&cur);
                done.push(w);
                assert(done@.map_values(|t: String| t@) =~= before.push(w@));
                cur = Vec::new();
            }
        } else {
            cur.push(v[i]);
        }
        i = i + 1;
        assert(done@.map_values(|t: String| t@) == split_state(v@.take(i as int)).0);
    }
    assert(v@.take(i as int) =~= v@);
    if cur.len() > 0 {
        let ghost before = done@.map_values(|t: String| t@);
        let w = string_from(&cur);
        done.push(w);
        assert(done@.map_values(|t: String| t@) =~= before.push(w@));
    }
    done
}

/// Whether some snippet of `snippets` has the description `description`.
pub open spec fn has_description(snippets: Seq<SnippetInfo>, description: Seq<char>) -> bool {
    exists|i: int| 0 <= i < snippets.len() && (#[trigger] snippets[i]).description@ == description
}

/// The snippet `new` adds (empty file name and output, the tags being the
/// words of `tags`), or none when a snippet already has its description.
pub fn new_snippet(existing: &Vec<SnippetInfo>, command: String, description: String, tags: &str) -> (r: Option<SnippetInfo>)
    ensures
        r is None <==> has_description(existing@, description@),
        r matches Some(s) ==> s@ == (SnippetView {
            filename: seq![],
            description: description@,
            command: command@,
            tag: words(tags@),
            output: seq![],
        }),
{
    let mut i: usize = 0;
    while i < existing.len()
        invariant
            i <= existing.len(),
            forall|j: int| 0 <= j < i ==> (#[trigger] existing@[j]).description@ != description@,
        decreases existing.len() - i,
    {
        if str_eq(existing[i].description.as_str(), description.as_str()) {
            assert(existing@[i as int].description@ == description@);
            return None;
        }
        i = i + 1;
    }
    let tag = split_tags(tags);
    let s = SnippetInfo { filename: String::new(), description, command, tag, output: String::new() };
    assert(s@.tag == words(tags@));
    Some(s)
}

/// How many line breaks `s` holds.
pub open spec fn line_breaks(s: Seq<char>) -> nat
    decreases s.len(),
{
    if s.len() == 0 {
        0
    } else {
        line_breaks(s.drop_last()) + if s.last() == '\n' {
            1nat
        } else {
            0nat
        }
    }
}

proof fn lemma_line_breaks_len(s: Seq<char>)
    ensures
        line_breaks(s) <= s.len(),
    decreases s.len(),
{
    if s.len() > 0 {
        lemma_line_breaks_len(s.drop_last());
    }
}

/// The line the editor opens at for a blank snippet added to a snippet file
/// holding `contents`: three past its last line break, where the blank
/// entry's `command` sits.
pub fn editor_line(contents: &str) -> (r: usize)
    requires
        contents@.len() + 3 <= usize::MAX,
    ensures
        r == line_breaks(contents@) + 3,
{
    let v = to_chars(contents);
    let mut n: usize = 0;
    let mut i: usize = 0;
    while i < v.len()
        invariant
            i <= v.len(),
            v@ == contents@,
            contents@.len() + 3 <= usize::MAX,
            n == line_breaks(v@.take(i as int)),
            n <= i,
        decreases v.len() - i,
    {
        assert(v@.take(i + 1).drop_last() =~= v@.take(i as int));
        if v[i] == '\n' {
            n = n + 1;
        }
        i = i + 1;
    }
    assert(v@.take(i as int) =~= v@);
    n + 3
}

} // verus!
