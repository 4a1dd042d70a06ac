//! Choosing snippets: what is shown to the selector (an external command
//! such as fzf, or the built-in picker) and how its answer maps back.
use vstd::prelude::*;
use vstd::string::StringExecFns;
use crate::config::GeneralConfig;
use crate::format::{bright_cyan, bright_red, flatten_newlines, render_template, render_template_fields, tags_text, template_text, FieldRole};
use crate::history::{lines, lines_of, trim, trimmed};
use crate::snippet::{snippet_views, SnippetInfo, SnippetView};
use crate::text::{extend_chars, push_str, str_eq, string_from, to_chars};

verus! {

/// Options of one selection.
#[derive(Debug, Clone, Default)]
pub struct SelectOptions {
    /// Initial query for the selector.
    pub query: Option<String>,
    /// Color the selector lines even if the configuration does not.
    pub color: bool,
}

/// One line of the built-in picker, with the ranges of its fields.
#[derive(Debug, Clone)]
pub struct PickerItem {
    pub text: String,
    pub fields: Vec<(FieldRole, core::ops::Range<usize>)>,
}

/// Whether the configured selector is the built-in picker: `selectcmd` is
/// `builtin`, surrounding whitespace aside.
pub fn is_builtin(general: &GeneralConfig) -> (r: bool)
    ensures
        r == (trimmed(general.selectcmd@) == "builtin"@),
{
    let t = trim(&to_chars(general.selectcmd.as_str()));
    let r = t.len() == 7 && t[0] == 'b' && t[1] == 'u' && t[2] == 'i' && t[3] == 'l' && t[4] == 't'
        && t[5] == 'i' && t[6] == 'n';
    proof {
        reveal_strlit("builtin");
        if r {
            assert(t@ =~= "builtin"@);
        }
        if t@ == "builtin"@ {
            assert(t@[0] == 'b');
        }
    }
    r
}

/// Single quotes around `s` for a POSIX shell, each `'` inside written `'\''`.
pub open spec fn quoted_body(s: Seq<char>) -> Seq<char>
    decreases s.len(),
{
    if s.len() == 0 {
        seq![]
    } else {
        quoted_body(s.drop_last()) + if s.last() == '\'' {
            seq!['\'', '\\', '\'', '\'']
        } else {
            seq![s.last()]
        }
    }
}

pub open spec fn shell_quoted(s: Seq<char>) -> Seq<char> {
    seq!['\''] + quoted_body(s) + seq!['\'']
}

/// `s` as one word for `sh` (see `shell_quoted`).
pub fn shell_quote(s: &str) -> (r: String)
    ensures
        r@ == shell_quoted(s@),
{
    let v = to_chars(s);
    let mut out: Vec<char> = vec!['\''];
    let mut i: usize = 0;
    while i < v.len()
        invariant
            i <= v.len(),
            out@ == seq!['\''] + quoted_body(v@.take(i as int)),
        decreases v.len() - i,
    {
        let ghost before = out@;
        if v[i] == '\'' {
            out.push('\'');
            out.push('\\');
            out.push('\'');
            out.push('\'');
        } else {
            out.push(v[i]);
        }
        assert(v@.take(i + 1).drop_last() =~= v@.take(i as int));
        i = i + 1;
        assert(out@ =~= seq!['\''] + quoted_body(v@.take(i as int)));
    }
    out.push('\'');
    assert(v@.take(i as int) =~= v@);
    string_from(&out)
}

/// The selector command line: `selectcmd`, plus ` --query '<query>'` when a query is given.
pub fn selector_command(general: &GeneralConfig, query: Option<&str>) -> (r: String)
    ensures
        r@ == match query {
            Some(q) => general.selectcmd@ + " --query "@ + shell_quoted(q@),
            None => general.selectcmd@,
        },
{
    let mut s = general.selectcmd.clone();
    match query {
        Some(q) => {
            push_str(&mut s, " --query ");
            let quoted = shell_quote(q);
            push_str(&mut s, quoted.as_str());
        },
        None => {},
    }
    s
}

/// The program and arguments that run `command` through the configured
/// shell (`cmd`, or `sh -c` when empty).
pub fn shell_argv(general: &GeneralConfig, command: &str) -> (r: Vec<String>)
    ensures
        r@.map_values(|s: String| s@) == (if general.cmd@.len() == 0 {
            seq!["sh"@, "-c"@]
        } else {
            general.cmd@.map_values(|s: String| s@)
        }).push(command@),
{
    let mut r: Vec<String> = if general.cmd.len() == 0 {
        let v = vec![String::from_str("sh"), String::from_str("-c")];
        assert(v@.map_values(|s: String| s@) =~= seq!["sh"@, "-c"@]);
        v
    } else {
        crate::snippet::copy_strings(&general.cmd)
    };
    let ghost before = r@.map_values(|s: String| s@);
    r.push(String::from_str(command));
    assert(r@.map_values(|s: String| s@) =~= before.push(command@));
    r
}

/// The lines handed to an external selector, one per line, each ended by a line break.
pub open spec fn joined_lines(items: Seq<Seq<char>>) -> Seq<char>
    decreases items.len(),
{
    if items.len() == 0 {
        seq![]
    } else {
        joined_lines(items.drop_last()) + items.last() + seq!['\n']
    }
}

/// What is written to the selector's input (see `joined_lines`).
pub fn selector_input(items: &Vec<String>) -> (r: String)
    ensures
        r@ == joined_lines(items@.map_values(|s: String| s@)),
{
    let ghost iv = items@.map_values(|s: String| s@);
    let mut out: Vec<char> = Vec::new();
    let mut i: usize = 0;
    while i < items.len()
        invariant
            i <= items.len(),
            iv == items@.map_values(|s: String| s@),
            out@ == joined_lines(iv.take(i as int)),
        decreases items.len() - i,
    {
        extend_chars(&mut out, &to_chars(items[i].as_str()));
        out.push('\n');
        assert(iv.take(i + 1).drop_last() =~= iv.take(i as int));
        i = i + 1;
    }
    assert(iv.take(i as int) =~= iv);
    string_from(&out)
}

/// The non-empty lines of the selector's output, in order.
pub open spec fn nonempty_lines(ls: Seq<Seq<char>>) -> Seq<Seq<char>>
    decreases ls.len(),
{
    if ls.len() == 0 {
        seq![]
    } else if ls.last().len() > 0 {
        nonempty_lines(ls.drop_last()).push(ls.last())
    } else {
        nonempty_lines(ls.drop_last())
    }
}

/// The selected lines in a selector's output (see `nonempty_lines`).
pub fn selected_lines(output: &str) -> (r: Vec<String>)
    ensures
        r@.map_values(|s: String| s@) == nonempty_lines(lines_of(output@)),
{
    let ls = lines(&to_chars(output));
    let ghost lv = ls@.map_values(|l: Vec<char>| l@);
    let mut r: Vec<String> = Vec::new();
    let mut i: usize = 0;
    while i < ls.len()
        invariant
            i <= ls.len(),
            lv == ls@.map_values(|l: Vec<char>| l@),
            r@.map_values(|s: String| s@) == nonempty_lines(lv.take(i as int)),
        decreases ls.len() - i,
    {
        let ghost before = r@.map_values(|s: String| s@);
        assert(lv.take(i + 1).drop_last() =~= lv.take(i as int));
        assert(lv[i as int] == ls@[i as int]@);
        if ls[i].len() > 0 {
            let s = string_from(&ls[i]);
            r.push(s);
            assert(r@.map_values(|s: String| s@) =~= before.push(s@));
        }
        i = i + 1;
    }
    assert(lv.take(i as int) =~= lv);
    r
}

/// A snippet's selector line without colors.
pub open spec fn plain_line(format: Seq<char>, s: SnippetView) -> Seq<char> {
    template_text(format, s.description, flatten_newlines(s.command), tags_text(s.tag))
}

/// A snippet's selector line with colors.
pub open spec fn colored_line(format: Seq<char>, s: SnippetView) -> Seq<char> {
    template_text(format, bright_red(s.description), flatten_newlines(s.command), bright_cyan(tags_text(s.tag)))
}

/// The index of the last of the first `k` snippets whose line (plain, or
/// colored when `color`) is `line`; -1 if none.
pub open spec fn line_owner(format: Seq<char>, ss: Seq<SnippetView>, color: bool, line: Seq<char>, k: int) -> int
    decreases k,
{
    if k <= 0 {
        -1
    } else if plain_line(format, ss[k - 1]) == line || (color && colored_line(format, ss[k - 1]) == line) {
        k - 1
    } else {
        line_owner(format, ss, color, line, k - 1)
    }
}

/// The snippets that the selected lines stand for, in the order of the
/// lines; a line that is no snippet's is skipped.
pub open spec fn selected_snippets(format: Seq<char>, ss: Seq<SnippetView>, color: bool, ls: Seq<Seq<char>>) -> Seq<SnippetView>
    decreases ls.len(),
{
    if ls.len() == 0 {
        seq![]
    } else {
        let rest = selected_snippets(format, ss, color, ls.drop_last());
        let k = line_owner(format, ss, color, ls.last(), ss.len() as int);
        if k >= 0 {
            rest.push(ss[k])
        } else {
            rest
        }
    }
}

proof fn lemma_line_owner(format: Seq<char>, ss: Seq<SnippetView>, color: bool, line: Seq<char>, k: int)
    requires
        0 <= k <= ss.len(),
    ensures
        -1 <= line_owner(format, ss, color, line, k) < k,
    decreases k,
{
    if k > 0 {
        lemma_line_owner(format, ss, color, line, k - 1);
    }
}

/// The selector lines of the snippets: colored when `color`, else plain.
pub fn selector_items(general: &GeneralConfig, snippets: &Vec<SnippetInfo>, color: bool) -> (r: Vec<String>)
    ensures
        r@.len() == snippets@.len(),
        forall|i: int| 0 <= i < r@.len() ==> #[trigger] r@[i]@ == (if color {
            colored_line(general.format@, snippets@[i]@)
        } else {
            plain_line(general.format@, snippets@[i]@)
        }),
{
    let mut r: Vec<String> = Vec::new();
    let mut i: usize = 0;
    while i < snippets.len()
        invariant
            i <= snippets.len(),
            r@.len() == i,
            forall|k: int| 0 <= k < i ==> #[trigger] r@[k]@ == (if color {
                colored_line(general.format@, snippets@[k]@)
            } else {
                plain_line(general.format@, snippets@[k]@)
            }),
        decreases snippets.len() - i,
    {
        let s = &snippets[i];
        let t = render_template(general.format.as_str(), s.description.as_str(), s.command.as_str(), s.tag.as_slice(), color);
        r.push(t);
        i = i + 1;
    }
    r
}

/// Maps the lines an external selector printed back to the snippets they
/// show (see `selected_snippets`): each line may be the plain or, when
/// colors were on, the colored line, since selectors differ in whether they
/// strip the color codes.
pub fn match_selection(general: &GeneralConfig, snippets: &Vec<SnippetInfo>, color: bool, selected: &Vec<String>) -> (r: Vec<SnippetInfo>)
    ensures
        snippet_views(r@) == selected_snippets(
            general.format@,
            snippet_views(snippets@),
            color,
            selected@.map_values(|s: String| s@),
        ),
{
    let ghost ss = snippet_views(snippets@);
    let ghost lv = selected@.map_values(|s: String| s@);
    let plain = selector_items(general, snippets, false);
    let colored = selector_items(general, snippets, color);
    let mut r: Vec<SnippetInfo> = Vec::new();
    let mut i: usize = 0;
    while i < selected.len()
        invariant
            i <= selected.len(),
            ss == snippet_views(snippets@),
            lv == selected@.map_values(|s: String| s@),
            plain@.len() == snippets@.len(),
            colored@.len() == snippets@.len(),
            forall|k: int| 0 <= k < plain@.len() ==> #[trigger] plain@[k]@ == plain_line(general.format@, ss[k]),
            forall|k: int| 0 <= k < colored@.len() ==> #[trigger] colored@[k]@ == (if color {
                colored_line(general.format@, ss[k])
            } else {
                plain_line(general.format@, ss[k])
            }),
            snippet_views(r@) == selected_snippets(general.format@, ss, color, lv.take(i as int)),
        decreases selected.len() - i,
    {
        let ghost before = snippet_views(r@);
        assert(lv.take(i + 1).drop_last() =~= lv.take(i as int));
        assert(lv[i as int] == selected@[i as int]@);
        let line = selected[i].as_str();
        let mut k = snippets.len();
        while k > 0 && !str_eq(plain[k - 1].as_str(), line) && !(color && str_eq(colored[k - 1].as_str(), line))
            invariant
                k <= snippets.len(),
                ss == snippet_views(snippets@),
                plain@.len() == snippets@.len(),
                colored@.len() == snippets@.len(),
                forall|j: int| 0 <= j < plain@.len() ==> #[trigger] plain@[j]@ == plain_line(general.format@, ss[j]),
                forall|j: int| 0 <= j < colored@.len() ==> #[trigger] colored@[j]@ == (if color {
                    colored_line(general.format@, ss[j])
                } else {
                    plain_line(general.format@, ss[j])
                }),
                line_owner(general.format@, ss, color, line@, k as int) == line_owner(general.format@, ss, color, line@, ss.len() as int),
            decreases k,
        {
            assert(plain@[k - 1]@ == plain_line(general.format@, ss[k - 1]));
            assert(colored@[k - 1]@ == (if color { colored_line(general.format@, ss[k - 1]) } else { plain_line(general.format@, ss[k - 1]) }));
            k = k - 1;
        }
        if k > 0 {
            assert(plain@[k - 1]@ == plain_line(general.format@, ss[k - 1]));
            assert(colored@[k - 1]@ == (if color { colored_line(general.format@, ss[k - 1]) } else { plain_line(general.format@, ss[k - 1]) }));
            assert(ss[k - 1] == snippets@[k - 1]@);
            let x = snippets[k - 1].duplicate();
            r.push(x);
            assert(snippet_views(r@) =~= before.push(x@));
        }
        i = i + 1;
    }
    assert(lv.take(i as int) =~= lv);
    r
}

/// A picker line showing snippet `s` through the template `format`: its
/// text, and the character range each substituted field occupies.
pub open spec fn item_shows(item: PickerItem, format: Seq<char>, s: SnippetView) -> bool {
    let slots = crate::format::template_slots(format, s.description, s.command, s.tag);
    &&& item.text@ == crate::format::assemble(format, slots, 0, 0)
    &&& item.fields@.map_values(|f: (FieldRole, core::ops::Range<usize>)| (f.0, f.1.start as int, f.1.end as int))
        == crate::format::assemble_ranges(format, slots, 0, 0, 0)
}

/// The picker lines of the snippets through the template `format`.
pub fn picker_items(format: &str, snippets: &Vec<SnippetInfo>) -> (r: Vec<PickerItem>)
    ensures
        r@.len() == snippets@.len(),
        forall|i: int| 0 <= i < r@.len() ==> item_shows(#[trigger] r@[i], format@, snippets@[i]@),
{
    let mut r: Vec<PickerItem> = Vec::new();
    let mut i: usize = 0;
    while i < snippets.len()
        invariant
            i <= snippets.len(),
            r@.len() == i,
            forall|k: int| 0 <= k < i ==> item_shows(#[trigger] r@[k], format@, snippets@[k]@),
        decreases snippets.len() - i,
    {
        let s = &snippets[i];
        let (text, fields) = render_template_fields(format, s.description.as_str(), s.command.as_str(), s.tag.as_slice());
        r.push(PickerItem { text, fields });
        i = i + 1;
    }
    r
}

/// The snippets at `indices`, in that order (what the built-in picker returns).
pub fn snippets_at(snippets: &Vec<SnippetInfo>, indices: &Vec<usize>) -> (r: Vec<SnippetInfo>)
    requires
        forall|i: int| 0 <= i < indices@.len() ==> #[trigger] indices@[i] < snippets@.len(),
    ensures
        snippet_views(r@) == indices@.map_values(|i: usize| snippets@[i as int]@),
{
    let mut r: Vec<SnippetInfo> = Vec::new();
    let mut j: usize = 0;
    while j < indices.len()
        invariant
            j <= indices.len(),
            forall|i: int| 0 <= i < indices@.len() ==> #[trigger] indices@[i] < snippets@.len(),
            snippet_views(r@) == indices@.take(j as int).map_values(|i: usize| snippets@[i as int]@),
        decreases indices.len() - j,
    {
        let ghost before = snippet_views(r@);
        let x = snippets[indices[j]].duplicate();
        r.push(x);
        assert(snippet_views(r@) =~= before.push(x@));
        assert(indices@.take(j + 1) =~= indices@.take(j as int).push(indices@[j as int]));
        j = j + 1;
        assert(snippet_views(r@) =~= indices@.take(j as int).map_values(|i: usize| snippets@[i as int]@));
    }
    assert(indices@.take(j as int) =~= indices@);
    r
}


/// Whether `general` names the built-in picker (see `is_builtin`).
pub open spec fn uses_builtin(general: GeneralConfig) -> bool {
    trimmed(general.selectcmd@) == "builtin"@
}

/// The selector command line for an optional query (see `selector_command`).
pub open spec fn selector_line(selectcmd: Seq<char>, query: Option<String>) -> Seq<char> {
    match query {
        Some(q) => selectcmd + " --query "@ + shell_quoted(q@),
        None => selectcmd,
    }
}

/// The words that run `command` through the configured shell (see `shell_argv`).
pub open spec fn shell_words(general: GeneralConfig, command: Seq<char>) -> Seq<Seq<char>> {
    (if general.cmd@.len() == 0 {
        seq!["sh"@, "-c"@]
    } else {
        general.cmd@.map_values(|s: String| s@)
    }).push(command)
}

/// The selector line of each snippet: colored when `color`, else plain.
pub open spec fn item_lines(format: Seq<char>, ss: Seq<SnippetView>, color: bool) -> Seq<Seq<char>> {
    ss.map_values(|s: SnippetView| if color { colored_line(format, s) } else { plain_line(format, s) })
}

/// Whether two optional strings hold the same text.
pub open spec fn same_text(a: Option<String>, b: Option<String>) -> bool {
    match (a, b) {
        (Some(x), Some(y)) => x@ == y@,
        (None, None) => true,
        _ => false,
    }
}

/// How a selection is made.
pub enum SelectRequest {
    /// Nothing to choose from: the answer is empty and no selector runs.
    Empty,
    /// The built-in picker on these lines, starting from `query`.
    Builtin { items: Vec<PickerItem>, query: Option<String> },
    /// An external selector: run `argv`, write `input` to it, read what it prints.
    External { argv: Vec<String>, input: String },
}

/// What the selector answered.
pub enum SelectAnswer {
    /// Nothing chosen: cancelled, or the selector exited with a failure.
    Cancelled,
    /// The built-in picker confirmed the items at these indices.
    Picked(Vec<usize>),
    /// The external selector exited successfully and printed this.
    Printed(String),
}

/// Whether the indices of a picker answer all name one of `n` items.
pub open spec fn answer_in_range(answer: SelectAnswer, n: int) -> bool {
    answer matches SelectAnswer::Picked(ix) ==> forall|i: int| 0 <= i < ix@.len() ==> #[trigger] ix@[i] < n
}

fn copy_query(q: &Option<String>) -> (r: Option<String>)
    ensures
        same_text(r, *q),
{
    match q {
        Some(s) => Some(s.clone()),
        None => None,
    }
}

fn query_str(q: &Option<String>) -> (r: Option<&str>)
    ensures
        match (r, *q) {
            (Some(x), Some(y)) => x@ == y@,
            (None, None) => true,
            _ => false,
        },
{
    match q {
        Some(s) => Some(s.as_str()),
        None => None,
    }
}

/// The external selector's command line for `opts`.
fn external_argv(general: &GeneralConfig, opts: &SelectOptions) -> (r: Vec<String>)
    ensures
        r@.map_values(|s: String| s@) == shell_words(*general, selector_line(general.selectcmd@, opts.query)),
{
    let line = selector_command(general, query_str(&opts.query));
    shell_argv(general, line.as_str())
}

/// How to choose among `snippets`: nothing when there are none; else the
/// built-in picker on their template lines, or the external selector fed one
/// line per snippet (colored when the configuration or `opts` asks for it).
pub fn select_request(general: &GeneralConfig, snippets: &Vec<SnippetInfo>, opts: &SelectOptions) -> (r: SelectRequest)
    ensures
        snippets@.len() == 0 ==> r is Empty,
        snippets@.len() > 0 && uses_builtin(*general) ==> (r matches SelectRequest::Builtin { items, query } && same_text(query, opts.query)
            && items@.len() == snippets@.len()
            && forall|i: int| 0 <= i < items@.len() ==> item_shows(#[trigger] items@[i], general.format@, snippets@[i]@)),
        snippets@.len() > 0 && !uses_builtin(*general) ==> (r matches SelectRequest::External { argv, input }
            && argv@.map_values(|s: String| s@) == shell_words(*general, selector_line(general.selectcmd@, opts.query))
            && input@ == joined_lines(item_lines(general.format@, snippet_views(snippets@), general.color || opts.color))),
{
    if snippets.len() == 0 {
        return SelectRequest::Empty;
    }
    if is_builtin(general) {
        let items = picker_items(general.format.as_str(), snippets);
        SelectRequest::Builtin { items, query: copy_query(&opts.query) }
    } else {
        let color = general.color || opts.color;
        let lines = selector_items(general, snippets, color);
        assert(lines@.map_values(|s: String| s@) =~= item_lines(general.format@, snippet_views(snippets@), color));
        let input = selector_input(&lines);
        SelectRequest::External { argv: external_argv(general, opts), input }
    }
}

/// The snippets a selector's answer stands for: with the built-in picker the
/// picked ones, in the order given; with an external selector those whose line
/// (plain or colored) it printed; nothing otherwise.
pub open spec fn chosen_snippets(general: GeneralConfig, ss: Seq<SnippetView>, force_color: bool, answer: SelectAnswer) -> Seq<SnippetView> {
    if uses_builtin(general) {
        match answer {
            SelectAnswer::Picked(ix) => ix@.map_values(|i: usize| ss[i as int]),
            _ => seq![],
        }
    } else {
        match answer {
            SelectAnswer::Printed(out) => selected_snippets(
                general.format@,
                ss,
                general.color || force_color,
                nonempty_lines(crate::history::lines_of(out@)),
            ),
            _ => seq![],
        }
    }
}

/// The snippets chosen by the selector's `answer` (see `chosen_snippets`).
pub fn select_snippets(general: &GeneralConfig, snippets: &Vec<SnippetInfo>, opts: &SelectOptions, answer: &SelectAnswer) -> (r: Vec<SnippetInfo>)
    requires
        answer_in_range(*answer, snippets@.len() as int),
    ensures
        snippet_views(r@) == chosen_snippets(*general, snippet_views(snippets@), opts.color, *answer),
{
    if is_builtin(general) {
        match answer {
            SelectAnswer::Picked(ix) => {
                let r = snippets_at(snippets, ix);
                assert(snippet_views(r@) =~= ix@.map_values(|i: usize| snippet_views(snippets@)[i as int]));
                r
            },
            _ => Vec::new(),
        }
    } else {
        match answer {
            SelectAnswer::Printed(out) => {
                let chosen = selected_lines(out.as_str());
                match_selection(general, snippets, general.color || opts.color, &chosen)
            },
            _ => Vec::new(),
        }
    }
}

/// The commands of the snippets chosen by `answer` (see `select_snippets`).
pub fn select_commands(general: &GeneralConfig, snippets: &Vec<SnippetInfo>, opts: &SelectOptions, answer: &SelectAnswer) -> (r: Vec<String>)
    requires
        answer_in_range(*answer, snippets@.len() as int),
    ensures
        r@.map_values(|s: String| s@) == chosen_snippets(*general, snippet_views(snippets@), opts.color, *answer).map_values(
            |v: SnippetView| v.command,
        ),
{
    let chosen = select_snippets(general, snippets, opts, answer);
    let ghost cv = snippet_views(chosen@);
    let mut r: Vec<String> = Vec::new();
    let mut i: usize = 0;
    while i < chosen.len()
        invariant
            i <= chosen.len(),
            cv == snippet_views(chosen@),
            r@.map_values(|s: String| s@) == cv.take(i as int).map_values(|v: SnippetView| v.command),
        decreases chosen.len() - i,
    {
        let ghost before = r@.map_values(|s: String| s@);
        let c = chosen[i].command.clone();
        r.push(c);
        assert(r@.map_values(|s: String| s@) =~= before.push(cv[i as int].command));
        assert(cv.take(i + 1) =~= cv.take(i as int).push(cv[i as int]));
        i = i + 1;
        assert(r@.map_values(|s: String| s@) =~= cv.take(i as int).map_values(|v: SnippetView| v.command));
    }
    assert(cv.take(i as int) =~= cv);
    r
}

/// ` #tag` for each tag, in order.
pub open spec fn tag_suffix(tags: Seq<Seq<char>>) -> Seq<char>
    decreases tags.len(),
{
    if tags.len() == 0 {
        seq![]
    } else {
        tag_suffix(tags.drop_last()) + seq![' ', '#'] + tags.last()
    }
}

/// A snippet's line when choosing a file: `[description]: command #tag…`,
/// the command on one line.
pub open spec fn file_line(s: SnippetView) -> Seq<char> {
    seq!['['] + s.description + seq![']', ':', ' '] + crate::format::flatten_newlines(s.command) + tag_suffix(s.tag)
}

/// The index of the last of the first `k` snippets whose file line is `line`; -1 if none.
pub open spec fn file_owner(ss: Seq<SnippetView>, line: Seq<char>, k: int) -> int
    decreases k,
{
    if k <= 0 {
        -1
    } else if file_line(ss[k - 1]) == line {
        k - 1
    } else {
        file_owner(ss, line, k - 1)
    }
}

proof fn lemma_file_owner(ss: Seq<SnippetView>, line: Seq<char>, k: int)
    requires
        0 <= k <= ss.len(),
    ensures
        -1 <= file_owner(ss, line, k) < k,
    decreases k,
{
    if k > 0 {
        lemma_file_owner(ss, line, k - 1);
    }
}

/// The file line of one snippet (see `file_line`).
fn file_line_of(s: &SnippetInfo) -> (r: String)
    ensures
        r@ == file_line(s@),
{
    let mut out: Vec<char> = vec!['['];
    extend_chars(&mut out, &to_chars(s.description.as_str()));
    out.push(']');
    out.push(':');
    out.push(' ');
    extend_chars(&mut out, &crate::format::flatten_command(&to_chars(s.command.as_str())));
    let ghost head = out@;
    let ghost tv = s.tag@.map_values(|t: String| t@);
    let mut i: usize = 0;
    while i < s.tag.len()
        invariant
            i <= s.tag.len(),
            tv == s.tag@.map_values(|t: String| t@),
            out@ == head + tag_suffix(tv.take(i as int)),
        decreases s.tag.len() - i,
    {
        out.push(' ');
        out.push('#');
        extend_chars(&mut out, &to_chars(s.tag[i].as_str()));
        assert(tv.take(i + 1).drop_last() =~= tv.take(i as int));
        i = i + 1;
        assert(out@ =~= head + tag_suffix(tv.take(i as int)));
    }
    assert(tv.take(i as int) =~= tv);
    assert(out@ =~= file_line(s@));
    string_from(&out)
}

/// The file lines of all snippets.
fn file_lines(snippets: &Vec<SnippetInfo>) -> (r: Vec<String>)
    ensures
        r@.len() == snippets@.len(),
        forall|k: int| 0 <= k < r@.len() ==> #[trigger] r@[k]@ == file_line(snippets@[k]@),
        r@.map_values(|s: String| s@) == snippet_views(snippets@).map_values(|s: SnippetView| file_line(s)),
{
    let mut r: Vec<String> = Vec::new();
    let mut i: usize = 0;
    while i < snippets.len()
        invariant
            i <= snippets.len(),
            r@.len() == i,
            forall|k: int| 0 <= k < i ==> #[trigger] r@[k]@ == file_line(snippets@[k]@),
        decreases snippets.len() - i,
    {
        r.push(file_line_of(&snippets[i]));
        i = i + 1;
    }
    assert(r@.map_values(|s: String| s@) =~= snippet_views(snippets@).map_values(|s: SnippetView| file_line(s)));
    r
}

/// The template of the built-in picker's lines when choosing a file.
pub open spec fn file_template() -> Seq<char> {
    "[$description]: $command $tags"@
}

/// How to choose the snippet file to edit: as `select_request`, but an
/// external selector is fed the file lines (see `file_line`), never colored,
/// and the picker shows them through `file_template`.
pub fn file_request(general: &GeneralConfig, snippets: &Vec<SnippetInfo>, opts: &SelectOptions) -> (r: SelectRequest)
    ensures
        snippets@.len() == 0 ==> r is Empty,
        snippets@.len() > 0 && uses_builtin(*general) ==> (r matches SelectRequest::Builtin { items, query } && same_text(query, opts.query)
            && items@.len() == snippets@.len()
            && forall|i: int| 0 <= i < items@.len() ==> item_shows(#[trigger] items@[i], file_template(), snippets@[i]@)),
        snippets@.len() > 0 && !uses_builtin(*general) ==> (r matches SelectRequest::External { argv, input }
            && argv@.map_values(|s: String| s@) == shell_words(*general, selector_line(general.selectcmd@, opts.query))
            && input@ == joined_lines(snippet_views(snippets@).map_values(|s: SnippetView| file_line(s)))),
{
    if snippets.len() == 0 {
        return SelectRequest::Empty;
    }
    if is_builtin(general) {
        let items = picker_items("[$description]: $command $tags", snippets);
        SelectRequest::Builtin { items, query: copy_query(&opts.query) }
    } else {
        let lines = file_lines(snippets);
        let input = selector_input(&lines);
        SelectRequest::External { argv: external_argv(general, opts), input }
    }
}

/// The file chosen by the selector's `answer`: that of the first picked
/// snippet, or of the last snippet whose file line is the first line printed;
/// none when nothing (known) was chosen.
pub open spec fn chosen_file(general: GeneralConfig, ss: Seq<SnippetView>, answer: SelectAnswer) -> Option<Seq<char>> {
    if uses_builtin(general) {
        match answer {
            SelectAnswer::Picked(ix) => if ix@.len() > 0 {
                Some(ss[ix@[0] as int].filename)
            } else {
                None
            },
            _ => None,
        }
    } else {
        match answer {
            SelectAnswer::Printed(out) => {
                let ls = nonempty_lines(crate::history::lines_of(out@));
                if ls.len() > 0 && file_owner(ss, ls[0], ss.len() as int) >= 0 {
                    Some(ss[file_owner(ss, ls[0], ss.len() as int)].filename)
                } else {
                    None
                }
            },
            _ => None,
        }
    }
}

/// The snippet file chosen by `answer` (see `chosen_file`).
pub fn select_file(general: &GeneralConfig, snippets: &Vec<SnippetInfo>, opts: &SelectOptions, answer: &SelectAnswer) -> (r: Option<String>)
    requires
        answer_in_range(*answer, snippets@.len() as int),
    ensures
        match (r, chosen_file(*general, snippet_views(snippets@), *answer)) {
            (Some(p), Some(q)) => p@ == q,
            (None, None) => true,
            _ => false,
        },
{
    let ghost ss = snippet_views(snippets@);
    if is_builtin(general) {
        match answer {
            SelectAnswer::Picked(ix) => {
                if ix.len() > 0 {
                    assert(ix@[0] < snippets@.len());
                    Some(snippets[ix[0]].filename.clone())
                } else {
                    None
                }
            },
            _ => None,
        }
    } else {
        match answer {
            SelectAnswer::Printed(out) => {
                let chosen = selected_lines(out.as_str());
                if chosen.len() == 0 {
                    return None;
                }
                let line = chosen[0].as_str();
                assert(line@ == nonempty_lines(crate::history::lines_of(out@))[0]);
                let lines = file_lines(snippets);
                let mut k = snippets.len();
                while k > 0 && !str_eq(lines[k - 1].as_str(), line)
                    invariant
                        k <= snippets.len(),
                        ss == snippet_views(snippets@),
                        lines@.len() == snippets@.len(),
                        forall|j: int| 0 <= j < lines@.len() ==> #[trigger] lines@[j]@ == file_line(ss[j]),
                        file_owner(ss, line@, k as int) == file_owner(ss, line@, ss.len() as int),
                    decreases k,
                {
                    assert(lines@[k - 1]@ == file_line(ss[k - 1]));
                    k = k - 1;
                }
                proof {
                    lemma_file_owner(ss, line@, ss.len() as int);
                }
                if k > 0 {
                    assert(lines@[k - 1]@ == file_line(ss[k - 1]));
                    Some(snippets[k - 1].filename.clone())
                } else {
                    None
                }
            },
            _ => None,
        }
    }
}


/// A line that survives the trip through a selector unchanged: not empty,
/// with no line break and no trailing carriage return.
pub open spec fn one_line(l: Seq<char>) -> bool {
    &&& l.len() > 0
    &&& forall|j: int| 0 <= j < l.len() ==> l[j] != '\n'
    &&& l.last() != '\r'
}

proof fn lemma_joined_front(items: Seq<Seq<char>>)
    requires
        items.len() > 0,
    ensures
        joined_lines(items) == items[0] + seq!['\n'] + joined_lines(items.skip(1)),
    decreases items.len(),
{
    if items.len() == 1 {
        assert(items.skip(1) =~= Seq::<Seq<char>>::empty());
        assert(items.drop_last() =~= Seq::<Seq<char>>::empty());
        assert(joined_lines(items) =~= items[0] + seq!['\n'] + joined_lines(items.skip(1)));
    } else {
        lemma_joined_front(items.drop_last());
        assert(items.skip(1).drop_last() =~= items.drop_last().skip(1));
        assert(items.drop_last()[0] == items[0]);
        assert(items.skip(1).last() == items.last());
        assert(joined_lines(items) =~= items[0] + seq!['\n'] + joined_lines(items.skip(1)));
    }
}

proof fn lemma_lines_of_joined(items: Seq<Seq<char>>)
    requires
        forall|i: int| 0 <= i < items.len() ==> one_line(#[trigger] items[i]),
    ensures
        crate::history::lines_of(joined_lines(items)) == items,
    decreases items.len(),
{
    if items.len() > 0 {
        lemma_joined_front(items);
        let cur = items[0];
        assert(one_line(cur));
        let rest = joined_lines(items.skip(1));
        let t = seq!['\n'] + rest;
        let s = cur + t;
        assert(joined_lines(items) =~= s);
        crate::history::lemma_first_newline_after(cur, t);
        assert(s.take(cur.len() as int) =~= cur);
        assert(s.skip(cur.len() as int + 1) =~= rest);
        assert forall|i: int| 0 <= i < items.skip(1).len() implies one_line(#[trigger] items.skip(1)[i]) by {
            assert(items.skip(1)[i] == items[i + 1]);
        }
        lemma_lines_of_joined(items.skip(1));
        assert(crate::history::strip_cr(cur) == cur);
        assert(crate::history::lines_of(s) == seq![cur] + crate::history::lines_of(rest));
        assert(seq![cur] + items.skip(1) =~= items);
    }
}

proof fn lemma_nonempty_all(ls: Seq<Seq<char>>)
    requires
        forall|i: int| 0 <= i < ls.len() ==> (#[trigger] ls[i]).len() > 0,
    ensures
        nonempty_lines(ls) == ls,
    decreases ls.len(),
{
    if ls.len() > 0 {
        lemma_nonempty_all(ls.drop_last());
        assert(ls.drop_last().push(ls.last()) =~= ls);
    }
}

proof fn lemma_owner_of_distinct(format: Seq<char>, ss: Seq<SnippetView>, i: int, k: int)
    requires
        0 <= i < k <= ss.len(),
        forall|a: int, b: int| 0 <= a < b < ss.len() ==> plain_line(format, ss[a]) != plain_line(format, ss[b]),
    ensures
        line_owner(format, ss, false, plain_line(format, ss[i]), k) == i,
    decreases k,
{
    if k - 1 != i {
        lemma_owner_of_distinct(format, ss, i, k - 1);
    }
}

proof fn lemma_selected_prefix(format: Seq<char>, ss: Seq<SnippetView>, k: int)
    requires
        0 <= k <= ss.len(),
        forall|a: int, b: int| 0 <= a < b < ss.len() ==> plain_line(format, ss[a]) != plain_line(format, ss[b]),
    ensures
        selected_snippets(format, ss, false, item_lines(format, ss, false).take(k)) == ss.take(k),
    decreases k,
{
    if k > 0 {
        lemma_selected_prefix(format, ss, k - 1);
        let ls = item_lines(format, ss, false).take(k);
        assert(ls.drop_last() =~= item_lines(format, ss, false).take(k - 1));
        assert(ls.last() == plain_line(format, ss[k - 1]));
        lemma_owner_of_distinct(format, ss, k - 1, ss.len() as int);
        assert(ss.take(k) =~= ss.take(k - 1).push(ss[k - 1]));
    }
}

/// Law: with colors off, a selector that prints back every line it was
/// given (as `cat` does) selects every snippet, in order, when the snippets'
/// lines are distinct and each stays one line (see `one_line`).
pub proof fn law_echoed_lines_select_every_snippet(format: Seq<char>, ss: Seq<SnippetView>)
    requires
        forall|i: int| 0 <= i < ss.len() ==> one_line(#[trigger] plain_line(format, ss[i])),
        forall|a: int, b: int| 0 <= a < b < ss.len() ==> plain_line(format, ss[a]) != plain_line(format, ss[b]),
    ensures
        selected_snippets(
            format,
            ss,
            false,
            nonempty_lines(crate::history::lines_of(joined_lines(item_lines(format, ss, false)))),
        ) == ss,
{
    let items = item_lines(format, ss, false);
    assert forall|i: int| 0 <= i < items.len() implies one_line(#[trigger] items[i]) by {
        assert(items[i] == plain_line(format, ss[i]));
    }
    lemma_lines_of_joined(items);
    lemma_nonempty_all(items);
    lemma_selected_prefix(format, ss, ss.len() as int);
    assert(items.take(ss.len() as int) =~= items);
    assert(ss.take(ss.len() as int) =~= ss);
}

proof fn lemma_line_owner_is_last_match(format: Seq<char>, ss: Seq<SnippetView>, color: bool, line: Seq<char>, k: int)
    requires
        0 <= k <= ss.len(),
    ensures
        ({
            let o = line_owner(format, ss, color, line, k);
            &&& -1 <= o < k
            &&& o >= 0 ==> (plain_line(format, ss[o]) == line || (color && colored_line(format, ss[o]) == line))
            &&& forall|j: int|
                o < j < k ==> !(plain_line(format, #[trigger] ss[j]) == line || (color && colored_line(format, ss[j])
                    == line))
        }),
    decreases k,
{
    if k > 0 {
        lemma_line_owner_is_last_match(format, ss, color, line, k - 1);
    }
}

/// Law: a line the selector prints back selects a snippet exactly when it is
/// some snippet's plain line or, with colors on, some snippet's colored line
/// (selectors such as `fzf --ansi` strip the colors, others print the line as
/// they got it). The snippet selected shows that line, and no later snippet
/// does; a line no snippet shows selects nothing.
pub proof fn law_printed_line_selects_its_snippet(
    format: Seq<char>,
    ss: Seq<SnippetView>,
    color: bool,
    line: Seq<char>,
)
    ensures
        ({
            let r = selected_snippets(format, ss, color, seq![line]);
            &&& r.len() <= 1
            &&& (r.len() == 1) <==> exists|i: int|
                0 <= i < ss.len() && (plain_line(format, #[trigger] ss[i]) == line || (color && colored_line(
                    format,
                    ss[i],
                ) == line))
            &&& r.len() == 1 ==> exists|k: int|
                0 <= k < ss.len() && ss[k] == r[0] && (plain_line(format, ss[k]) == line || (color
                    && colored_line(format, ss[k]) == line)) && forall|j: int|
                    k < j < ss.len() ==> !(plain_line(format, #[trigger] ss[j]) == line || (color && colored_line(
                        format,
                        ss[j],
                    ) == line))
        }),
{
    let n = ss.len() as int;
    lemma_line_owner_is_last_match(format, ss, color, line, n);
    let ls = seq![line];
    assert(ls.drop_last() =~= Seq::<Seq<char>>::empty());
    assert(ls.last() == line);
    let o = line_owner(format, ss, color, line, n);
    let r = selected_snippets(format, ss, color, ls);
    let e = selected_snippets(format, ss, color, ls.drop_last());
    assert(e =~= Seq::<SnippetView>::empty());
    assert(r == (if o >= 0 { e.push(ss[o]) } else { e }));
    if o >= 0 {
        assert(r =~= seq![ss[o]]);
    } else {
        assert(r =~= Seq::<SnippetView>::empty());
        assert forall|i: int| 0 <= i < ss.len() implies !(plain_line(format, #[trigger] ss[i]) == line || (color
            && colored_line(format, ss[i]) == line)) by {}
    }
}

/// Law: with colors on, a printed line equal to a snippet's plain (uncolored)
/// line selects a snippet, just as its colored line does; the one selected
/// shows that line.
pub proof fn law_plain_line_selects_with_colors_on(format: Seq<char>, ss: Seq<SnippetView>, i: int)
    requires
        0 <= i < ss.len(),
    ensures
        selected_snippets(format, ss, true, seq![plain_line(format, ss[i])]).len() == 1,
        selected_snippets(format, ss, true, seq![colored_line(format, ss[i])]).len() == 1,
        ({
            let r = selected_snippets(format, ss, true, seq![plain_line(format, ss[i])]);
            plain_line(format, r[0]) == plain_line(format, ss[i]) || colored_line(format, r[0]) == plain_line(
                format,
                ss[i],
            )
        }),
{
    law_printed_line_selects_its_snippet(format, ss, true, plain_line(format, ss[i]));
    law_printed_line_selects_its_snippet(format, ss, true, colored_line(format, ss[i]));
    let r = selected_snippets(format, ss, true, seq![plain_line(format, ss[i])]);
    let k = choose|k: int|
        0 <= k < ss.len() && ss[k] == r[0] && (plain_line(format, ss[k]) == plain_line(format, ss[i]) || (true
            && colored_line(format, ss[k]) == plain_line(format, ss[i]))) && forall|j: int|
            k < j < ss.len() ==> !(plain_line(format, #[trigger] ss[j]) == plain_line(format, ss[i]) || (true
                && colored_line(format, ss[j]) == plain_line(format, ss[i])));
}

/// Law: the selected snippets of several printed lines are those of each
/// line in turn, in the order the lines were printed.
pub proof fn law_selection_follows_the_lines(
    format: Seq<char>,
    ss: Seq<SnippetView>,
    color: bool,
    ls: Seq<Seq<char>>,
    line: Seq<char>,
)
    ensures
        selected_snippets(format, ss, color, ls.push(line)) == selected_snippets(format, ss, color, ls)
            + selected_snippets(format, ss, color, seq![line]),
{
    let one = seq![line];
    assert(one.drop_last() =~= Seq::<Seq<char>>::empty());
    assert(ls.push(line).drop_last() =~= ls);
    let rest = selected_snippets(format, ss, color, ls);
    let e = selected_snippets(format, ss, color, one.drop_last());
    assert(e =~= Seq::<SnippetView>::empty());
    let k = line_owner(format, ss, color, line, ss.len() as int);
    lemma_line_owner(format, ss, color, line, ss.len() as int);
    let single = selected_snippets(format, ss, color, one);
    assert(single == (if k >= 0 { e.push(ss[k]) } else { e }));
    let all = selected_snippets(format, ss, color, ls.push(line));
    assert(all == (if k >= 0 { rest.push(ss[k]) } else { rest }));
    if k >= 0 {
        assert(rest.push(ss[k]) =~= rest + single);
    } else {
        assert(rest =~= rest + single);
    }
}

} // verus!
