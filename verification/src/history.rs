//! Reading the previous command out of a shell history file (`pet new --last`).
use vstd::prelude::*;
use crate::grammar::{first_of, lemma_first_of};
use crate::text::{is_whitespace, is_ws, string_of, to_chars};

verus! {

/// A line without the `\r` of a `\r\n` ending.
pub open spec fn strip_cr(l: Seq<char>) -> Seq<char> {
    if l.len() > 0 && l.last() == '\r' {
        l.drop_last()
    } else {
        l
    }
}

/// The lines of `s`, as `str::lines` gives them: split at each `\n`, a
/// `\r` just before it dropped, and no empty line after a final `\n`.
pub open spec fn lines_of(s: Seq<char>) -> Seq<Seq<char>>
    decreases s.len(),
{
    if s.len() == 0 {
        seq![]
    } else {
        let k = first_of(s, '\n', 0);
        if k >= s.len() {
            seq![s]
        } else {
            proof {
                lemma_first_of(s, '\n', 0);
            }
            seq![strip_cr(s.take(k))] + lines_of(s.skip(k + 1))
        }
    }
}

pub proof fn lemma_first_newline_after(cur: Seq<char>, t: Seq<char>)
    requires
        forall|j: int| 0 <= j < cur.len() ==> cur[j] != '\n',
        t.len() > 0,
        t[0] == '\n',
    ensures
        first_of(cur + t, '\n', 0) == cur.len(),
{
    let u = cur + t;
    lemma_first_of(u, '\n', 0);
    let k = first_of(u, '\n', 0);
    assert(u[cur.len() as int] == '\n');
    if k < cur.len() {
        assert(u[k] == cur[k]);
    }
}

proof fn lemma_no_newline(cur: Seq<char>)
    requires
        forall|j: int| 0 <= j < cur.len() ==> cur[j] != '\n',
    ensures
        first_of(cur, '\n', 0) == cur.len(),
{
    lemma_first_of(cur, '\n', 0);
}

/// The lines of a text (see `lines_of`).
pub fn lines(s: &Vec<char>) -> (r: Vec<Vec<char>>)
    ensures
        r@.map_values(|l: Vec<char>| l@) == lines_of(s@),
{
    let mut out: Vec<Vec<char>> = Vec::new();
    let mut cur: Vec<char> = Vec::new();
    let mut i: usize = 0;
    assert(s@.skip(0) =~= s@);
    while i < s.len()
        invariant
            i <= s.len(),
            forall|j: int| 0 <= j < cur@.len() ==> cur@[j] != '\n',
            out@.map_values(|l: Vec<char>| l@) + lines_of(cur@ + s@.skip(i as int)) == lines_of(s@),
        decreases s.len() - i,
    {
        let ghost before = out@.map_values(|l: Vec<char>| l@);
        let ghost u = cur@ + s@.skip(i as int);
        if s[i] == '\n' {
            proof {
                lemma_first_newline_after(cur@, s@.skip(i as int));
                assert(u.take(cur@.len() as int) =~= cur@);
                assert(u.skip(cur@.len() as int + 1) =~= s@.skip(i + 1));
            }
            let mut line = cur;
            if line.len() > 0 && line[line.len() - 1] == '\r' {
                line.pop();
            }
            assert(line@ == strip_cr(u.take(cur@.len() as int)));
            out.push(line);
            cur = Vec::new();
            assert(out@.map_values(|l: Vec<char>| l@) =~= before.push(line@));
            assert(cur@ + s@.skip(i + 1) =~= s@.skip(i + 1));
        } else {
            cur.push(s[i]);
            assert(cur@ + s@.skip(i + 1) =~= u);
        }
        i = i + 1;
    }
    assert(cur@ + s@.skip(i as int) =~= cur@);
    if cur.len() > 0 {
        proof {
            lemma_no_newline(cur@);
        }
        let ghost before = out@.map_values(|l: Vec<char>| l@);
        out.push(cur);
        assert(out@.map_values(|l: Vec<char>| l@) =~= before + lines_of(cur@));
    } else {
        assert(out@.map_values(|l: Vec<char>| l@) =~= out@.map_values(|l: Vec<char>| l@) + lines_of(cur@));
    }
    out
}

/// The index of the first non-whitespace character at or after `i` (or `s.len()`).
pub open spec fn skip_ws(s: Seq<char>, i: int) -> int
    decreases s.len() - i,
{
    if i < 0 || i >= s.len() {
        s.len() as int
    } else if is_ws(s[i]) {
        skip_ws(s, i + 1)
    } else {
        i
    }
}

/// One past the last non-whitespace character before index `j` (or 0).
pub open spec fn trim_end_at(s: Seq<char>, j: int) -> int
    decreases j,
{
    if j <= 0 || j > s.len() {
        0
    } else if is_ws(s[j - 1]) {
        trim_end_at(s, j - 1)
    } else {
        j
    }
}

/// `s` without leading and trailing whitespace (`str::trim`).
pub open spec fn trimmed(s: Seq<char>) -> Seq<char> {
    let a = skip_ws(s, 0);
    if a >= s.len() {
        seq![]
    } else {
        s.subrange(a, trim_end_at(s, s.len() as int))
    }
}

proof fn lemma_skip_ws(s: Seq<char>, i: int)
    requires
        0 <= i <= s.len(),
    ensures
        i <= skip_ws(s, i) <= s.len(),
        skip_ws(s, i) < s.len() ==> !is_ws(s[skip_ws(s, i)]),
        forall|k: int| i <= k < skip_ws(s, i) ==> is_ws(#[trigger] s[k]),
    decreases s.len() - i,
{
    if i < s.len() && is_ws(s[i]) {
        lemma_skip_ws(s, i + 1);
    }
}

proof fn lemma_trim_end_at(s: Seq<char>, j: int)
    requires
        0 <= j <= s.len(),
    ensures
        0 <= trim_end_at(s, j) <= j,
        trim_end_at(s, j) > 0 ==> !is_ws(s[trim_end_at(s, j) - 1]),
        forall|k: int| trim_end_at(s, j) <= k < j ==> is_ws(#[trigger] s[k]),
    decreases j,
{
    if j > 0 && is_ws(s[j - 1]) {
        lemma_trim_end_at(s, j - 1);
    }
}

/// `s` without surrounding whitespace (see `trimmed`).
pub fn trim(s: &Vec<char>) -> (r: Vec<char>)
    ensures
        r@ == trimmed(s@),
{
    proof {
        lemma_skip_ws(s@, 0);
        lemma_trim_end_at(s@, s@.len() as int);
    }
    let mut a: usize = 0;
    while a < s.len() && is_whitespace(s[a])
        invariant
            a <= s.len(),
            skip_ws(s@, a as int) == skip_ws(s@, 0),
        decreases s.len() - a,
    {
        a = a + 1;
    }
    if a >= s.len() {
        return Vec::new();
    }
    let mut b: usize = s.len();
    while b > 0 && is_whitespace(s[b - 1])
        invariant
            b <= s.len(),
            trim_end_at(s@, b as int) == trim_end_at(s@, s@.len() as int),
        decreases b,
    {
        b = b - 1;
    }
    proof {
        assert(!is_ws(s@[a as int]));
        if b <= a {
            lemma_trim_end_at(s@, s@.len() as int);
            assert(is_ws(s@[a as int]));
        }
    }
    let mut r: Vec<char> = Vec::new();
    let mut i = a;
    while i < b
        invariant
            a <= i <= b <= s.len(),
            r@ == s@.subrange(a as int, i as int),
        decreases b - i,
    {
        r.push(s[i]);
        i = i + 1;
        assert(r@ =~= s@.subrange(a as int, i as int));
    }
    r
}

/// A zsh extended-history entry (`: <start>:<duration>;<command>`) reduced to
/// its command; any other line unchanged.
pub open spec fn strip_zsh_prefix(l: Seq<char>) -> Seq<char> {
    if l.len() > 0 && l[0] == ':' {
        let k = first_of(l, ';', 1);
        if k < l.len() {
            l.skip(k + 1)
        } else {
            l
        }
    } else {
        l
    }
}

pub open spec fn fish_prefix() -> Seq<char> {
    seq!['-', ' ', 'c', 'm', 'd', ':', ' ']
}

/// The commands of a fish history: the `- cmd: ` lines, without that prefix.
pub open spec fn fish_commands(ls: Seq<Seq<char>>) -> Seq<Seq<char>>
    decreases ls.len(),
{
    if ls.len() == 0 {
        seq![]
    } else {
        let rest = fish_commands(ls.drop_last());
        let l = ls.last();
        if l.len() >= 7 && l.take(7) == fish_prefix() {
            rest.push(l.skip(7))
        } else {
            rest
        }
    }
}

/// The entries of a history file for `shell`, with shell-specific framing removed.
pub open spec fn raw_entries(contents: Seq<char>, shell: Seq<char>) -> Seq<Seq<char>> {
    if shell == seq!['f', 'i', 's', 'h'] {
        fish_commands(lines_of(contents))
    } else if shell == seq!['z', 's', 'h'] {
        lines_of(contents).map_values(|l: Seq<char>| strip_zsh_prefix(l))
    } else {
        lines_of(contents)
    }
}

/// The non-empty entries, trimmed, oldest first.
pub open spec fn cleaned(ls: Seq<Seq<char>>) -> Seq<Seq<char>>
    decreases ls.len(),
{
    if ls.len() == 0 {
        seq![]
    } else {
        let rest = cleaned(ls.drop_last());
        let t = trimmed(ls.last());
        if t.len() > 0 {
            rest.push(t)
        } else {
            rest
        }
    }
}

pub open spec fn history_commands(contents: Seq<char>, shell: Seq<char>) -> Seq<Seq<char>> {
    cleaned(raw_entries(contents, shell))
}

/// `l` reduced as `strip_zsh_prefix` says.
fn strip_zsh_extended_prefix(l: &Vec<char>) -> (r: Vec<char>)
    ensures
        r@ == strip_zsh_prefix(l@),
{
    if l.len() > 0 && l[0] == ':' {
        let mut k: usize = 1;
        while k < l.len() && l[k] != ';'
            invariant
                1 <= k <= l.len(),
                first_of(l@, ';', k as int) == first_of(l@, ';', 1),
            decreases l.len() - k,
        {
            k = k + 1;
        }
        if k < l.len() {
            let mut r: Vec<char> = Vec::new();
            let mut i = k + 1;
            while i < l.len()
                invariant
                    k + 1 <= i <= l.len(),
                    r@ == l@.subrange(k + 1, i as int),
                decreases l.len() - i,
            {
                r.push(l[i]);
                i = i + 1;
                assert(r@ =~= l@.subrange(k + 1, i as int));
            }
            assert(r@ =~= l@.skip(k + 1));
            return r;
        }
    }
    l.clone()
}

fn fish_prefix_chars() -> (r: Vec<char>)
    ensures
        r@ == fish_prefix(),
{
    vec!['-', ' ', 'c', 'm', 'd', ':', ' ']
}

/// Parses a history file's contents into its commands, oldest first:
/// zsh extended entries lose their timestamp prefix, fish history keeps only
/// its `- cmd: ` lines; each entry is trimmed and empty ones are dropped.
pub fn parse_history(contents: &str, shell: &str) -> (r: Vec<String>)
    ensures
        r@.map_values(|t: String| t@) == history_commands(contents@, shell@),
{
    let c = to_chars(contents);
    let sh = to_chars(shell);
    let ls = lines(&c);
    let ghost lv = ls@.map_values(|l: Vec<char>| l@);
    let is_fish = sh.len() == 4 && sh[0] == 'f' && sh[1] == 'i' && sh[2] == 's' && sh[3] == 'h';
    let is_zsh = sh.len() == 3 && sh[0] == 'z' && sh[1] == 's' && sh[2] == 'h';
    proof {
        if is_fish {
            assert(sh@ =~= seq!['f', 'i', 's', 'h']);
        }
        if is_zsh {
            assert(sh@ =~= seq!['z', 's', 'h']);
        }
    }
    let mut raw: Vec<Vec<char>> = Vec::new();
    let prefix = fish_prefix_chars();
    let mut i: usize = 0;
    while i < ls.len()
        invariant
            i <= ls.len(),
            lv == ls@.map_values(|l: Vec<char>| l@),
            prefix@ == fish_prefix(),
            raw@.map_values(|l: Vec<char>| l@) == (if is_fish {
                fish_commands(lv.take(i as int))
            } else if is_zsh {
                lv.take(i as int).map_values(|l: Seq<char>| strip_zsh_prefix(l))
            } else {
                lv.take(i as int)
            }),
        decreases ls.len() - i,
    {
        let ghost before = raw@.map_values(|l: Vec<char>| l@);
        assert(lv.take(i + 1).drop_last() =~= lv.take(i as int));
        assert(lv[i as int] == ls@[i as int]@);
        if is_fish {
            let l = &ls[i];
            if starts_with(l, &prefix) {
                let mut r: Vec<char> = Vec::new();
                let mut k: usize = 7;
                while k < l.len()
                    invariant
                        7 <= k <= l.len(),
                        r@ == l@.subrange(7, k as int),
                    decreases l.len() - k,
                {
                    r.push(l[k]);
                    k = k + 1;
                    assert(r@ =~= l@.subrange(7, k as int));
                }
                assert(r@ =~= l@.skip(7));
                raw.push(r);
                assert(raw@.map_values(|l: Vec<char>| l@) =~= before.push(l@.skip(7)));
            }
        } else if is_zsh {
            let r = strip_zsh_extended_prefix(&ls[i]);
            raw.push(r);
            assert(raw@.map_values(|l: Vec<char>| l@) =~= before.push(strip_zsh_prefix(lv[i as int])));
            assert(lv.take(i + 1).map_values(|l: Seq<char>| strip_zsh_prefix(l)) =~= lv.take(i as int).map_values(|l: Seq<char>| strip_zsh_prefix(l)).push(strip_zsh_prefix(lv[i as int])));
        } else {
            raw.push(ls[i].clone());
            assert(raw@.map_values(|l: Vec<char>| l@) =~= before.push(lv[i as int]));
        }
        i = i + 1;
    }
    assert(lv.take(i as int) =~= lv);
    let ghost rv = raw@.map_values(|l: Vec<char>| l@);
    assert(rv == raw_entries(contents@, shell@));
    let mut out: Vec<String> = Vec::new();
    let mut j: usize = 0;
    while j < raw.len()
        invariant
            j <= raw.len(),
            rv == raw@.map_values(|l: Vec<char>| l@),
            out@.map_values(|t: String| t@) == cleaned(rv.take(j as int)),
        decreases raw.len() - j,
    {
        let ghost before = out@.map_values(|t: String| t@);
        assert(rv.take(j + 1).drop_last() =~= rv.take(j as int));
        assert(rv[j as int] == raw@[j as int]@);
        let t = trim(&raw[j]);
        if t.len() > 0 {
            let st = crate::text::string_from(&t);
            out.push(st);
            assert(out@.map_values(|t: String| t@) =~= before.push(t@));
        }
        j = j + 1;
    }
    assert(rv.take(j as int) =~= rv);
    out
}

/// Whether `l` starts with `p`.
fn starts_with(l: &Vec<char>, p: &Vec<char>) -> (r: bool)
    ensures
        r == (l@.len() >= p@.len() && l@.take(p@.len() as int) == p@),
{
    if l.len() < p.len() {
        return false;
    }
    let mut k: usize = 0;
    while k < p.len()
        invariant
            k <= p.len() <= l.len(),
            forall|j: int| 0 <= j < k ==> l@[j] == p@[j],
        decreases p.len() - k,
    {
        if l[k] != p[k] {
            assert(l@.take(p@.len() as int)[k as int] != p@[k as int]);
            return false;
        }
        k = k + 1;
    }
    assert(l@.take(p@.len() as int) =~= p@);
    true
}

} // verus!

verus! {

/// The first whitespace-separated word of `s`, if any.
pub open spec fn first_word(s: Seq<char>) -> Option<Seq<char>> {
    let a = skip_ws(s, 0);
    if a >= s.len() {
        None
    } else {
        Some(s.subrange(a, word_end(s, a)))
    }
}

/// The first whitespace index at or after `i` (or `s.len()`).
pub open spec fn word_end(s: Seq<char>, i: int) -> int
    decreases s.len() - i,
{
    if i < 0 || i >= s.len() {
        s.len() as int
    } else if is_ws(s[i]) {
        i
    } else {
        word_end(s, i + 1)
    }
}

/// The index of the last `/` in `w`, or -1.
pub open spec fn last_slash(w: Seq<char>) -> int
    decreases w.len(),
{
    if w.len() == 0 {
        -1
    } else if w.last() == '/' {
        w.len() - 1
    } else {
        last_slash(w.drop_last())
    }
}

/// The final component of a path, as `Path::file_name` gives it: the last
/// `/`-separated segment, ignoring empty and `.` segments; none if that is
/// `..` or there is no such segment.
pub open spec fn file_name(w: Seq<char>) -> Option<Seq<char>>
    decreases w.len(),
{
    if w.len() == 0 {
        None
    } else {
        let k = last_slash(w);
        let seg = w.skip(k + 1);
        if seg.len() == 0 || seg == seq!['.'] {
            if k < 0 {
                None
            } else {
                proof {
                    lemma_last_slash(w);
                }
                file_name(w.take(k))
            }
        } else if seg == seq!['.', '.'] {
            None
        } else {
            Some(seg)
        }
    }
}

pub proof fn lemma_last_slash(w: Seq<char>)
    ensures
        -1 <= last_slash(w) < w.len(),
        last_slash(w) >= 0 ==> w[last_slash(w)] == '/',
        forall|j: int| last_slash(w) < j < w.len() ==> #[trigger] w[j] != '/',
    decreases w.len(),
{
    if w.len() > 0 && w.last() != '/' {
        lemma_last_slash(w.drop_last());
        assert forall|j: int| last_slash(w) < j < w.len() implies #[trigger] w[j] != '/' by {
            if j < w.len() - 1 {
                assert(w.drop_last()[j] == w[j]);
            }
        }
    }
}

pub open spec fn pet_name() -> Seq<char> {
    seq!['p', 'e', 't']
}

/// Whether `command` runs `pet` itself: its first word names a file `pet`.
pub open spec fn runs_pet(command: Seq<char>) -> bool {
    match first_word(command) {
        Some(w) => file_name(w) == Some(pet_name()),
        None => false,
    }
}

/// The final component of the path `w` (see `file_name`).
fn path_file_name(w: &Vec<char>) -> (r: Option<Vec<char>>)
    ensures
        match r {
            Some(v) => file_name(w@) == Some(v@),
            None => file_name(w@) is None,
        },
{
    let mut end = w.len();
    assert(w@.take(end as int) =~= w@);
    loop
        invariant
            end <= w.len(),
            file_name(w@.take(end as int)) == file_name(w@),
        decreases end,
    {
        let ghost t = w@.take(end as int);
        if end == 0 {
            return None;
        }
        let mut k = end;
        assert(t.take(k as int) =~= t);
        while k > 0 && w[k - 1] != '/'
            invariant
                k <= end <= w.len(),
                t == w@.take(end as int),
                last_slash(t) == last_slash(t.take(k as int)),
                forall|j: int| k <= j < end ==> w@[j] != '/',
            decreases k,
        {
            assert(t.take(k as int).drop_last() =~= t.take(k - 1));
            k = k - 1;
        }
        proof {
            lemma_last_slash(t);
            if k > 0 {
                assert(t.take(k as int).last() == '/');
            } else {
                assert(t.take(0) =~= Seq::<char>::empty());
            }
        }
        let seg_len = end - k;
        let is_dot = seg_len == 1 && w[k] == '.';
        let is_dotdot = seg_len == 2 && w[k] == '.' && w[k + 1] == '.';
        let ghost seg = t.skip(k as int);
        assert(seg =~= w@.subrange(k as int, end as int));
        if seg_len == 0 || is_dot {
            if is_dot {
                assert(seg =~= seq!['.']);
            }
            if k == 0 {
                return None;
            }
            assert(t.take(k - 1) =~= w@.take(k - 1));
            end = k - 1;
        } else if is_dotdot {
            assert(seg =~= seq!['.', '.']);
            return None;
        } else {
            proof {
                if seg == seq!['.'] {
                    assert(seg[0] == w@[k as int]);
                }
                if seg == seq!['.', '.'] {
                    assert(seg[0] == w@[k as int] && seg[1] == w@[k + 1]);
                }
            }
            let mut v: Vec<char> = Vec::new();
            let mut i = k;
            while i < end
                invariant
                    k <= i <= end <= w.len(),
                    v@ == w@.subrange(k as int, i as int),
                decreases end - i,
            {
                v.push(w[i]);
                i = i + 1;
                assert(v@ =~= w@.subrange(k as int, i as int));
            }
            return Some(v);
        }
    }
}

/// Whether `command` is itself a `pet` invocation (see `runs_pet`).
pub fn is_pet_invocation(command: &str) -> (r: bool)
    ensures
        r == runs_pet(command@),
{
    let s = to_chars(command);
    proof {
        lemma_skip_ws(s@, 0);
    }
    let mut a: usize = 0;
    while a < s.len() && is_whitespace(s[a])
        invariant
            a <= s.len(),
            skip_ws(s@, a as int) == skip_ws(s@, 0),
        decreases s.len() - a,
    {
        a = a + 1;
    }
    if a >= s.len() {
        return false;
    }
    let mut b = a;
    while b < s.len() && !is_whitespace(s[b])
        invariant
            a <= b <= s.len(),
            word_end(s@, b as int) == word_end(s@, a as int),
        decreases s.len() - b,
    {
        b = b + 1;
    }
    let mut w: Vec<char> = Vec::new();
    let mut i = a;
    while i < b
        invariant
            a <= i <= b <= s.len(),
            w@ == s@.subrange(a as int, i as int),
        decreases b - i,
    {
        w.push(s[i]);
        i = i + 1;
        assert(w@ =~= s@.subrange(a as int, i as int));
    }
    match path_file_name(&w) {
        Some(n) => {
            let r = n.len() == 3 && n[0] == 'p' && n[1] == 'e' && n[2] == 't';
            proof {
                if r {
                    assert(n@ =~= pet_name());
                }
            }
            r
        },
        None => false,
    }
}

/// The last command that is not a `pet` invocation.
pub open spec fn last_other_command(cmds: Seq<Seq<char>>) -> Option<Seq<char>>
    decreases cmds.len(),
{
    if cmds.len() == 0 {
        None
    } else if !runs_pet(cmds.last()) {
        Some(cmds.last())
    } else {
        last_other_command(cmds.drop_last())
    }
}

/// The most recent command that is not itself a `pet` invocation (the
/// running `pet new --last` may already be in the history).
pub fn last_non_pet_command(cmds: &Vec<String>) -> (r: Option<String>)
    ensures
        match r {
            Some(c) => last_other_command(cmds@.map_values(|t: String| t@)) == Some(c@),
            None => last_other_command(cmds@.map_values(|t: String| t@)) is None,
        },
{
    let ghost cv = cmds@.map_values(|t: String| t@);
    let mut k = cmds.len();
    assert(cv.take(k as int) =~= cv);
    while k > 0
        invariant
            k <= cmds.len(),
            cv == cmds@.map_values(|t: String| t@),
            last_other_command(cv.take(k as int)) == last_other_command(cv),
        decreases k,
    {
        assert(cv.take(k as int).last() == cmds@[k - 1]@);
        assert(cv.take(k as int).drop_last() =~= cv.take(k - 1));
        if !is_pet_invocation(cmds[k - 1].as_str()) {
            return Some(cmds[k - 1].clone());
        }
        k = k - 1;
    }
    None
}


/// The most recent command of a history file's `contents` written by `shell`
/// that is not itself a `pet` invocation.
pub fn last_command(contents: &str, shell: &str) -> (r: Option<String>)
    ensures
        match r {
            Some(c) => last_other_command(history_commands(contents@, shell@)) == Some(c@),
            None => last_other_command(history_commands(contents@, shell@)) is None,
        },
{
    let cmds = parse_history(contents, shell);
    last_non_pet_command(&cmds)
}

/// The shell's name: the final component of `$SHELL`, or empty.
pub fn shell_name(shell_env: Option<String>) -> (r: String)
    ensures
        r@ == match shell_env {
            Some(s) => match file_name(s@) {
                Some(n) => n,
                None => seq![],
            },
            None => seq![],
        },
{
    match shell_env {
        Some(s) => match path_file_name(&to_chars(s.as_str())) {
            Some(n) => crate::text::string_from(&n),
            None => String::new(),
        },
        None => String::new(),
    }
}

/// Where the shell history is read from.
pub enum HistoryFile {
    /// `$HISTFILE`, used as it is.
    Given(String),
    /// The shell's usual file in the home directory; it may not exist.
    Default(String),
    /// Neither `$HISTFILE` nor `$HOME` is set.
    NoHome,
}

/// The usual history file of `shell` relative to the home directory.
pub open spec fn default_history(shell: Seq<char>) -> Seq<char> {
    if shell == "zsh"@ {
        ".zsh_history"@
    } else if shell == "fish"@ {
        ".local/share/fish/fish_history"@
    } else {
        ".bash_history"@
    }
}

/// The history file: a non-empty `$HISTFILE`; else, with `$HOME` set, the
/// usual file of `shell` there (see `default_history`).
pub fn history_file(histfile: Option<String>, home: Option<String>, shell: &str) -> (r: HistoryFile)
    ensures
        match histfile {
            Some(h) if h@.len() > 0 => r matches HistoryFile::Given(p) && p@ == h@,
            _ => match home {
                Some(d) => r matches HistoryFile::Default(p) && p@ == crate::path::join_path(d@, default_history(shell@)),
                None => r is NoHome,
            },
        },
{
    match histfile {
        Some(h) => {
            if to_chars(h.as_str()).len() > 0 {
                return HistoryFile::Given(h);
            }
        },
        None => {},
    }
    match home {
        Some(d) => {
            let rel = if crate::text::str_eq(shell, "zsh") {
                ".zsh_history"
            } else if crate::text::str_eq(shell, "fish") {
                ".local/share/fish/fish_history"
            } else {
                ".bash_history"
            };
            HistoryFile::Default(crate::path::join(d.as_str(), rel))
        },
        None => HistoryFile::NoHome,
    }
}


/// Law: the command `pet new --last` takes is not a `pet` invocation, it is
/// in the history, and every command after it is a `pet` invocation; when
/// there is none, every command is one.
pub proof fn law_last_command_skips_pet(cmds: Seq<Seq<char>>)
    ensures
        match last_other_command(cmds) {
            Some(c) => exists|i: int|
                0 <= i < cmds.len() && cmds[i] == c && !runs_pet(c) && forall|j: int| i < j < cmds.len() ==> #[trigger] runs_pet(
                    cmds[j],
                ),
            None => forall|j: int| 0 <= j < cmds.len() ==> #[trigger] runs_pet(cmds[j]),
        },
    decreases cmds.len(),
{
    if cmds.len() > 0 {
        law_last_command_skips_pet(cmds.drop_last());
        if runs_pet(cmds.last()) {
            match last_other_command(cmds.drop_last()) {
                Some(c) => {
                    let i = choose|i: int|
                        0 <= i < cmds.drop_last().len() && cmds.drop_last()[i] == c && !runs_pet(c) && forall|j: int|
                            i < j < cmds.drop_last().len() ==> #[trigger] runs_pet(cmds.drop_last()[j]);
                    assert forall|j: int| i < j < cmds.len() implies #[trigger] runs_pet(cmds[j]) by {
                        if j < cmds.len() - 1 {
                            assert(cmds.drop_last()[j] == cmds[j]);
                        }
                    }
                    assert(cmds[i] == c);
                },
                None => {
                    assert forall|j: int| 0 <= j < cmds.len() implies #[trigger] runs_pet(cmds[j]) by {
                        if j < cmds.len() - 1 {
                            assert(cmds.drop_last()[j] == cmds[j]);
                        }
                    }
                },
            }
        } else {
            assert(cmds[cmds.len() - 1] == cmds.last());
        }
    }
}

/// Law: a zsh extended-history line `: <start>:<duration>;<command>` stands
/// for exactly the text after its first `;`: the command keeps every `;` of
/// its own.
pub proof fn law_zsh_entry_is_text_after_first_semicolon(meta: Seq<char>, command: Seq<char>)
    requires
        forall|j: int| 0 <= j < meta.len() ==> #[trigger] meta[j] != ';',
    ensures
        strip_zsh_prefix(seq![':'] + meta + seq![';'] + command) == command,
{
    let l = seq![':'] + meta + seq![';'] + command;
    let m = meta.len() as int;
    lemma_first_of(l, ';', 1);
    let k = first_of(l, ';', 1);
    assert(l[m + 1] == ';');
    if k < m + 1 {
        assert(l[k] == meta[k - 1]);
    }
    assert(k == m + 1);
    assert(l.skip(k + 1) =~= command);
}

/// Law: a line that does not start with `:` is a zsh history entry as it
/// stands.
pub proof fn law_zsh_plain_line_unchanged(l: Seq<char>)
    requires
        l.len() == 0 || l[0] != ':',
    ensures
        strip_zsh_prefix(l) == l,
{
}

/// Law: each zsh history entry is its line with the extended-history frame
/// removed: for a line `: <start>:<duration>;<command>` the entry is the
/// text after the first `;`, and any other line is its own entry.
pub proof fn law_zsh_entries_follow_lines(contents: Seq<char>, i: int, meta: Seq<char>, command: Seq<char>)
    requires
        0 <= i < lines_of(contents).len(),
    ensures
        raw_entries(contents, seq!['z', 's', 'h']).len() == lines_of(contents).len(),
        (lines_of(contents)[i] == seq![':'] + meta + seq![';'] + command && forall|j: int|
            0 <= j < meta.len() ==> #[trigger] meta[j] != ';') ==> raw_entries(contents, seq!['z', 's', 'h'])[i]
            == command,
        (lines_of(contents)[i].len() == 0 || lines_of(contents)[i][0] != ':') ==> raw_entries(
            contents,
            seq!['z', 's', 'h'],
        )[i] == lines_of(contents)[i],
{
    assert(seq!['z', 's', 'h'] != seq!['f', 'i', 's', 'h']);
    if lines_of(contents)[i] == seq![':'] + meta + seq![';'] + command && forall|j: int|
        0 <= j < meta.len() ==> #[trigger] meta[j] != ';' {
        law_zsh_entry_is_text_after_first_semicolon(meta, command);
    }
}

} // verus!
