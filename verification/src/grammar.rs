//! The placeholder grammar of parameterised commands.
//!
//! A placeholder is `<` followed by a run of characters other than `<`/`>`,
//! then one non-whitespace character, then `>`; the run is taken as long as
//! possible. Placeholders are found left to right without overlapping, the
//! search resuming just past the closing `>` of the previous one. The text
//! between the brackets is `name` or `name=default` (split at the first `=`).
//!
//! A multi-choice default is a list of `|_option_|` segments; each option is
//! the shortest text after `|_` that reaches a `_|` without crossing a line
//! break.
use vstd::prelude::*;

verus! {

pub open spec fn is_angle(c: char) -> bool {
    c == '<' || c == '>'
}

/// The first index at or after `i` holding `<` or `>`, or `s.len()` if none.
pub open spec fn run_end(s: Seq<char>, i: int) -> int
    decreases s.len() - i,
{
    if i < 0 || i >= s.len() {
        s.len() as int
    } else if is_angle(s[i]) {
        i
    } else {
        run_end(s, i + 1)
    }
}

pub proof fn lemma_run_end(s: Seq<char>, i: int)
    requires
        0 <= i <= s.len(),
    ensures
        i <= run_end(s, i) <= s.len(),
        run_end(s, i) < s.len() ==> is_angle(s[run_end(s, i)]),
        forall|k: int| i <= k < run_end(s, i) ==> !is_angle(#[trigger] s[k]),
    decreases s.len() - i,
{
    if i < s.len() && !is_angle(s[i]) {
        lemma_run_end(s, i + 1);
    }
}

/// The placeholder that starts at index `i`, if any, as the range
/// `(start, end)` of the text between its brackets; its `>` stands at `end`.
pub open spec fn placeholder_at(s: Seq<char>, i: int) -> Option<(int, int)> {
    if 0 <= i && i + 1 < s.len() && s[i] == '<' {
        let j = run_end(s, i + 1);
        if j + 1 < s.len() && s[j + 1] == '>' {
            Some((i + 1, j + 1))
        } else if j < s.len() && s[j] == '>' && j > i + 1 && !crate::text::is_ws(s[j - 1]) {
            Some((i + 1, j))
        } else {
            None
        }
    } else {
        None
    }
}

pub proof fn lemma_placeholder_at(s: Seq<char>, i: int)
    requires
        placeholder_at(s, i) is Some,
    ensures
        ({
            let m = placeholder_at(s, i)->0;
            &&& m.0 == i + 1
            &&& i + 1 <= m.0 < m.1 < s.len()
            &&& s[i] == '<'
            &&& s[m.1] == '>'
        }),
{
    lemma_run_end(s, i + 1);
}

/// The placeholders found when searching from index `p` on.
pub open spec fn placeholders_from(s: Seq<char>, p: int) -> Seq<(int, int)>
    decreases s.len() - p,
{
    if p < 0 || p >= s.len() {
        seq![]
    } else {
        match placeholder_at(s, p) {
            Some(m) => {
                proof {
                    lemma_placeholder_at(s, p);
                }
                seq![m] + placeholders_from(s, m.1 + 1)
            },
            None => placeholders_from(s, p + 1),
        }
    }
}

/// Whether `s[i..e)` is, as a whole, one match of the placeholder pattern
/// `<([^<>]*[^\s])>`: `<`, a run of characters other than `<` and `>`, one
/// non-whitespace character, `>`.
pub open spec fn pattern_match(s: Seq<char>, i: int, e: int) -> bool {
    &&& 0 <= i
    &&& i + 3 <= e <= s.len()
    &&& s[i] == '<'
    &&& s[e - 1] == '>'
    &&& forall|k: int| i + 1 <= k < e - 2 ==> !is_angle(#[trigger] s[k])
    &&& !crate::text::is_ws(s[e - 2])
}

/// Law: a placeholder starts at `i` exactly when the pattern matches from
/// `i`, and it is the longest such match (the one the greedy run gives).
pub proof fn law_placeholder_is_longest_match(s: Seq<char>, i: int)
    ensures
        placeholder_at(s, i) matches Some(m) ==> m.0 == i + 1 && pattern_match(s, i, m.1 + 1) && forall|e: int|
            #[trigger] pattern_match(s, i, e) ==> e <= m.1 + 1,
        placeholder_at(s, i) is None ==> forall|e: int| !#[trigger] pattern_match(s, i, e),
{
    if 0 <= i && i + 1 < s.len() && s[i] == '<' {
        let j = run_end(s, i + 1);
        lemma_run_end(s, i + 1);
        assert forall|e: int| #[trigger] pattern_match(s, i, e) implies e - 1 == j || e - 1 == j + 1 by {
            if e - 2 > j {
                assert(j < s.len());
                assert(!is_angle(s[j]));
            }
            if e - 1 < j {
                assert(!is_angle(s[e - 1]));
            }
        }
        if j < s.len() {
            assert(!crate::text::is_ws(s[j])) by {
                vstd::utf8::char_u32_cast(s[j], s[j] as u32);
            }
        }
        match placeholder_at(s, i) {
            Some(m) => {
                assert(forall|k: int| i + 1 <= k < m.1 + 1 - 2 ==> !is_angle(#[trigger] s[k]));
            },
            None => {},
        }
    }
}

/// Law: the placeholders are the pattern's leftmost matches, taken without
/// overlapping: searching from `p`, the first one found starts at the first
/// index from which the pattern matches, is the longest match there, and the
/// search resumes just past its closing `>`; when none is found, the pattern
/// matches from no index at or after `p`.
pub proof fn law_placeholders_are_leftmost_matches(s: Seq<char>, p: int)
    requires
        0 <= p,
    ensures
        ({
            let r = placeholders_from(s, p);
            &&& r.len() > 0 ==> {
                let m = r[0];
                let i = m.0 - 1;
                &&& p <= i
                &&& pattern_match(s, i, m.1 + 1)
                &&& forall|e: int| #[trigger] pattern_match(s, i, e) ==> e <= m.1 + 1
                &&& forall|k: int, e: int| p <= k < i ==> !#[trigger] pattern_match(s, k, e)
                &&& r.skip(1) == placeholders_from(s, m.1 + 1)
            }
            &&& r.len() == 0 ==> forall|k: int, e: int| p <= k ==> !#[trigger] pattern_match(s, k, e)
        }),
    decreases s.len() - p,
{
    let r = placeholders_from(s, p);
    if p >= s.len() {
        assert forall|k: int, e: int| p <= k implies !#[trigger] pattern_match(s, k, e) by {}
    } else {
        law_placeholder_is_longest_match(s, p);
        match placeholder_at(s, p) {
            Some(m) => {
                lemma_placeholder_at(s, p);
                assert(r == seq![m] + placeholders_from(s, m.1 + 1));
                assert(r[0] == m);
                assert(r.skip(1) =~= placeholders_from(s, m.1 + 1));
            },
            None => {
                law_placeholders_are_leftmost_matches(s, p + 1);
                assert(r == placeholders_from(s, p + 1));
                assert forall|k: int, e: int| p <= k < p + 1 implies !#[trigger] pattern_match(s, k, e) by {}
            },
        }
    }
}

/// The first index at or after `i` where `t` holds `c`, or `t.len()`.
pub open spec fn first_of(t: Seq<char>, c: char, i: int) -> int
    decreases t.len() - i,
{
    if i < 0 || i >= t.len() {
        t.len() as int
    } else if t[i] == c {
        i
    } else {
        first_of(t, c, i + 1)
    }
}

pub proof fn lemma_first_of(t: Seq<char>, c: char, i: int)
    requires
        0 <= i <= t.len(),
    ensures
        i <= first_of(t, c, i) <= t.len(),
        first_of(t, c, i) < t.len() ==> t[first_of(t, c, i)] == c,
        forall|k: int| i <= k < first_of(t, c, i) ==> #[trigger] t[k] != c,
    decreases t.len() - i,
{
    if i < t.len() && t[i] != c {
        lemma_first_of(t, c, i + 1);
    }
}

/// The name of a placeholder's text: everything before the first `=`.
pub open spec fn name_of(text: Seq<char>) -> Seq<char> {
    text.take(first_of(text, '=', 0))
}

/// The default of a placeholder's text: everything after the first `=`, if there is one.
pub open spec fn default_of(text: Seq<char>) -> Option<Seq<char>> {
    let k = first_of(text, '=', 0);
    if k < text.len() {
        Some(text.skip(k + 1))
    } else {
        None
    }
}

/// Where `name` stands in `ps`, or `ps.len()`.
pub open spec fn name_pos(ps: Seq<(Seq<char>, Seq<char>)>, name: Seq<char>) -> int
    decreases ps.len(),
{
    if ps.len() == 0 {
        0
    } else if name_pos(ps.drop_last(), name) < ps.len() - 1 {
        name_pos(ps.drop_last(), name)
    } else if ps.last().0 == name {
        ps.len() - 1
    } else {
        ps.len() as int
    }
}

pub proof fn lemma_name_pos(ps: Seq<(Seq<char>, Seq<char>)>, name: Seq<char>)
    ensures
        0 <= name_pos(ps, name) <= ps.len(),
        name_pos(ps, name) < ps.len() ==> ps[name_pos(ps, name)].0 == name,
        forall|k: int| 0 <= k < name_pos(ps, name) ==> #[trigger] ps[k].0 != name,
    decreases ps.len(),
{
    if ps.len() > 0 {
        lemma_name_pos(ps.drop_last(), name);
        assert forall|k: int| 0 <= k < ps.len() - 1 implies ps.drop_last()[k] == ps[k] by {}
    }
}

/// The parameter list after meeting one more placeholder: a new name is
/// appended with its default (empty if it has none); a repeated name keeps
/// its place, and its default changes only if this occurrence gives one.
pub open spec fn with_placeholder(
    ps: Seq<(Seq<char>, Seq<char>)>,
    name: Seq<char>,
    default: Option<Seq<char>>,
) -> Seq<(Seq<char>, Seq<char>)> {
    let k = name_pos(ps, name);
    if k == ps.len() {
        ps.push(
            (
                name,
                match default {
                    Some(d) => d,
                    None => seq![],
                },
            ),
        )
    } else {
        match default {
            Some(d) => ps.update(k, (name, d)),
            None => ps,
        }
    }
}

/// The parameters (name, default) that the placeholders `spans` of `s` declare.
pub open spec fn params_of_spans(s: Seq<char>, spans: Seq<(int, int)>) -> Seq<
    (Seq<char>, Seq<char>),
>
    decreases spans.len(),
{
    if spans.len() == 0 {
        seq![]
    } else {
        let m = spans.last();
        let text = s.subrange(m.0, m.1);
        with_placeholder(params_of_spans(s, spans.drop_last()), name_of(text), default_of(text))
    }
}

/// The parameters of a command, in the order their names first appear.
pub open spec fn command_params(s: Seq<char>) -> Seq<(Seq<char>, Seq<char>)> {
    params_of_spans(s, placeholders_from(s, 0))
}

/// The value a name takes from `values`: empty when it has none.
pub open spec fn value_or_empty(values: Map<Seq<char>, Seq<char>>, name: Seq<char>) -> Seq<char> {
    if values.contains_key(name) {
        values[name]
    } else {
        seq![]
    }
}

/// The text from index `p` on with each placeholder replaced by the value of its name.
pub open spec fn substituted_from(s: Seq<char>, p: int, values: Map<Seq<char>, Seq<char>>) -> Seq<
    char,
>
    decreases s.len() - p,
{
    if p < 0 || p >= s.len() {
        seq![]
    } else {
        match placeholder_at(s, p) {
            Some(m) => {
                proof {
                    lemma_placeholder_at(s, p);
                }
                value_or_empty(values, name_of(s.subrange(m.0, m.1))) + substituted_from(
                    s,
                    m.1 + 1,
                    values,
                )
            },
            None => seq![s[p]] + substituted_from(s, p + 1, values),
        }
    }
}

/// The command with every placeholder replaced by the value of its name.
pub open spec fn substituted(s: Seq<char>, values: Map<Seq<char>, Seq<char>>) -> Seq<char> {
    substituted_from(s, 0, values)
}

/// `s` from index `from` on, with each of the placeholder spans `ms` (each
/// given by the range between its brackets) replaced by the value of its
/// name, and all other text kept as it is.
pub open spec fn spliced(
    s: Seq<char>,
    from: int,
    ms: Seq<(int, int)>,
    values: Map<Seq<char>, Seq<char>>,
) -> Seq<char>
    decreases ms.len(),
{
    if ms.len() == 0 {
        s.subrange(from, s.len() as int)
    } else {
        s.subrange(from, ms[0].0 - 1) + value_or_empty(values, name_of(s.subrange(ms[0].0, ms[0].1)))
            + spliced(s, ms[0].1 + 1, ms.skip(1), values)
    }
}

/// Law: substitution replaces exactly the placeholders found (the pattern's
/// leftmost matches, see `law_placeholders_are_leftmost_matches`), each by
/// the value of its name or nothing, and keeps every other character.
pub proof fn law_substitution_replaces_the_matches(s: Seq<char>, p: int, values: Map<Seq<char>, Seq<char>>)
    requires
        0 <= p <= s.len(),
    ensures
        substituted_from(s, p, values) == spliced(s, p, placeholders_from(s, p), values),
    decreases s.len() - p,
{
    if p < s.len() {
        match placeholder_at(s, p) {
            Some(m) => {
                lemma_placeholder_at(s, p);
                law_substitution_replaces_the_matches(s, m.1 + 1, values);
                let ms = placeholders_from(s, p);
                assert(ms == seq![m] + placeholders_from(s, m.1 + 1));
                assert(ms.skip(1) =~= placeholders_from(s, m.1 + 1));
                assert(s.subrange(p, m.0 - 1) =~= Seq::<char>::empty());
            },
            None => {
                law_substitution_replaces_the_matches(s, p + 1, values);
                law_placeholders_are_leftmost_matches(s, p + 1);
                let ms = placeholders_from(s, p + 1);
                assert(placeholders_from(s, p) == ms);
                if ms.len() == 0 {
                    assert(s.subrange(p, s.len() as int) =~= seq![s[p]] + s.subrange(p + 1, s.len() as int));
                } else {
                    assert(s.subrange(p, ms[0].0 - 1) =~= seq![s[p]] + s.subrange(p + 1, ms[0].0 - 1));
                }
            },
        }
    } else {
        assert(s.subrange(p, s.len() as int) =~= Seq::<char>::empty());
    }
}

/// The index of the `_|` that closes an option whose text starts at `i`:
/// the first one, provided no line break comes before it; `-1` if there is none.
pub open spec fn option_close(t: Seq<char>, i: int) -> int
    decreases t.len() - i,
{
    if i < 0 || i + 1 >= t.len() {
        -1
    } else if t[i] == '_' && t[i + 1] == '|' {
        i
    } else if t[i] == '\n' {
        -1
    } else {
        option_close(t, i + 1)
    }
}

pub proof fn lemma_option_close(t: Seq<char>, i: int)
    requires
        0 <= i,
    ensures
        option_close(t, i) == -1 || (i <= option_close(t, i) && option_close(t, i) + 1 < t.len()
            && t[option_close(t, i)] == '_' && t[option_close(t, i) + 1] == '|'),
    decreases t.len() - i,
{
    if i + 1 < t.len() && !(t[i] == '_' && t[i + 1] == '|') && t[i] != '\n' {
        lemma_option_close(t, i + 1);
    }
}

/// The options of a multi-choice default, searching from index `p` on.
pub open spec fn options_from(t: Seq<char>, p: int) -> Seq<Seq<char>>
    decreases t.len() - p,
{
    if p < 0 || p >= t.len() {
        seq![]
    } else if p + 1 < t.len() && t[p] == '|' && t[p + 1] == '_' && option_close(t, p + 2) >= 0 {
        let k = option_close(t, p + 2);
        proof {
            lemma_option_close(t, p + 2);
        }
        seq![t.subrange(p + 2, k)] + options_from(t, k + 2)
    } else {
        options_from(t, p + 1)
    }
}


/// The name of the placeholder spanning `m` in `s`.
pub open spec fn span_name(s: Seq<char>, m: (int, int)) -> Seq<char> {
    name_of(s.subrange(m.0, m.1))
}

/// Every placeholder's name is among the parameters, and every parameter
/// comes from a placeholder.
pub proof fn lemma_params_cover_spans(s: Seq<char>, spans: Seq<(int, int)>)
    ensures
        forall|j: int| 0 <= j < spans.len() ==> name_pos(params_of_spans(s, spans), #[trigger] span_name(s, spans[j]))
            < params_of_spans(s, spans).len(),
        forall|i: int| 0 <= i < params_of_spans(s, spans).len() ==> exists|j: int|
            0 <= j < spans.len() && (#[trigger] params_of_spans(s, spans)[i]).0 == span_name(s, spans[j]),
    decreases spans.len(),
{
    if spans.len() > 0 {
        let prev = spans.drop_last();
        lemma_params_cover_spans(s, prev);
        let ps = params_of_spans(s, prev);
        let m = spans.last();
        let n = span_name(s, m);
        let text = s.subrange(m.0, m.1);
        let ps2 = params_of_spans(s, spans);
        assert(ps2 == with_placeholder(ps, name_of(text), default_of(text)));
        lemma_name_pos(ps, n);
        let k = name_pos(ps, n);
        // Names never change: a repeated name only gets a new default.
        assert forall|i: int| 0 <= i < ps.len() implies (#[trigger] ps2[i]).0 == ps[i].0 by {
            if k < ps.len() && i == k {
                assert(ps[k].0 == n);
            }
        }
        assert(ps2.len() >= ps.len());
        assert(k < ps2.len() && ps2[k].0 == n);
        assert forall|j: int| 0 <= j < spans.len() implies name_pos(ps2, #[trigger] span_name(s, spans[j])) < ps2.len() by {
            let nj = span_name(s, spans[j]);
            lemma_name_pos(ps2, nj);
            if j < spans.len() - 1 {
                assert(prev[j] == spans[j]);
                let pj = name_pos(ps, nj);
                lemma_name_pos(ps, nj);
                assert(ps2[pj].0 == nj);
                if name_pos(ps2, nj) >= ps2.len() {
                    assert(ps2[pj].0 != nj);
                }
            } else {
                if name_pos(ps2, nj) >= ps2.len() {
                    assert(ps2[k].0 != nj);
                }
            }
        }
        assert forall|i: int| 0 <= i < ps2.len() implies exists|j: int|
            0 <= j < spans.len() && (#[trigger] ps2[i]).0 == span_name(s, spans[j]) by {
            if i < ps.len() {
                let j = choose|j: int| 0 <= j < prev.len() && ps[i].0 == span_name(s, prev[j]);
                assert(prev[j] == spans[j]);
                assert(ps2[i].0 == span_name(s, spans[j]));
            } else {
                assert(ps2[i].0 == n);
                assert(span_name(s, spans[spans.len() - 1]) == n);
            }
        }
    }
}

} // verus!
