//! The built-in fuzzy picker's state: the query being typed, the items that
//! match it (best first), which one has focus and which are toggled.
use vstd::prelude::*;
use fuzzy_matcher::FuzzyMatcher;
use fuzzy_matcher::skim::SkimMatcherV2;
use crate::keys::{KeyCode, KeyModifiers};
use crate::text::{push_range, string_of, to_chars};

verus! {

/// A name for what `SkimMatcherV2::default().fuzzy_indices(choice, pattern)`
/// returns: the match score and the matched character positions, or `None`
/// if `pattern` does not fuzzy-match `choice`. It depends on the two texts alone.
pub uninterp spec fn skim_match(choice: Seq<char>, pattern: Seq<char>) -> Option<(i64, Seq<usize>)>;

/// `SkimMatcherV2::default().fuzzy_indices(choice, pattern)`.
#[verifier::external_body]
fn skim_fuzzy_indices(choice: &str, pattern: &str) -> (r: Option<(i64, Vec<usize>)>)
    ensures
        match r {
            Some(m) => skim_match(choice@, pattern@) == Some((m.0, m.1@)),
            None => skim_match(choice@, pattern@) is None,
        },
{
    SkimMatcherV2::default().fuzzy_indices(choice, pattern)
}

/// One item that matches the query: its index in the item list, and the
/// character positions the query matched (empty when the query is empty).
#[derive(Debug, Clone)]
pub struct Match {
    pub index: usize,
    pub positions: Vec<usize>,
}

pub struct MatchView {
    pub index: int,
    pub positions: Seq<usize>,
}

impl View for Match {
    type V = MatchView;

    open spec fn view(&self) -> MatchView {
        MatchView { index: self.index as int, positions: self.positions@ }
    }
}

/// A scored match: score, item index, matched positions.
pub struct Scored {
    pub score: i64,
    pub index: int,
    pub positions: Seq<usize>,
}

/// The items among the first `k` that match `query`, with their scores, in item order.
pub open spec fn scored_matches(items: Seq<Seq<char>>, query: Seq<char>, k: int) -> Seq<Scored>
    decreases k,
{
    if k <= 0 {
        seq![]
    } else {
        let rest = scored_matches(items, query, k - 1);
        match skim_match(items[k - 1], query) {
            Some(m) => rest.push(Scored { score: m.0, index: k - 1, positions: m.1 }),
            None => rest,
        }
    }
}

/// `s` with `x` inserted after every entry scoring at least as high.
pub open spec fn insert_by_score(s: Seq<Scored>, x: Scored) -> Seq<Scored>
    decreases s.len(),
{
    if s.len() == 0 {
        seq![x]
    } else if s.last().score < x.score {
        insert_by_score(s.drop_last(), x).push(s.last())
    } else {
        s.push(x)
    }
}

/// The scored matches, highest score first; equal scores keep item order.
pub open spec fn by_score(s: Seq<Scored>) -> Seq<Scored>
    decreases s.len(),
{
    if s.len() == 0 {
        seq![]
    } else {
        insert_by_score(by_score(s.drop_last()), s.last())
    }
}

/// The items that match `query`, best first (ties in item order); with an
/// empty query every item, in order, with no positions.
pub open spec fn match_list(items: Seq<Seq<char>>, query: Seq<char>) -> Seq<MatchView> {
    if query.len() == 0 {
        Seq::new(items.len(), |i: int| MatchView { index: i, positions: seq![] })
    } else {
        by_score(scored_matches(items, query, items.len() as int)).map_values(
            |s: Scored| MatchView { index: s.index, positions: s.positions },
        )
    }
}

pub open spec fn scored_view(s: (i64, usize, Vec<usize>)) -> Scored {
    Scored { score: s.0, index: s.1 as int, positions: s.2@ }
}

proof fn lemma_insert_by_score_split(s: Seq<Scored>, x: Scored, j: int)
    requires
        0 <= j <= s.len(),
        forall|i: int| j <= i < s.len() ==> (#[trigger] s[i]).score < x.score,
        j == 0 || s[j - 1].score >= x.score,
    ensures
        insert_by_score(s, x) == s.take(j).push(x) + s.skip(j),
    decreases s.len(),
{
    if j == s.len() {
        assert(s.take(j) =~= s);
        assert(s.take(j).push(x) + s.skip(j) =~= s.push(x));
    } else {
        let d = s.drop_last();
        assert forall|i: int| j <= i < d.len() implies (#[trigger] d[i]).score < x.score by {
            assert(d[i] == s[i]);
        }
        if j > 0 {
            assert(d[j - 1] == s[j - 1]);
        }
        lemma_insert_by_score_split(d, x, j);
        assert(d.take(j) =~= s.take(j));
        assert(d.skip(j).push(s.last()) =~= s.skip(j));
    }
}

/// The items that match `query` (see `match_list`).
pub fn compute_matches(items: &Vec<String>, query: &str) -> (r: Vec<Match>)
    ensures
        r@.map_values(|m: Match| m@) == match_list(items@.map_values(|t: String| t@), query@),
{
    let ghost iv = items@.map_values(|t: String| t@);
    let q = to_chars(query);
    if q.len() == 0 {
        let mut r: Vec<Match> = Vec::new();
        let mut i: usize = 0;
        while i < items.len()
            invariant
                i <= items.len(),
                r@.map_values(|m: Match| m@) == Seq::new(i as nat, |k: int| MatchView { index: k, positions: seq![] }),
            decreases items.len() - i,
        {
            let ghost before = r@.map_values(|m: Match| m@);
            let m = Match { index: i, positions: Vec::new() };
            assert(m@ == MatchView { index: i as int, positions: seq![] });
            r.push(m);
            assert(r@.map_values(|m: Match| m@) =~= before.push(m@));
            i = i + 1;
            assert(r@.map_values(|m: Match| m@) =~= Seq::new(i as nat, |k: int| MatchView { index: k, positions: seq![] }));
        }
        assert(iv.len() == items.len());
        return r;
    }
    let mut sorted: Vec<(i64, usize, Vec<usize>)> = Vec::new();
    let mut i: usize = 0;
    while i < items.len()
        invariant
            i <= items.len(),
            q@ == query@,
            q@.len() > 0,
            iv == items@.map_values(|t: String| t@),
            sorted@.map_values(|s: (i64, usize, Vec<usize>)| scored_view(s)) == by_score(scored_matches(iv, query@, i as int)),
        decreases items.len() - i,
    {
        assert(iv[i as int] == items@[i as int]@);
        let ghost rest = scored_matches(iv, query@, i as int);
        match skim_fuzzy_indices(items[i].as_str(), query) {
            Some((score, positions)) => {
                let ghost sv = sorted@.map_values(|s: (i64, usize, Vec<usize>)| scored_view(s));
                let ghost x = Scored { score, index: i as int, positions: positions@ };
                let mut j = sorted.len();
                while j > 0 && sorted[j - 1].0 < score
                    invariant
                        j <= sorted.len(),
                        sv == sorted@.map_values(|s: (i64, usize, Vec<usize>)| scored_view(s)),
                        forall|k: int| j <= k < sv.len() ==> (#[trigger] sv[k]).score < score,
                    decreases j,
                {
                    assert(sv[j - 1] == scored_view(sorted@[j - 1]));
                    j = j - 1;
                }
                if j > 0 {
                    assert(sv[j - 1] == scored_view(sorted@[j - 1]));
                }
                proof {
                    lemma_insert_by_score_split(sv, x, j as int);
                }
                sorted.insert(j, (score, i, positions));
                assert(sorted@.map_values(|s: (i64, usize, Vec<usize>)| scored_view(s)) =~= sv.take(j as int).push(x) + sv.skip(j as int));
                assert(scored_matches(iv, query@, i + 1) == rest.push(x));
                assert(rest.push(x).drop_last() =~= rest);
            },
            None => {},
        }
        i = i + 1;
    }
    let mut r: Vec<Match> = Vec::new();
    let ghost sv = sorted@.map_values(|s: (i64, usize, Vec<usize>)| scored_view(s));
    let ghost target = sv.map_values(|s: Scored| MatchView { index: s.index, positions: s.positions });
    while sorted.len() > 0
        invariant
            sv.len() == r.len() + sorted.len(),
            sorted@.map_values(|s: (i64, usize, Vec<usize>)| scored_view(s)) == sv.skip(r.len() as int),
            r@.map_values(|m: Match| m@) == target.take(r.len() as int),
            target == sv.map_values(|s: Scored| MatchView { index: s.index, positions: s.positions }),
        decreases sorted.len(),
    {
        let ghost before = sorted@;
        assert(before.map_values(|s: (i64, usize, Vec<usize>)| scored_view(s))[0] == scored_view(before[0]));
        assert(sv.skip(r.len() as int)[0] == sv[r.len() as int]);
        let (_, index, positions) = sorted.remove(0);
        assert(sorted@ =~= before.remove(0));
        assert(scored_view(before[0]) == sv[r.len() as int]);
        assert(sorted@.map_values(|s: (i64, usize, Vec<usize>)| scored_view(s)) =~= before.map_values(|s: (i64, usize, Vec<usize>)| scored_view(s)).skip(1));
        assert(sv.skip(r.len() as int).skip(1) =~= sv.skip(r.len() + 1));
        assert(sorted@.map_values(|s: (i64, usize, Vec<usize>)| scored_view(s)) =~= sv.skip(r.len() + 1));
        let ghost rv = r@.map_values(|m: Match| m@);
        r.push(Match { index, positions });
        assert(r@.map_values(|m: Match| m@) =~= rv.push(target[rv.len() as int]));
        assert(target.take(r.len() as int) =~= target.take(rv.len() as int).push(target[rv.len() as int]));
    }
    assert(target.take(r.len() as int) =~= target);
    r
}

} // verus!

verus! {

/// `s` (strictly increasing) with `x` added if absent, removed if present.
pub open spec fn toggle(s: Seq<usize>, x: usize) -> Seq<usize>
    decreases s.len(),
{
    if s.len() == 0 {
        seq![x]
    } else if s.last() == x {
        s.drop_last()
    } else if s.last() > x {
        toggle(s.drop_last(), x).push(s.last())
    } else {
        s.push(x)
    }
}

pub open spec fn increasing(s: Seq<usize>) -> bool {
    forall|i: int, j: int| 0 <= i < j < s.len() ==> s[i] < s[j]
}

pub struct PickerView {
    pub items: Seq<Seq<char>>,
    pub query: Seq<char>,
    pub cursor: nat,
    pub matches: Seq<MatchView>,
    pub focus: nat,
    pub selected: Seq<usize>,
}

pub enum PickStepView {
    Continue(PickerView),
    Done(Seq<usize>),
    Cancelled,
}

/// The picker: the items, the query being typed (cursor in characters), the
/// items that match it, which match has focus, and the toggled items (item
/// indices, in increasing order).
#[derive(Debug, Clone)]
pub struct PickerState {
    pub items: Vec<String>,
    pub query: String,
    pub cursor: usize,
    pub matches: Vec<Match>,
    pub focus: usize,
    pub selected: Vec<usize>,
}

impl View for PickerState {
    type V = PickerView;

    open spec fn view(&self) -> PickerView {
        PickerView {
            items: self.items@.map_values(|t: String| t@),
            query: self.query@,
            cursor: self.cursor as nat,
            matches: self.matches@.map_values(|m: Match| m@),
            focus: self.focus as nat,
            selected: self.selected@,
        }
    }
}

/// What a key press leads to in the picker.
pub enum PickStep {
    Continue(PickerState),
    Done(Vec<usize>),
    Cancelled,
}

impl View for PickStep {
    type V = PickStepView;

    open spec fn view(&self) -> PickStepView {
        match self {
            PickStep::Continue(s) => PickStepView::Continue(s@),
            PickStep::Done(v) => PickStepView::Done(v@),
            PickStep::Cancelled => PickStepView::Cancelled,
        }
    }
}

/// The cursor is within the query, the matches are those of the query, focus
/// is on a match (if any), and the toggled items are listed in increasing order.
pub open spec fn picker_wf(p: PickerView) -> bool {
    &&& p.cursor <= p.query.len()
    &&& p.matches == match_list(p.items, p.query)
    &&& (p.matches.len() == 0 || p.focus < p.matches.len())
    &&& increasing(p.selected)
}

/// Focus moved by `delta` rows, wrapping at either end; unchanged without matches.
pub open spec fn moved(p: PickerView, delta: int) -> PickerView {
    if p.matches.len() == 0 {
        p
    } else {
        PickerView { focus: ((p.focus + delta) % (p.matches.len() as int)) as nat, ..p }
    }
}

/// What Enter picks: every toggled item if any, else the focused one (nothing if no match).
pub open spec fn confirmed(p: PickerView) -> Seq<usize> {
    if p.selected.len() > 0 {
        p.selected
    } else if p.focus < p.matches.len() {
        seq![p.matches[p.focus as int].index as usize]
    } else {
        seq![]
    }
}

/// The picker's response to a key: Esc or Ctrl-C cancel; Enter picks (see
/// `confirmed`); Tab toggles the focused item and moves down; Up/Down move
/// focus, wrapping; Left/Right move the query cursor; editing the query
/// recomputes the matches and puts focus back on the first.
pub open spec fn picker_step(p: PickerView, code: KeyCode, modifiers: KeyModifiers) -> PickStepView {
    if crate::keys::is_cancel(code, modifiers) {
        PickStepView::Cancelled
    } else if code == KeyCode::Enter {
        PickStepView::Done(confirmed(p))
    } else if code == KeyCode::Tab {
        let toggled = if p.focus < p.matches.len() {
            PickerView { selected: toggle(p.selected, p.matches[p.focus as int].index as usize), ..p }
        } else {
            p
        };
        PickStepView::Continue(moved(toggled, 1))
    } else if code == KeyCode::Up {
        PickStepView::Continue(moved(p, -1))
    } else if code == KeyCode::Down {
        PickStepView::Continue(moved(p, 1))
    } else {
        let t = crate::dialog::text_after_key(p.query, p.cursor, code);
        let edited = match code {
            KeyCode::Char(_) => true,
            KeyCode::Backspace => p.cursor > 0,
            KeyCode::Delete => p.cursor < p.query.len(),
            _ => false,
        };
        if edited {
            PickStepView::Continue(
                PickerView { query: t.0, cursor: t.1, matches: match_list(p.items, t.0), focus: 0, ..p },
            )
        } else {
            PickStepView::Continue(PickerView { cursor: t.1, ..p })
        }
    }
}

proof fn lemma_toggle_split(s: Seq<usize>, x: usize, j: int)
    requires
        0 <= j <= s.len(),
        forall|i: int| j <= i < s.len() ==> #[trigger] s[i] > x,
        j == 0 || s[j - 1] <= x,
    ensures
        toggle(s, x) == (if j > 0 && s[j - 1] == x {
            s.remove(j - 1)
        } else {
            s.insert(j, x)
        }),
    decreases s.len(),
{
    if j == s.len() {
        if s.len() > 0 && s.last() == x {
            assert(s.remove(j - 1) =~= s.drop_last());
        } else {
            assert(s.insert(j, x) =~= s.push(x));
        }
    } else {
        let d = s.drop_last();
        assert forall|i: int| j <= i < d.len() implies #[trigger] d[i] > x by {
            assert(d[i] == s[i]);
        }
        if j > 0 {
            assert(d[j - 1] == s[j - 1]);
        }
        lemma_toggle_split(d, x, j);
        if j > 0 && s[j - 1] == x {
            assert(d.remove(j - 1).push(s.last()) =~= s.remove(j - 1));
        } else {
            assert(d.insert(j, x).push(s.last()) =~= s.insert(j, x));
        }
    }
}

impl PickerState {
    /// The picker over `items`, with `initial_query` typed and the cursor after it.
    pub fn new(items: Vec<String>, initial_query: &str) -> (r: PickerState)
        ensures
            r@.items == items@.map_values(|t: String| t@),
            r@.query == initial_query@,
            r@.cursor == initial_query@.len(),
            r@.focus == 0,
            r@.selected == Seq::<usize>::empty(),
            picker_wf(r@),
    {
        let query = crate::text::string_from(&to_chars(initial_query));
        let matches = compute_matches(&items, query.as_str());
        let cursor = to_chars(query.as_str()).len();
        PickerState { items, query, cursor, matches, focus: 0, selected: Vec::new() }
    }

    /// Recomputes the matches of the current query, focus back on the first.
    fn refilter(&mut self)
        ensures
            final(self)@ == (PickerView {
                matches: match_list(old(self)@.items, old(self)@.query),
                focus: 0,
                ..old(self)@
            }),
    {
        self.matches = compute_matches(&self.items, self.query.as_str());
        self.focus = 0;
    }

    /// Moves focus one row down (`forward`) or up, wrapping at either end.
    fn move_focus(&mut self, forward: bool)
        requires
            picker_wf(old(self)@),
        ensures
            final(self)@ == moved(old(self)@, if forward {
                1
            } else {
                -1
            }),
    {
        let n = self.matches.len();
        if n == 0 {
            return ;
        }
        let ghost f = self.focus as int;
        if forward {
            if self.focus + 1 == n {
                proof {
                    vstd::arithmetic::div_mod::lemma_mod_self_0(n as int);
                }
                self.focus = 0;
            } else {
                proof {
                    vstd::arithmetic::div_mod::lemma_small_mod((f + 1) as nat, n as nat);
                }
                self.focus = self.focus + 1;
            }
        } else {
            if self.focus == 0 {
                proof {
                    vstd::arithmetic::div_mod::lemma_mod_add_multiples_vanish(-1, n as int);
                    vstd::arithmetic::div_mod::lemma_small_mod((n - 1) as nat, n as nat);
                }
                self.focus = n - 1;
            } else {
                proof {
                    vstd::arithmetic::div_mod::lemma_small_mod((f - 1) as nat, n as nat);
                }
                self.focus = self.focus - 1;
            }
        }
    }

    /// Toggles the focused item in the selection (nothing if no match has focus).
    fn toggle_focused(&mut self)
        requires
            picker_wf(old(self)@),
        ensures
            final(self)@ == (if old(self)@.focus < old(self)@.matches.len() {
                PickerView {
                    selected: toggle(old(self)@.selected, old(self)@.matches[old(self)@.focus as int].index as usize),
                    ..old(self)@
                }
            } else {
                old(self)@
            }),
            increasing(final(self)@.selected),
    {
        if self.focus < self.matches.len() {
            let x = self.matches[self.focus].index;
            assert(self@.matches[self.focus as int].index == x);
            let mut j = self.selected.len();
            while j > 0 && self.selected[j - 1] > x
                invariant
                    j <= self.selected.len(),
                    forall|i: int| j <= i < self.selected.len() ==> #[trigger] self.selected@[i] > x,
                decreases j,
            {
                j = j - 1;
            }
            let ghost s = self.selected@;
            proof {
                lemma_toggle_split(s, x, j as int);
            }
            if j > 0 && self.selected[j - 1] == x {
                self.selected.remove(j - 1);
                assert(increasing(self.selected@)) by {
                    assert forall|a: int, b: int| 0 <= a < b < self.selected@.len() implies self.selected@[a] < self.selected@[b] by {
                        assert(self.selected@[a] == s[if a < j - 1 { a } else { a + 1 }]);
                        assert(self.selected@[b] == s[if b < j - 1 { b } else { b + 1 }]);
                    }
                }
            } else {
                self.selected.insert(j, x);
                assert(increasing(self.selected@)) by {
                    assert forall|a: int, b: int| 0 <= a < b < self.selected@.len() implies self.selected@[a] < self.selected@[b] by {
                        if a < j && b > j {
                            assert(s[a] <= s[j - 1]);
                        }
                    }
                }
            }
        }
    }

    /// What Enter picks (see `confirmed`).
    fn confirm(&self) -> (r: Vec<usize>)
        ensures
            r@ == confirmed(self@),
    {
        if self.selected.len() == 0 {
            if self.focus < self.matches.len() {
                assert(self@.matches[self.focus as int] == self.matches@[self.focus as int]@);
                let r = vec![self.matches[self.focus].index];
                r
            } else {
                Vec::new()
            }
        } else {
            self.selected.clone()
        }
    }
}

/// The picker's response to a key press (see `picker_step`).
pub fn handle_key(state: PickerState, code: KeyCode, modifiers: KeyModifiers) -> (r: PickStep)
    requires
        picker_wf(state@),
        (code is Char && !crate::keys::is_cancel(code, modifiers)) ==> state@.cursor < usize::MAX,
    ensures
        r@ == picker_step(state@, code, modifiers),
        r matches PickStep::Continue(s) ==> picker_wf(s@),
{
    let mut state = state;
    if code == KeyCode::Esc || (code == KeyCode::Char('c') && modifiers.control) {
        return PickStep::Cancelled;
    }
    if code == KeyCode::Enter {
        return PickStep::Done(state.confirm());
    }
    if code == KeyCode::Tab {
        state.toggle_focused();
        state.move_focus(true);
        return PickStep::Continue(state);
    }
    if code == KeyCode::Up {
        state.move_focus(false);
        return PickStep::Continue(state);
    }
    if code == KeyCode::Down {
        state.move_focus(true);
        return PickStep::Continue(state);
    }
    let ghost p = state@;
    let n = to_chars(state.query.as_str()).len();
    let edited = match code {
        KeyCode::Char(_) => true,
        KeyCode::Backspace => state.cursor > 0,
        KeyCode::Delete => state.cursor < n,
        _ => false,
    };
    let (q, c) = crate::dialog::edit_text(&state.query, state.cursor, code);
    state.query = q;
    state.cursor = c;
    if edited {
        state.refilter();
    } else {
        assert(state@.query == p.query);
    }
    PickStep::Continue(state)
}

} // verus!

verus! {

/// Toggling the same item twice leaves the selection as it was.
pub proof fn law_toggle_twice_restores(s: Seq<usize>, x: usize)
    requires
        increasing(s),
    ensures
        toggle(toggle(s, x), x) == s,
    decreases s.len(),
{
    if s.len() == 0 {
        assert(seq![x].drop_last() =~= s);
    } else if s.last() == x {
        let d = s.drop_last();
        if d.len() > 0 {
            assert(d.last() == s[s.len() - 2]);
        }
        assert(d.push(x) =~= s);
    } else if s.last() > x {
        let d = s.drop_last();
        assert(increasing(d)) by {
            assert forall|i: int, j: int| 0 <= i < j < d.len() implies d[i] < d[j] by {
                assert(d[i] == s[i] && d[j] == s[j]);
            }
        }
        law_toggle_twice_restores(d, x);
        let t = toggle(d, x).push(s.last());
        assert(t.drop_last() =~= toggle(d, x));
        assert(d.push(s.last()) =~= s);
    } else {
        assert(s.push(x).drop_last() =~= s);
    }
}

/// Moving focus down and then up comes back to the same match.
pub proof fn law_down_then_up_returns(p: PickerView)
    requires
        picker_wf(p),
    ensures
        moved(moved(p, 1), -1) == p,
{
    let n = p.matches.len();
    if n > 0 {
        if p.focus + 1 == n {
            vstd::arithmetic::div_mod::lemma_mod_self_0(n as int);
            vstd::arithmetic::div_mod::lemma_mod_add_multiples_vanish(-1, n as int);
            vstd::arithmetic::div_mod::lemma_small_mod((n - 1) as nat, n as nat);
        } else {
            vstd::arithmetic::div_mod::lemma_small_mod((p.focus + 1) as nat, n as nat);
            vstd::arithmetic::div_mod::lemma_small_mod(p.focus, n as nat);
        }
    }
}

/// What Enter picks is in increasing order: the toggled items are kept sorted.
pub proof fn law_confirmed_increasing(p: PickerView)
    requires
        picker_wf(p),
    ensures
        increasing(confirmed(p)),
{
}

} // verus!
