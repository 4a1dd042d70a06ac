//! Parameters of a command: extracting its placeholders, filling them in, and
//! the state of the form in which the user edits their values.
use vstd::prelude::*;
use crate::grammar::{
    command_params, default_of, first_of, lemma_first_of, lemma_name_pos, lemma_option_close,
    lemma_placeholder_at, lemma_run_end, name_of, name_pos, option_close, options_from,
    params_of_spans, placeholder_at, placeholders_from, run_end, substituted, substituted_from,
    with_placeholder,
};
use crate::text::{to_chars, string_of, push_range, str_eq};
use crate::keys::{KeyCode, KeyModifiers};

verus! {

/// One placeholder name of a command and its raw default text (empty if none).
#[derive(Debug, Clone, PartialEq, Eq)]
pub struct Param {
    pub name: String,
    pub default: String,
}

/// The (name, default) pairs of a list of parameters.
pub open spec fn param_views(ps: Seq<Param>) -> Seq<(Seq<char>, Seq<char>)> {
    ps.map_values(|p: Param| (p.name@, p.default@))
}

/// The meaning of a list of (name, value) entries: later entries override earlier ones.
pub open spec fn entries_map(e: Seq<(String, String)>) -> Map<Seq<char>, Seq<char>>
    decreases e.len(),
{
    if e.len() == 0 {
        Map::empty()
    } else {
        entries_map(e.drop_last()).insert(e.last().0@, e.last().1@)
    }
}

/// Values chosen for parameters, by name.
#[derive(Debug, Clone)]
pub struct ParamValues {
    entries: Vec<(String, String)>,
}

impl View for ParamValues {
    type V = Map<Seq<char>, Seq<char>>;

    closed spec fn view(&self) -> Map<Seq<char>, Seq<char>> {
        entries_map(self.entries@)
    }
}

impl ParamValues {
    /// No values at all.
    pub fn new() -> (r: ParamValues)
        ensures
            r@ == Map::<Seq<char>, Seq<char>>::empty(),
    {
        ParamValues { entries: Vec::new() }
    }

    /// Sets the value of `name`, replacing any earlier one.
    pub fn insert(&mut self, name: String, value: String)
        ensures
            final(self)@ == old(self)@.insert(name@, value@),
    {
        let ghost e0 = self.entries@;
        self.entries.push((name, value));
        assert(self.entries@.drop_last() =~= e0);
    }

    /// The value of `name`, if it has one.
    pub fn get(&self, name: &str) -> (r: Option<&String>)
        ensures
            match r {
                Some(v) => self@.contains_key(name@) && v@ == self@[name@],
                None => !self@.contains_key(name@),
            },
    {
        let mut i = self.entries.len();
        assert(self.entries@.take(i as int) =~= self.entries@);
        while i > 0
            invariant
                i <= self.entries.len(),
                entries_map(self.entries@).contains_key(name@) == entries_map(
                    self.entries@.take(i as int),
                ).contains_key(name@),
                entries_map(self.entries@).contains_key(name@) ==> entries_map(self.entries@)[name@]
                    == entries_map(self.entries@.take(i as int))[name@],
            decreases i,
        {
            let ghost t = self.entries@.take(i as int);
            assert(t.drop_last() =~= self.entries@.take(i - 1));
            if str_eq(self.entries[i - 1].0.as_str(), name) {
                return Some(&self.entries[i - 1].1);
            }
            i = i - 1;
        }
        assert(self.entries@.take(0) =~= Seq::<(String, String)>::empty());
        None
    }
}

/// The index of the first `<` or `>` at or after `i`, or `s.len()`.
fn find_run_end(s: &Vec<char>, i: usize) -> (j: usize)
    requires
        i <= s.len(),
    ensures
        j == run_end(s@, i as int),
{
    let mut j = i;
    while j < s.len() && s[j] != '<' && s[j] != '>'
        invariant
            i <= j <= s.len(),
            run_end(s@, j as int) == run_end(s@, i as int),
        decreases s.len() - j,
    {
        j = j + 1;
    }
    j
}

/// The placeholder starting at `i`, if any (see `placeholder_at`).
fn find_placeholder(s: &Vec<char>, i: usize) -> (r: Option<(usize, usize)>)
    requires
        i < s.len(),
    ensures
        match r {
            Some(m) => placeholder_at(s@, i as int) == Some((m.0 as int, m.1 as int)),
            None => placeholder_at(s@, i as int) is None,
        },
{
    if i + 1 < s.len() && s[i] == '<' {
        let j = find_run_end(s, i + 1);
        proof {
            lemma_run_end(s@, i + 1);
        }
        if s.len() - j > 1 && s[j + 1] == '>' {
            Some((i + 1, j + 1))
        } else if j < s.len() && s[j] == '>' && j > i + 1 && !crate::text::is_whitespace(s[j - 1]) {
            Some((i + 1, j))
        } else {
            None
        }
    } else {
        None
    }
}

/// The index of the first `=` in `s[lo..hi]`, or `hi`.
fn find_eq(s: &Vec<char>, lo: usize, hi: usize) -> (k: usize)
    requires
        lo <= hi <= s.len(),
    ensures
        k == lo + first_of(s@.subrange(lo as int, hi as int), '=', 0),
{
    let ghost t = s@.subrange(lo as int, hi as int);
    let mut k = lo;
    while k < hi && s[k] != '='
        invariant
            lo <= k <= hi <= s.len(),
            t == s@.subrange(lo as int, hi as int),
            first_of(t, '=', (k - lo) as int) == first_of(t, '=', 0),
        decreases hi - k,
    {
        assert(t[(k - lo) as int] == s@[k as int]);
        k = k + 1;
    }
    if k < hi {
        assert(t[(k - lo) as int] == s@[k as int]);
    }
    k
}

/// Splits the placeholder text `s[lo..hi]` into its name and optional default.
fn split_text(s: &Vec<char>, lo: usize, hi: usize) -> (r: (String, Option<String>))
    requires
        lo <= hi <= s.len(),
    ensures
        r.0@ == name_of(s@.subrange(lo as int, hi as int)),
        match r.1 {
            Some(d) => default_of(s@.subrange(lo as int, hi as int)) == Some(d@),
            None => default_of(s@.subrange(lo as int, hi as int)) is None,
        },
{
    let ghost t = s@.subrange(lo as int, hi as int);
    let k = find_eq(s, lo, hi);
    proof {
        lemma_first_of(t, '=', 0);
    }
    let name = string_of(s, lo, k);
    assert(name@ =~= t.take(k - lo));
    if k < hi {
        let d = string_of(s, k + 1, hi);
        assert(d@ =~= t.skip(k - lo + 1));
        (name, Some(d))
    } else {
        (name, None)
    }
}

/// Records one more placeholder occurrence in the parameter list (see `with_placeholder`).
fn add_param(ps: &mut Vec<Param>, name: String, default: Option<String>)
    ensures
        param_views(final(ps)@) == with_placeholder(
            param_views(old(ps)@),
            name@,
            match default {
                Some(d) => Some(d@),
                None => None,
            },
        ),
{
    let ghost pv = param_views(ps@);
    proof {
        lemma_name_pos(pv, name@);
    }
    let mut k: usize = 0;
    while k < ps.len() && ps[k].name != name
        invariant
            0 <= k <= ps.len(),
            pv == param_views(ps@),
            pv.len() == ps.len(),
            forall|j: int| 0 <= j < k ==> (#[trigger] pv[j]).0 != name@,
            0 <= name_pos(pv, name@) <= pv.len(),
            name_pos(pv, name@) < pv.len() ==> pv[name_pos(pv, name@)].0 == name@,
            forall|j: int| 0 <= j < name_pos(pv, name@) ==> #[trigger] pv[j].0 != name@,
        decreases ps.len() - k,
    {
        assert(pv[k as int].0 != name@);
        k = k + 1;
    }
    if k < ps.len() {
        assert(pv[k as int].0 == name@);
        assert(name_pos(pv, name@) == k);
        match default {
            Some(d) => {
                ps.set(k, Param { name, default: d });
                assert(param_views(ps@) =~= pv.update(k as int, (name@, d@)));
            },
            None => {},
        }
    } else {
        assert(name_pos(pv, name@) == pv.len());
        match default {
            Some(d) => {
                ps.push(Param { name, default: d });
                assert(param_views(ps@) =~= pv.push((name@, d@)));
            },
            None => {
                ps.push(Param { name, default: String::new() });
                assert(param_views(ps@) =~= pv.push((name@, Seq::<char>::empty())));
            },
        }
    }
}

/// Extracts the distinct placeholder names of `command` with their defaults,
/// in the order each name first appears. Among several occurrences of one
/// name, the last that gives a default decides it; one without a default
/// never clears it.
pub fn extract_params(command: &str) -> (r: Vec<Param>)
    ensures
        param_views(r@) == command_params(command@),
{
    let s = to_chars(command);
    let ghost mut found: Seq<(int, int)> = seq![];
    let mut out: Vec<Param> = Vec::new();
    let mut p: usize = 0;
    while p < s.len()
        invariant
            s@ == command@,
            p <= s.len(),
            found + placeholders_from(s@, p as int) == placeholders_from(s@, 0),
            param_views(out@) == params_of_spans(s@, found),
        decreases s.len() - p,
    {
        match find_placeholder(&s, p) {
            Some((a, b)) => {
                proof {
                    lemma_placeholder_at(s@, p as int);
                }
                let (name, default) = split_text(&s, a, b);
                add_param(&mut out, name, default);
                proof {
                    let f2 = found.push((a as int, b as int));
                    assert(f2.drop_last() =~= found);
                    assert(f2 + placeholders_from(s@, b + 1) =~= found + placeholders_from(
                        s@,
                        p as int,
                    ));
                    found = f2;
                }
                p = b + 1;
            },
            None => {
                p = p + 1;
            },
        }
    }
    assert(found =~= placeholders_from(s@, 0));
    out
}

/// Replaces every placeholder of `command` with the value of its name in
/// `values`; a name without a value becomes empty text.
pub fn substitute(command: &str, values: &ParamValues) -> (r: String)
    ensures
        r@ == substituted(command@, values@),
{
    let s = to_chars(command);
    let mut out = String::new();
    let mut p: usize = 0;
    while p < s.len()
        invariant
            s@ == command@,
            p <= s.len(),
            out@ + substituted_from(s@, p as int, values@) == substituted(s@, values@),
        decreases s.len() - p,
    {
        match find_placeholder(&s, p) {
            Some((a, b)) => {
                proof {
                    lemma_placeholder_at(s@, p as int);
                }
                let (name, _) = split_text(&s, a, b);
                let ghost out0 = out@;
                match values.get(name.as_str()) {
                    Some(v) => {
                        crate::text::push_str(&mut out, v.as_str());
                    },
                    None => {},
                }
                assert(out@ + substituted_from(s@, b + 1, values@) =~= out0 + substituted_from(
                    s@,
                    p as int,
                    values@,
                ));
                p = b + 1;
            },
            None => {
                let ghost out0 = out@;
                out.push(s[p]);
                assert(out@ + substituted_from(s@, p + 1, values@) =~= out0 + substituted_from(
                    s@,
                    p as int,
                    values@,
                ));
                p = p + 1;
            },
        }
    }
    assert(out@ =~= out@ + substituted_from(s@, p as int, values@));
    out
}

/// The index of the `_|` closing an option whose text starts at `i` (see `option_close`).
fn find_option_close(t: &Vec<char>, i: usize) -> (k: Option<usize>)
    requires
        i <= t.len(),
    ensures
        match k {
            Some(k) => option_close(t@, i as int) == k,
            None => option_close(t@, i as int) == -1,
        },
{
    let mut j = i;
    while t.len() - j > 1
        invariant
            i <= j <= t.len(),
            option_close(t@, j as int) == option_close(t@, i as int),
        decreases t.len() - j,
    {
        if t[j] == '_' && t[j + 1] == '|' {
            return Some(j);
        }
        if t[j] == '\n' {
            return None;
        }
        j = j + 1;
    }
    None
}

/// The options of a multi-choice default `|_a_||_b_|...`, in order; `None`
/// when `default` holds none (a plain default, or an empty one).
pub fn parse_options(default: &str) -> (r: Option<Vec<String>>)
    ensures
        match r {
            Some(v) => options_from(default@, 0).len() > 0 && v@.map_values(|o: String| o@)
                == options_from(default@, 0),
            None => options_from(default@, 0).len() == 0,
        },
{
    let t = to_chars(default);
    let mut out: Vec<String> = Vec::new();
    let mut p: usize = 0;
    while p < t.len()
        invariant
            t@ == default@,
            p <= t.len(),
            out@.map_values(|o: String| o@) + options_from(t@, p as int) == options_from(t@, 0),
        decreases t.len() - p,
    {
        let ghost before = out@.map_values(|o: String| o@);
        if p + 1 < t.len() && t[p] == '|' && t[p + 1] == '_' {
            match find_option_close(&t, p + 2) {
                Some(k) => {
                    proof {
                        lemma_option_close(t@, p + 2);
                    }
                    out.push(string_of(&t, p + 2, k));
                    assert(out@.map_values(|o: String| o@) =~= before.push(
                        t@.subrange(p + 2, k as int),
                    ));
                    assert(out@.map_values(|o: String| o@) + options_from(t@, k + 2) =~= before
                        + options_from(t@, p as int));
                    p = k + 2;
                },
                None => {
                    p = p + 1;
                },
            }
        } else {
            p = p + 1;
        }
    }
    assert(out@.map_values(|o: String| o@) =~= options_from(t@, 0));
    if out.len() == 0 {
        None
    } else {
        Some(out)
    }
}

} // verus!

verus! {

/// What a form field holds while the user edits it.
pub enum FieldKindView {
    Text { buffer: Seq<char>, cursor: nat },
    Options { options: Seq<Seq<char>>, selected: nat },
}

pub struct FieldView {
    pub name: Seq<char>,
    pub kind: FieldKindView,
}

pub struct DialogView {
    pub fields: Seq<FieldView>,
    pub focus: nat,
}

pub enum StepView {
    Continue(DialogView),
    Done(Map<Seq<char>, Seq<char>>),
    Cancelled,
}

/// One parameter's current input state in the form.
#[derive(Debug, Clone, PartialEq, Eq)]
pub enum FieldKind {
    /// Free text, pre-filled with the default; `cursor` counts characters.
    Text { buffer: String, cursor: usize },
    /// A multi-choice default: the user cycles through the options.
    Options { options: Vec<String>, selected: usize },
}

#[derive(Debug, Clone, PartialEq, Eq)]
pub struct Field {
    pub name: String,
    pub kind: FieldKind,
}

/// The parameter form: one field per parameter, and which one has focus.
#[derive(Debug, Clone, PartialEq, Eq)]
pub struct DialogState {
    pub fields: Vec<Field>,
    pub focus: usize,
}

/// What a key press leads to.
pub enum DialogStep {
    Continue(DialogState),
    Done(ParamValues),
    Cancelled,
}

impl View for FieldKind {
    type V = FieldKindView;

    open spec fn view(&self) -> FieldKindView {
        match self {
            FieldKind::Text { buffer, cursor } => FieldKindView::Text {
                buffer: buffer@,
                cursor: *cursor as nat,
            },
            FieldKind::Options { options, selected } => FieldKindView::Options {
                options: options@.map_values(|o: String| o@),
                selected: *selected as nat,
            },
        }
    }
}

impl View for Field {
    type V = FieldView;

    open spec fn view(&self) -> FieldView {
        FieldView { name: self.name@, kind: self.kind@ }
    }
}

impl View for DialogState {
    type V = DialogView;

    open spec fn view(&self) -> DialogView {
        DialogView { fields: self.fields@.map_values(|f: Field| f@), focus: self.focus as nat }
    }
}

impl View for DialogStep {
    type V = StepView;

    open spec fn view(&self) -> StepView {
        match self {
            DialogStep::Continue(s) => StepView::Continue(s@),
            DialogStep::Done(v) => StepView::Done(v@),
            DialogStep::Cancelled => StepView::Cancelled,
        }
    }
}

pub open spec fn field_wf(f: FieldView) -> bool {
    match f.kind {
        FieldKindView::Text { buffer, cursor } => cursor <= buffer.len(),
        FieldKindView::Options { options, selected } => selected < options.len(),
    }
}

/// A multi-choice field's selection names one of its options (a text field
/// is always fine).
pub open spec fn options_ok(f: FieldView) -> bool {
    match f.kind {
        FieldKindView::Options { options, selected } => selected < options.len(),
        _ => true,
    }
}

/// Every multi-choice field's selection names one of its options.
pub open spec fn form_ok(fs: Seq<FieldView>) -> bool {
    forall|i: int| 0 <= i < fs.len() ==> options_ok(#[trigger] fs[i])
}

/// A key the focused field can take without running past the machine's
/// integers: a typed character moves a text cursor on, and stepping through
/// the options needs some to step through.
pub open spec fn field_key_ok(f: FieldView, code: KeyCode) -> bool {
    match f.kind {
        FieldKindView::Text { cursor, .. } => code is Char ==> cursor < usize::MAX,
        FieldKindView::Options { options, selected } => match code {
            KeyCode::Up | KeyCode::Left => selected == 0 ==> options.len() > 0,
            KeyCode::Down | KeyCode::Right => options.len() > 0 && selected < usize::MAX,
            _ => true,
        },
    }
}

/// A key the form can take without running past the machine's integers or
/// reading an option that is not there: Enter reads every field's value,
/// Tab and Shift-Tab compute the next focus, and any other key but a cancel
/// edits the focused field.
pub open spec fn key_fits(d: DialogView, code: KeyCode, modifiers: KeyModifiers) -> bool {
    if crate::keys::is_cancel(code, modifiers) {
        true
    } else if code == KeyCode::Enter {
        form_ok(d.fields)
    } else if code == KeyCode::Tab {
        d.fields.len() > 0 ==> d.focus < usize::MAX
    } else if code == KeyCode::BackTab {
        d.fields.len() > 0 ==> d.focus + d.fields.len() <= usize::MAX
    } else {
        d.focus < d.fields.len() ==> field_key_ok(d.fields[d.focus as int], code)
    }
}

/// Every field is well formed, and focus is on one of them (or there are none).
pub open spec fn dialog_wf(d: DialogView) -> bool {
    &&& forall|i: int| 0 <= i < d.fields.len() ==> field_wf(#[trigger] d.fields[i])
    &&& (d.fields.len() == 0 || d.focus < d.fields.len())
}

/// A field's value as the form stands: the text typed, or the option selected.
pub open spec fn current_value(f: FieldView) -> Seq<char> {
    match f.kind {
        FieldKindView::Text { buffer, cursor } => buffer,
        FieldKindView::Options { options, selected } => options[selected as int],
    }
}

/// The values of all fields by name (a later field of the same name wins).
pub open spec fn fields_values(fs: Seq<FieldView>) -> Map<Seq<char>, Seq<char>>
    decreases fs.len(),
{
    if fs.len() == 0 {
        Map::empty()
    } else {
        fields_values(fs.drop_last()).insert(fs.last().name, current_value(fs.last()))
    }
}

/// The field a parameter starts as: its options, the first selected, if its
/// default is multi-choice; otherwise its default as text, cursor at the end.
pub open spec fn initial_field(name: Seq<char>, default: Seq<char>) -> FieldView {
    if options_from(default, 0).len() > 0 {
        FieldView {
            name,
            kind: FieldKindView::Options { options: options_from(default, 0), selected: 0 },
        }
    } else {
        FieldView { name, kind: FieldKindView::Text { buffer: default, cursor: default.len() } }
    }
}

/// A text field after a key: arrows move the cursor within the text,
/// Backspace and Delete remove the character before or under it, and a
/// character is inserted at the cursor. A cursor past the end of the text
/// counts as its end for editing: Backspace then only moves it back, and a
/// character is added at the end.
pub open spec fn text_after_key(buffer: Seq<char>, cursor: nat, code: KeyCode) -> (Seq<char>, nat) {
    match code {
        KeyCode::Left => if cursor > 0 {
            (buffer, (cursor - 1) as nat)
        } else {
            (buffer, cursor)
        },
        KeyCode::Right => if cursor < buffer.len() {
            (buffer, cursor + 1)
        } else {
            (buffer, cursor)
        },
        KeyCode::Backspace => if cursor > 0 && cursor <= buffer.len() {
            (buffer.remove(cursor - 1), (cursor - 1) as nat)
        } else if cursor > 0 {
            (buffer, (cursor - 1) as nat)
        } else {
            (buffer, cursor)
        },
        KeyCode::Delete => if cursor < buffer.len() {
            (buffer.remove(cursor as int), cursor)
        } else {
            (buffer, cursor)
        },
        KeyCode::Char(c) => if cursor <= buffer.len() {
            (buffer.insert(cursor as int, c), cursor + 1)
        } else {
            (buffer.push(c), cursor + 1)
        },
        _ => (buffer, cursor),
    }
}

/// A multi-choice field after a key: Up/Left select the previous option,
/// Down/Right the next, wrapping around at either end.
pub open spec fn selected_after_key(count: nat, selected: nat, code: KeyCode) -> nat {
    match code {
        KeyCode::Up | KeyCode::Left => if selected == 0 {
            (count - 1) as nat
        } else {
            (selected - 1) as nat
        },
        KeyCode::Down | KeyCode::Right => ((selected + 1) % count) as nat,
        _ => selected,
    }
}

pub open spec fn field_after_key(f: FieldView, code: KeyCode) -> FieldView {
    match f.kind {
        FieldKindView::Text { buffer, cursor } => {
            let t = text_after_key(buffer, cursor, code);
            FieldView { name: f.name, kind: FieldKindView::Text { buffer: t.0, cursor: t.1 } }
        },
        FieldKindView::Options { options, selected } => FieldView {
            name: f.name,
            kind: FieldKindView::Options {
                options,
                selected: selected_after_key(options.len(), selected, code),
            },
        },
    }
}

/// The form's response to a key press: Esc or Ctrl-C cancel; Enter confirms
/// the current values from whichever field has focus; Tab and Shift-Tab move
/// focus forward and back, wrapping; any other key edits the focused field.
pub open spec fn dialog_step(d: DialogView, code: KeyCode, modifiers: KeyModifiers) -> StepView {
    let n = d.fields.len();
    if crate::keys::is_cancel(code, modifiers) {
        StepView::Cancelled
    } else if code == KeyCode::Enter {
        StepView::Done(fields_values(d.fields))
    } else if code == KeyCode::Tab {
        if n == 0 {
            StepView::Continue(d)
        } else {
            StepView::Continue(DialogView { fields: d.fields, focus: ((d.focus + 1) % n) as nat })
        }
    } else if code == KeyCode::BackTab {
        if n == 0 {
            StepView::Continue(d)
        } else {
            StepView::Continue(
                DialogView { fields: d.fields, focus: ((d.focus + n - 1) % (n as int)) as nat },
            )
        }
    } else if d.focus < n {
        StepView::Continue(
            DialogView {
                fields: d.fields.update(d.focus as int, field_after_key(d.fields[d.focus as int], code)),
                focus: d.focus,
            },
        )
    } else {
        StepView::Continue(d)
    }
}

impl Field {
    /// The field a parameter starts as (see `initial_field`).
    fn new(param: &Param) -> (f: Field)
        ensures
            f@ == initial_field(param.name@, param.default@),
            field_wf(f@),
    {
        match parse_options(param.default.as_str()) {
            Some(options) => Field {
                name: param.name.clone(),
                kind: FieldKind::Options { options, selected: 0 },
            },
            None => {
                let buffer = param.default.clone();
                let cursor = crate::text::to_chars(buffer.as_str()).len();
                Field { name: param.name.clone(), kind: FieldKind::Text { buffer, cursor } }
            },
        }
    }

    /// The field's value as it stands: the text typed, or the option selected.
    pub fn current_value(&self) -> (r: String)
        requires
            options_ok(self@),
        ensures
            r@ == current_value(self@),
    {
        match &self.kind {
            FieldKind::Text { buffer, .. } => buffer.clone(),
            FieldKind::Options { options, selected } => options[*selected].clone(),
        }
    }
}

impl DialogState {
    /// A form with one field per parameter, focus on the first.
    pub fn new(params: &[Param]) -> (r: DialogState)
        ensures
            r@.fields == params@.map_values(|p: Param| initial_field(p.name@, p.default@)),
            r@.focus == 0,
            dialog_wf(r@),
    {
        let mut fields: Vec<Field> = Vec::new();
        let mut i: usize = 0;
        while i < params.len()
            invariant
                i <= params.len(),
                fields@.map_values(|f: Field| f@) == params@.take(i as int).map_values(
                    |p: Param| initial_field(p.name@, p.default@),
                ),
                forall|k: int| 0 <= k < fields.len() ==> field_wf(#[trigger] fields@[k]@),
            decreases params.len() - i,
        {
            let ghost before = fields@;
            let f = Field::new(&params[i]);
            fields.push(f);
            assert(fields@ =~= before.push(f));
            assert(params@.take(i + 1) =~= params@.take(i as int).push(params@[i as int]));
            assert(fields@.map_values(|f: Field| f@) =~= before.map_values(|f: Field| f@).push(f@));
            i = i + 1;
            assert(fields@.map_values(|f: Field| f@) =~= params@.take(i as int).map_values(
                |p: Param| initial_field(p.name@, p.default@),
            ));
        }
        assert(params@.take(i as int) =~= params@);
        let r = DialogState { fields, focus: 0 };
        assert forall|k: int| 0 <= k < r@.fields.len() implies field_wf(#[trigger] r@.fields[k]) by {
            assert(r@.fields[k] == r.fields@[k]@);
        }
        r
    }

    /// The current value of every field, by name.
    pub fn values(&self) -> (r: ParamValues)
        requires
            form_ok(self@.fields),
        ensures
            r@ == fields_values(self@.fields),
    {
        let mut r = ParamValues::new();
        let mut i: usize = 0;
        while i < self.fields.len()
            invariant
                i <= self.fields.len(),
                form_ok(self@.fields),
                r@ == fields_values(self@.fields.take(i as int)),
            decreases self.fields.len() - i,
        {
            assert(self@.fields[i as int] == self.fields@[i as int]@);
            let v = self.fields[i].current_value();
            r.insert(self.fields[i].name.clone(), v);
            assert(self@.fields.take(i + 1).drop_last() =~= self@.fields.take(i as int));
            i = i + 1;
        }
        assert(self@.fields.take(i as int) =~= self@.fields);
        r
    }
}

/// The text field `buffer`/`cursor` after `code` (see `text_after_key`).
pub(crate) fn edit_text(buffer: &String, cursor: usize, code: KeyCode) -> (r: (String, usize))
    requires
        code is Char ==> cursor < usize::MAX,
    ensures
        (r.0@, r.1 as nat) == text_after_key(buffer@, cursor as nat, code),
        cursor <= buffer@.len() ==> r.1 <= r.0@.len(),
{
    let v = crate::text::to_chars(buffer.as_str());
    match code {
        KeyCode::Left => {
            if cursor > 0 {
                (buffer.clone(), cursor - 1)
            } else {
                (buffer.clone(), cursor)
            }
        },
        KeyCode::Right => {
            if cursor < v.len() {
                (buffer.clone(), cursor + 1)
            } else {
                (buffer.clone(), cursor)
            }
        },
        KeyCode::Backspace => {
            if cursor > 0 && cursor > v.len() {
                (buffer.clone(), cursor - 1)
            } else if cursor > 0 {
                let mut s = string_of(&v, 0, cursor - 1);
                push_range(&mut s, &v, cursor, v.len());
                assert(s@ =~= buffer@.remove(cursor - 1));
                (s, cursor - 1)
            } else {
                (buffer.clone(), cursor)
            }
        },
        KeyCode::Delete => {
            if cursor < v.len() {
                let mut s = string_of(&v, 0, cursor);
                push_range(&mut s, &v, cursor + 1, v.len());
                assert(s@ =~= buffer@.remove(cursor as int));
                (s, cursor)
            } else {
                (buffer.clone(), cursor)
            }
        },
        KeyCode::Char(c) => {
            if cursor > v.len() {
                let mut s = buffer.clone();
                s.push(c);
                return (s, cursor + 1);
            }
            let mut s = string_of(&v, 0, cursor);
            s.push(c);
            push_range(&mut s, &v, cursor, v.len());
            assert(s@ =~= buffer@.insert(cursor as int, c));
            let ghost n = s@.len();
            let w = crate::text::to_chars(s.as_str());
            assert(w.len() == n);
            (s, cursor + 1)
        },
        _ => (buffer.clone(), cursor),
    }
}

/// The field `f` after `code` (see `field_after_key`).
fn edit_field(f: Field, code: KeyCode) -> (r: Field)
    requires
        field_key_ok(f@, code),
    ensures
        r@ == field_after_key(f@, code),
        options_ok(f@) ==> options_ok(r@),
        field_wf(f@) ==> field_wf(r@),
{
    let ghost fv = f@;
    let Field { name, kind } = f;
    match kind {
        FieldKind::Text { buffer, cursor } => {
            let (b, c) = edit_text(&buffer, cursor, code);
            Field { name, kind: FieldKind::Text { buffer: b, cursor: c } }
        },
        FieldKind::Options { options, selected } => {
            let n = options.len();
            let s = match code {
                KeyCode::Up | KeyCode::Left => if selected == 0 {
                    n - 1
                } else {
                    selected - 1
                },
                KeyCode::Down | KeyCode::Right => (selected + 1) % n,
                _ => selected,
            };
            Field { name, kind: FieldKind::Options { options, selected: s } }
        },
    }
}

/// The form's response to a key press (see `dialog_step`).
pub fn handle_key(state: DialogState, code: KeyCode, modifiers: KeyModifiers) -> (r: DialogStep)
    requires
        key_fits(state@, code, modifiers),
    ensures
        r@ == dialog_step(state@, code, modifiers),
        r matches DialogStep::Continue(s) ==> (form_ok(state@.fields) ==> form_ok(s@.fields)),
        r matches DialogStep::Continue(s) ==> (dialog_wf(state@) ==> dialog_wf(s@)),
{
    let mut state = state;
    let n = state.fields.len();
    if code == KeyCode::Esc || (code == KeyCode::Char('c') && modifiers.control) {
        return DialogStep::Cancelled;
    }
    if code == KeyCode::Enter {
        return DialogStep::Done(state.values());
    }
    if code == KeyCode::Tab {
        if n > 0 {
            state.focus = (state.focus + 1) % n;
        }
        return DialogStep::Continue(state);
    }
    if code == KeyCode::BackTab {
        if n > 0 {
            state.focus = (state.focus + n - 1) % n;
        }
        return DialogStep::Continue(state);
    }
    if state.focus < n {
        let ghost d = state@;
        assert(d.fields[state.focus as int] == state.fields@[state.focus as int]@);
        let focus = state.focus;
        let f = state.fields.remove(focus);
        let f = edit_field(f, code);
        state.fields.insert(focus, f);
        assert(state@.fields =~= d.fields.update(focus as int, field_after_key(d.fields[focus as int], code)));
        proof {
            if form_ok(d.fields) {
                assert(options_ok(d.fields[focus as int]));
                assert forall|i: int| 0 <= i < state@.fields.len() implies options_ok(#[trigger] state@.fields[i]) by {
                    if i != focus {
                        assert(state@.fields[i] == d.fields[i]);
                    }
                }
            }
            if dialog_wf(d) {
                assert(field_wf(d.fields[focus as int]));
                assert forall|i: int| 0 <= i < state@.fields.len() implies field_wf(#[trigger] state@.fields[i]) by {
                    if i != focus {
                        assert(state@.fields[i] == d.fields[i]);
                    }
                }
            }
        }
    }
    DialogStep::Continue(state)
}

/// Whether the form can take the key as it stands (see `key_fits`).
pub fn fits_key(state: &DialogState, code: KeyCode, modifiers: KeyModifiers) -> (b: bool)
    ensures
        b == key_fits(state@, code, modifiers),
{
    let n = state.fields.len();
    if code == KeyCode::Esc || (code == KeyCode::Char('c') && modifiers.control) {
        true
    } else if code == KeyCode::Enter {
        let mut i: usize = 0;
        while i < n
            invariant
                i <= n,
                n == state.fields.len(),
                code == KeyCode::Enter,
                forall|j: int| 0 <= j < i ==> options_ok(#[trigger] state@.fields[j]),
            decreases n - i,
        {
            assert(state@.fields[i as int] == state.fields@[i as int]@);
            match &state.fields[i].kind {
                FieldKind::Options { options, selected } => {
                    if *selected >= options.len() {
                        assert(!options_ok(state@.fields[i as int]));
                        assert(!form_ok(state@.fields));
                        return false;
                    }
                },
                _ => {},
            }
            i = i + 1;
        }
        true
    } else if code == KeyCode::Tab {
        n == 0 || state.focus < usize::MAX
    } else if code == KeyCode::BackTab {
        n == 0 || state.focus <= usize::MAX - n
    } else if state.focus < n {
        assert(state@.fields[state.focus as int] == state.fields@[state.focus as int]@);
        match &state.fields[state.focus].kind {
            FieldKind::Text { cursor, .. } => match code {
                KeyCode::Char(_) => *cursor < usize::MAX,
                _ => true,
            },
            FieldKind::Options { options, selected } => match code {
                KeyCode::Up | KeyCode::Left => *selected != 0 || options.len() > 0,
                KeyCode::Down | KeyCode::Right => options.len() > 0 && *selected < usize::MAX,
                _ => true,
            },
        }
    } else {
        true
    }
}

} // verus!

verus! {

/// Every key press keeps the form well formed.
pub proof fn law_step_keeps_form_well_formed(d: DialogView, code: KeyCode, modifiers: KeyModifiers)
    requires
        dialog_wf(d),
    ensures
        dialog_step(d, code, modifiers) matches StepView::Continue(d2) ==> dialog_wf(d2),
{
    let n = d.fields.len();
    if n > 0 {
        assert((d.focus + 1) % n < n);
        assert((d.focus + n - 1) % (n as int) < n);
    }
    if d.focus < n {
        let f2 = field_after_key(d.fields[d.focus as int], code);
        assert(field_wf(d.fields[d.focus as int]));
        assert(field_wf(f2)) by {
            match d.fields[d.focus as int].kind {
                FieldKindView::Options { options, selected } => {
                    if options.len() > 0 {
                        assert((selected + 1) % options.len() < options.len());
                    }
                },
                _ => {},
            }
        }
        let fs = d.fields.update(d.focus as int, f2);
        assert forall|i: int| 0 <= i < fs.len() implies field_wf(#[trigger] fs[i]) by {
            if i != d.focus {
                assert(fs[i] == d.fields[i]);
            }
        }
    }
}

/// Tab followed by Shift-Tab gives focus back to the field that had it.
pub proof fn law_tab_then_backtab_returns_focus(d: DialogView)
    requires
        dialog_wf(d),
    ensures
        dialog_step(d, KeyCode::Tab, KeyModifiers { shift: false, control: false, alt: false }) matches StepView::Continue(d1)
            && dialog_step(d1, KeyCode::BackTab, KeyModifiers { shift: false, control: false, alt: false })
            == StepView::Continue(d),
{
    let n = d.fields.len();
    if n > 0 {
        if d.focus + 1 == n {
            vstd::arithmetic::div_mod::lemma_mod_self_0(n as int);
            vstd::arithmetic::div_mod::lemma_small_mod((n - 1) as nat, n as nat);
        } else {
            vstd::arithmetic::div_mod::lemma_small_mod((d.focus + 1) as nat, n as nat);
            vstd::arithmetic::div_mod::lemma_mod_add_multiples_vanish(d.focus as int, n as int);
            vstd::arithmetic::div_mod::lemma_small_mod(d.focus, n as nat);
        }
    }
}

/// Typing a character and then Backspace leaves a text field as it was.
pub proof fn law_type_then_backspace_restores_text(buffer: Seq<char>, cursor: nat, c: char)
    requires
        cursor <= buffer.len(),
    ensures
        ({
            let t = text_after_key(buffer, cursor, KeyCode::Char(c));
            text_after_key(t.0, t.1, KeyCode::Backspace)
        }) == (buffer, cursor),
{
    assert(buffer.insert(cursor as int, c).remove(cursor as int) =~= buffer);
}

/// Selecting the next option and then the previous one comes back to the same option.
pub proof fn law_next_then_previous_option(count: nat, selected: nat)
    requires
        selected < count,
    ensures
        selected_after_key(count, selected_after_key(count, selected, KeyCode::Down), KeyCode::Up)
            == selected,
{
    if selected + 1 == count {
        vstd::arithmetic::div_mod::lemma_mod_self_0(count as int);
    } else {
        vstd::arithmetic::div_mod::lemma_small_mod((selected + 1) as nat, count);
    }
}

proof fn lemma_no_placeholders_from(s: Seq<char>, p: int, values: Map<Seq<char>, Seq<char>>)
    requires
        0 <= p <= s.len(),
        placeholders_from(s, p).len() == 0,
    ensures
        substituted_from(s, p, values) == s.skip(p),
    decreases s.len() - p,
{
    if p < s.len() {
        match placeholder_at(s, p) {
            Some(m) => {},
            None => {
                lemma_no_placeholders_from(s, p + 1, values);
                assert(seq![s[p]] + s.skip(p + 1) =~= s.skip(p));
            },
        }
    } else {
        assert(s.skip(p) =~= Seq::<char>::empty());
    }
}

/// A command without placeholders has no parameters, and substitution leaves it unchanged.
pub proof fn law_command_without_placeholders(s: Seq<char>, values: Map<Seq<char>, Seq<char>>)
    requires
        placeholders_from(s, 0).len() == 0,
    ensures
        command_params(s).len() == 0,
        substituted(s, values) == s,
{
    lemma_no_placeholders_from(s, 0, values);
    assert(s.skip(0) =~= s);
}

proof fn lemma_with_placeholder_distinct(
    ps: Seq<(Seq<char>, Seq<char>)>,
    name: Seq<char>,
    default: Option<Seq<char>>,
)
    requires
        forall|i: int, j: int| 0 <= i < j < ps.len() ==> ps[i].0 != ps[j].0,
    ensures
        ({
            let r = with_placeholder(ps, name, default);
            forall|i: int, j: int| 0 <= i < j < r.len() ==> r[i].0 != r[j].0
        }),
{
    lemma_name_pos(ps, name);
}

proof fn lemma_params_distinct(s: Seq<char>, spans: Seq<(int, int)>)
    ensures
        ({
            let r = params_of_spans(s, spans);
            forall|i: int, j: int| 0 <= i < j < r.len() ==> r[i].0 != r[j].0
        }),
    decreases spans.len(),
{
    if spans.len() > 0 {
        lemma_params_distinct(s, spans.drop_last());
        let m = spans.last();
        let text = s.subrange(m.0, m.1);
        lemma_with_placeholder_distinct(
            params_of_spans(s, spans.drop_last()),
            name_of(text),
            default_of(text),
        );
    }
}

/// The parameters of a command have distinct names.
pub proof fn law_param_names_distinct(s: Seq<char>)
    ensures
        forall|i: int, j: int|
            0 <= i < j < command_params(s).len() ==> command_params(s)[i].0 != command_params(
                s,
            )[j].0,
{
    lemma_params_distinct(s, placeholders_from(s, 0));
}


/// The names of a form's fields, in order.
pub open spec fn field_names(fs: Seq<FieldView>) -> Seq<Seq<char>> {
    fs.map_values(|f: FieldView| f.name)
}

proof fn lemma_fields_values_names(fs: Seq<FieldView>, i: int)
    requires
        0 <= i < fs.len(),
    ensures
        fields_values(fs).contains_key(fs[i].name),
    decreases fs.len(),
{
    if i < fs.len() - 1 {
        lemma_fields_values_names(fs.drop_last(), i);
    }
}

/// Law: keys never rename, add or drop fields.
pub proof fn law_keys_keep_field_names(d: DialogView, code: KeyCode, modifiers: KeyModifiers)
    ensures
        dialog_step(d, code, modifiers) matches StepView::Continue(d2) ==> field_names(d2.fields) == field_names(d.fields),
{
    if let StepView::Continue(d2) = dialog_step(d, code, modifiers) {
        assert(field_names(d2.fields) =~= field_names(d.fields));
    }
}

/// Law: Esc cancels the form whatever its state; a `c` cancels it exactly
/// when Control is held.
pub proof fn law_cancel_keys(d: DialogView, modifiers: KeyModifiers)
    ensures
        dialog_step(d, KeyCode::Esc, modifiers) == StepView::Cancelled,
        (dialog_step(d, KeyCode::Char('c'), modifiers) == StepView::Cancelled) <==> modifiers.control,
{
}

/// Law: Tab and Shift-Tab keep every field and move focus one field forward
/// or back, wrapping at either end (with no fields, nothing changes).
pub proof fn law_tab_keys_move_focus(d: DialogView, modifiers: KeyModifiers)
    ensures
        ({
            let n = d.fields.len();
            &&& dialog_step(d, KeyCode::Tab, modifiers) == StepView::Continue(DialogView {
                fields: d.fields,
                focus: if n > 0 { ((d.focus + 1) % n) as nat } else { d.focus },
            })
            &&& dialog_step(d, KeyCode::BackTab, modifiers) == StepView::Continue(DialogView {
                fields: d.fields,
                focus: if n > 0 { ((d.focus + n - 1) % (n as int)) as nat } else { d.focus },
            })
        }),
{
}

/// Law: any key but Esc, Ctrl-C, Enter, Tab and Shift-Tab keeps the focus
/// and the number of fields, leaves every field but the focused one as it
/// was, and keeps the focused field's name: only its text, cursor or
/// selection can change.
pub proof fn law_other_keys_edit_only_the_focused_field(d: DialogView, code: KeyCode, modifiers: KeyModifiers)
    requires
        !crate::keys::is_cancel(code, modifiers),
        code != KeyCode::Enter,
        code != KeyCode::Tab,
        code != KeyCode::BackTab,
    ensures
        dialog_step(d, code, modifiers) matches StepView::Continue(d2) && d2.focus == d.focus
            && d2.fields.len() == d.fields.len() && (forall|i: int|
            0 <= i < d.fields.len() && i != d.focus ==> #[trigger] d2.fields[i] == d.fields[i]) && (d.focus
            < d.fields.len() ==> d2.fields[d.focus as int].name == d.fields[d.focus as int].name),
{
}

/// Law: editing a text field keeps its cursor within its text.
pub proof fn law_text_keys_keep_cursor_in_text(buffer: Seq<char>, cursor: nat, code: KeyCode)
    requires
        cursor <= buffer.len(),
    ensures
        text_after_key(buffer, cursor, code).1 <= text_after_key(buffer, cursor, code).0.len(),
{
}

/// Law: a form over the parameters of `s` (fields named as `command_params`
/// gives them, as `DialogState::new` makes them and keys keep them) yields,
/// when confirmed, a value for the name of every placeholder of `s`.
pub proof fn law_confirmed_values_cover_placeholders(s: Seq<char>, d: DialogView)
    requires
        field_names(d.fields) == command_params(s).map_values(|p: (Seq<char>, Seq<char>)| p.0),
    ensures
        forall|j: int| 0 <= j < placeholders_from(s, 0).len() ==> fields_values(d.fields).contains_key(
            #[trigger] crate::grammar::span_name(s, placeholders_from(s, 0)[j]),
        ),
{
    let spans = placeholders_from(s, 0);
    let ps = command_params(s);
    crate::grammar::lemma_params_cover_spans(s, spans);
    assert forall|j: int| 0 <= j < spans.len() implies fields_values(d.fields).contains_key(
        #[trigger] crate::grammar::span_name(s, spans[j]),
    ) by {
        let n = crate::grammar::span_name(s, spans[j]);
        let k = name_pos(ps, n);
        lemma_name_pos(ps, n);
        assert(k < ps.len());
        assert(field_names(d.fields).len() == ps.len());
        assert(d.fields.len() == ps.len());
        assert(field_names(d.fields)[k] == d.fields[k].name);
        assert(ps.map_values(|p: (Seq<char>, Seq<char>)| p.0)[k] == ps[k].0);
        assert(d.fields[k].name == n);
        lemma_fields_values_names(d.fields, k);
    }
}

} // verus!
