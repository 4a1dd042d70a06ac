//! The decisions of the subcommands, apart from their terminal, file and
//! process work: what to offer the selector, what to do with its answer,
//! and what each command finally prints, copies, runs, deletes or syncs.
pub mod clip;
pub mod delete;
pub mod edit;
pub mod exec;
pub mod list;
pub mod new;
pub mod search;
pub mod sync;

use vstd::prelude::*;
use crate::dialog::{extract_params, param_views, substitute, Param, ParamValues};
use crate::grammar::{command_params, substituted};
use crate::snippet::{mention_pred, snippet_views, tag_pred, SnippetInfo, SnippetView, Snippets};
use crate::text::{extend_chars, string_from, to_chars};
use crate::usage::{count_of, record_uses_at, times, unix_now_secs, UsageStats};

verus! {

/// The snippets offered for selection: those tagged `tag`, when given, that
/// also mention `filter` (see `Snippets::filter_by_text`), when given.
pub open spec fn candidate_views(ss: Seq<SnippetView>, tag: Option<String>, filter: Option<String>) -> Seq<SnippetView> {
    let tagged = match tag {
        Some(t) => ss.filter(tag_pred(t@)),
        None => ss,
    };
    match filter {
        Some(f) => tagged.filter(mention_pred(f@)),
        None => tagged,
    }
}

/// The snippets to offer (see `candidate_views`).
pub fn candidates(snippets: Vec<SnippetInfo>, tag: &Option<String>, filter: &Option<String>) -> (r: Vec<SnippetInfo>)
    ensures
        snippet_views(r@) == candidate_views(snippet_views(snippets@), *tag, *filter),
{
    let tagged = match tag {
        Some(t) => Snippets { snippets }.filter_by_single_tag(t.as_str()),
        None => snippets,
    };
    match filter {
        Some(f) => Snippets { snippets: tagged }.filter_by_text(f.as_str()),
        None => tagged,
    }
}

/// `items` joined by `sep`.
pub open spec fn joined_with(items: Seq<Seq<char>>, sep: Seq<char>) -> Seq<char>
    decreases items.len(),
{
    if items.len() == 0 {
        seq![]
    } else if items.len() == 1 {
        items[0]
    } else {
        joined_with(items.drop_last(), sep) + sep + items.last()
    }
}

/// `items` joined by `sep` (see `joined_with`).
pub fn join(items: &Vec<String>, sep: &str) -> (r: String)
    ensures
        r@ == joined_with(items@.map_values(|s: String| s@), sep@),
{
    let ghost iv = items@.map_values(|s: String| s@);
    let sv = to_chars(sep);
    let mut out: Vec<char> = Vec::new();
    let mut i: usize = 0;
    while i < items.len()
        invariant
            i <= items.len(),
            iv == items@.map_values(|s: String| s@),
            sv@ == sep@,
            out@ == joined_with(iv.take(i as int), sep@),
        decreases items.len() - i,
    {
        if i > 0 {
            extend_chars(&mut out, &sv);
        }
        extend_chars(&mut out, &to_chars(items[i].as_str()));
        assert(iv.take(i + 1).drop_last() =~= iv.take(i as int));
        assert(iv[i as int] == items@[i as int]@);
        i = i + 1;
        assert(out@ =~= joined_with(iv.take(i as int), sep@));
    }
    assert(iv.take(i as int) =~= iv);
    string_from(&out)
}

/// What to do with the commands a selection returned.
pub enum Resolution {
    /// Nothing was selected: stop without output.
    Nothing,
    /// Ask for the values of `params` in `command` first (then `finish`).
    Ask { command: String, params: Vec<Param> },
    /// The text to print, copy or run.
    Done(String),
}

/// Whether the selection asks for the parameter form: substitution is on,
/// exactly one command was selected and it has placeholders.
pub open spec fn asks(commands: Seq<Seq<char>>, substitute_params: bool) -> bool {
    substitute_params && commands.len() == 1 && command_params(commands[0]).len() > 0
}

/// The resolution owed for `commands` (see `resolve`).
pub open spec fn resolves(commands: Seq<String>, substitute_params: bool, delimiter: Seq<char>, r: Resolution) -> bool {
    let cs = commands.map_values(|s: String| s@);
    &&& commands.len() == 0 ==> r is Nothing
    &&& asks(cs, substitute_params) ==> (r matches Resolution::Ask { command, params }
        && command@ == cs[0] && param_views(params@) == command_params(cs[0]))
    &&& commands.len() > 0 && !asks(cs, substitute_params) ==> (r matches Resolution::Done(t) && t@ == joined_with(cs, delimiter))
}

/// What follows a selection of `commands`: nothing when empty; the form when
/// it `asks`; else the commands joined by `delimiter`.
pub fn resolve(commands: &Vec<String>, substitute_params: bool, delimiter: &str) -> (r: Resolution)
    ensures
        resolves(commands@, substitute_params, delimiter@, r),
{
    if commands.len() == 0 {
        return Resolution::Nothing;
    }
    assert(commands@.map_values(|s: String| s@)[0] == commands@[0]@);
    if substitute_params && commands.len() == 1 {
        let params = extract_params(commands[0].as_str());
        if params.len() > 0 {
            return Resolution::Ask { command: commands[0].clone(), params };
        }
    }
    Resolution::Done(join(commands, delimiter))
}

/// The command once the form is answered: `command` with the given values,
/// or nothing if the form was cancelled.
pub fn finish(command: &str, values: Option<&ParamValues>) -> (r: Option<String>)
    ensures
        match values {
            Some(v) => r matches Some(t) && t@ == substituted(command@, v@),
            None => r is None,
        },
{
    match values {
        Some(v) => Some(substitute(command, v)),
        None => None,
    }
}

/// The uses a selection records in the usage statistics: one per chosen
/// snippet, by its description, in order (none when nothing was chosen).
pub fn recorded_uses(chosen: &Vec<SnippetInfo>) -> (r: Vec<String>)
    ensures
        r@.map_values(|s: String| s@) == snippet_views(chosen@).map_values(|v: SnippetView| v.description),
{
    let ghost cv = snippet_views(chosen@);
    let mut r: Vec<String> = Vec::new();
    let mut i: usize = 0;
    while i < chosen.len()
        invariant
            i <= chosen.len(),
            cv == snippet_views(chosen@),
            r@.map_values(|s: String| s@) == cv.take(i as int).map_values(|v: SnippetView| v.description),
        decreases chosen.len() - i,
    {
        let ghost before = r@.map_values(|s: String| s@);
        let d = chosen[i].description.clone();
        r.push(d);
        assert(r@.map_values(|s: String| s@) =~= before.push(cv[i as int].description));
        assert(cv.take(i + 1) =~= cv.take(i as int).push(cv[i as int]));
        i = i + 1;
        assert(r@.map_values(|s: String| s@) =~= cv.take(i as int).map_values(|v: SnippetView| v.description));
    }
    assert(cv.take(i as int) =~= cv);
    r
}

/// The descriptions of the chosen snippets, in order.
pub open spec fn picked_descriptions(chosen: Seq<SnippetView>) -> Seq<Seq<char>> {
    chosen.map_values(|v: SnippetView| v.description)
}

/// Counts a selection (by `search`, `exec` or `clip`) in the usage
/// statistics at time `now`: each chosen snippet's count rises by the number
/// of times it was chosen and its last use becomes `now`; no other entry
/// changes.
pub fn record_picks_at(stats: &mut UsageStats, chosen: &Vec<SnippetInfo>, now: u64)
    requires
        forall|i: int|
            0 <= i < chosen@.len() ==> count_of(old(stats)@, #[trigger] chosen@[i]@.description) + times(
                picked_descriptions(snippet_views(chosen@)),
                chosen@[i]@.description,
            ) <= u64::MAX,
    ensures
        ({
            let ds = picked_descriptions(snippet_views(chosen@));
            &&& final(stats)@.dom() == old(stats)@.dom() + ds.to_set()
            &&& forall|k: Seq<char>| #[trigger] final(stats)@.contains_key(k) ==>
                final(stats)@[k].count == count_of(old(stats)@, k) + times(ds, k)
            &&& forall|k: Seq<char>| old(stats)@.contains_key(k) && !ds.contains(k) ==> #[trigger] final(stats)@[k]
                == old(stats)@[k]
            &&& forall|k: Seq<char>| ds.contains(k) ==> #[trigger] final(stats)@[k].last_used == now
        }),
{
    let uses = recorded_uses(chosen);
    let ghost ds = picked_descriptions(snippet_views(chosen@));
    assert(uses@.map_values(|d: String| d@) == ds);
    assert forall|i: int| 0 <= i < uses@.len() implies count_of(stats@, #[trigger] uses@[i]@) + times(
        uses@.map_values(|d: String| d@),
        uses@[i]@,
    ) <= u64::MAX by {
        assert(uses@[i]@ == ds[i]);
        assert(snippet_views(chosen@)[i] == chosen@[i]@);
        assert(ds[i] == chosen@[i]@.description);
    }
    record_uses_at(stats, &uses, now);
}

/// Counts a selection in the usage statistics now (see `record_picks_at`):
/// every chosen snippet gets the one time the clock gave.
pub fn record_picks(stats: &mut UsageStats, chosen: &Vec<SnippetInfo>)
    requires
        forall|i: int|
            0 <= i < chosen@.len() ==> count_of(old(stats)@, #[trigger] chosen@[i]@.description) + times(
                picked_descriptions(snippet_views(chosen@)),
                chosen@[i]@.description,
            ) <= u64::MAX,
    ensures
        ({
            let ds = picked_descriptions(snippet_views(chosen@));
            &&& final(stats)@.dom() == old(stats)@.dom() + ds.to_set()
            &&& forall|k: Seq<char>| #[trigger] final(stats)@.contains_key(k) ==>
                final(stats)@[k].count == count_of(old(stats)@, k) + times(ds, k)
            &&& forall|k: Seq<char>| old(stats)@.contains_key(k) && !ds.contains(k) ==> #[trigger] final(stats)@[k]
                == old(stats)@[k]
            &&& forall|k1: Seq<char>, k2: Seq<char>| ds.contains(k1) && ds.contains(k2)
                ==> #[trigger] final(stats)@[k1].last_used == #[trigger] final(stats)@[k2].last_used
        }),
{
    let now = unix_now_secs();
    record_picks_at(stats, chosen, now);
}

} // verus!
