//! `pet delete`: remove the selected snippets.
use vstd::prelude::*;
use crate::snippet::{snippet_views, SnippetInfo, SnippetView};
use crate::text::str_eq;

verus! {

/// The options of `pet delete`.
#[derive(Debug, Clone, Default)]
pub struct DeleteOptions {
    pub query: Option<String>,
    pub tag: Option<String>,
    pub color: bool,
}

/// The snippets of `all` that are not among `selected`, in order.
pub open spec fn kept(all: Seq<SnippetView>, selected: Seq<SnippetView>) -> Seq<SnippetView>
    decreases all.len(),
{
    if all.len() == 0 {
        seq![]
    } else if selected.contains(all.last()) {
        kept(all.drop_last(), selected)
    } else {
        kept(all.drop_last(), selected).push(all.last())
    }
}

/// The files that held a selected snippet and hold none of the kept ones.
pub open spec fn emptied(selected: Seq<SnippetView>, remaining: Seq<SnippetView>) -> Set<Seq<char>> {
    selected.map_values(|s: SnippetView| s.filename).to_set() - remaining.map_values(|s: SnippetView| s.filename).to_set()
}

/// What deleting `selected` does to the snippets.
pub struct DeletePlan {
    /// The snippets to save.
    pub remaining: Vec<SnippetInfo>,
    /// The files left without snippets, each once: they are to be emptied,
    /// since saving only rewrites files that still hold snippets.
    pub emptied_files: Vec<String>,
    /// The descriptions whose usage statistics go, one per deleted snippet.
    pub descriptions: Vec<String>,
}

/// Whether two snippets are the same in every field.
fn same_snippet(a: &SnippetInfo, b: &SnippetInfo) -> (r: bool)
    ensures
        r == (a@ == b@),
{
    if !str_eq(a.filename.as_str(), b.filename.as_str()) || !str_eq(a.description.as_str(), b.description.as_str())
        || !str_eq(a.command.as_str(), b.command.as_str()) || !str_eq(a.output.as_str(), b.output.as_str()) {
        return false;
    }
    if a.tag.len() != b.tag.len() {
        assert(a@.tag.len() != b@.tag.len());
        return false;
    }
    let mut i: usize = 0;
    while i < a.tag.len()
        invariant
            i <= a.tag.len(),
            a.tag.len() == b.tag.len(),
            forall|k: int| 0 <= k < i ==> a.tag@[k]@ == b.tag@[k]@,
        decreases a.tag.len() - i,
    {
        if !str_eq(a.tag[i].as_str(), b.tag[i].as_str()) {
            assert(a@.tag[i as int] != b@.tag[i as int]);
            return false;
        }
        i = i + 1;
    }
    assert(a@.tag =~= b@.tag);
    true
}

/// Whether `s` is among `v`.
fn contains_snippet(v: &Vec<SnippetInfo>, s: &SnippetInfo) -> (r: bool)
    ensures
        r == snippet_views(v@).contains(s@),
{
    let mut i: usize = 0;
    while i < v.len()
        invariant
            i <= v.len(),
            forall|k: int| 0 <= k < i ==> (#[trigger] v@[k])@ != s@,
        decreases v.len() - i,
    {
        if same_snippet(&v[i], s) {
            assert(snippet_views(v@)[i as int] == s@);
            return true;
        }
        i = i + 1;
    }
    proof {
        let vv = snippet_views(v@);
        if vv.contains(s@) {
            let k = choose|k: int| 0 <= k < vv.len() && vv[k] == s@;
            assert(v@[k]@ == s@);
        }
    }
    false
}

/// Whether `name` is among `v`.
fn contains_name(v: &Vec<String>, name: &str) -> (r: bool)
    ensures
        r == v@.map_values(|t: String| t@).contains(name@),
{
    let mut i: usize = 0;
    while i < v.len()
        invariant
            i <= v.len(),
            forall|k: int| 0 <= k < i ==> (#[trigger] v@[k])@ != name@,
        decreases v.len() - i,
    {
        if str_eq(v[i].as_str(), name) {
            assert(v@.map_values(|t: String| t@)[i as int] == name@);
            return true;
        }
        i = i + 1;
    }
    proof {
        let nv = v@.map_values(|t: String| t@);
        if nv.contains(name@) {
            let k = choose|k: int| 0 <= k < nv.len() && nv[k] == name@;
            assert(v@[k]@ == name@);
        }
    }
    false
}

proof fn lemma_push_to_set(s: Seq<Seq<char>>, a: Seq<char>)
    ensures
        s.push(a).to_set() == s.to_set().insert(a),
{
    assert forall|x: Seq<char>| s.push(a).to_set().contains(x) <==> s.to_set().insert(a).contains(x) by {
        if s.push(a).contains(x) && x != a {
            let j = choose|j: int| 0 <= j < s.len() + 1 && s.push(a)[j] == x;
            assert(s[j] == x);
        }
        if s.contains(x) {
            let j = choose|j: int| 0 <= j < s.len() && s[j] == x;
            assert(s.push(a)[j] == x);
        }
        if x == a {
            assert(s.push(a)[s.len() as int] == x);
        }
    }
    assert(s.push(a).to_set() =~= s.to_set().insert(a));
}

/// What deleting `selected` from `all` leaves: the other snippets, the files
/// to empty, and the descriptions of the deleted snippets.
pub fn run(all: &Vec<SnippetInfo>, selected: &Vec<SnippetInfo>) -> (r: DeletePlan)
    ensures
        snippet_views(r.remaining@) == kept(snippet_views(all@), snippet_views(selected@)),
        r.emptied_files@.map_values(|t: String| t@).to_set() == emptied(snippet_views(selected@), snippet_views(r.remaining@)),
        r.emptied_files@.map_values(|t: String| t@).no_duplicates(),
        r.descriptions@.map_values(|t: String| t@) == snippet_views(selected@).map_values(|s: SnippetView| s.description),
{
    let ghost av = snippet_views(all@);
    let ghost sv = snippet_views(selected@);
    let mut remaining: Vec<SnippetInfo> = Vec::new();
    let mut i: usize = 0;
    while i < all.len()
        invariant
            i <= all.len(),
            av == snippet_views(all@),
            sv == snippet_views(selected@),
            snippet_views(remaining@) == kept(av.take(i as int), sv),
        decreases all.len() - i,
    {
        assert(av.take(i + 1).drop_last() =~= av.take(i as int));
        assert(av[i as int] == all@[i as int]@);
        if !contains_snippet(selected, &all[i]) {
            let ghost before = snippet_views(remaining@);
            let x = all[i].duplicate();
            remaining.push(x);
            assert(snippet_views(remaining@) =~= before.push(x@));
        }
        i = i + 1;
    }
    assert(av.take(i as int) =~= av);
    let ghost rv = snippet_views(remaining@);
    let mut kept_names: Vec<String> = Vec::new();
    let mut j: usize = 0;
    while j < remaining.len()
        invariant
            j <= remaining.len(),
            rv == snippet_views(remaining@),
            kept_names@.map_values(|t: String| t@) == rv.take(j as int).map_values(|s: SnippetView| s.filename),
        decreases remaining.len() - j,
    {
        let ghost before = kept_names@.map_values(|t: String| t@);
        let n = remaining[j].filename.clone();
        kept_names.push(n);
        assert(kept_names@.map_values(|t: String| t@) =~= before.push(rv[j as int].filename));
        assert(rv.take(j + 1) =~= rv.take(j as int).push(rv[j as int]));
        j = j + 1;
        assert(kept_names@.map_values(|t: String| t@) =~= rv.take(j as int).map_values(|s: SnippetView| s.filename));
    }
    assert(rv.take(j as int) =~= rv);
    let ghost kn = rv.map_values(|s: SnippetView| s.filename);
    let mut emptied_files: Vec<String> = Vec::new();
    let mut descriptions: Vec<String> = Vec::new();
    let mut k: usize = 0;
    while k < selected.len()
        invariant
            k <= selected.len(),
            sv == snippet_views(selected@),
            kn == kept_names@.map_values(|t: String| t@),
            emptied_files@.map_values(|t: String| t@).to_set() == sv.take(k as int).map_values(|s: SnippetView| s.filename).to_set()
                - kn.to_set(),
            emptied_files@.map_values(|t: String| t@).no_duplicates(),
            descriptions@.map_values(|t: String| t@) == sv.take(k as int).map_values(|s: SnippetView| s.description),
        decreases selected.len() - k,
    {
        let ghost ev = emptied_files@.map_values(|t: String| t@);
        let ghost dv = descriptions@.map_values(|t: String| t@);
        let name = selected[k].filename.as_str();
        assert(sv[k as int].filename == name@);
        assert(sv.take(k + 1) =~= sv.take(k as int).push(sv[k as int]));
        assert(sv.take(k + 1).map_values(|s: SnippetView| s.filename) =~= sv.take(k as int).map_values(|s: SnippetView| s.filename).push(name@));
        proof {
            lemma_push_to_set(sv.take(k as int).map_values(|s: SnippetView| s.filename), name@);
        }
        if !contains_name(&kept_names, name) && !contains_name(&emptied_files, name) {
            emptied_files.push(selected[k].filename.clone());
            assert(emptied_files@.map_values(|t: String| t@) =~= ev.push(name@));
            proof {
                lemma_push_to_set(ev, name@);
            }
        }
        assert(emptied_files@.map_values(|t: String| t@).to_set() =~= sv.take(k + 1).map_values(|s: SnippetView| s.filename).to_set()
            - kn.to_set());
        descriptions.push(selected[k].description.clone());
        assert(descriptions@.map_values(|t: String| t@) =~= dv.push(sv[k as int].description));
        k = k + 1;
        assert(descriptions@.map_values(|t: String| t@) =~= sv.take(k as int).map_values(|s: SnippetView| s.description));
    }
    assert(sv.take(k as int) =~= sv);
    DeletePlan { remaining, emptied_files, descriptions }
}

} // verus!
