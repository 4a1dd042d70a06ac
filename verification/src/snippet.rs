//! Snippets: their ordering by the `sortby` setting and the filters that
//! narrow a list of them.
use vstd::prelude::*;
use crate::text::{find_from, find, occurs_at, str_eq, to_chars};
use crate::usage::{entry_less, entry_lt, UsageEntry, UsageStats};

verus! {

/// One saved command. `filename` is the file it was loaded from (empty for
/// a new snippet, which goes to the main snippet file).
#[derive(Debug, Clone, PartialEq)]
pub struct SnippetInfo {
    pub filename: String,
    pub description: String,
    pub command: String,
    pub tag: Vec<String>,
    pub output: String,
}

pub struct SnippetView {
    pub filename: Seq<char>,
    pub description: Seq<char>,
    pub command: Seq<char>,
    pub tag: Seq<Seq<char>>,
    pub output: Seq<char>,
}

impl View for SnippetInfo {
    type V = SnippetView;

    open spec fn view(&self) -> SnippetView {
        SnippetView {
            filename: self.filename@,
            description: self.description@,
            command: self.command@,
            tag: self.tag@.map_values(|t: String| t@),
            output: self.output@,
        }
    }
}

/// A list of snippets.
#[derive(Debug, Clone, Default, PartialEq)]
pub struct Snippets {
    pub snippets: Vec<SnippetInfo>,
}

pub open spec fn snippet_views(s: Seq<SnippetInfo>) -> Seq<SnippetView> {
    s.map_values(|x: SnippetInfo| x@)
}

/// A copy of a list of strings.
pub fn copy_strings(v: &Vec<String>) -> (r: Vec<String>)
    ensures
        r@.map_values(|t: String| t@) == v@.map_values(|t: String| t@),
{
    let mut r: Vec<String> = Vec::new();
    let mut i: usize = 0;
    while i < v.len()
        invariant
            i <= v.len(),
            r@.map_values(|t: String| t@) == v@.take(i as int).map_values(|t: String| t@),
        decreases v.len() - i,
    {
        let ghost before = r@.map_values(|t: String| t@);
        let c = v[i].clone();
        r.push(c);
        assert(r@.map_values(|t: String| t@) =~= before.push(v@[i as int]@));
        assert(v@.take(i + 1) =~= v@.take(i as int).push(v@[i as int]));
        i = i + 1;
        assert(r@.map_values(|t: String| t@) =~= v@.take(i as int).map_values(|t: String| t@));
    }
    assert(v@.take(i as int) =~= v@);
    r
}

impl SnippetInfo {
    /// A copy of this snippet.
    pub fn duplicate(&self) -> (r: SnippetInfo)
        ensures
            r@ == self@,
    {
        SnippetInfo {
            filename: self.filename.clone(),
            description: self.description.clone(),
            command: self.command.clone(),
            tag: copy_strings(&self.tag),
            output: self.output.clone(),
        }
    }
}

/// Plain lexicographic order of texts, character by character (the order
/// of `str`'s comparison: for UTF-8 text, byte order is code point order).
pub open spec fn text_lt(a: Seq<char>, b: Seq<char>) -> bool
    decreases a.len(),
{
    if a.len() == 0 {
        b.len() > 0
    } else if b.len() == 0 {
        false
    } else if (a[0] as u32) < (b[0] as u32) {
        true
    } else if a[0] == b[0] {
        text_lt(a.drop_first(), b.drop_first())
    } else {
        false
    }
}

/// Whether `a` orders before `b` (see `text_lt`).
pub fn text_less(a: &str, b: &str) -> (r: bool)
    ensures
        r == text_lt(a@, b@),
{
    let x = to_chars(a);
    let y = to_chars(b);
    let mut i: usize = 0;
    assert(x@.skip(0) =~= x@ && y@.skip(0) =~= y@);
    while i < x.len() && i < y.len() && x[i] == y[i]
        invariant
            i <= x.len(),
            i <= y.len(),
            text_lt(x@, y@) == text_lt(x@.skip(i as int), y@.skip(i as int)),
        decreases x.len() - i,
    {
        assert(x@.skip(i as int).drop_first() =~= x@.skip(i + 1));
        assert(y@.skip(i as int).drop_first() =~= y@.skip(i + 1));
        i = i + 1;
    }
    assert(x@ == a@ && y@ == b@);
    if i == x.len() {
        assert(x@.skip(i as int).len() == 0);
        i < y.len()
    } else if i == y.len() {
        false
    } else {
        assert(x@.skip(i as int)[0] == x@[i as int]);
        assert(y@.skip(i as int)[0] == y@[i as int]);
        (x[i] as u32) < (y[i] as u32)
    }
}

/// How `sortby` orders snippets.
#[derive(Debug, Clone, Copy, PartialEq, Eq, Structural)]
pub enum SortMode {
    /// Keep the stored order (most recent last): `""`, `recency`, anything unknown.
    Unchanged,
    /// `-recency`: the stored order reversed.
    Reverse,
    CommandDesc,
    CommandAsc,
    DescriptionDesc,
    DescriptionAsc,
    OutputDesc,
    OutputAsc,
    /// Most used first (ties: most recently used first).
    UsageDesc,
    /// Least used first.
    UsageAsc,
}

pub open spec fn sort_mode_of(s: Seq<char>) -> SortMode {
    if s == seq!['c', 'o', 'm', 'm', 'a', 'n', 'd'] || s == seq!['+', 'c', 'o', 'm', 'm', 'a', 'n', 'd'] {
        SortMode::CommandDesc
    } else if s == seq!['-', 'c', 'o', 'm', 'm', 'a', 'n', 'd'] {
        SortMode::CommandAsc
    } else if s == seq!['d', 'e', 's', 'c', 'r', 'i', 'p', 't', 'i', 'o', 'n'] || s == seq![
        '+',
        'd',
        'e',
        's',
        'c',
        'r',
        'i',
        'p',
        't',
        'i',
        'o',
        'n',
    ] {
        SortMode::DescriptionDesc
    } else if s == seq!['-', 'd', 'e', 's', 'c', 'r', 'i', 'p', 't', 'i', 'o', 'n'] {
        SortMode::DescriptionAsc
    } else if s == seq!['o', 'u', 't', 'p', 'u', 't'] || s == seq!['+', 'o', 'u', 't', 'p', 'u', 't'] {
        SortMode::OutputDesc
    } else if s == seq!['-', 'o', 'u', 't', 'p', 'u', 't'] {
        SortMode::OutputAsc
    } else if s == seq!['u', 's', 'a', 'g', 'e'] || s == seq!['+', 'u', 's', 'a', 'g', 'e'] {
        SortMode::UsageDesc
    } else if s == seq!['-', 'u', 's', 'a', 'g', 'e'] {
        SortMode::UsageAsc
    } else if s == seq!['-', 'r', 'e', 'c', 'e', 'n', 'c', 'y'] {
        SortMode::Reverse
    } else {
        SortMode::Unchanged
    }
}

fn chars_equal(s: &Vec<char>, w: Vec<char>) -> (r: bool)
    ensures
        r == (s@ == w@),
{
    if s.len() != w.len() {
        return false;
    }
    let mut i: usize = 0;
    while i < s.len()
        invariant
            s.len() == w.len(),
            i <= s.len(),
            forall|k: int| 0 <= k < i ==> s@[k] == w@[k],
        decreases s.len() - i,
    {
        if s[i] != w[i] {
            return false;
        }
        i = i + 1;
    }
    assert(s@ =~= w@);
    true
}

/// How the setting `sortby` orders snippets (see `sort_mode_of`).
pub fn sort_mode(sortby: &str) -> (m: SortMode)
    ensures
        m == sort_mode_of(sortby@),
{
    let s = to_chars(sortby);
    if chars_equal(&s, vec!['c', 'o', 'm', 'm', 'a', 'n', 'd']) || chars_equal(&s, vec!['+', 'c', 'o', 'm', 'm', 'a', 'n', 'd']) {
        SortMode::CommandDesc
    } else if chars_equal(&s, vec!['-', 'c', 'o', 'm', 'm', 'a', 'n', 'd']) {
        SortMode::CommandAsc
    } else if chars_equal(&s, vec!['d', 'e', 's', 'c', 'r', 'i', 'p', 't', 'i', 'o', 'n'])
        || chars_equal(&s, vec!['+', 'd', 'e', 's', 'c', 'r', 'i', 'p', 't', 'i', 'o', 'n']) {
        SortMode::DescriptionDesc
    } else if chars_equal(&s, vec!['-', 'd', 'e', 's', 'c', 'r', 'i', 'p', 't', 'i', 'o', 'n']) {
        SortMode::DescriptionAsc
    } else if chars_equal(&s, vec!['o', 'u', 't', 'p', 'u', 't']) || chars_equal(&s, vec!['+', 'o', 'u', 't', 'p', 'u', 't']) {
        SortMode::OutputDesc
    } else if chars_equal(&s, vec!['-', 'o', 'u', 't', 'p', 'u', 't']) {
        SortMode::OutputAsc
    } else if chars_equal(&s, vec!['u', 's', 'a', 'g', 'e']) || chars_equal(&s, vec!['+', 'u', 's', 'a', 'g', 'e']) {
        SortMode::UsageDesc
    } else if chars_equal(&s, vec!['-', 'u', 's', 'a', 'g', 'e']) {
        SortMode::UsageAsc
    } else if chars_equal(&s, vec!['-', 'r', 'e', 'c', 'e', 'n', 'c', 'y']) {
        SortMode::Reverse
    } else {
        SortMode::Unchanged
    }
}

/// The usage entry of a description: `(0, 0)` if it was never used.
pub open spec fn score_of(usage: Map<Seq<char>, UsageEntry>, description: Seq<char>) -> UsageEntry {
    if usage.contains_key(description) {
        usage[description]
    } else {
        UsageEntry { count: 0, last_used: 0 }
    }
}

/// Whether, under `mode`, snippet `a` must come strictly before snippet `b`.
pub open spec fn sorts_before(
    mode: SortMode,
    usage: Map<Seq<char>, UsageEntry>,
    a: SnippetView,
    b: SnippetView,
) -> bool {
    match mode {
        SortMode::CommandDesc => text_lt(b.command, a.command),
        SortMode::CommandAsc => text_lt(a.command, b.command),
        SortMode::DescriptionDesc => text_lt(b.description, a.description),
        SortMode::DescriptionAsc => text_lt(a.description, b.description),
        SortMode::OutputDesc => text_lt(b.output, a.output),
        SortMode::OutputAsc => text_lt(a.output, b.output),
        SortMode::UsageDesc => entry_lt(score_of(usage, b.description), score_of(usage, a.description)),
        SortMode::UsageAsc => entry_lt(score_of(usage, a.description), score_of(usage, b.description)),
        _ => false,
    }
}

/// `s` with `x` inserted just after the last element that `x` need not precede.
pub open spec fn insert_in_order(
    s: Seq<SnippetView>,
    x: SnippetView,
    mode: SortMode,
    usage: Map<Seq<char>, UsageEntry>,
) -> Seq<SnippetView>
    decreases s.len(),
{
    if s.len() == 0 {
        seq![x]
    } else if sorts_before(mode, usage, x, s.last()) {
        insert_in_order(s.drop_last(), x, mode, usage).push(s.last())
    } else {
        s.push(x)
    }
}

/// The stable sort of `s` under `mode`: elements that tie keep their order.
pub open spec fn stable_sort(s: Seq<SnippetView>, mode: SortMode, usage: Map<Seq<char>, UsageEntry>) -> Seq<
    SnippetView,
>
    decreases s.len(),
{
    if s.len() == 0 {
        seq![]
    } else {
        insert_in_order(stable_sort(s.drop_last(), mode, usage), s.last(), mode, usage)
    }
}

/// The snippets in the order `mode` gives them.
pub open spec fn ordered(s: Seq<SnippetView>, mode: SortMode, usage: Map<Seq<char>, UsageEntry>) -> Seq<SnippetView> {
    match mode {
        SortMode::Unchanged => s,
        SortMode::Reverse => s.reverse(),
        _ => stable_sort(s, mode, usage),
    }
}

/// Whether, under `mode`, `a` must come strictly before `b` (see `sorts_before`).
fn must_precede(mode: SortMode, usage: &UsageStats, a: &SnippetInfo, b: &SnippetInfo) -> (r: bool)
    ensures
        r == sorts_before(mode, usage@, a@, b@),
{
    match mode {
        SortMode::CommandDesc => text_less(b.command.as_str(), a.command.as_str()),
        SortMode::CommandAsc => text_less(a.command.as_str(), b.command.as_str()),
        SortMode::DescriptionDesc => text_less(b.description.as_str(), a.description.as_str()),
        SortMode::DescriptionAsc => text_less(a.description.as_str(), b.description.as_str()),
        SortMode::OutputDesc => text_less(b.output.as_str(), a.output.as_str()),
        SortMode::OutputAsc => text_less(a.output.as_str(), b.output.as_str()),
        SortMode::UsageDesc => entry_less(usage.score(b.description.as_str()), usage.score(a.description.as_str())),
        SortMode::UsageAsc => entry_less(usage.score(a.description.as_str()), usage.score(b.description.as_str())),
        _ => false,
    }
}

proof fn lemma_insert_split(
    s: Seq<SnippetView>,
    x: SnippetView,
    mode: SortMode,
    usage: Map<Seq<char>, UsageEntry>,
    j: int,
)
    requires
        0 <= j <= s.len(),
        forall|i: int| j <= i < s.len() ==> sorts_before(mode, usage, x, #[trigger] s[i]),
        j == 0 || !sorts_before(mode, usage, x, s[j - 1]),
    ensures
        insert_in_order(s, x, mode, usage) == s.take(j).push(x) + s.skip(j),
    decreases s.len(),
{
    if j == s.len() {
        if s.len() > 0 {
            assert(!sorts_before(mode, usage, x, s.last()));
        }
        assert(s.take(j) =~= s);
        assert(s.take(j).push(x) + s.skip(j) =~= s.push(x));
    } else {
        assert(sorts_before(mode, usage, x, s[s.len() - 1]));
        let d = s.drop_last();
        assert forall|i: int| j <= i < d.len() implies sorts_before(mode, usage, x, #[trigger] d[i]) by {
            assert(d[i] == s[i]);
        }
        if j > 0 {
            assert(d[j - 1] == s[j - 1]);
        }
        lemma_insert_split(d, x, mode, usage, j);
        assert(d.take(j) =~= s.take(j));
        assert(d.skip(j).push(s.last()) =~= s.skip(j));
        assert(insert_in_order(s, x, mode, usage) =~= s.take(j).push(x) + s.skip(j));
    }
}

impl Snippets {
    /// Orders the snippets by `sortby`: `command`, `description`, `output`
    /// (each also with `+`) sort by that field in descending order, and with
    /// `-` in ascending order; `usage` puts the most used first (ties: the
    /// most recently used), `-usage` the least used; `-recency` reverses the
    /// stored order; anything else (`recency`, `""`) keeps it. Sorting is
    /// stable: snippets that tie keep their relative order.
    pub fn order(&mut self, sortby: &str, usage_stats: &UsageStats)
        ensures
            snippet_views(final(self).snippets@) == ordered(
                snippet_views(old(self).snippets@),
                sort_mode_of(sortby@),
                usage_stats@,
            ),
    {
        let mode = sort_mode(sortby);
        let ghost s0 = snippet_views(self.snippets@);
        let mut items: Vec<SnippetInfo> = Vec::new();
        std::mem::swap(&mut items, &mut self.snippets);
        match mode {
            SortMode::Unchanged => {
                self.snippets = items;
            },
            SortMode::Reverse => {
                let mut out: Vec<SnippetInfo> = Vec::new();
                let ghost n = items.len();
                while items.len() > 0
                    invariant
                        n == s0.len(),
                        items.len() + out.len() == n,
                        snippet_views(items@) == s0.take(items.len() as int),
                        snippet_views(out@) == s0.reverse().take(out.len() as int),
                    decreases items.len(),
                {
                    let ghost k = items.len();
                    let ghost ov = snippet_views(out@);
                    let ghost iv = items@;
                    assert(snippet_views(iv)[k - 1] == iv[k - 1]@);
                    let x = items.pop().unwrap();
                    assert(x@ == s0[k - 1]);
                    out.push(x);
                    assert(snippet_views(out@) =~= ov.push(x@));
                    assert(snippet_views(items@) =~= s0.take(items.len() as int));
                    assert(snippet_views(out@) =~= s0.reverse().take(out.len() as int));
                }
                assert(snippet_views(out@) =~= s0.reverse());
                self.snippets = out;
            },
            _ => {
                let mut out: Vec<SnippetInfo> = Vec::new();
                let ghost n = items.len();
                let mut done: usize = 0;
                while items.len() > 0
                    invariant
                        n == s0.len(),
                        done + items.len() == n,
                        snippet_views(items@) == s0.skip(done as int),
                        snippet_views(out@) == stable_sort(s0.take(done as int), mode, usage_stats@),
                    decreases items.len(),
                {
                    let ghost iv = items@;
                    assert(snippet_views(iv)[0] == iv[0]@);
                    let x = items.remove(0);
                    assert(items@ =~= iv.remove(0));
                    assert(snippet_views(items@) =~= snippet_views(iv).skip(1));
                    assert(s0.skip(done as int).skip(1) =~= s0.skip(done + 1));
                    assert(snippet_views(items@) =~= s0.skip(done + 1));
                    assert(x@ == s0[done as int]);
                    let ghost sorted = snippet_views(out@);
                    let mut j = out.len();
                    while j > 0 && must_precede(mode, usage_stats, &x, &out[j - 1])
                        invariant
                            j <= out.len(),
                            sorted == snippet_views(out@),
                            forall|i: int| j <= i < sorted.len() ==> sorts_before(mode, usage_stats@, x@, #[trigger] sorted[i]),
                        decreases j,
                    {
                        j = j - 1;
                    }
                    proof {
                        lemma_insert_split(sorted, x@, mode, usage_stats@, j as int);
                    }
                    out.insert(j, x);
                    assert(snippet_views(out@) =~= sorted.take(j as int).push(x@) + sorted.skip(j as int));
                    assert(s0.take(done + 1).drop_last() =~= s0.take(done as int));
                    done = done + 1;
                }
                assert(s0.take(done as int) =~= s0);
                self.snippets = out;
            },
        }
    }
}

} // verus!

verus! {

/// A name for what `str::to_lowercase` returns: the Unicode lowercase
/// mapping of the text, which depends on the text alone.
pub uninterp spec fn lowercase(s: Seq<char>) -> Seq<char>;

/// `str::to_lowercase`: the Unicode lowercase equivalent of the text, which
/// for the empty text is empty. What other text maps to is only named.
#[verifier::external_body]
fn to_lowercase(s: &str) -> (r: String)
    ensures
        r@ == lowercase(s@),
        s@.len() == 0 ==> r@.len() == 0,
{
    s.to_lowercase()
}

/// Whether one of `s`'s tags is among `tags`.
pub open spec fn has_any_tag(s: SnippetView, tags: Seq<Seq<char>>) -> bool {
    exists|i: int, j: int| 0 <= i < s.tag.len() && 0 <= j < tags.len() && s.tag[i] == tags[j]
}

/// Whether `s` has the tag `tag`.
pub open spec fn has_tag(s: SnippetView, tag: Seq<char>) -> bool {
    exists|i: int| 0 <= i < s.tag.len() && s.tag[i] == tag
}

/// Whether `needle` occurs in `s`'s description or command, ignoring case.
pub open spec fn mentions(s: SnippetView, needle: Seq<char>) -> bool {
    find_from(lowercase(s.description), lowercase(needle), 0) is Some || find_from(
        lowercase(s.command),
        lowercase(needle),
        0,
    ) is Some
}

pub open spec fn any_tag_pred(tags: Seq<Seq<char>>) -> spec_fn(SnippetView) -> bool {
    |s: SnippetView| has_any_tag(s, tags)
}

pub open spec fn tag_pred(tag: Seq<char>) -> spec_fn(SnippetView) -> bool {
    |s: SnippetView| has_tag(s, tag)
}

pub open spec fn mention_pred(needle: Seq<char>) -> spec_fn(SnippetView) -> bool {
    |s: SnippetView| mentions(s, needle)
}

/// With a needle that lowercases to nothing, every snippet is mentioned and
/// filtering keeps them all.
proof fn lemma_empty_needle_mentioned(s: Seq<SnippetView>, needle: Seq<char>)
    requires
        lowercase(needle).len() == 0,
    ensures
        s.filter(mention_pred(needle)) == s,
    decreases s.len(),
{
    if s.len() > 0 {
        lemma_empty_needle_mentioned(s.drop_last(), needle);
        let x = s.last();
        assert(lowercase(x.description).subrange(0, 0) =~= lowercase(needle));
        assert(occurs_at(lowercase(x.description), lowercase(needle), 0));
        assert(mention_pred(needle)(x));
        s.drop_last().lemma_filter_push(x, mention_pred(needle));
        assert(s.drop_last().push(x) =~= s);
    }
}

/// Whether `t` is one of `tags`.
fn tag_listed(t: &String, tags: &[String]) -> (r: bool)
    ensures
        r == exists|j: int| 0 <= j < tags@.len() && t@ == tags@[j]@,
{
    let mut j: usize = 0;
    while j < tags.len()
        invariant
            j <= tags.len(),
            forall|k: int| 0 <= k < j ==> t@ != tags@[k]@,
        decreases tags.len() - j,
    {
        if str_eq(t.as_str(), tags[j].as_str()) {
            return true;
        }
        j = j + 1;
    }
    false
}

/// Whether one of `s`'s tags is among `tags` (see `has_any_tag`).
fn tagged_any(s: &SnippetInfo, tags: &[String]) -> (r: bool)
    ensures
        r == has_any_tag(s@, tags@.map_values(|t: String| t@)),
{
    let ghost tv = tags@.map_values(|t: String| t@);
    let mut i: usize = 0;
    while i < s.tag.len()
        invariant
            i <= s.tag.len(),
            tv == tags@.map_values(|t: String| t@),
            forall|k: int, j: int| 0 <= k < i && 0 <= j < tv.len() ==> s@.tag[k] != tv[j],
        decreases s.tag.len() - i,
    {
        if tag_listed(&s.tag[i], tags) {
            let ghost j = choose|j: int| 0 <= j < tags@.len() && s.tag@[i as int]@ == tags@[j]@;
            assert(s@.tag[i as int] == tv[j]);
            return true;
        }
        assert forall|j: int| 0 <= j < tv.len() implies s@.tag[i as int] != tv[j] by {
            assert(tv[j] == tags@[j]@);
        }
        i = i + 1;
    }
    false
}

/// Whether `s` has the tag `tag` (see `has_tag`).
fn tagged(s: &SnippetInfo, tag: &str) -> (r: bool)
    ensures
        r == has_tag(s@, tag@),
{
    let mut i: usize = 0;
    while i < s.tag.len()
        invariant
            i <= s.tag.len(),
            forall|k: int| 0 <= k < i ==> s@.tag[k] != tag@,
        decreases s.tag.len() - i,
    {
        if str_eq(s.tag[i].as_str(), tag) {
            assert(s@.tag[i as int] == tag@);
            return true;
        }
        i = i + 1;
    }
    false
}

impl Snippets {
    /// The snippets that carry at least one of `tags`, in order (`list -t`).
    pub fn filter_by_tags(&self, tags: &[String]) -> (r: Vec<SnippetInfo>)
        ensures
            snippet_views(r@) == snippet_views(self.snippets@).filter(
                any_tag_pred(tags@.map_values(|t: String| t@)),
            ),
    {
        let ghost sv = snippet_views(self.snippets@);
        let ghost pred = any_tag_pred(tags@.map_values(|t: String| t@));
        let mut r: Vec<SnippetInfo> = Vec::new();
        let mut i: usize = 0;
        while i < self.snippets.len()
            invariant
                i <= self.snippets.len(),
                sv == snippet_views(self.snippets@),
                pred == any_tag_pred(tags@.map_values(|t: String| t@)),
                snippet_views(r@) == sv.take(i as int).filter(pred),
            decreases self.snippets.len() - i,
        {
            let ghost before = snippet_views(r@);
            assert(sv.take(i + 1).drop_last() =~= sv.take(i as int));
            assert(sv[i as int] == self.snippets@[i as int]@);
            assert(sv.take(i + 1).last() == sv[i as int]);
            reveal_with_fuel(Seq::filter, 1);
            assert(sv.take(i + 1).filter(pred) == (if pred(sv[i as int]) {
                sv.take(i as int).filter(pred).push(sv[i as int])
            } else {
                sv.take(i as int).filter(pred)
            }));
            let b = tagged_any(&self.snippets[i], tags);
            assert(b == pred(sv[i as int]));
            if b {
                let c = self.snippets[i].duplicate();
                r.push(c);
                assert(snippet_views(r@) =~= before.push(c@));
            }
            i = i + 1;
        }
        assert(sv.take(i as int) =~= sv);
        r
    }

    /// The snippets that carry exactly the tag `tag`, in order.
    pub fn filter_by_single_tag(&self, tag: &str) -> (r: Vec<SnippetInfo>)
        ensures
            snippet_views(r@) == snippet_views(self.snippets@).filter(tag_pred(tag@)),
    {
        let ghost sv = snippet_views(self.snippets@);
        let ghost pred = tag_pred(tag@);
        let mut r: Vec<SnippetInfo> = Vec::new();
        let mut i: usize = 0;
        while i < self.snippets.len()
            invariant
                i <= self.snippets.len(),
                sv == snippet_views(self.snippets@),
                pred == tag_pred(tag@),
                snippet_views(r@) == sv.take(i as int).filter(pred),
            decreases self.snippets.len() - i,
        {
            let ghost before = snippet_views(r@);
            assert(sv.take(i + 1).drop_last() =~= sv.take(i as int));
            assert(sv[i as int] == self.snippets@[i as int]@);
            assert(sv.take(i + 1).last() == sv[i as int]);
            reveal_with_fuel(Seq::filter, 1);
            assert(sv.take(i + 1).filter(pred) == (if pred(sv[i as int]) {
                sv.take(i as int).filter(pred).push(sv[i as int])
            } else {
                sv.take(i as int).filter(pred)
            }));
            if tagged(&self.snippets[i], tag) {
                let c = self.snippets[i].duplicate();
                r.push(c);
                assert(snippet_views(r@) =~= before.push(c@));
            }
            i = i + 1;
        }
        assert(sv.take(i as int) =~= sv);
        r
    }

    /// The snippets whose description or command contains `needle`, ignoring
    /// case, in order (`list -f`, `search -f`).
    pub fn filter_by_text(&self, needle: &str) -> (r: Vec<SnippetInfo>)
        ensures
            snippet_views(r@) == snippet_views(self.snippets@).filter(mention_pred(needle@)),
            needle@.len() == 0 ==> snippet_views(r@) == snippet_views(self.snippets@),
    {
        let ghost sv = snippet_views(self.snippets@);
        let ghost pred = mention_pred(needle@);
        let lowered = to_lowercase(needle);
        proof {
            if needle@.len() == 0 {
                lemma_empty_needle_mentioned(sv, needle@);
            }
        }
        let n = to_chars(lowered.as_str());
        let mut r: Vec<SnippetInfo> = Vec::new();
        let mut i: usize = 0;
        while i < self.snippets.len()
            invariant
                i <= self.snippets.len(),
                sv == snippet_views(self.snippets@),
                n@ == lowercase(needle@),
                pred == mention_pred(needle@),
                snippet_views(r@) == sv.take(i as int).filter(pred),
            decreases self.snippets.len() - i,
        {
            let ghost before = snippet_views(r@);
            assert(sv.take(i + 1).drop_last() =~= sv.take(i as int));
            assert(sv[i as int] == self.snippets@[i as int]@);
            assert(sv.take(i + 1).last() == sv[i as int]);
            reveal_with_fuel(Seq::filter, 1);
            assert(sv.take(i + 1).filter(pred) == (if pred(sv[i as int]) {
                sv.take(i as int).filter(pred).push(sv[i as int])
            } else {
                sv.take(i as int).filter(pred)
            }));
            let d = to_chars(to_lowercase(self.snippets[i].description.as_str()).as_str());
            let c = to_chars(to_lowercase(self.snippets[i].command.as_str()).as_str());
            if find(&d, &n).is_some() || find(&c, &n).is_some() {
                let x = self.snippets[i].duplicate();
                r.push(x);
                assert(snippet_views(r@) =~= before.push(x@));
            }
            i = i + 1;
        }
        assert(sv.take(i as int) =~= sv);
        r
    }
}

} // verus!

verus! {

proof fn lemma_text_lt_irreflexive(a: Seq<char>)
    ensures
        !text_lt(a, a),
    decreases a.len(),
{
    if a.len() > 0 {
        lemma_text_lt_irreflexive(a.drop_first());
    }
}

proof fn lemma_text_lt_transitive(a: Seq<char>, b: Seq<char>, c: Seq<char>)
    requires
        text_lt(a, b),
        text_lt(b, c),
    ensures
        text_lt(a, c),
    decreases a.len(),
{
    if a.len() > 0 && b.len() > 0 && c.len() > 0 && a[0] == b[0] && b[0] == c[0] {
        lemma_text_lt_transitive(a.drop_first(), b.drop_first(), c.drop_first());
    }
}

proof fn lemma_text_lt_total(a: Seq<char>, b: Seq<char>)
    requires
        a != b,
    ensures
        text_lt(a, b) || text_lt(b, a),
    decreases a.len(),
{
    if a.len() > 0 && b.len() > 0 && a[0] == b[0] {
        if a.drop_first() == b.drop_first() {
            assert(a =~= seq![a[0]] + a.drop_first());
            assert(b =~= seq![b[0]] + b.drop_first());
        }
        lemma_text_lt_total(a.drop_first(), b.drop_first());
    } else if a.len() == 0 && b.len() == 0 {
        assert(a =~= b);
    } else if a.len() > 0 && b.len() > 0 {
        vstd::utf8::char_u32_cast(a[0], a[0] as u32);
        vstd::utf8::char_u32_cast(b[0], b[0] as u32);
        assert((a[0] as u32) != (b[0] as u32));
    }
}

/// Whether `mode` sorts by a key (rather than keeping or reversing the stored order).
pub open spec fn sorts_by_key(mode: SortMode) -> bool {
    mode != SortMode::Unchanged && mode != SortMode::Reverse
}

proof fn lemma_text_not_lt_chain(x: Seq<char>, y: Seq<char>, z: Seq<char>)
    requires
        !text_lt(x, y),
        !text_lt(y, z),
    ensures
        !text_lt(x, z),
{
    if text_lt(x, z) {
        if x != y {
            lemma_text_lt_total(x, y);
            lemma_text_lt_transitive(y, x, z);
            if y != z {
                lemma_text_lt_total(y, z);
                lemma_text_lt_transitive(z, y, z);
                lemma_text_lt_irreflexive(z);
            } else {
                lemma_text_lt_irreflexive(y);
            }
        } else {
        }
    }
}

proof fn lemma_before_asymmetric(mode: SortMode, usage: Map<Seq<char>, UsageEntry>, a: SnippetView, b: SnippetView)
    requires
        sorts_before(mode, usage, a, b),
    ensures
        !sorts_before(mode, usage, b, a),
{
    match mode {
        SortMode::CommandDesc => {
            if text_lt(a.command, b.command) {
                lemma_text_lt_transitive(a.command, b.command, a.command);
                lemma_text_lt_irreflexive(a.command);
            }
        },
        SortMode::CommandAsc => {
            if text_lt(b.command, a.command) {
                lemma_text_lt_transitive(a.command, b.command, a.command);
                lemma_text_lt_irreflexive(a.command);
            }
        },
        SortMode::DescriptionDesc => {
            if text_lt(a.description, b.description) {
                lemma_text_lt_transitive(a.description, b.description, a.description);
                lemma_text_lt_irreflexive(a.description);
            }
        },
        SortMode::DescriptionAsc => {
            if text_lt(b.description, a.description) {
                lemma_text_lt_transitive(a.description, b.description, a.description);
                lemma_text_lt_irreflexive(a.description);
            }
        },
        SortMode::OutputDesc => {
            if text_lt(a.output, b.output) {
                lemma_text_lt_transitive(a.output, b.output, a.output);
                lemma_text_lt_irreflexive(a.output);
            }
        },
        SortMode::OutputAsc => {
            if text_lt(b.output, a.output) {
                lemma_text_lt_transitive(a.output, b.output, a.output);
                lemma_text_lt_irreflexive(a.output);
            }
        },
        _ => {},
    }
}

proof fn lemma_not_before_chain(
    mode: SortMode,
    usage: Map<Seq<char>, UsageEntry>,
    x: SnippetView,
    y: SnippetView,
    z: SnippetView,
)
    requires
        !sorts_before(mode, usage, x, y),
        !sorts_before(mode, usage, y, z),
    ensures
        !sorts_before(mode, usage, x, z),
{
    match mode {
        SortMode::CommandDesc => lemma_text_not_lt_chain(z.command, y.command, x.command),
        SortMode::CommandAsc => lemma_text_not_lt_chain(x.command, y.command, z.command),
        SortMode::DescriptionDesc => lemma_text_not_lt_chain(z.description, y.description, x.description),
        SortMode::DescriptionAsc => lemma_text_not_lt_chain(x.description, y.description, z.description),
        SortMode::OutputDesc => lemma_text_not_lt_chain(z.output, y.output, x.output),
        SortMode::OutputAsc => lemma_text_not_lt_chain(x.output, y.output, z.output),
        _ => {},
    }
}

/// Whether no element of `s` must come before an earlier one.
pub open spec fn in_order(s: Seq<SnippetView>, mode: SortMode, usage: Map<Seq<char>, UsageEntry>) -> bool {
    forall|i: int, j: int| 0 <= i < j < s.len() ==> !sorts_before(mode, usage, #[trigger] s[j], #[trigger] s[i])
}

proof fn lemma_insert_in_order(s: Seq<SnippetView>, x: SnippetView, mode: SortMode, usage: Map<Seq<char>, UsageEntry>)
    requires
        in_order(s, mode, usage),
    ensures
        in_order(insert_in_order(s, x, mode, usage), mode, usage),
        insert_in_order(s, x, mode, usage).to_multiset() == s.to_multiset().insert(x),
    decreases s.len(),
{
    broadcast use vstd::seq_lib::group_to_multiset_ensures;
    if s.len() == 0 {
        assert(seq![x] =~= Seq::<SnippetView>::empty().push(x));
    } else if sorts_before(mode, usage, x, s.last()) {
        let d = s.drop_last();
        assert forall|i: int, j: int| 0 <= i < j < d.len() implies !sorts_before(mode, usage, #[trigger] d[j], #[trigger] d[i]) by {
            assert(d[i] == s[i] && d[j] == s[j]);
        }
        lemma_insert_in_order(d, x, mode, usage);
        let r0 = insert_in_order(d, x, mode, usage);
        let r = r0.push(s.last());
        lemma_before_asymmetric(mode, usage, x, s.last());
        assert forall|i: int, j: int| 0 <= i < j < r.len() implies !sorts_before(mode, usage, #[trigger] r[j], #[trigger] r[i]) by {
            if j == r.len() - 1 {
                assert(r[j] == s.last());
                // r[i] is x or an element of d
                if r0[i] == x {
                } else {
                    assert(r0.to_multiset().count(r0[i]) > 0);
                    assert(d.to_multiset().insert(x).count(r0[i]) > 0);
                    assert(d.to_multiset().count(r0[i]) > 0);
                    let k = choose|k: int| 0 <= k < d.len() && d[k] == r0[i];
                    assert(s[k] == d[k]);
                    assert(!sorts_before(mode, usage, s[s.len() - 1], s[k]));
                }
            } else {
                assert(r[i] == r0[i] && r[j] == r0[j]);
            }
        }
        assert(s.to_multiset() =~= d.to_multiset().insert(s.last())) by {
            assert(s =~= d.push(s.last()));
        }
    } else {
        let r = s.push(x);
        assert forall|i: int, j: int| 0 <= i < j < r.len() implies !sorts_before(mode, usage, #[trigger] r[j], #[trigger] r[i]) by {
            if j == r.len() - 1 {
                if i < s.len() - 1 {
                    lemma_not_before_chain(mode, usage, x, s.last(), s[i]);
                }
            } else {
                assert(r[i] == s[i] && r[j] == s[j]);
            }
        }
    }
}

proof fn lemma_stable_sort(s: Seq<SnippetView>, mode: SortMode, usage: Map<Seq<char>, UsageEntry>)
    ensures
        in_order(stable_sort(s, mode, usage), mode, usage),
        stable_sort(s, mode, usage).to_multiset() == s.to_multiset(),
    decreases s.len(),
{
    broadcast use vstd::seq_lib::group_to_multiset_ensures;
    if s.len() > 0 {
        lemma_stable_sort(s.drop_last(), mode, usage);
        lemma_insert_in_order(stable_sort(s.drop_last(), mode, usage), s.last(), mode, usage);
        assert(s =~= s.drop_last().push(s.last()));
    }
}

/// Ordering keeps the same snippets (each as often as before), and when it
/// sorts by a key, no snippet ends up after one it must precede.
pub proof fn law_order_sorts_a_permutation(s: Seq<SnippetView>, mode: SortMode, usage: Map<Seq<char>, UsageEntry>)
    ensures
        ordered(s, mode, usage).to_multiset() == s.to_multiset(),
        sorts_by_key(mode) ==> in_order(ordered(s, mode, usage), mode, usage),
{
    lemma_stable_sort(s, mode, usage);
    if mode == SortMode::Reverse {
        s.lemma_reverse_to_multiset();
    }
}

/// Whether neither of `a` and `b` must come before the other under `mode`.
pub open spec fn ties(mode: SortMode, usage: Map<Seq<char>, UsageEntry>, a: SnippetView, b: SnippetView) -> bool {
    !sorts_before(mode, usage, a, b) && !sorts_before(mode, usage, b, a)
}

/// The snippets that tie with `x` under `mode`.
pub open spec fn tie_pred(mode: SortMode, usage: Map<Seq<char>, UsageEntry>, x: SnippetView) -> spec_fn(
    SnippetView,
) -> bool {
    |y: SnippetView| ties(mode, usage, x, y)
}

proof fn lemma_text_tie(a: Seq<char>, b: Seq<char>)
    requires
        !text_lt(a, b),
        !text_lt(b, a),
    ensures
        a == b,
{
    if a != b {
        lemma_text_lt_total(a, b);
    }
}

/// Two snippets that both tie with `x` tie with each other.
proof fn lemma_tie_not_before(
    mode: SortMode,
    usage: Map<Seq<char>, UsageEntry>,
    x: SnippetView,
    z: SnippetView,
    e: SnippetView,
)
    requires
        ties(mode, usage, x, z),
        ties(mode, usage, x, e),
    ensures
        !sorts_before(mode, usage, z, e),
{
    match mode {
        SortMode::CommandDesc | SortMode::CommandAsc => {
            lemma_text_tie(x.command, z.command);
            lemma_text_tie(x.command, e.command);
            lemma_text_lt_irreflexive(z.command);
        },
        SortMode::DescriptionDesc | SortMode::DescriptionAsc => {
            lemma_text_tie(x.description, z.description);
            lemma_text_tie(x.description, e.description);
            lemma_text_lt_irreflexive(z.description);
        },
        SortMode::OutputDesc | SortMode::OutputAsc => {
            lemma_text_tie(x.output, z.output);
            lemma_text_tie(x.output, e.output);
            lemma_text_lt_irreflexive(z.output);
        },
        _ => {},
    }
}

proof fn lemma_insert_keeps_ties(
    t: Seq<SnippetView>,
    z: SnippetView,
    mode: SortMode,
    usage: Map<Seq<char>, UsageEntry>,
    x: SnippetView,
)
    ensures
        ({
            let p = tie_pred(mode, usage, x);
            insert_in_order(t, z, mode, usage).filter(p) == if p(z) {
                t.filter(p).push(z)
            } else {
                t.filter(p)
            }
        }),
    decreases t.len(),
{
    let p = tie_pred(mode, usage, x);
    if t.len() == 0 {
        t.lemma_filter_push(z, p);
        assert(t.push(z) =~= seq![z]);
    } else if sorts_before(mode, usage, z, t.last()) {
        let dl = t.drop_last();
        lemma_insert_keeps_ties(dl, z, mode, usage, x);
        let inner = insert_in_order(dl, z, mode, usage);
        inner.lemma_filter_push(t.last(), p);
        dl.lemma_filter_push(t.last(), p);
        assert(dl.push(t.last()) =~= t);
        if p(z) && p(t.last()) {
            lemma_tie_not_before(mode, usage, x, z, t.last());
        }
        if p(z) {
            dl.filter(p).lemma_filter_push(z, p);
        }
    } else {
        t.lemma_filter_push(z, p);
    }
}

proof fn lemma_sort_keeps_ties(
    s: Seq<SnippetView>,
    mode: SortMode,
    usage: Map<Seq<char>, UsageEntry>,
    x: SnippetView,
)
    ensures
        stable_sort(s, mode, usage).filter(tie_pred(mode, usage, x)) == s.filter(tie_pred(mode, usage, x)),
    decreases s.len(),
{
    if s.len() > 0 {
        let p = tie_pred(mode, usage, x);
        lemma_sort_keeps_ties(s.drop_last(), mode, usage, x);
        lemma_insert_keeps_ties(stable_sort(s.drop_last(), mode, usage), s.last(), mode, usage, x);
        s.drop_last().lemma_filter_push(s.last(), p);
        assert(s.drop_last().push(s.last()) =~= s);
    }
}

/// Law: sorting by a key is stable: the snippets that tie with any given
/// snippet (neither must come before the other) come out in the order they
/// had before.
pub proof fn law_order_is_stable(
    s: Seq<SnippetView>,
    mode: SortMode,
    usage: Map<Seq<char>, UsageEntry>,
    x: SnippetView,
)
    requires
        sorts_by_key(mode),
    ensures
        ordered(s, mode, usage).filter(tie_pred(mode, usage, x)) == s.filter(tie_pred(mode, usage, x)),
{
    lemma_sort_keeps_ties(s, mode, usage, x);
}

/// Law: `sortby = "usage"` puts a snippet used more often before one used
/// less often, whatever the times of their last use; only between snippets
/// used equally often does the more recently used come first. `-usage` is
/// the other way round: fewer uses first, and among equal counts the less
/// recently used first.
pub proof fn law_usage_order_counts_first(s: Seq<SnippetView>, usage: Map<Seq<char>, UsageEntry>)
    ensures
        ({
            let r = ordered(s, sort_mode_of(seq!['u', 's', 'a', 'g', 'e']), usage);
            forall|i: int, j: int|
                0 <= i < j < r.len() ==> {
                    let a = score_of(usage, #[trigger] r[i].description);
                    let b = score_of(usage, #[trigger] r[j].description);
                    a.count >= b.count && (a.count == b.count ==> a.last_used >= b.last_used)
                }
        }),
        ({
            let r = ordered(s, sort_mode_of(seq!['-', 'u', 's', 'a', 'g', 'e']), usage);
            forall|i: int, j: int|
                0 <= i < j < r.len() ==> {
                    let a = score_of(usage, #[trigger] r[i].description);
                    let b = score_of(usage, #[trigger] r[j].description);
                    a.count <= b.count && (a.count == b.count ==> a.last_used <= b.last_used)
                }
        }),
{
    let up = seq!['u', 's', 'a', 'g', 'e'];
    let down = seq!['-', 'u', 's', 'a', 'g', 'e'];
    assert(sort_mode_of(up) == SortMode::UsageDesc);
    assert(down != up && down != seq!['+', 'u', 's', 'a', 'g', 'e']) by {
        assert(down[0] != up[0]);
        assert(down.len() == 6);
    }
    assert(sort_mode_of(down) == SortMode::UsageAsc);
    law_order_sorts_a_permutation(s, SortMode::UsageDesc, usage);
    law_order_sorts_a_permutation(s, SortMode::UsageAsc, usage);
    let r1 = ordered(s, SortMode::UsageDesc, usage);
    assert forall|i: int, j: int| 0 <= i < j < r1.len() implies {
        let a = score_of(usage, #[trigger] r1[i].description);
        let b = score_of(usage, #[trigger] r1[j].description);
        a.count >= b.count && (a.count == b.count ==> a.last_used >= b.last_used)
    } by {
        assert(!sorts_before(SortMode::UsageDesc, usage, r1[j], r1[i]));
    }
    let r2 = ordered(s, SortMode::UsageAsc, usage);
    assert forall|i: int, j: int| 0 <= i < j < r2.len() implies {
        let a = score_of(usage, #[trigger] r2[i].description);
        let b = score_of(usage, #[trigger] r2[j].description);
        a.count <= b.count && (a.count == b.count ==> a.last_used <= b.last_used)
    } by {
        assert(!sorts_before(SortMode::UsageAsc, usage, r2[j], r2[i]));
    }
}


/// The file a snippet is saved to: its own, or `main` for a new snippet.
pub open spec fn target_file(s: SnippetView, main: Seq<char>) -> Seq<char> {
    if s.filename.len() == 0 {
        main
    } else {
        s.filename
    }
}

/// The files the snippets are saved to, each once, in order of first use.
pub open spec fn save_files(ss: Seq<SnippetView>, main: Seq<char>) -> Seq<Seq<char>>
    decreases ss.len(),
{
    if ss.len() == 0 {
        seq![]
    } else {
        let fs = save_files(ss.drop_last(), main);
        if fs.contains(target_file(ss.last(), main)) {
            fs
        } else {
            fs.push(target_file(ss.last(), main))
        }
    }
}

/// The snippets saved to `file`, in order.
pub open spec fn saved_to(ss: Seq<SnippetView>, main: Seq<char>, file: Seq<char>) -> Seq<SnippetView>
    decreases ss.len(),
{
    if ss.len() == 0 {
        seq![]
    } else if target_file(ss.last(), main) == file {
        saved_to(ss.drop_last(), main, file).push(ss.last())
    } else {
        saved_to(ss.drop_last(), main, file)
    }
}

proof fn lemma_saved_to_unused(ss: Seq<SnippetView>, main: Seq<char>, file: Seq<char>)
    requires
        !save_files(ss, main).contains(file),
    ensures
        saved_to(ss, main, file) == Seq::<SnippetView>::empty(),
    decreases ss.len(),
{
    if ss.len() > 0 {
        let fs = save_files(ss.drop_last(), main);
        if fs.contains(file) {
            assert(save_files(ss, main).contains(file)) by {
                let j = choose|j: int| 0 <= j < fs.len() && fs[j] == file;
                if !fs.contains(target_file(ss.last(), main)) {
                    assert(fs.push(target_file(ss.last(), main))[j] == file);
                }
            }
        }
        if target_file(ss.last(), main) == file {
            assert(save_files(ss, main).contains(file)) by {
                if !fs.contains(file) {
                    assert(fs.push(file)[fs.len() as int] == file);
                }
            }
        }
        lemma_saved_to_unused(ss.drop_last(), main, file);
    }
}

proof fn lemma_save_files_distinct(ss: Seq<SnippetView>, main: Seq<char>)
    ensures
        save_files(ss, main).no_duplicates(),
    decreases ss.len(),
{
    if ss.len() > 0 {
        lemma_save_files_distinct(ss.drop_last(), main);
    }
}

impl Snippets {
    /// The snippets grouped by the file they are saved to (see `target_file`):
    /// one group per file, in order of first use, each holding that file's
    /// snippets in order. Saving writes each group to its file in full.
    pub fn grouped_by_file(&self, main: &str) -> (r: Vec<(String, Vec<SnippetInfo>)>)
        ensures
            r@.map_values(|g: (String, Vec<SnippetInfo>)| g.0@) == save_files(snippet_views(self.snippets@), main@),
            forall|k: int| 0 <= k < r@.len() ==> snippet_views((#[trigger] r@[k]).1@) == saved_to(
                snippet_views(self.snippets@),
                main@,
                r@[k].0@,
            ),
    {
        let ghost sv = snippet_views(self.snippets@);
        let mut groups: Vec<(String, Vec<SnippetInfo>)> = Vec::new();
        let mut i: usize = 0;
        while i < self.snippets.len()
            invariant
                i <= self.snippets.len(),
                sv == snippet_views(self.snippets@),
                groups@.map_values(|g: (String, Vec<SnippetInfo>)| g.0@) == save_files(sv.take(i as int), main@),
                forall|k: int| 0 <= k < groups@.len() ==> snippet_views((#[trigger] groups@[k]).1@) == saved_to(
                    sv.take(i as int),
                    main@,
                    groups@[k].0@,
                ),
            decreases self.snippets.len() - i,
        {
            let ghost pre = sv.take(i as int);
            let ghost post = sv.take(i + 1);
            let ghost files = groups@.map_values(|g: (String, Vec<SnippetInfo>)| g.0@);
            assert(post.drop_last() =~= pre);
            assert(post.last() == sv[i as int]);
            assert(sv[i as int] == self.snippets@[i as int]@);
            let s = &self.snippets[i];
            let file: String = if crate::text::to_chars(s.filename.as_str()).len() == 0 {
                crate::text::string_from(&crate::text::to_chars(main))
            } else {
                s.filename.clone()
            };
            let ghost t = file@;
            assert(t == target_file(sv[i as int], main@));
            let mut k: usize = 0;
            while k < groups.len() && !crate::text::str_eq(groups[k].0.as_str(), file.as_str())
                invariant
                    k <= groups.len(),
                    files == groups@.map_values(|g: (String, Vec<SnippetInfo>)| g.0@),
                    t == file@,
                    forall|j: int| 0 <= j < k ==> files[j] != t,
                decreases groups.len() - k,
            {
                assert(files[k as int] == groups@[k as int].0@);
                k = k + 1;
            }
            let ghost old_groups = groups@;
            let x = s.duplicate();
            if k < groups.len() {
                assert(files[k as int] == t);
                assert(files.contains(t));
                proof {
                    lemma_save_files_distinct(pre, main@);
                }
                let mut g: (String, Vec<SnippetInfo>) = (String::new(), Vec::new());
                std::mem::swap(&mut g, &mut groups[k]);
                assert(g == old_groups[k as int]);
                let ghost gv = snippet_views(g.1@);
                g.1.push(x);
                assert(snippet_views(g.1@) =~= gv.push(x@));
                groups.set(k, g);
                assert forall|j: int| 0 <= j < groups@.len() implies snippet_views((#[trigger] groups@[j]).1@) == saved_to(
                    post,
                    main@,
                    groups@[j].0@,
                ) by {
                    if j != k {
                        assert(groups@[j] == old_groups[j]);
                        assert(files[j] == old_groups[j].0@);
                        assert(files[j] != files[k as int]);
                    } else {
                        assert(groups@[j].0@ == t);
                    }
                }
                assert(groups@.map_values(|g: (String, Vec<SnippetInfo>)| g.0@) =~= files);
            } else {
                assert(!files.contains(t));
                proof {
                    lemma_saved_to_unused(pre, main@, t);
                }
                let mut v: Vec<SnippetInfo> = Vec::new();
                v.push(x);
                assert(snippet_views(v@) =~= seq![x@]);
                assert(saved_to(post, main@, t) =~= seq![x@]);
                groups.push((file, v));
                assert(groups@.map_values(|g: (String, Vec<SnippetInfo>)| g.0@) =~= files.push(t));
                assert forall|j: int| 0 <= j < groups@.len() implies snippet_views((#[trigger] groups@[j]).1@) == saved_to(
                    post,
                    main@,
                    groups@[j].0@,
                ) by {
                    if j < old_groups.len() {
                        assert(groups@[j] == old_groups[j]);
                        assert(files[j] == old_groups[j].0@);
                        assert(files[j] != t);
                    }
                }
            }
            i = i + 1;
        }
        assert(sv.take(i as int) =~= sv);
        groups
    }
}

/// Law: saving puts each snippet in exactly the file it came from, or the
/// main file when new: its group is that file's, and it is in no other.
pub proof fn law_saved_once(ss: Seq<SnippetView>, main: Seq<char>, file: Seq<char>, s: SnippetView)
    ensures
        saved_to(ss, main, file).contains(s) ==> ss.contains(s) && target_file(s, main) == file,
        save_files(ss, main).no_duplicates(),
    decreases ss.len(),
{
    lemma_save_files_distinct(ss, main);
    if ss.len() > 0 {
        law_saved_once(ss.drop_last(), main, file, s);
        if saved_to(ss, main, file).contains(s) {
            let rest = saved_to(ss.drop_last(), main, file);
            if rest.contains(s) {
                let j = choose|j: int| 0 <= j < ss.len() - 1 && ss.drop_last()[j] == s;
                assert(ss[j] == s);
            } else {
                assert(target_file(ss.last(), main) == file);
                let j = choose|j: int| 0 <= j < rest.len() + 1 && rest.push(ss.last())[j] == s;
                assert(ss[ss.len() - 1] == s);
            }
        }
    }
}

} // verus!
