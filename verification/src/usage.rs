//! How often and how recently each snippet was used, keyed by description.
use vstd::prelude::*;
use crate::text::str_eq;

verus! {

/// Invocation count and last-used time (Unix seconds) of one snippet.
#[derive(Debug, Clone, Copy, Default, PartialEq, Eq, PartialOrd, Ord, Structural)]
pub struct UsageEntry {
    pub count: u64,
    pub last_used: u64,
}

/// The ordering of entries: by count, then by last use.
pub open spec fn entry_lt(a: UsageEntry, b: UsageEntry) -> bool {
    a.count < b.count || (a.count == b.count && a.last_used < b.last_used)
}

/// Whether `a` orders before `b` (see `entry_lt`).
pub fn entry_less(a: UsageEntry, b: UsageEntry) -> (r: bool)
    ensures
        r == entry_lt(a, b),
{
    a.count < b.count || (a.count == b.count && a.last_used < b.last_used)
}

/// The statistics of `description`; `(0, 0)` if it has none.
pub open spec fn score_of(stats: Map<Seq<char>, UsageEntry>, description: Seq<char>) -> UsageEntry {
    if stats.contains_key(description) {
        stats[description]
    } else {
        UsageEntry { count: 0, last_used: 0 }
    }
}

/// Law: a snippet's statistics are gone once removed: it scores `(0, 0)`,
/// like one never used, and no other snippet's score changes.
pub proof fn law_removed_scores_zero(stats: Map<Seq<char>, UsageEntry>, description: Seq<char>, other: Seq<char>)
    ensures
        score_of(stats.remove(description), description) == (UsageEntry { count: 0, last_used: 0 }),
        other != description ==> score_of(stats.remove(description), other) == score_of(stats, other),
{
}

/// Law: recording a use at `now` raises the score's count by one and sets its
/// last use to `now`, leaving every other score as it was.
pub proof fn law_record_raises_count(stats: Map<Seq<char>, UsageEntry>, description: Seq<char>, now: u64, other: Seq<char>)
    requires
        score_of(stats, description).count < u64::MAX,
    ensures
        ({
            let after = stats.insert(description, UsageEntry {
                count: (score_of(stats, description).count + 1) as u64,
                last_used: now,
            });
            &&& score_of(after, description).count == score_of(stats, description).count + 1
            &&& score_of(after, description).last_used == now
            &&& other != description ==> score_of(after, other) == score_of(stats, other)
        }),
{
}

pub open spec fn keys_unique(e: Seq<(String, UsageEntry)>) -> bool {
    forall|i: int, j: int| 0 <= i < j < e.len() ==> e[i].0@ != e[j].0@
}

pub open spec fn usage_map(e: Seq<(String, UsageEntry)>) -> Map<Seq<char>, UsageEntry>
    decreases e.len(),
{
    if e.len() == 0 {
        Map::empty()
    } else {
        usage_map(e.drop_last()).insert(e.last().0@, e.last().1)
    }
}

proof fn lemma_usage_map_dom(e: Seq<(String, UsageEntry)>, key: Seq<char>)
    ensures
        usage_map(e).contains_key(key) <==> exists|i: int| 0 <= i < e.len() && e[i].0@ == key,
    decreases e.len(),
{
    if e.len() > 0 {
        lemma_usage_map_dom(e.drop_last(), key);
        if usage_map(e).contains_key(key) && e.last().0@ != key {
            let i = choose|i: int| 0 <= i < e.len() - 1 && e.drop_last()[i].0@ == key;
            assert(e[i].0@ == key);
        }
        if exists|i: int| 0 <= i < e.len() && e[i].0@ == key {
            let i = choose|i: int| 0 <= i < e.len() && e[i].0@ == key;
            if i < e.len() - 1 {
                assert(e.drop_last()[i].0@ == key);
            }
        }
    }
}

proof fn lemma_usage_map_update(e: Seq<(String, UsageEntry)>, k: int, x: (String, UsageEntry))
    requires
        keys_unique(e),
        0 <= k < e.len(),
        e[k].0@ == x.0@,
    ensures
        usage_map(e.update(k, x)) == usage_map(e).insert(x.0@, x.1),
        keys_unique(e.update(k, x)),
    decreases e.len(),
{
    let u = e.update(k, x);
    if k == e.len() - 1 {
        assert(u.drop_last() =~= e.drop_last());
        assert(usage_map(u) =~= usage_map(e).insert(x.0@, x.1));
    } else {
        assert(u.drop_last() =~= e.drop_last().update(k, x));
        lemma_usage_map_update(e.drop_last(), k, x);
        assert(usage_map(u) =~= usage_map(e).insert(x.0@, x.1));
    }
}

proof fn lemma_usage_map_remove(e: Seq<(String, UsageEntry)>, k: int)
    requires
        keys_unique(e),
        0 <= k < e.len(),
    ensures
        usage_map(e.remove(k)) == usage_map(e).remove(e[k].0@),
        keys_unique(e.remove(k)),
    decreases e.len(),
{
    let r = e.remove(k);
    if k == e.len() - 1 {
        assert(r =~= e.drop_last());
        lemma_usage_map_dom(e.drop_last(), e[k].0@);
        assert(usage_map(r) =~= usage_map(e).remove(e[k].0@));
    } else {
        assert(r.drop_last() =~= e.drop_last().remove(k));
        lemma_usage_map_remove(e.drop_last(), k);
        assert(usage_map(r) =~= usage_map(e).remove(e[k].0@));
    }
}

/// Usage statistics of all snippets, by description.
#[derive(Debug)]
pub struct UsageStats {
    entries: Vec<(String, UsageEntry)>,
}

impl View for UsageStats {
    type V = Map<Seq<char>, UsageEntry>;

    closed spec fn view(&self) -> Map<Seq<char>, UsageEntry> {
        usage_map(self.entries@)
    }
}

impl UsageStats {
    #[verifier::type_invariant]
    closed spec fn inv(self) -> bool {
        keys_unique(self.entries@)
    }

    /// No statistics yet.
    pub fn new() -> (r: UsageStats)
        ensures
            r@ == Map::<Seq<char>, UsageEntry>::empty(),
    {
        UsageStats { entries: Vec::new() }
    }

    /// Where `description` stands in the entries, if it has one.
    fn position(&self, description: &str) -> (r: Option<usize>)
        ensures
            match r {
                Some(k) => k < self.entries.len() && self.entries@[k as int].0@ == description@,
                None => forall|i: int|
                    0 <= i < self.entries.len() ==> self.entries@[i].0@ != description@,
            },
    {
        let mut i: usize = 0;
        while i < self.entries.len()
            invariant
                i <= self.entries.len(),
                forall|j: int| 0 <= j < i ==> self.entries@[j].0@ != description@,
            decreases self.entries.len() - i,
        {
            if str_eq(self.entries[i].0.as_str(), description) {
                return Some(i);
            }
            i = i + 1;
        }
        None
    }

    /// The statistics of the snippet `description`; `(0, 0)` if never used,
    /// which orders it last.
    pub fn score(&self, description: &str) -> (r: UsageEntry)
        ensures
            r == score_of(self@, description@),
    {
        proof {
            use_type_invariant(self);
            lemma_usage_map_dom(self.entries@, description@);
        }
        match self.position(description) {
            Some(k) => {
                proof {
                    let x = self.entries@[k as int];
                    lemma_usage_map_update(self.entries@, k as int, x);
                    assert(self.entries@.update(k as int, x) =~= self.entries@);
                }
                self.entries[k].1
            },
            None => UsageEntry { count: 0, last_used: 0 },
        }
    }

    /// Records one use of `description` at time `now`: its count goes up by
    /// one and its last use becomes `now`.
    pub fn record_at(&mut self, description: &str, now: u64)
        requires
            old(self)@.contains_key(description@) ==> old(self)@[description@].count < u64::MAX,
        ensures
            final(self)@ == old(self)@.insert(
                description@,
                UsageEntry {
                    count: if old(self)@.contains_key(description@) {
                        (old(self)@[description@].count + 1) as u64
                    } else {
                        1
                    },
                    last_used: now,
                },
            ),
    {
        proof {
            use_type_invariant(&*self);
            lemma_usage_map_dom(self.entries@, description@);
        }
        match self.position(description) {
            Some(k) => {
                let ghost e = self.entries@;
                proof {
                    lemma_usage_map_update(e, k as int, e[k as int]);
                    assert(e.update(k as int, e[k as int]) =~= e);
                }
                let count = self.entries[k].1.count + 1;
                let name = self.entries[k].0.clone();
                let x = (name, UsageEntry { count, last_used: now });
                proof {
                    lemma_usage_map_update(e, k as int, x);
                }
                let mut v: Vec<(String, UsageEntry)> = Vec::new();
                std::mem::swap(&mut v, &mut self.entries);
                v.set(k, x);
                self.entries = v;
            },
            None => {
                let ghost e = self.entries@;
                let x = (crate::text::string_from(&crate::text::to_chars(description)), UsageEntry { count: 1, last_used: now });
                let mut v: Vec<(String, UsageEntry)> = Vec::new();
                std::mem::swap(&mut v, &mut self.entries);
                v.push(x);
                assert(v@.drop_last() =~= e);
                assert(keys_unique(v@));
                self.entries = v;
            },
        }
    }

    /// Records one use of `description` now (see `record_at`).
    pub fn record(&mut self, description: &str)
        requires
            old(self)@.contains_key(description@) ==> old(self)@[description@].count < u64::MAX,
        ensures
            final(self)@.dom() == old(self)@.dom().insert(description@),
            forall|k: Seq<char>| k != description@ && old(self)@.contains_key(k) ==> final(self)@[k] == old(self)@[k],
            final(self)@[description@].count == (if old(self)@.contains_key(description@) {
                old(self)@[description@].count + 1
            } else {
                1
            }),
    {
        let now = unix_now_secs();
        self.record_at(description, now);
        assert(self@.dom() =~= old(self)@.dom().insert(description@));
    }

    /// Forgets the statistics of `description`.
    pub fn remove(&mut self, description: &str)
        ensures
            final(self)@ == old(self)@.remove(description@),
    {
        proof {
            use_type_invariant(&*self);
            lemma_usage_map_dom(self.entries@, description@);
        }
        match self.position(description) {
            Some(k) => {
                proof {
                    lemma_usage_map_remove(self.entries@, k as int);
                }
                let mut v: Vec<(String, UsageEntry)> = Vec::new();
                std::mem::swap(&mut v, &mut self.entries);
                v.remove(k);
                self.entries = v;
            },
            None => {
                assert(self@ =~= self@.remove(description@));
            },
        }
    }

    /// The statistics as (description, entry) pairs, each description once.
    pub fn to_entries(&self) -> (r: Vec<(String, UsageEntry)>)
        ensures
            usage_map(r@) == self@,
            keys_unique(r@),
    {
        proof {
            use_type_invariant(self);
        }
        let mut r: Vec<(String, UsageEntry)> = Vec::new();
        let mut i: usize = 0;
        while i < self.entries.len()
            invariant
                i <= self.entries.len(),
                keys_unique(self.entries@),
                r@.len() == i,
                forall|j: int| 0 <= j < i ==> #[trigger] r@[j].0@ == self.entries@[j].0@ && r@[j].1 == self.entries@[j].1,
            decreases self.entries.len() - i,
        {
            let name = self.entries[i].0.clone();
            r.push((name, self.entries[i].1));
            i = i + 1;
        }
        proof {
            lemma_usage_map_same(r@, self.entries@);
        }
        r
    }

    /// Statistics from (description, entry) pairs; a later pair for the same
    /// description replaces an earlier one.
    pub fn from_entries(entries: Vec<(String, UsageEntry)>) -> (r: UsageStats)
        ensures
            r@ == usage_map(entries@),
    {
        let mut r = UsageStats::new();
        let mut i: usize = 0;
        while i < entries.len()
            invariant
                i <= entries.len(),
                r@ == usage_map(entries@.take(i as int)),
            decreases entries.len() - i,
        {
            let ghost before = r@;
            r.put(entries[i].0.as_str(), entries[i].1);
            assert(entries@.take(i + 1).drop_last() =~= entries@.take(i as int));
            i = i + 1;
        }
        assert(entries@.take(i as int) =~= entries@);
        r
    }

    /// Sets the statistics of `description`.
    fn put(&mut self, description: &str, entry: UsageEntry)
        ensures
            final(self)@ == old(self)@.insert(description@, entry),
    {
        proof {
            use_type_invariant(&*self);
        }
        match self.position(description) {
            Some(k) => {
                let name = self.entries[k].0.clone();
                proof {
                    lemma_usage_map_update(self.entries@, k as int, (name, entry));
                }
                let mut v: Vec<(String, UsageEntry)> = Vec::new();
                std::mem::swap(&mut v, &mut self.entries);
                v.set(k, (name, entry));
                self.entries = v;
            },
            None => {
                let ghost e = self.entries@;
                let mut v: Vec<(String, UsageEntry)> = Vec::new();
                std::mem::swap(&mut v, &mut self.entries);
                v.push((crate::text::string_from(&crate::text::to_chars(description)), entry));
                assert(v@.drop_last() =~= e);
                assert(keys_unique(v@));
                self.entries = v;
            },
        }
    }
}

impl Default for UsageStats {
    fn default() -> (r: UsageStats)
        ensures
            r@ == Map::<Seq<char>, UsageEntry>::empty(),
    {
        UsageStats::new()
    }
}

/// How many of `ds` are `k`.
pub open spec fn times(ds: Seq<Seq<char>>, k: Seq<char>) -> nat
    decreases ds.len(),
{
    if ds.len() == 0 {
        0
    } else {
        times(ds.drop_last(), k) + if ds.last() == k {
            1nat
        } else {
            0nat
        }
    }
}

proof fn lemma_times_prefix(ds: Seq<Seq<char>>, k: Seq<char>, i: int)
    requires
        0 <= i <= ds.len(),
    ensures
        times(ds.take(i), k) <= times(ds, k),
    decreases ds.len() - i,
{
    if i < ds.len() {
        assert(ds.take(i + 1).drop_last() =~= ds.take(i));
        lemma_times_prefix(ds, k, i + 1);
    } else {
        assert(ds.take(i) =~= ds);
    }
}

proof fn lemma_times_zero(ds: Seq<Seq<char>>, k: Seq<char>)
    ensures
        times(ds, k) == 0 <==> !ds.contains(k),
    decreases ds.len(),
{
    if ds.len() > 0 {
        lemma_times_zero(ds.drop_last(), k);
        if ds.drop_last().contains(k) {
            let j = choose|j: int| 0 <= j < ds.len() - 1 && ds.drop_last()[j] == k;
            assert(ds[j] == k);
        }
        if ds.contains(k) && ds.last() != k {
            let j = choose|j: int| 0 <= j < ds.len() && ds[j] == k;
            assert(ds.drop_last()[j] == k);
        }
    }
}

/// The count of `k` in `stats` (0 when it has none).
pub open spec fn count_of(stats: Map<Seq<char>, UsageEntry>, k: Seq<char>) -> int {
    if stats.contains_key(k) {
        stats[k].count as int
    } else {
        0
    }
}

/// Records one use of each of `descriptions` now, in order: each count goes
/// up by the number of times its description occurs there, and every
/// recorded description gets the one time the clock gave (see `record_uses_at`).
pub fn record_uses(stats: &mut UsageStats, descriptions: &Vec<String>)
    requires
        forall|i: int| 0 <= i < descriptions@.len() ==>
            count_of(old(stats)@, #[trigger] descriptions@[i]@) + times(descriptions@.map_values(|d: String| d@), descriptions@[i]@) <= u64::MAX,
    ensures
        final(stats)@.dom() == old(stats)@.dom() + descriptions@.map_values(|d: String| d@).to_set(),
        forall|k: Seq<char>| #[trigger] final(stats)@.contains_key(k) ==>
            final(stats)@[k].count == count_of(old(stats)@, k) + times(descriptions@.map_values(|d: String| d@), k),
        forall|k: Seq<char>| old(stats)@.contains_key(k) && !descriptions@.map_values(|d: String| d@).contains(k)
            ==> #[trigger] final(stats)@[k] == old(stats)@[k],
        forall|k1: Seq<char>, k2: Seq<char>|
            descriptions@.map_values(|d: String| d@).contains(k1) && descriptions@.map_values(|d: String| d@).contains(k2)
            ==> #[trigger] final(stats)@[k1].last_used == #[trigger] final(stats)@[k2].last_used,
{
    let now = unix_now_secs();
    record_uses_at(stats, descriptions, now);
}

/// Records one use of each of `descriptions` at time `now`, in order: each
/// count goes up by the number of times its description occurs there, and
/// each recorded description's last use becomes `now`.
pub fn record_uses_at(stats: &mut UsageStats, descriptions: &Vec<String>, now: u64)
    requires
        forall|i: int| 0 <= i < descriptions@.len() ==>
            count_of(old(stats)@, #[trigger] descriptions@[i]@) + times(descriptions@.map_values(|d: String| d@), descriptions@[i]@) <= u64::MAX,
    ensures
        final(stats)@.dom() == old(stats)@.dom() + descriptions@.map_values(|d: String| d@).to_set(),
        forall|k: Seq<char>| #[trigger] final(stats)@.contains_key(k) ==>
            final(stats)@[k].count == count_of(old(stats)@, k) + times(descriptions@.map_values(|d: String| d@), k),
        forall|k: Seq<char>| old(stats)@.contains_key(k) && !descriptions@.map_values(|d: String| d@).contains(k)
            ==> #[trigger] final(stats)@[k] == old(stats)@[k],
        forall|k: Seq<char>| descriptions@.map_values(|d: String| d@).contains(k)
            ==> #[trigger] final(stats)@[k].last_used == now,
{
    let ghost ds = descriptions@.map_values(|d: String| d@);
    let ghost start = stats@;
    let mut i: usize = 0;
    while i < descriptions.len()
        invariant
            i <= descriptions.len(),
            ds == descriptions@.map_values(|d: String| d@),
            start == old(stats)@,
            forall|j: int| 0 <= j < ds.len() ==> count_of(start, #[trigger] ds[j]) + times(ds, ds[j]) <= u64::MAX,
            stats@.dom() == start.dom() + ds.take(i as int).to_set(),
            forall|k: Seq<char>| #[trigger] stats@.contains_key(k) ==> stats@[k].count == count_of(start, k) + times(ds.take(i as int), k),
            forall|k: Seq<char>| start.contains_key(k) && !ds.take(i as int).contains(k) ==> #[trigger] stats@[k] == start[k],
            forall|k: Seq<char>| ds.take(i as int).contains(k) ==> #[trigger] stats@[k].last_used == now,
        decreases descriptions.len() - i,
    {
        let ghost before = stats@;
        let ghost d = ds[i as int];
        assert(descriptions@[i as int]@ == d);
        proof {
            lemma_times_prefix(ds, d, i as int);
            lemma_times_prefix(ds, d, i + 1);
            assert(ds.take(i + 1).drop_last() =~= ds.take(i as int));
        }
        stats.record_at(descriptions[i].as_str(), now);
        proof {
            assert(ds.take(i + 1).drop_last() =~= ds.take(i as int));
            assert(ds.take(i + 1).to_set() =~= ds.take(i as int).to_set().insert(d)) by {
                assert forall|x: Seq<char>| ds.take(i + 1).to_set().contains(x) <==> ds.take(i as int).to_set().insert(d).contains(x) by {
                    if ds.take(i + 1).contains(x) && x != d {
                        let j = choose|j: int| 0 <= j < i + 1 && #[trigger] ds.take(i + 1)[j] == x;
                        assert(ds.take(i as int)[j] == x);
                    }
                    if ds.take(i as int).contains(x) {
                        let j = choose|j: int| 0 <= j < i && #[trigger] ds.take(i as int)[j] == x;
                        assert(ds.take(i + 1)[j] == x);
                    }
                    if x == d {
                        assert(ds.take(i + 1)[i as int] == x);
                    }
                }
            }
            assert(stats@.dom() =~= start.dom() + ds.take(i + 1).to_set());
            assert forall|k: Seq<char>| #[trigger] stats@.contains_key(k) implies stats@[k].count == count_of(start, k) + times(ds.take(i + 1), k) by {
                assert(times(ds.take(i + 1), k) == times(ds.take(i as int), k) + if d == k { 1nat } else { 0nat });
                if k == d && !before.contains_key(d) {
                    lemma_times_zero(ds.take(i as int), d);
                }
            }
            assert forall|k: Seq<char>| start.contains_key(k) && !ds.take(i + 1).contains(k) implies #[trigger] stats@[k] == start[k] by {
                if ds.take(i as int).contains(k) {
                    let j = choose|j: int| 0 <= j < i && #[trigger] ds.take(i as int)[j] == k;
                    assert(ds.take(i + 1)[j] == k);
                }
                assert(ds.take(i + 1)[i as int] == d);
            }
            assert forall|k: Seq<char>| ds.take(i + 1).contains(k) implies #[trigger] stats@[k].last_used == now by {
                if k != d {
                    let j = choose|j: int| 0 <= j < i + 1 && #[trigger] ds.take(i + 1)[j] == k;
                    if j == i {
                        assert(ds.take(i + 1)[i as int] == d);
                    }
                    assert(ds.take(i as int)[j] == k);
                }
            }
        }
        i = i + 1;
    }
    proof {
        assert(ds.take(i as int) =~= ds);
    }
}

/// Forgets the statistics of each of `descriptions`.
pub fn remove_uses(stats: &mut UsageStats, descriptions: &Vec<String>)
    ensures
        final(stats)@ == old(stats)@.remove_keys(descriptions@.map_values(|d: String| d@).to_set()),
{
    let ghost ds = descriptions@.map_values(|d: String| d@);
    let mut i: usize = 0;
    while i < descriptions.len()
        invariant
            i <= descriptions.len(),
            ds == descriptions@.map_values(|d: String| d@),
            stats@ == old(stats)@.remove_keys(ds.take(i as int).to_set()),
        decreases descriptions.len() - i,
    {
        let ghost d = ds[i as int];
        assert(descriptions@[i as int]@ == d);
        stats.remove(descriptions[i].as_str());
        proof {
            assert forall|x: Seq<char>| ds.take(i + 1).to_set().contains(x) <==> ds.take(i as int).to_set().insert(d).contains(x) by {
                if ds.take(i + 1).contains(x) && x != d {
                    let j = choose|j: int| 0 <= j < i + 1 && #[trigger] ds.take(i + 1)[j] == x;
                    assert(ds.take(i as int)[j] == x);
                }
                if ds.take(i as int).contains(x) {
                    let j = choose|j: int| 0 <= j < i && #[trigger] ds.take(i as int)[j] == x;
                    assert(ds.take(i + 1)[j] == x);
                }
                if x == d {
                    assert(ds.take(i + 1)[i as int] == x);
                }
            }
            assert(ds.take(i + 1).to_set() =~= ds.take(i as int).to_set().insert(d));
            assert(stats@ =~= old(stats)@.remove_keys(ds.take(i + 1).to_set()));
        }
        i = i + 1;
    }
    assert(ds.take(i as int) =~= ds);
}

proof fn lemma_usage_map_same(a: Seq<(String, UsageEntry)>, b: Seq<(String, UsageEntry)>)
    requires
        a.len() == b.len(),
        forall|j: int| 0 <= j < a.len() ==> #[trigger] a[j].0@ == b[j].0@ && a[j].1 == b[j].1,
    ensures
        usage_map(a) == usage_map(b),
        keys_unique(b) ==> keys_unique(a),
    decreases a.len(),
{
    if a.len() > 0 {
        lemma_usage_map_same(a.drop_last(), b.drop_last());
    }
}

/// The current time, in whole seconds since the Unix epoch (0 if the clock
/// reads earlier). Nothing is promised of the value: it is the system clock's.
#[verifier::external_body]
pub(crate) fn unix_now_secs() -> u64 {
    match std::time::SystemTime::now().duration_since(std::time::UNIX_EPOCH) {
        Ok(d) => d.as_secs(),
        Err(_) => 0,
    }
}

} // verus!

verus! {

/// Where usage statistics live: `usage.toml` in the directory of the
/// snippet file (made absolute), kept apart from the snippets themselves.
pub fn file_path(general: &crate::config::GeneralConfig) -> (r: Result<String, crate::error::SnippetError>)
    ensures
        general.snippetfile@.len() == 0 ==> r is Err,
        r matches Err(crate::error::SnippetError::Read { path, .. }) ==> path@ == general.snippetfile@,
        r matches Ok(p) ==> exists|abs: Seq<char>| abs.len() > 0 && abs[0] == '/' && p@ == crate::path::sibling_path(abs, "usage.toml"@),
        r is Err ==> r matches Err(crate::error::SnippetError::Read { .. }),
        general.snippetfile@.len() > 0 && general.snippetfile@[0] == '/' ==> r is Ok,
        crate::path::plain_absolute(general.snippetfile@) ==> (r matches Ok(p)
            && p@ == crate::path::sibling_path(general.snippetfile@, "usage.toml"@)),
{
    match crate::path::expand_absolute(general.snippetfile.as_str()) {
        Ok(abs) => {
            let p = crate::path::sibling_file(abs.as_str(), "usage.toml");
            Ok(p)
        },
        Err(source) => Err(crate::error::SnippetError::Read { path: general.snippetfile.clone(), source }),
    }
}

} // verus!
