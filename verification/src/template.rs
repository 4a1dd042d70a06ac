//! The two renderings of the display template agree: the text of
//! `render_template_fields` (each placeholder spliced in at its first
//! occurrence) is the plain text of `render_template` (the placeholders
//! replaced one after the other), for templates whose `$` signs all start
//! placeholders and values without `$`.
use vstd::prelude::*;
use crate::format::{
    assemble, command_marker, description_marker, flatten_newlines, insert_slot, tags_marker, tags_text,
    template_slots, template_text, FieldRole, Slot,
};
use crate::text::{find_from, lemma_find_from, occurs_at, replace_first};

verus! {

/// One of the three placeholders.
pub open spec fn is_marker(m: Seq<char>) -> bool {
    m == description_marker() || m == command_marker() || m == tags_marker()
}

/// The placeholder of a field.
pub open spec fn marker_of(role: FieldRole) -> Seq<char> {
    match role {
        FieldRole::Description => description_marker(),
        FieldRole::Command => command_marker(),
        FieldRole::Tags => tags_marker(),
    }
}

/// Whether `s` holds no `$`.
pub open spec fn dollar_free(s: Seq<char>) -> bool {
    forall|j: int| 0 <= j < s.len() ==> s[j] != '$'
}

/// Whether every `$` of `f` starts a placeholder.
pub open spec fn tidy_template(f: Seq<char>) -> bool {
    forall|j: int|
        0 <= j < f.len() && f[j] == '$' ==> (occurs_at(f, description_marker(), j) || occurs_at(f, command_marker(), j)
            || occurs_at(f, tags_marker(), j))
}

proof fn lemma_marker_shape(m: Seq<char>)
    requires
        is_marker(m),
    ensures
        m.len() >= 2,
        m[0] == '$',
        forall|j: int| 1 <= j < m.len() ==> m[j] != '$',
{
}

proof fn lemma_markers_differ(m1: Seq<char>, m2: Seq<char>)
    requires
        is_marker(m1),
        is_marker(m2),
        m1[1] == m2[1],
    ensures
        m1 == m2,
{
}

proof fn lemma_occurs_char(s: Seq<char>, m: Seq<char>, i: int, k: int)
    requires
        occurs_at(s, m, i),
        0 <= k < m.len(),
    ensures
        s[i + k] == m[k],
{
    assert(s.subrange(i, i + m.len())[k] == s[i + k]);
}

/// Two placeholders never overlap.
proof fn lemma_occ_disjoint(f: Seq<char>, m1: Seq<char>, i: int, m2: Seq<char>, j: int)
    requires
        is_marker(m1),
        is_marker(m2),
        occurs_at(f, m1, i),
        occurs_at(f, m2, j),
        i < j,
    ensures
        i + m1.len() <= j,
{
    lemma_marker_shape(m1);
    lemma_marker_shape(m2);
    if j < i + m1.len() {
        lemma_occurs_char(f, m2, j, 0);
        lemma_occurs_char(f, m1, i, j - i);
    }
}

/// Two different placeholders never start at the same place.
proof fn lemma_occ_same_pos(f: Seq<char>, m1: Seq<char>, m2: Seq<char>, i: int)
    requires
        is_marker(m1),
        is_marker(m2),
        occurs_at(f, m1, i),
        occurs_at(f, m2, i),
    ensures
        m1 == m2,
{
    lemma_marker_shape(m1);
    lemma_marker_shape(m2);
    lemma_occurs_char(f, m1, i, 1);
    lemma_occurs_char(f, m2, i, 1);
    lemma_markers_differ(m1, m2);
}

proof fn lemma_occurs_sub(f: Seq<char>, a: int, b: int, m: Seq<char>, j: int)
    requires
        0 <= a <= b <= f.len(),
        0 <= j,
    ensures
        occurs_at(f.subrange(a, b), m, j) <==> (occurs_at(f, m, a + j) && a + j + m.len() <= b),
{
    if a + j + m.len() <= b {
        assert(f.subrange(a, b).subrange(j, j + m.len()) =~= f.subrange(a + j, a + j + m.len()));
    }
}

proof fn lemma_find_is(s: Seq<char>, m: Seq<char>, i: int, k: int)
    requires
        0 <= i <= k,
        occurs_at(s, m, k),
        forall|j: int| i <= j < k ==> !#[trigger] occurs_at(s, m, j),
    ensures
        find_from(s, m, i) == Some(k),
{
    lemma_find_from(s, m, i);
    match find_from(s, m, i) {
        Some(k2) => {
            if k2 < k {
                assert(occurs_at(s, m, k2));
            }
            if k < k2 {
                assert(!occurs_at(s, m, k));
            }
        },
        None => {
            assert(!occurs_at(s, m, k));
        },
    }
}

proof fn lemma_find_none(s: Seq<char>, m: Seq<char>, i: int)
    requires
        0 <= i,
        forall|j: int| i <= j ==> !#[trigger] occurs_at(s, m, j),
    ensures
        find_from(s, m, i) is None,
{
    lemma_find_from(s, m, i);
    if let Some(k) = find_from(s, m, i) {
        assert(occurs_at(s, m, k));
    }
}

/// Replacing in `x + y` when the pattern occurs in `x`.
proof fn lemma_replace_left(x: Seq<char>, y: Seq<char>, m: Seq<char>, v: Seq<char>)
    requires
        find_from(x, m, 0) is Some,
    ensures
        replace_first(x + y, m, v) == replace_first(x, m, v) + y,
{
    lemma_find_from(x, m, 0);
    let k = find_from(x, m, 0)->0;
    let s = x + y;
    assert(s.subrange(k, k + m.len()) =~= x.subrange(k, k + m.len()));
    assert forall|j: int| 0 <= j < k implies !#[trigger] occurs_at(s, m, j) by {
        if occurs_at(s, m, j) {
            assert(s.subrange(j, j + m.len()) =~= x.subrange(j, j + m.len()));
            assert(occurs_at(x, m, j));
        }
    }
    lemma_find_is(s, m, 0, k);
    assert(s.take(k) =~= x.take(k));
    assert(s.skip(k + m.len()) =~= x.skip(k + m.len()) + y);
    assert(replace_first(x + y, m, v) =~= replace_first(x, m, v) + y);
}

/// Replacing in `x + y` when the pattern starts nowhere in `x`.
proof fn lemma_replace_right(x: Seq<char>, y: Seq<char>, m: Seq<char>, v: Seq<char>)
    requires
        forall|j: int| 0 <= j < x.len() ==> !#[trigger] occurs_at(x + y, m, j),
    ensures
        replace_first(x + y, m, v) == x + replace_first(y, m, v),
{
    let s = x + y;
    lemma_find_from(y, m, 0);
    assert forall|j: int| 0 <= j implies occurs_at(s, m, x.len() + j) == #[trigger] occurs_at(y, m, j) by {
        if x.len() + j + m.len() <= s.len() {
            assert(s.subrange(x.len() + j, x.len() + j + m.len()) =~= y.subrange(j, j + m.len()));
        }
    }
    match find_from(y, m, 0) {
        Some(k) => {
            assert(occurs_at(s, m, x.len() + k));
            assert forall|j: int| 0 <= j < x.len() + k implies !#[trigger] occurs_at(s, m, j) by {
                if j >= x.len() {
                    assert(occurs_at(s, m, x.len() + (j - x.len())) == occurs_at(y, m, j - x.len()));
                }
            }
            lemma_find_is(s, m, 0, x.len() + k);
            assert(s.take(x.len() + k) =~= x + y.take(k));
            assert(s.skip(x.len() + k + m.len()) =~= y.skip(k + m.len()));
            assert(replace_first(s, m, v) =~= x + replace_first(y, m, v));
        },
        None => {
            assert forall|j: int| 0 <= j implies !#[trigger] occurs_at(s, m, j) by {
                if j >= x.len() {
                    assert(occurs_at(s, m, x.len() + (j - x.len())) == occurs_at(y, m, j - x.len()));
                }
            }
            lemma_find_none(s, m, 0);
        },
    }
}

/// No placeholder starts in text without `$`.
proof fn lemma_free_prefix(x: Seq<char>, y: Seq<char>, m: Seq<char>)
    requires
        is_marker(m),
        dollar_free(x),
    ensures
        forall|j: int| 0 <= j < x.len() ==> !#[trigger] occurs_at(x + y, m, j),
{
    lemma_marker_shape(m);
    assert forall|j: int| 0 <= j < x.len() implies !#[trigger] occurs_at(x + y, m, j) by {
        if occurs_at(x + y, m, j) {
            lemma_occurs_char(x + y, m, j, 0);
        }
    }
}

/// No placeholder straddles the end of a tidy text where it does not occur.
proof fn lemma_tidy_prefix(x: Seq<char>, y: Seq<char>, m: Seq<char>)
    requires
        is_marker(m),
        tidy_template(x),
        find_from(x, m, 0) is None,
    ensures
        forall|j: int| 0 <= j < x.len() ==> !#[trigger] occurs_at(x + y, m, j),
{
    lemma_marker_shape(m);
    lemma_find_from(x, m, 0);
    assert forall|j: int| 0 <= j < x.len() implies !#[trigger] occurs_at(x + y, m, j) by {
        if occurs_at(x + y, m, j) {
            lemma_occurs_char(x + y, m, j, 0);
            assert(x[j] == '$');
            let m2 = if occurs_at(x, description_marker(), j) {
                description_marker()
            } else if occurs_at(x, command_marker(), j) {
                command_marker()
            } else {
                tags_marker()
            };
            assert(occurs_at(x, m2, j));
            lemma_marker_shape(m2);
            lemma_occurs_char(x, m2, j, 1);
            lemma_occurs_char(x + y, m, j, 1);
            assert((x + y)[j + 1] == x[j + 1]);
            lemma_markers_differ(m, m2);
            assert(occurs_at(x, m, j));
        }
    }
}

/// The template with the values of `s` spliced in, from `from` on.
pub open spec fn spl(f: Seq<char>, s: Seq<Slot>, from: int) -> Seq<char>
    decreases s.len(),
{
    if s.len() == 0 {
        f.subrange(from, f.len() as int)
    } else {
        f.subrange(from, s[0].pos) + s[0].value + spl(f, s.skip(1), s[0].pos + s[0].len)
    }
}

/// A slot standing on an occurrence of its placeholder, with a value without `$`.
pub open spec fn slot_ok(f: Seq<char>, x: Slot) -> bool {
    &&& x.len == marker_of(x.role).len()
    &&& occurs_at(f, marker_of(x.role), x.pos)
    &&& dollar_free(x.value)
}

/// Slots in increasing order of position, each standing on its placeholder.
pub open spec fn plan_ok(f: Seq<char>, s: Seq<Slot>) -> bool {
    &&& forall|i: int| 0 <= i < s.len() ==> slot_ok(f, #[trigger] s[i])
    &&& forall|i: int, j: int| 0 <= i < j < s.len() ==> s[i].pos < s[j].pos
}

proof fn lemma_plan_disjoint(f: Seq<char>, s: Seq<Slot>, i: int, j: int)
    requires
        plan_ok(f, s),
        0 <= i < j < s.len(),
    ensures
        s[i].pos + s[i].len <= s[j].pos,
{
    assert(slot_ok(f, s[i]));
    assert(slot_ok(f, s[j]));
    lemma_occ_disjoint(f, marker_of(s[i].role), s[i].pos, marker_of(s[j].role), s[j].pos);
}

proof fn lemma_insert_front(s: Seq<Slot>, x: Slot)
    requires
        forall|i: int, j: int| 0 <= i < j < s.len() ==> s[i].pos < s[j].pos,
        forall|i: int| 0 <= i < s.len() ==> s[i].pos != x.pos,
    ensures
        insert_slot(s, x) == (if s.len() == 0 {
            seq![x]
        } else if x.pos < s[0].pos {
            seq![x] + s
        } else {
            seq![s[0]] + insert_slot(s.skip(1), x)
        }),
    decreases s.len(),
{
    if s.len() == 0 {
    } else if s.last().pos <= x.pos {
        if s.len() == 1 {
            assert(s.skip(1) =~= Seq::<Slot>::empty());
            assert(seq![s[0]] + seq![x] =~= s.push(x));
        } else {
            assert(s.skip(1).last() == s.last());
            assert(s.skip(1).push(x) =~= s.skip(1).push(x));
            assert(seq![s[0]] + s.skip(1).push(x) =~= s.push(x));
        }
    } else {
        let dl = s.drop_last();
        lemma_insert_front(dl, x);
        if s.len() == 1 {
            assert(seq![x].push(s.last()) =~= seq![x] + s);
        } else if x.pos < s[0].pos {
            assert((seq![x] + dl).push(s.last()) =~= seq![x] + s);
        } else {
            assert(s.skip(1).last() == s.last());
            assert(s.skip(1).drop_last() =~= dl.skip(1));
            assert(dl[0] == s[0]);
            assert((seq![s[0]] + insert_slot(dl.skip(1), x)).push(s.last()) =~= seq![s[0]] + insert_slot(dl.skip(1), x).push(
                s.last(),
            ));
        }
    }
}

proof fn lemma_insert_plan(t: Seq<char>, s: Seq<Slot>, x: Slot)
    requires
        plan_ok(t, s),
        slot_ok(t, x),
        forall|i: int| 0 <= i < s.len() ==> s[i].pos != x.pos,
    ensures
        plan_ok(t, insert_slot(s, x)),
        insert_slot(s, x).len() == s.len() + 1,
        forall|i: int| 0 <= i < insert_slot(s, x).len() ==> (#[trigger] insert_slot(s, x)[i] == x || s.contains(insert_slot(s, x)[i])),
    decreases s.len(),
{
    lemma_insert_front(s, x);
    if s.len() == 0 {
    } else if x.pos < s[0].pos {
        let r = seq![x] + s;
        assert forall|i: int| 0 <= i < r.len() implies (#[trigger] r[i] == x || s.contains(r[i])) by {
            if i > 0 {
                assert(r[i] == s[i - 1]);
            }
        }
        assert forall|i: int, j: int| 0 <= i < j < r.len() implies r[i].pos < r[j].pos by {
            if i > 0 {
                assert(r[i] == s[i - 1] && r[j] == s[j - 1]);
            } else {
                assert(r[j] == s[j - 1]);
                if j - 1 > 0 {
                    assert(s[0].pos < s[j - 1].pos);
                }
            }
        }
        assert forall|i: int| 0 <= i < r.len() implies slot_ok(t, #[trigger] r[i]) by {
            if i > 0 {
                assert(r[i] == s[i - 1]);
            }
        }
    } else {
        let rest = s.skip(1);
        assert forall|i: int, j: int| 0 <= i < j < rest.len() implies rest[i].pos < rest[j].pos by {
            assert(rest[i] == s[i + 1] && rest[j] == s[j + 1]);
        }
        assert forall|i: int| 0 <= i < rest.len() implies slot_ok(t, #[trigger] rest[i]) by {
            assert(rest[i] == s[i + 1]);
        }
        assert forall|i: int| 0 <= i < rest.len() implies rest[i].pos != x.pos by {
            assert(rest[i] == s[i + 1]);
        }
        lemma_insert_plan(t, rest, x);
        let ins = insert_slot(rest, x);
        let r = seq![s[0]] + ins;
        assert forall|i: int| 0 <= i < r.len() implies (#[trigger] r[i] == x || s.contains(r[i])) by {
            if i > 0 {
                assert(r[i] == ins[i - 1]);
                if ins[i - 1] != x {
                    let k = choose|k: int| 0 <= k < rest.len() && rest[k] == ins[i - 1];
                    assert(s[k + 1] == rest[k]);
                }
            } else {
                assert(s[0] == r[0]);
            }
        }
        assert forall|i: int, j: int| 0 <= i < j < r.len() implies r[i].pos < r[j].pos by {
            assert(r[j] == ins[j - 1]);
            if i > 0 {
                assert(r[i] == ins[i - 1]);
            } else {
                if ins[j - 1] != x {
                    let k = choose|k: int| 0 <= k < rest.len() && rest[k] == ins[j - 1];
                    assert(s[k + 1] == rest[k]);
                }
            }
        }
        assert forall|i: int| 0 <= i < r.len() implies slot_ok(t, #[trigger] r[i]) by {
            if i > 0 {
                assert(r[i] == ins[i - 1]);
            }
        }
    }
}

proof fn lemma_prefix_tidy(f: Seq<char>, from: int, p0: int, m0: Seq<char>)
    requires
        tidy_template(f),
        is_marker(m0),
        occurs_at(f, m0, p0),
        0 <= from <= p0,
    ensures
        tidy_template(f.subrange(from, p0)),
{
    let p = f.subrange(from, p0);
    assert forall|j: int| 0 <= j < p.len() && p[j] == '$' implies (occurs_at(p, description_marker(), j)
        || occurs_at(p, command_marker(), j) || occurs_at(p, tags_marker(), j)) by {
        assert(f[from + j] == '$');
        let m2 = if occurs_at(f, description_marker(), from + j) {
            description_marker()
        } else if occurs_at(f, command_marker(), from + j) {
            command_marker()
        } else {
            tags_marker()
        };
        lemma_occ_disjoint(f, m2, from + j, m0, p0);
        lemma_occurs_sub(f, from, p0, m2, j);
    }
}

proof fn lemma_rest_plan(f: Seq<char>, s: Seq<Slot>, role: FieldRole)
    requires
        plan_ok(f, s),
        s.len() > 0,
        forall|i: int| 0 <= i < s.len() ==> s[i].role != role,
    ensures
        plan_ok(f, s.skip(1)),
        forall|i: int| 0 <= i < s.skip(1).len() ==> s.skip(1)[i].role != role,
        s.skip(1).len() > 0 ==> s[0].pos + s[0].len <= s.skip(1)[0].pos,
        s[0].pos + s[0].len <= f.len(),
{
    let s1 = s.skip(1);
    assert forall|i: int| 0 <= i < s1.len() implies slot_ok(f, #[trigger] s1[i]) by {
        assert(s1[i] == s[i + 1]);
    }
    assert forall|i: int, j: int| 0 <= i < j < s1.len() implies s1[i].pos < s1[j].pos by {
        assert(s1[i] == s[i + 1] && s1[j] == s[j + 1]);
    }
    assert forall|i: int| 0 <= i < s1.len() implies s1[i].role != role by {
        assert(s1[i] == s[i + 1]);
    }
    if s1.len() > 0 {
        lemma_plan_disjoint(f, s, 0, 1);
        assert(s1[0] == s[1]);
    }
    assert(slot_ok(f, s[0]));
}

proof fn lemma_replace_base(f: Seq<char>, from: int, m: Seq<char>, v: Seq<char>)
    requires
        0 <= from <= f.len(),
    ensures
        match find_from(f, m, from) {
            Some(q) => replace_first(f.subrange(from, f.len() as int), m, v) == f.subrange(from, q) + v + f.subrange(
                q + m.len(),
                f.len() as int,
            ),
            None => replace_first(f.subrange(from, f.len() as int), m, v) == f.subrange(from, f.len() as int),
        },
{
    let sub = f.subrange(from, f.len() as int);
    lemma_find_from(f, m, from);
    match find_from(f, m, from) {
        Some(q) => {
            lemma_occurs_sub(f, from, f.len() as int, m, q - from);
            assert forall|j: int| 0 <= j < q - from implies !#[trigger] occurs_at(sub, m, j) by {
                lemma_occurs_sub(f, from, f.len() as int, m, j);
                assert(!occurs_at(f, m, from + j));
            }
            lemma_find_is(sub, m, 0, q - from);
            assert(sub.take(q - from) =~= f.subrange(from, q));
            assert(sub.skip(q - from + m.len()) =~= f.subrange(q + m.len(), f.len() as int));
        },
        None => {
            assert forall|j: int| 0 <= j implies !#[trigger] occurs_at(sub, m, j) by {
                lemma_occurs_sub(f, from, f.len() as int, m, j);
                if from + j + m.len() <= f.len() {
                    assert(!occurs_at(f, m, from + j));
                }
            }
            lemma_find_none(sub, m, 0);
        },
    }
}

/// The placeholder occurs before the first slot: it is replaced there.
proof fn lemma_replace_before(f: Seq<char>, from: int, p0: int, m0: Seq<char>, m: Seq<char>, q: int, rest: Seq<char>, v: Seq<char>)
    requires
        is_marker(m),
        is_marker(m0),
        occurs_at(f, m0, p0),
        0 <= from <= q < p0,
        find_from(f, m, from) == Some(q),
    ensures
        q + m.len() <= p0,
        replace_first(f.subrange(from, p0) + rest, m, v) == f.subrange(from, q) + v + (f.subrange(q + m.len(), p0) + rest),
{
    let p = f.subrange(from, p0);
    lemma_find_from(f, m, from);
    lemma_occ_disjoint(f, m, q, m0, p0);
    lemma_occurs_sub(f, from, p0, m, q - from);
    assert forall|j: int| 0 <= j < q - from implies !#[trigger] occurs_at(p, m, j) by {
        lemma_occurs_sub(f, from, p0, m, j);
        assert(!occurs_at(f, m, from + j));
    }
    lemma_find_is(p, m, 0, q - from);
    lemma_replace_left(p, rest, m, v);
    assert(p.take(q - from) =~= f.subrange(from, q));
    assert(p.skip(q - from + m.len()) =~= f.subrange(q + m.len(), p0));
    assert(replace_first(p, m, v) + rest =~= f.subrange(from, q) + v + (f.subrange(q + m.len(), p0) + rest));
}

/// The placeholder does not occur before the first slot: the part before it
/// and the slot's value stay as they are.
proof fn lemma_replace_skip(f: Seq<char>, from: int, p0: int, m0: Seq<char>, m: Seq<char>, value: Seq<char>, tail: Seq<char>, v: Seq<char>)
    requires
        tidy_template(f),
        is_marker(m),
        is_marker(m0),
        occurs_at(f, m0, p0),
        0 <= from <= p0,
        dollar_free(value),
        forall|j: int| from <= j && j + m.len() <= p0 ==> !#[trigger] occurs_at(f, m, j),
    ensures
        replace_first(f.subrange(from, p0) + (value + tail), m, v) == f.subrange(from, p0) + (value + replace_first(tail, m, v)),
{
    let p = f.subrange(from, p0);
    assert forall|j: int| 0 <= j implies !#[trigger] occurs_at(p, m, j) by {
        lemma_occurs_sub(f, from, p0, m, j);
        if from + j + m.len() <= p0 {
            assert(!occurs_at(f, m, from + j));
        }
    }
    lemma_find_none(p, m, 0);
    lemma_prefix_tidy(f, from, p0, m0);
    lemma_tidy_prefix(p, value + tail, m);
    lemma_replace_right(p, value + tail, m, v);
    lemma_free_prefix(value, tail, m);
    lemma_replace_right(value, tail, m, v);
}

/// Replacing a placeholder in a spliced template splices its value in too.
proof fn lemma_replace_plan(f: Seq<char>, s: Seq<Slot>, from: int, role: FieldRole, v: Seq<char>)
    requires
        tidy_template(f),
        plan_ok(f, s),
        0 <= from <= f.len(),
        s.len() > 0 ==> from <= s[0].pos,
        forall|i: int| 0 <= i < s.len() ==> s[i].role != role,
        dollar_free(v),
    ensures
        match find_from(f, marker_of(role), from) {
            Some(q) => replace_first(spl(f, s, from), marker_of(role), v) == spl(
                f,
                insert_slot(s, Slot { pos: q, len: marker_of(role).len() as int, role, value: v }),
                from,
            ),
            None => replace_first(spl(f, s, from), marker_of(role), v) == spl(f, s, from),
        },
    decreases s.len(),
{
    let m = marker_of(role);
    lemma_find_from(f, m, from);
    if s.len() == 0 {
        lemma_replace_base(f, from, m, v);
        if let Some(q) = find_from(f, m, from) {
            let x = Slot { pos: q, len: m.len() as int, role, value: v };
            assert(seq![x].skip(1) =~= Seq::<Slot>::empty());
            assert(spl(f, seq![x], from) == f.subrange(from, q) + v + spl(f, Seq::<Slot>::empty(), q + m.len()));
        }
    } else {
        let s0 = s[0];
        let p0 = s0.pos;
        let e0 = s0.pos + s0.len;
        assert(slot_ok(f, s0));
        let m0 = marker_of(s0.role);
        let s1 = s.skip(1);
        lemma_rest_plan(f, s, role);
        let tail = spl(f, s1, e0);
        assert(spl(f, s, from) == f.subrange(from, p0) + (s0.value + tail));
        match find_from(f, m, from) {
            Some(q) => {
                let x = Slot { pos: q, len: m.len() as int, role, value: v };
                assert forall|i: int| 0 <= i < s.len() implies s[i].pos != x.pos by {
                    assert(slot_ok(f, s[i]));
                    if s[i].pos == q {
                        lemma_occ_same_pos(f, m, marker_of(s[i].role), q);
                    }
                }
                lemma_insert_front(s, x);
                if q < p0 {
                    lemma_replace_before(f, from, p0, m0, m, q, s0.value + tail, v);
                    assert(insert_slot(s, x) == seq![x] + s);
                    assert((seq![x] + s).skip(1) =~= s);
                    assert(spl(f, s, q + m.len()) == f.subrange(q + m.len(), p0) + (s0.value + tail));
                    assert(spl(f, seq![x] + s, from) == f.subrange(from, q) + v + spl(f, s, q + m.len()));
                } else {
                    assert(q != p0);
                    lemma_occ_disjoint(f, m0, p0, m, q);
                    lemma_replace_skip(f, from, p0, m0, m, s0.value, tail, v);
                    assert forall|j: int| e0 <= j < q implies !#[trigger] occurs_at(f, m, j) by {
                        assert(from <= j);
                    }
                    lemma_find_is(f, m, e0, q);
                    lemma_replace_plan(f, s1, e0, role, v);
                    assert(insert_slot(s, x) == seq![s0] + insert_slot(s1, x));
                    assert((seq![s0] + insert_slot(s1, x)).skip(1) =~= insert_slot(s1, x));
                    assert(spl(f, seq![s0] + insert_slot(s1, x), from) == f.subrange(from, p0) + (s0.value + spl(
                        f,
                        insert_slot(s1, x),
                        e0,
                    )));
                }
            },
            None => {
                lemma_replace_skip(f, from, p0, m0, m, s0.value, tail, v);
                assert forall|j: int| e0 <= j implies !#[trigger] occurs_at(f, m, j) by {
                    assert(from <= j);
                }
                lemma_find_none(f, m, e0);
                lemma_replace_plan(f, s1, e0, role, v);
            },
        }
    }
}

proof fn lemma_spl_assemble(f: Seq<char>, s: Seq<Slot>, k: int, from: int)
    requires
        plan_ok(f, s),
        0 <= k <= s.len(),
        0 <= from <= f.len(),
        k < s.len() ==> from <= s[k].pos,
    ensures
        assemble(f, s, k, from) == spl(f, s.skip(k), from),
    decreases s.len() - k,
{
    if k < s.len() {
        assert(slot_ok(f, s[k]));
        let mk = marker_of(s[k].role);
        assert(occurs_at(f, mk, s[k].pos));
        if k + 1 < s.len() {
            lemma_plan_disjoint(f, s, k, k + 1);
        }
        lemma_spl_assemble(f, s, k + 1, s[k].pos + s[k].len);
        assert(s.skip(k).skip(1) =~= s.skip(k + 1));
        assert(s.skip(k)[0] == s[k]);
    } else {
        assert(s.skip(k) =~= Seq::<Slot>::empty());
    }
}

proof fn lemma_flatten_free(c: Seq<char>)
    requires
        dollar_free(c),
    ensures
        dollar_free(flatten_newlines(c)),
    decreases c.len(),
{
    if c.len() > 0 {
        lemma_flatten_free(c.drop_last());
    }
}

proof fn lemma_tags_free(tags: Seq<Seq<char>>)
    requires
        forall|i: int| 0 <= i < tags.len() ==> dollar_free(#[trigger] tags[i]),
    ensures
        dollar_free(tags_text(tags)),
    decreases tags.len(),
{
    if tags.len() > 0 {
        lemma_tags_free(tags.drop_last());
        assert(dollar_free(tags.last()));
    }
}

/// Adds the slot of `role`'s first placeholder, if any, to a plan of other fields.
proof fn lemma_add_step(f: Seq<char>, s: Seq<Slot>, role: FieldRole, v: Seq<char>)
    requires
        tidy_template(f),
        plan_ok(f, s),
        forall|i: int| 0 <= i < s.len() ==> s[i].role != role,
        dollar_free(v),
    ensures
        ({
            let t = crate::format::add_slot(s, crate::format::slot_of(f, marker_of(role), role, v));
            &&& replace_first(spl(f, s, 0), marker_of(role), v) == spl(f, t, 0)
            &&& plan_ok(f, t)
            &&& forall|i: int| 0 <= i < t.len() ==> (t[i].role == role || exists|j: int| 0 <= j < s.len() && #[trigger] s[j] == t[i])
        }),
{
    let m = marker_of(role);
    lemma_find_from(f, m, 0);
    lemma_replace_plan(f, s, 0, role, v);
    match find_from(f, m, 0) {
        Some(q) => {
            let x = Slot { pos: q, len: m.len() as int, role, value: v };
            assert forall|i: int| 0 <= i < s.len() implies s[i].pos != x.pos by {
                assert(slot_ok(f, s[i]));
                if s[i].pos == q {
                    lemma_occ_same_pos(f, m, marker_of(s[i].role), q);
                }
            }
            lemma_insert_plan(f, s, x);
            let t = insert_slot(s, x);
            assert forall|i: int| 0 <= i < t.len() implies (t[i].role == role || exists|j: int|
                0 <= j < s.len() && #[trigger] s[j] == t[i]) by {
                if t[i] != x {
                    assert(s.contains(t[i]));
                }
            }
        },
        None => {},
    }
}

/// Law: for a template whose every `$` starts a placeholder, and values
/// without `$`, the text of `render_template_fields` is exactly the plain
/// output of `render_template`.
pub proof fn law_fields_text_matches_plain_render(
    format: Seq<char>,
    description: Seq<char>,
    command: Seq<char>,
    tags: Seq<Seq<char>>,
)
    requires
        tidy_template(format),
        dollar_free(description),
        dollar_free(command),
        forall|i: int| 0 <= i < tags.len() ==> dollar_free(#[trigger] tags[i]),
    ensures
        assemble(format, template_slots(format, description, command, tags), 0, 0) == template_text(
            format,
            description,
            flatten_newlines(command),
            tags_text(tags),
        ),
{
    lemma_flatten_free(command);
    lemma_tags_free(tags);
    let c = flatten_newlines(command);
    let t = tags_text(tags);
    let s0: Seq<Slot> = seq![];
    assert(spl(format, s0, 0) =~= format);
    lemma_add_step(format, s0, FieldRole::Description, description);
    let s1 = crate::format::add_slot(s0, crate::format::slot_of(format, description_marker(), FieldRole::Description, description));
    assert forall|i: int| 0 <= i < s1.len() implies s1[i].role != FieldRole::Command by {
        if s1[i].role != FieldRole::Description {
            let j = choose|j: int| 0 <= j < s0.len() && #[trigger] s0[j] == s1[i];
        }
    }
    lemma_add_step(format, s1, FieldRole::Command, c);
    let s2 = crate::format::add_slot(s1, crate::format::slot_of(format, command_marker(), FieldRole::Command, c));
    assert forall|i: int| 0 <= i < s2.len() implies s2[i].role != FieldRole::Tags by {
        if s2[i].role != FieldRole::Command {
            let j = choose|j: int| 0 <= j < s1.len() && #[trigger] s1[j] == s2[i];
            assert(s1[j].role != FieldRole::Tags) by {
                if s1[j].role != FieldRole::Description {
                    let k = choose|k: int| 0 <= k < s0.len() && #[trigger] s0[k] == s1[j];
                }
            }
        }
    }
    lemma_add_step(format, s2, FieldRole::Tags, t);
    let s3 = crate::format::add_slot(s2, crate::format::slot_of(format, tags_marker(), FieldRole::Tags, t));
    assert(s3 == template_slots(format, description, command, tags));
    lemma_spl_assemble(format, s3, 0, 0);
    assert(s3.skip(0) =~= s3);
}

} // verus!
