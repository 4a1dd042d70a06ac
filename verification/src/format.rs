//! Rendering a snippet through the display template (`[$description]: $command $tags`)
//! and fixed-width columns.
use vstd::prelude::*;
use owo_colors::OwoColorize;
use crate::text::{
    extend_chars, find, find_from, lemma_find_from, replace_first, replace_first_in, string_from,
    to_chars,
};

verus! {

/// Which substituted field a range of the rendered text came from.
#[derive(Debug, Clone, Copy, PartialEq, Eq, Structural)]
pub enum FieldRole {
    Description,
    Command,
    Tags,
}

/// The command shown on one line: each line break becomes the two characters `\n`.
pub open spec fn flatten_newlines(c: Seq<char>) -> Seq<char>
    decreases c.len(),
{
    if c.len() == 0 {
        seq![]
    } else {
        flatten_newlines(c.drop_last()) + if c.last() == '\n' {
            seq!['\\', 'n']
        } else {
            seq![c.last()]
        }
    }
}

/// The tags shown as `#tag ` for each tag, in order.
pub open spec fn tags_text(tags: Seq<Seq<char>>) -> Seq<char>
    decreases tags.len(),
{
    if tags.len() == 0 {
        seq![]
    } else {
        tags_text(tags.drop_last()) + seq!['#'] + tags.last() + seq![' ']
    }
}

pub open spec fn description_marker() -> Seq<char> {
    seq!['$', 'd', 'e', 's', 'c', 'r', 'i', 'p', 't', 'i', 'o', 'n']
}

pub open spec fn command_marker() -> Seq<char> {
    seq!['$', 'c', 'o', 'm', 'm', 'a', 'n', 'd']
}

pub open spec fn tags_marker() -> Seq<char> {
    seq!['$', 't', 'a', 'g', 's']
}

/// A placeholder of the template: where its first occurrence stands, how long
/// its marker is, which field it is and the text that replaces it.
pub struct Slot {
    pub pos: int,
    pub len: int,
    pub role: FieldRole,
    pub value: Seq<char>,
}

/// `slots` with `x` inserted after every slot that does not stand later than it.
pub open spec fn insert_slot(slots: Seq<Slot>, x: Slot) -> Seq<Slot>
    decreases slots.len(),
{
    if slots.len() == 0 {
        seq![x]
    } else if slots.last().pos <= x.pos {
        slots.push(x)
    } else {
        insert_slot(slots.drop_last(), x).push(slots.last())
    }
}

/// The slot of `marker` in `format`, if it occurs there.
pub open spec fn slot_of(format: Seq<char>, marker: Seq<char>, role: FieldRole, value: Seq<char>) -> Option<Slot> {
    match find_from(format, marker, 0) {
        Some(p) => Some(Slot { pos: p, len: marker.len() as int, role, value }),
        None => None,
    }
}

pub open spec fn add_slot(slots: Seq<Slot>, s: Option<Slot>) -> Seq<Slot> {
    match s {
        Some(x) => insert_slot(slots, x),
        None => slots,
    }
}

/// The template's placeholders that occur in `format`, in the order they stand there.
pub open spec fn template_slots(
    format: Seq<char>,
    description: Seq<char>,
    command: Seq<char>,
    tags: Seq<Seq<char>>,
) -> Seq<Slot> {
    add_slot(
        add_slot(
            add_slot(seq![], slot_of(format, description_marker(), FieldRole::Description, description)),
            slot_of(format, command_marker(), FieldRole::Command, flatten_newlines(command)),
        ),
        slot_of(format, tags_marker(), FieldRole::Tags, tags_text(tags)),
    )
}

/// The text from `from` on, each slot from the `k`-th on replaced by its value;
/// a slot that starts before `from` stays literal text.
pub open spec fn assemble(format: Seq<char>, slots: Seq<Slot>, k: int, from: int) -> Seq<char>
    decreases slots.len() - k,
{
    if k < 0 || k >= slots.len() {
        format.subrange(from, format.len() as int)
    } else if slots[k].pos < from {
        assemble(format, slots, k + 1, from)
    } else {
        format.subrange(from, slots[k].pos) + slots[k].value + assemble(
            format,
            slots,
            k + 1,
            slots[k].pos + slots[k].len,
        )
    }
}

/// Where each substituted value lands in `assemble`'s output, given that the
/// output so far is `offset` characters long.
pub open spec fn assemble_ranges(
    format: Seq<char>,
    slots: Seq<Slot>,
    k: int,
    from: int,
    offset: int,
) -> Seq<(FieldRole, int, int)>
    decreases slots.len() - k,
{
    if k < 0 || k >= slots.len() {
        seq![]
    } else if slots[k].pos < from {
        assemble_ranges(format, slots, k + 1, from, offset)
    } else {
        let start = offset + slots[k].pos - from;
        let end = start + slots[k].value.len();
        seq![(slots[k].role, start, end)] + assemble_ranges(
            format,
            slots,
            k + 1,
            slots[k].pos + slots[k].len,
            end,
        )
    }
}

/// The one-line command text (see `flatten_newlines`).
pub(crate) fn flatten_command(command: &Vec<char>) -> (r: Vec<char>)
    ensures
        r@ == flatten_newlines(command@),
{
    let mut r: Vec<char> = Vec::new();
    let mut i: usize = 0;
    while i < command.len()
        invariant
            i <= command.len(),
            r@ == flatten_newlines(command@.take(i as int)),
        decreases command.len() - i,
    {
        let ghost r0 = r@;
        if command[i] == '\n' {
            r.push('\\');
            r.push('n');
        } else {
            r.push(command[i]);
        }
        assert(command@.take(i + 1).drop_last() =~= command@.take(i as int));
        i = i + 1;
        assert(r@ =~= flatten_newlines(command@.take(i as int)));
    }
    assert(command@.take(i as int) =~= command@);
    r
}

/// The tags text (see `tags_text`).
fn render_tags(tags: &[String]) -> (r: Vec<char>)
    ensures
        r@ == tags_text(tags@.map_values(|t: String| t@)),
{
    let ghost tv = tags@.map_values(|t: String| t@);
    let mut r: Vec<char> = Vec::new();
    let mut i: usize = 0;
    while i < tags.len()
        invariant
            i <= tags.len(),
            tv == tags@.map_values(|t: String| t@),
            r@ == tags_text(tv.take(i as int)),
        decreases tags.len() - i,
    {
        let ghost r0 = r@;
        r.push('#');
        let t = to_chars(tags[i].as_str());
        extend_chars(&mut r, &t);
        r.push(' ');
        assert(tv.take(i + 1).drop_last() =~= tv.take(i as int));
        i = i + 1;
        assert(r@ =~= tags_text(tv.take(i as int)));
    }
    assert(tv.take(i as int) =~= tv);
    r
}

fn description_chars() -> (r: Vec<char>)
    ensures
        r@ == description_marker(),
{
    vec!['$', 'd', 'e', 's', 'c', 'r', 'i', 'p', 't', 'i', 'o', 'n']
}

fn command_chars() -> (r: Vec<char>)
    ensures
        r@ == command_marker(),
{
    vec!['$', 'c', 'o', 'm', 'm', 'a', 'n', 'd']
}

fn tags_chars() -> (r: Vec<char>)
    ensures
        r@ == tags_marker(),
{
    vec!['$', 't', 'a', 'g', 's']
}

/// A slot at run time: position, marker length, role and value.
type ExecSlot = (usize, usize, FieldRole, Vec<char>);

pub open spec fn slot_view(s: ExecSlot) -> Slot {
    Slot { pos: s.0 as int, len: s.1 as int, role: s.2, value: s.3@ }
}

/// Adds `x` to the slots, keeping them in the order `insert_slot` gives.
fn insert_exec_slot(slots: &mut Vec<ExecSlot>, x: ExecSlot, Ghost(n): Ghost<int>)
    requires
        forall|j: int| 0 <= j < old(slots)@.len() ==> #[trigger] old(slots)@[j].0 + old(slots)@[j].1 <= n,
        x.0 + x.1 <= n,
    ensures
        forall|j: int| 0 <= j < final(slots)@.len() ==> #[trigger] final(slots)@[j].0 + final(slots)@[j].1 <= n,
        final(slots)@.map_values(|s: ExecSlot| slot_view(s)) == insert_slot(
            old(slots)@.map_values(|s: ExecSlot| slot_view(s)),
            slot_view(x),
        ),
    decreases old(slots)@.len(),
{
    if slots.len() == 0 {
        slots.push(x);
        assert(slots@.map_values(|s: ExecSlot| slot_view(s)) =~= seq![slot_view(x)]);
    } else if slots[slots.len() - 1].0 <= x.0 {
        let ghost before = slots@.map_values(|s: ExecSlot| slot_view(s));
        slots.push(x);
        assert(slots@.map_values(|s: ExecSlot| slot_view(s)) =~= before.push(slot_view(x)));
    } else {
        let ghost before = slots@.map_values(|s: ExecSlot| slot_view(s));
        let last = slots.pop().unwrap();
        assert(slots@.map_values(|s: ExecSlot| slot_view(s)) =~= before.drop_last());
        insert_exec_slot(slots, x, Ghost(n));
        let ghost mid = slots@.map_values(|s: ExecSlot| slot_view(s));
        slots.push(last);
        assert(slots@.map_values(|s: ExecSlot| slot_view(s)) =~= mid.push(slot_view(last)));
    }
}

/// The slot of `marker` in `format`, if it occurs there (see `slot_of`).
fn find_slot(format: &Vec<char>, marker: &Vec<char>, role: FieldRole, value: Vec<char>) -> (r: Option<ExecSlot>)
    ensures
        match r {
            Some(s) => slot_of(format@, marker@, role, value@) == Some(slot_view(s)),
            None => slot_of(format@, marker@, role, value@) is None,
        },
        r matches Some(s) ==> s.0 + s.1 <= format.len(),
{
    proof {
        lemma_find_from(format@, marker@, 0);
    }
    match find(format, marker) {
        Some(p) => Some((p, marker.len(), role, value)),
        None => None,
    }
}

/// Like `render_template`, but reports which character range of the output
/// each substituted field occupies instead of coloring it. Each placeholder
/// is replaced at its first occurrence, in the order they stand in `format`.
pub fn render_template_fields(format: &str, description: &str, command: &str, tags: &[String]) -> (r: (
    String,
    Vec<(FieldRole, core::ops::Range<usize>)>,
))
    ensures
        ({
            let slots = template_slots(
                format@,
                description@,
                command@,
                tags@.map_values(|t: String| t@),
            );
            &&& r.0@ == assemble(format@, slots, 0, 0)
            &&& r.1@.map_values(|f: (FieldRole, core::ops::Range<usize>)| (f.0, f.1.start as int, f.1.end as int))
                == assemble_ranges(format@, slots, 0, 0, 0)
        }),
{
    let f = to_chars(format);
    let mut slots: Vec<ExecSlot> = Vec::new();
    let d = find_slot(&f, &description_chars(), FieldRole::Description, to_chars(description));
    match d {
        Some(s) => insert_exec_slot(&mut slots, s, Ghost(f.len() as int)),
        None => {},
    }
    let c = find_slot(&f, &command_chars(), FieldRole::Command, flatten_command(&to_chars(command)));
    match c {
        Some(s) => insert_exec_slot(&mut slots, s, Ghost(f.len() as int)),
        None => {},
    }
    let t = find_slot(&f, &tags_chars(), FieldRole::Tags, render_tags(tags));
    match t {
        Some(s) => insert_exec_slot(&mut slots, s, Ghost(f.len() as int)),
        None => {},
    }
    let ghost sv = slots@.map_values(|s: ExecSlot| slot_view(s));
    assert(sv == template_slots(format@, description@, command@, tags@.map_values(|t: String| t@)));
    assert forall|k: int| 0 <= k < sv.len() implies #[trigger] sv[k].pos + sv[k].len <= f.len() by {
        assert(sv[k] == slot_view(slots@[k]));
    }
    let mut out: Vec<char> = Vec::new();
    let mut fields: Vec<(FieldRole, core::ops::Range<usize>)> = Vec::new();
    let mut cursor: usize = 0;
    let mut k: usize = 0;
    while k < slots.len()
        invariant
            k <= slots.len(),
            sv == slots@.map_values(|s: ExecSlot| slot_view(s)),
            f@ == format@,
            cursor <= f.len(),
            forall|j: int| 0 <= j < sv.len() ==> #[trigger] sv[j].pos + sv[j].len <= f.len(),
            out@ + assemble(f@, sv, k as int, cursor as int) == assemble(f@, sv, 0, 0),
            fields@.map_values(|x: (FieldRole, core::ops::Range<usize>)| (x.0, x.1.start as int, x.1.end as int))
                + assemble_ranges(f@, sv, k as int, cursor as int, out.len() as int)
                == assemble_ranges(f@, sv, 0, 0, 0),
        decreases slots.len() - k,
    {
        let pos = slots[k].0;
        let len = slots[k].1;
        let role = slots[k].2;
        assert(sv[k as int] == slot_view(slots@[k as int]));
        if pos >= cursor {
            let ghost c0 = cursor;
            let ghost out0 = out@;
            let ghost fields0 = fields@.map_values(|x: (FieldRole, core::ops::Range<usize>)| (x.0, x.1.start as int, x.1.end as int));
            let mut i = cursor;
            while i < pos
                invariant
                    cursor <= i <= pos <= f.len(),
                    out@ == out0 + f@.subrange(cursor as int, i as int),
                decreases pos - i,
            {
                out.push(f[i]);
                i = i + 1;
                assert(out@ =~= out0 + f@.subrange(cursor as int, i as int));
            }
            let start = out.len();
            extend_chars(&mut out, &slots[k].3);
            let end = out.len();
            fields.push((role, start..end));
            assert(fields@.map_values(|x: (FieldRole, core::ops::Range<usize>)| (x.0, x.1.start as int, x.1.end as int))
                =~= fields0.push((role, start as int, end as int)));
            cursor = pos + len;
            assert(out@ + assemble(f@, sv, k + 1, cursor as int) =~= out0 + assemble(f@, sv, k as int, c0 as int));
        }
        k = k + 1;
    }
    let ghost out0 = out@;
    let mut i = cursor;
    while i < f.len()
        invariant
            cursor <= i <= f.len(),
            out@ == out0 + f@.subrange(cursor as int, i as int),
        decreases f.len() - i,
    {
        out.push(f[i]);
        i = i + 1;
        assert(out@ =~= out0 + f@.subrange(cursor as int, i as int));
    }
    (string_from(&out), fields)
}

/// The text that stands in for the placeholder of `role`.
pub open spec fn field_text(
    role: FieldRole,
    description: Seq<char>,
    command: Seq<char>,
    tags: Seq<Seq<char>>,
) -> Seq<char> {
    match role {
        FieldRole::Description => description,
        FieldRole::Command => flatten_newlines(command),
        FieldRole::Tags => tags_text(tags),
    }
}

/// Whether the slot lies inside `format`.
pub open spec fn slot_within(format: Seq<char>, x: Slot) -> bool {
    0 <= x.pos && 0 <= x.len && x.pos + x.len <= format.len()
}

/// Whether no two slots belong to the same field.
pub open spec fn roles_distinct(s: Seq<Slot>) -> bool {
    forall|i: int, j: int| 0 <= i < j < s.len() ==> s[i].role != s[j].role
}

/// Whether every slot lies inside `format` and carries the text of its field.
pub open spec fn slots_fit(
    format: Seq<char>,
    s: Seq<Slot>,
    description: Seq<char>,
    command: Seq<char>,
    tags: Seq<Seq<char>>,
) -> bool {
    forall|i: int|
        0 <= i < s.len() ==> slot_within(format, #[trigger] s[i]) && s[i].value == field_text(
            s[i].role,
            description,
            command,
            tags,
        )
}

proof fn lemma_insert_members(s: Seq<Slot>, x: Slot)
    requires
        roles_distinct(s),
        forall|i: int| 0 <= i < s.len() ==> s[i].role != x.role,
    ensures
        insert_slot(s, x).len() == s.len() + 1,
        forall|i: int|
            0 <= i < insert_slot(s, x).len() ==> (#[trigger] insert_slot(s, x)[i] == x || s.contains(
                insert_slot(s, x)[i],
            )),
        roles_distinct(insert_slot(s, x)),
    decreases s.len(),
{
    if s.len() == 0 {
    } else if s.last().pos <= x.pos {
        let r = s.push(x);
        assert forall|i: int| 0 <= i < r.len() implies (#[trigger] r[i] == x || s.contains(r[i])) by {
            if i < s.len() {
                assert(r[i] == s[i]);
            }
        }
        assert forall|i: int, j: int| 0 <= i < j < r.len() implies r[i].role != r[j].role by {
            assert(r[i] == s[i]);
            if j < s.len() {
                assert(r[j] == s[j]);
            }
        }
    } else {
        let dl = s.drop_last();
        assert forall|i: int, j: int| 0 <= i < j < dl.len() implies dl[i].role != dl[j].role by {
            assert(dl[i] == s[i] && dl[j] == s[j]);
        }
        assert forall|i: int| 0 <= i < dl.len() implies dl[i].role != x.role by {
            assert(dl[i] == s[i]);
        }
        lemma_insert_members(dl, x);
        let ins = insert_slot(dl, x);
        let r = ins.push(s.last());
        assert forall|i: int| 0 <= i < r.len() implies (#[trigger] r[i] == x || s.contains(r[i])) by {
            if i < ins.len() {
                assert(r[i] == ins[i]);
                if ins[i] != x {
                    let k = choose|k: int| 0 <= k < dl.len() && dl[k] == ins[i];
                    assert(s[k] == dl[k]);
                }
            } else {
                assert(s[s.len() - 1] == r[i]);
            }
        }
        assert forall|i: int, j: int| 0 <= i < j < r.len() implies r[i].role != r[j].role by {
            assert(r[i] == ins[i]);
            if j < ins.len() {
                assert(r[j] == ins[j]);
            } else if ins[i] != x {
                let k = choose|k: int| 0 <= k < dl.len() && dl[k] == ins[i];
                assert(s[k] == dl[k]);
                assert(s[k].role != s[s.len() - 1].role);
            } else {
                assert(s[s.len() - 1].role != x.role);
            }
        }
    }
}

/// Adds the slot of `role`'s first placeholder, if any, keeping the slots
/// inside `format`, one per field and each with the text of its field.
proof fn lemma_add_field(
    format: Seq<char>,
    s: Seq<Slot>,
    role: FieldRole,
    marker: Seq<char>,
    description: Seq<char>,
    command: Seq<char>,
    tags: Seq<Seq<char>>,
    bad: Set<FieldRole>,
)
    requires
        roles_distinct(s),
        slots_fit(format, s, description, command, tags),
        forall|i: int| 0 <= i < s.len() ==> #[trigger] s[i].role != role && !bad.contains(s[i].role),
        !bad.contains(role),
    ensures
        ({
            let r = add_slot(s, slot_of(format, marker, role, field_text(role, description, command, tags)));
            &&& roles_distinct(r)
            &&& slots_fit(format, r, description, command, tags)
            &&& forall|i: int| 0 <= i < r.len() ==> !bad.contains(#[trigger] r[i].role)
        }),
{
    lemma_find_from(format, marker, 0);
    let v = field_text(role, description, command, tags);
    match find_from(format, marker, 0) {
        Some(p) => {
            let x = Slot { pos: p, len: marker.len() as int, role, value: v };
            lemma_insert_members(s, x);
            let r = insert_slot(s, x);
            assert forall|i: int| 0 <= i < r.len() implies slot_within(format, #[trigger] r[i]) && r[i].value
                == field_text(r[i].role, description, command, tags) && !bad.contains(r[i].role) by {
                if r[i] != x {
                    let k = choose|k: int| 0 <= k < s.len() && s[k] == r[i];
                    assert(slot_within(format, s[k]));
                }
            }
        },
        None => {},
    }
}

proof fn lemma_assemble_ranges(f: Seq<char>, s: Seq<Slot>, k: int, from: int, prefix: Seq<char>)
    requires
        0 <= k,
        0 <= from <= f.len(),
        forall|j: int| 0 <= j < s.len() ==> slot_within(f, #[trigger] s[j]),
        roles_distinct(s),
    ensures
        ({
            let out = prefix + assemble(f, s, k, from);
            let rs = assemble_ranges(f, s, k, from, prefix.len() as int);
            &&& forall|i: int| 0 <= i < rs.len() ==> prefix.len() <= #[trigger] rs[i].1 <= rs[i].2 <= out.len()
            &&& forall|i: int|
                #![trigger rs[i]]
                0 <= i < rs.len() ==> exists|j: int|
                    k <= j < s.len() && #[trigger] s[j].role == rs[i].0 && out.subrange(rs[i].1, rs[i].2)
                        == s[j].value
            &&& forall|i: int, i2: int| 0 <= i < i2 < rs.len() ==> rs[i].2 <= rs[i2].1 && rs[i].0 != rs[i2].0
        }),
    decreases s.len() - k,
{
    if k >= s.len() {
    } else if s[k].pos < from {
        lemma_assemble_ranges(f, s, k + 1, from, prefix);
        let out = prefix + assemble(f, s, k, from);
        let rs = assemble_ranges(f, s, k, from, prefix.len() as int);
        assert(assemble(f, s, k, from) == assemble(f, s, k + 1, from));
        assert(rs == assemble_ranges(f, s, k + 1, from, prefix.len() as int));
        assert forall|i: int| #![trigger rs[i]] 0 <= i < rs.len() implies exists|j: int|
            k <= j < s.len() && #[trigger] s[j].role == rs[i].0 && out.subrange(rs[i].1, rs[i].2) == s[j].value by {
            let j = choose|j: int|
                k + 1 <= j < s.len() && #[trigger] s[j].role == rs[i].0 && out.subrange(rs[i].1, rs[i].2) == s[j].value;
        }
    } else {
        let x = s[k];
        assert(slot_within(f, x));
        let p2 = prefix + f.subrange(from, x.pos) + x.value;
        let rest_from = x.pos + x.len;
        lemma_assemble_ranges(f, s, k + 1, rest_from, p2);
        let out = prefix + assemble(f, s, k, from);
        assert(out =~= p2 + assemble(f, s, k + 1, rest_from));
        let start = prefix.len() + x.pos - from;
        let end = start + x.value.len();
        assert(p2.len() == end);
        assert(out.subrange(start, end) =~= x.value);
        let rest = assemble_ranges(f, s, k + 1, rest_from, end);
        let rs = assemble_ranges(f, s, k, from, prefix.len() as int);
        assert(rs == seq![(x.role, start, end)] + rest);
        assert forall|i: int| 0 <= i < rs.len() implies prefix.len() <= #[trigger] rs[i].1 <= rs[i].2 <= out.len() by {
            if i > 0 {
                assert(rs[i] == rest[i - 1]);
            }
        }
        assert forall|i: int| #![trigger rs[i]] 0 <= i < rs.len() implies exists|j: int|
            k <= j < s.len() && #[trigger] s[j].role == rs[i].0 && out.subrange(rs[i].1, rs[i].2) == s[j].value by {
            if i > 0 {
                assert(rs[i] == rest[i - 1]);
            } else {
                assert(s[k].role == rs[0].0);
            }
        }
        assert forall|i: int, i2: int| 0 <= i < i2 < rs.len() implies rs[i].2 <= rs[i2].1 && rs[i].0 != rs[i2].0 by {
            assert(rs[i2] == rest[i2 - 1]);
            if i > 0 {
                assert(rs[i] == rest[i - 1]);
            } else {
                let j = choose|j: int|
                    k + 1 <= j < s.len() && #[trigger] s[j].role == rest[i2 - 1].0 && out.subrange(
                        rest[i2 - 1].1,
                        rest[i2 - 1].2,
                    ) == s[j].value;
                assert(s[k].role != s[j].role);
            }
        }
    }
}

/// Law: each range that `render_template_fields` reports lies inside the
/// rendered text and holds exactly the text of its field (the description,
/// the one-line command or the tags); the ranges come in the order they stand
/// in the text, do not overlap, and no field is reported twice.
pub proof fn law_field_ranges_hold_their_values(
    format: Seq<char>,
    description: Seq<char>,
    command: Seq<char>,
    tags: Seq<Seq<char>>,
)
    ensures
        ({
            let slots = template_slots(format, description, command, tags);
            let out = assemble(format, slots, 0, 0);
            let rs = assemble_ranges(format, slots, 0, 0, 0);
            &&& forall|i: int|
                0 <= i < rs.len() ==> 0 <= #[trigger] rs[i].1 <= rs[i].2 <= out.len() && out.subrange(rs[i].1, rs[i].2)
                    == field_text(rs[i].0, description, command, tags)
            &&& forall|i: int, j: int| 0 <= i < j < rs.len() ==> rs[i].2 <= rs[j].1 && rs[i].0 != rs[j].0
        }),
{
    let s0: Seq<Slot> = seq![];
    let b1 = set![FieldRole::Command, FieldRole::Tags];
    lemma_add_field(format, s0, FieldRole::Description, description_marker(), description, command, tags, b1);
    let s1 = add_slot(
        s0,
        slot_of(format, description_marker(), FieldRole::Description, field_text(FieldRole::Description, description, command, tags)),
    );
    let b2 = set![FieldRole::Tags];
    assert forall|i: int| 0 <= i < s1.len() implies #[trigger] s1[i].role != FieldRole::Command && !b2.contains(s1[i].role) by {
        assert(!b1.contains(s1[i].role));
    }
    lemma_add_field(format, s1, FieldRole::Command, command_marker(), description, command, tags, b2);
    let s2 = add_slot(
        s1,
        slot_of(format, command_marker(), FieldRole::Command, field_text(FieldRole::Command, description, command, tags)),
    );
    let b3 = Set::<FieldRole>::empty();
    assert forall|i: int| 0 <= i < s2.len() implies #[trigger] s2[i].role != FieldRole::Tags && !b3.contains(s2[i].role) by {
        assert(!b2.contains(s2[i].role));
    }
    lemma_add_field(format, s2, FieldRole::Tags, tags_marker(), description, command, tags, b3);
    let s3 = add_slot(
        s2,
        slot_of(format, tags_marker(), FieldRole::Tags, field_text(FieldRole::Tags, description, command, tags)),
    );
    assert(s3 == template_slots(format, description, command, tags));
    assert forall|j: int| 0 <= j < s3.len() implies slot_within(format, #[trigger] s3[j]) by {}
    lemma_assemble_ranges(format, s3, 0, 0, seq![]);
    let out = assemble(format, s3, 0, 0);
    assert(seq![] + out =~= out);
    let rs = assemble_ranges(format, s3, 0, 0, 0);
    assert forall|i: int| 0 <= i < rs.len() implies 0 <= #[trigger] rs[i].1 <= rs[i].2 <= out.len() && out.subrange(
        rs[i].1,
        rs[i].2,
    ) == field_text(rs[i].0, description, command, tags) by {
        let j = choose|j: int|
            0 <= j < s3.len() && #[trigger] s3[j].role == rs[i].0 && (seq![] + out).subrange(rs[i].1, rs[i].2)
                == s3[j].value;
        assert(s3[j].value == field_text(s3[j].role, description, command, tags));
    }
}

} // verus!

verus! {

/// `text` in bright red, as ANSI escape codes: `ESC[91m`, the text, `ESC[39m`.
pub open spec fn bright_red(text: Seq<char>) -> Seq<char> {
    seq!['\x1b', '[', '9', '1', 'm'] + text + seq!['\x1b', '[', '3', '9', 'm']
}

/// `text` in bright cyan, as ANSI escape codes: `ESC[96m`, the text, `ESC[39m`.
pub open spec fn bright_cyan(text: Seq<char>) -> Seq<char> {
    seq!['\x1b', '[', '9', '6', 'm'] + text + seq!['\x1b', '[', '3', '9', 'm']
}

/// `OwoColorize::bright_red`, rendered with `to_string`: owo-colors writes the
/// foreground code `ESC[91m`, the text, then the reset `ESC[39m`, whether or
/// not the output is a terminal.
#[verifier::external_body]
fn paint_bright_red(text: &str) -> (r: String)
    ensures
        r@ == bright_red(text@),
{
    text.bright_red().to_string()
}

/// `OwoColorize::bright_cyan`, rendered with `to_string`: owo-colors writes the
/// foreground code `ESC[96m`, the text, then the reset `ESC[39m`, whether or
/// not the output is a terminal.
#[verifier::external_body]
fn paint_bright_cyan(text: &str) -> (r: String)
    ensures
        r@ == bright_cyan(text@),
{
    text.bright_cyan().to_string()
}

/// The template with `$description`, `$command` and `$tags` replaced, one
/// after the other, at their first occurrence in the text as it stands.
pub open spec fn template_text(
    format: Seq<char>,
    description: Seq<char>,
    command: Seq<char>,
    tags: Seq<char>,
) -> Seq<char> {
    replace_first(
        replace_first(replace_first(format, description_marker(), description), command_marker(), command),
        tags_marker(),
        tags,
    )
}

/// Renders the display template for one snippet: its command on one line
/// (line breaks shown as `\n`), its tags as `#tag ` each. With `color`, the
/// description is bright red and the tags bright cyan (ANSI codes, always).
pub fn render_template(format: &str, description: &str, command: &str, tags: &[String], color: bool) -> (r: String)
    ensures
        r@ == template_text(
            format@,
            if color {
                bright_red(description@)
            } else {
                description@
            },
            flatten_newlines(command@),
            if color {
                bright_cyan(tags_text(tags@.map_values(|t: String| t@)))
            } else {
                tags_text(tags@.map_values(|t: String| t@))
            },
        ),
{
    let flattened = flatten_command(&to_chars(command));
    let tags_v = render_tags(tags);
    let (d, t) = if color {
        let td = string_from(&tags_v);
        (to_chars(paint_bright_red(description).as_str()), to_chars(paint_bright_cyan(td.as_str()).as_str()))
    } else {
        (to_chars(description), tags_v)
    };
    let f = to_chars(format);
    let a = replace_first_in(&f, &description_chars(), &d);
    let b = replace_first_in(&a, &command_chars(), &flattened);
    let c = replace_first_in(&b, &tags_chars(), &t);
    string_from(&c)
}

/// `s` cut to `width` characters, the last three becoming `...` when there is
/// room for them; `s` itself if it fits.
pub open spec fn truncated(s: Seq<char>, width: nat) -> Seq<char> {
    if s.len() > width {
        if width <= 3 {
            s.take(width as int)
        } else {
            s.take(width - 3) + seq!['.', '.', '.']
        }
    } else {
        s
    }
}

/// `truncated(s, width)` padded with spaces to exactly `width` characters.
pub open spec fn truncate_pad_text(s: Seq<char>, width: nat) -> Seq<char> {
    let t = truncated(s, width);
    t + Seq::new((width - t.len()) as nat, |i: int| ' ')
}

/// Fits `s` into a column of exactly `width` characters: truncated (with
/// `...` when there is room) if longer, padded with spaces if shorter.
pub fn truncate_pad(s: &str, width: usize) -> (r: String)
    ensures
        r@ == truncate_pad_text(s@, width as nat),
        r@.len() == width,
{
    let chars = to_chars(s);
    let mut out: Vec<char> = Vec::new();
    if chars.len() > width {
        let keep = if width <= 3 {
            width
        } else {
            width - 3
        };
        let mut i: usize = 0;
        while i < keep
            invariant
                i <= keep <= width < chars.len(),
                out@ == chars@.take(i as int),
            decreases keep - i,
        {
            out.push(chars[i]);
            i = i + 1;
            assert(out@ =~= chars@.take(i as int));
        }
        if width > 3 {
            out.push('.');
            out.push('.');
            out.push('.');
        }
    } else {
        out = chars.clone();
    }
    assert(out@ =~= truncated(s@, width as nat));
    let ghost t = out@;
    while out.len() < width
        invariant
            t.len() <= width,
            t.len() <= out.len() <= width,
            out@ == t + Seq::new((out.len() - t.len()) as nat, |i: int| ' '),
        decreases width - out.len(),
    {
        out.push(' ');
        assert(out@ =~= t + Seq::new((out.len() - t.len()) as nat, |i: int| ' '));
    }
    string_from(&out)
}

/// Every rendered column is exactly as wide as asked.
pub proof fn law_truncate_pad_width(s: Seq<char>, width: nat)
    ensures
        truncate_pad_text(s, width).len() == width,
{
}

} // verus!
