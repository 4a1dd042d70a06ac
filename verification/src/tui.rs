//! Small helpers of the terminal screens: which rows of a list are visible,
//! and where a character index falls in a string's UTF-8 bytes.
use vstd::prelude::*;
use vstd::utf8::{encode_utf8, encode_scalar};

verus! {

/// The visible window `[start, end)` of a list of `total` rows when
/// `capacity` rows fit: everything if it fits; otherwise the first page
/// while focus is on it, else scrolled just far enough to show focus.
pub open spec fn window(total: nat, focus: nat, capacity: nat) -> (nat, nat) {
    if capacity == 0 || total <= capacity {
        (0, total)
    } else {
        let max_start = (total - capacity) as nat;
        let start: nat = if focus >= capacity {
            let s = (focus + 1 - capacity) as nat;
            if s <= max_start {
                s
            } else {
                max_start
            }
        } else {
            0
        };
        (start, start + capacity)
    }
}

/// Which rows of the list are on screen (see `window`).
pub fn visible_window(total: usize, focus: usize, capacity: usize) -> (r: (usize, usize))
    ensures
        (r.0 as nat, r.1 as nat) == window(total as nat, focus as nat, capacity as nat),
{
    if capacity == 0 || total <= capacity {
        return (0, total);
    }
    let max_start = total - capacity;
    let start = if focus >= capacity {
        let s = focus - capacity + 1;
        if s <= max_start {
            s
        } else {
            max_start
        }
    } else {
        0
    };
    (start, start + capacity)
}

/// The window never runs past the list, holds as many rows as fit, and
/// shows the focused row whenever focus is on a row.
pub proof fn law_window_shows_focus(total: nat, focus: nat, capacity: nat)
    requires
        capacity > 0,
    ensures
        ({
            let w = window(total, focus, capacity);
            &&& w.0 <= w.1 <= total
            &&& w.1 - w.0 == if total <= capacity { total } else { capacity }
            &&& focus < total ==> w.0 <= focus < w.1
        }),
{
}

proof fn lemma_encode_utf8_concat(a: Seq<char>, b: Seq<char>)
    ensures
        encode_utf8(a + b) == encode_utf8(a) + encode_utf8(b),
    decreases a.len(),
{
    if a.len() == 0 {
        assert(a + b =~= b);
        assert(encode_utf8(a) =~= Seq::<u8>::empty());
        assert(encode_utf8(a) + encode_utf8(b) =~= encode_utf8(b));
    } else {
        lemma_encode_utf8_concat(a.drop_first(), b);
        assert((a + b).drop_first() =~= a.drop_first() + b);
        assert(encode_utf8(a + b) =~= encode_utf8(a) + encode_utf8(b));
    }
}

/// How many bytes `c` takes in UTF-8.
fn utf8_width(c: char) -> (w: usize)
    ensures
        w == encode_scalar(c as u32).len(),
{
    proof {
        vstd::utf8::char_is_scalar(c);
    }
    let u = c as u32;
    if u <= 0x7f {
        1
    } else if u <= 0x7ff {
        2
    } else if u <= 0xffff {
        3
    } else {
        4
    }
}

/// The byte offset of the `char_idx`-th character of `s` (`s.len()` past the end).
pub fn char_byte_index(s: &str, char_idx: usize) -> (r: usize)
    ensures
        char_idx <= s@.len() ==> r == encode_utf8(s@.take(char_idx as int)).len(),
        char_idx > s@.len() ==> r == encode_utf8(s@).len(),
{
    let bytes = s.as_bytes();
    let total = bytes.len();
    let v = crate::text::to_chars(s);
    let mut i: usize = 0;
    let mut b: usize = 0;
    proof {
        assert(v@.take(0) =~= Seq::<char>::empty());
        lemma_encode_utf8_concat(v@.take(v.len() as int), Seq::empty());
        assert(v@.take(v.len() as int) =~= v@);
    }
    while i < v.len() && i < char_idx
        invariant
            i <= v.len(),
            i <= char_idx,
            v@ == s@,
            total == encode_utf8(v@).len(),
            b == encode_utf8(v@.take(i as int)).len(),
        decreases v.len() - i,
    {
        let w = utf8_width(v[i]);
        proof {
            lemma_encode_utf8_concat(v@.take(i as int), seq![v@[i as int]]);
            assert(v@.take(i + 1) =~= v@.take(i as int) + seq![v@[i as int]]);
            vstd::utf8::char_is_scalar(v@[i as int]);
            assert(seq![v@[i as int]].drop_first() =~= Seq::<char>::empty());
            assert(encode_utf8(Seq::<char>::empty()) =~= Seq::<u8>::empty());
            assert(encode_utf8(seq![v@[i as int]]) =~= encode_scalar(v@[i as int] as u32));
            lemma_encode_utf8_concat(v@.take(i + 1), v@.skip(i + 1));
            assert(v@.take(i + 1) + v@.skip(i + 1) =~= v@);
        }
        b = b + w;
        i = i + 1;
    }
    if i == v.len() {
        assert(v@.take(i as int) =~= s@);
        assert(s@.take(i as int) =~= s@);
    }
    b
}

} // verus!
