//! `pet list`: which snippets are shown, and how wide the one-line view is.
use vstd::prelude::*;
use crate::config::GeneralConfig;
use crate::history::{trim, trimmed};
use crate::text::{string_from, to_chars};

verus! {

/// The options of `pet list`.
#[derive(Debug, Clone, Default)]
pub struct ListOptions {
    pub oneline: bool,
    pub tags: Option<String>,
    pub filter: Option<String>,
    pub debug: bool,
}

/// The pieces of `s` between commas, and the piece still open at its end.
pub open spec fn comma_state(s: Seq<char>) -> (Seq<Seq<char>>, Seq<char>)
    decreases s.len(),
{
    if s.len() == 0 {
        (seq![], seq![])
    } else {
        let (done, cur) = comma_state(s.drop_last());
        if s.last() == ',' {
            (done.push(cur), seq![])
        } else {
            (done, cur.push(s.last()))
        }
    }
}

/// The comma-separated pieces of `s`, each trimmed (one empty piece for empty `s`).
pub open spec fn tag_pieces(s: Seq<char>) -> Seq<Seq<char>> {
    let (done, cur) = comma_state(s);
    done.push(cur).map_values(|p: Seq<char>| trimmed(p))
}

/// The tags of `--tags`: its comma-separated pieces, trimmed.
pub fn tag_list(tags: &str) -> (r: Vec<String>)
    ensures
        r@.map_values(|t: String| t@) == tag_pieces(tags@),
{
    let v = to_chars(tags);
    let mut done: Vec<Vec<char>> = Vec::new();
    let mut cur: Vec<char> = Vec::new();
    let mut i: usize = 0;
    while i < v.len()
        invariant
            i <= v.len(),
            v@ == tags@,
            (done@.map_values(|p: Vec<char>| p@), cur@) == comma_state(v@.take(i as int)),
        decreases v.len() - i,
    {
        assert(v@.take(i + 1).drop_last() =~= v@.take(i as int));
        let ghost before = done@.map_values(|p: Vec<char>| p@);
        if v[i] == ',' {
            let ghost c = cur@;
            let mut piece: Vec<char> = Vec::new();
            std::mem::swap(&mut piece, &mut cur);
            done.push(piece);
            assert(done@.map_values(|p: Vec<char>| p@) =~= before.push(c));
        } else {
            cur.push(v[i]);
        }
        i = i + 1;
        assert(done@.map_values(|p: Vec<char>| p@) == comma_state(v@.take(i as int)).0);
    }
    assert(v@.take(i as int) =~= v@);
    let ghost before = done@.map_values(|p: Vec<char>| p@);
    let ghost c = cur@;
    done.push(cur);
    let ghost pieces = done@.map_values(|p: Vec<char>| p@);
    assert(pieces =~= before.push(c));
    let mut r: Vec<String> = Vec::new();
    let mut k: usize = 0;
    while k < done.len()
        invariant
            k <= done.len(),
            pieces == done@.map_values(|p: Vec<char>| p@),
            r@.map_values(|t: String| t@) == pieces.take(k as int).map_values(|p: Seq<char>| trimmed(p)),
        decreases done.len() - k,
    {
        let ghost rb = r@.map_values(|t: String| t@);
        let t = string_from(&trim(&done[k]));
        r.push(t);
        assert(pieces[k as int] == done@[k as int]@);
        assert(r@.map_values(|t: String| t@) =~= rb.push(trimmed(pieces[k as int])));
        assert(pieces.take(k + 1) =~= pieces.take(k as int).push(pieces[k as int]));
        k = k + 1;
        assert(r@.map_values(|t: String| t@) =~= pieces.take(k as int).map_values(|p: Seq<char>| trimmed(p)));
    }
    assert(pieces.take(k as int) =~= pieces);
    r
}

/// The width of the description in the one-line view: `column`, or 40 when
/// it is not positive.
pub fn column_width(general: &GeneralConfig) -> (r: usize)
    ensures
        r == (if general.column <= 0 {
            40
        } else {
            general.column as int
        }),
{
    if general.column <= 0 {
        40
    } else {
        general.column as usize
    }
}

} // verus!
