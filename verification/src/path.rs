//! Paths: `~` expansion, making paths absolute, and files next to a file.
use vstd::prelude::*;
use vstd::string::StringExecFns;
use crate::text::{string_from, to_chars, extend_chars};

verus! {

/// `dirs::home_dir`, as text (non-UTF-8 parts replaced). It reads the
/// environment and the user database: nothing is promised of the result.
#[verifier::external_body]
fn home_dir() -> Option<String> {
    match dirs::home_dir() {
        Some(p) => Some(p.to_string_lossy().into_owned()),
        None => None,
    }
}

/// A path that `std::path::absolute` hands back as it is on POSIX platforms
/// (the library's paths are `/`-separated): it starts with `/`, and no `/`
/// is followed by another `/` or by a `.` segment.
pub open spec fn plain_absolute(p: Seq<char>) -> bool {
    &&& p.len() > 0
    &&& p[0] == '/'
    &&& forall|i: int| 0 <= i < p.len() - 1 && #[trigger] p[i] == '/' ==> p[i + 1] != '/'
    &&& forall|i: int|
        0 <= i < p.len() - 1 && #[trigger] p[i] == '/' && p[i + 1] == '.' ==> i + 2 < p.len() && p[i + 2] != '/'
}

/// `std::path::absolute`, as text: the path made absolute without touching
/// the file system, resolved against the current directory if relative. Its
/// documentation promises an error for an empty path, and otherwise fails
/// only when the current directory cannot be read, which an absolute path
/// does not need; on POSIX the result is absolute, and a path is resolved
/// lexically, keeping `..` and trailing slashes, so one already absolute
/// with no repeated `/` and no `.` segment comes back as it is. What it
/// gives for other paths (their `.` parts and repeated `/` dropped, a
/// relative path joined to the current directory) is not stated.
#[verifier::external_body]
fn absolute(p: &str) -> (r: Result<String, std::io::Error>)
    ensures
        p@.len() == 0 ==> r is Err,
        p@.len() > 0 && p@[0] == '/' ==> r is Ok,
        r matches Ok(q) ==> q@.len() > 0 && q@[0] == '/',
        r matches Ok(q) ==> (plain_absolute(p@) ==> q@ == p@),
{
    match std::path::absolute(p) {
        Ok(a) => Ok(a.to_string_lossy().into_owned()),
        Err(e) => Err(e),
    }
}

/// `PathBuf::join` on text: `b` replaces `a` if it is absolute; otherwise
/// `b` follows `a`, with a `/` between unless `a` is empty or ends with one.
pub open spec fn join_path(a: Seq<char>, b: Seq<char>) -> Seq<char> {
    if b.len() > 0 && b[0] == '/' {
        b
    } else if a.len() == 0 {
        b
    } else if a.last() == '/' {
        a + b
    } else {
        a + seq!['/'] + b
    }
}

/// A path with a leading `~` standing for the home directory (`.` if unknown):
/// `~` alone, or `~/rest`; any other path unchanged.
pub open spec fn tilde_expanded(raw: Seq<char>, home: Option<Seq<char>>) -> Seq<char> {
    let h = match home {
        Some(h) => h,
        None => seq!['.'],
    };
    if raw.len() >= 2 && raw[0] == '~' && raw[1] == '/' {
        join_path(h, raw.skip(2))
    } else if raw == seq!['~'] {
        h
    } else {
        raw
    }
}

/// Joins two paths (see `join_path`).
pub fn join(a: &str, b: &str) -> (r: String)
    ensures
        r@ == join_path(a@, b@),
{
    let x = to_chars(a);
    let y = to_chars(b);
    if y.len() > 0 && y[0] == '/' {
        return string_from(&y);
    }
    if x.len() == 0 {
        return string_from(&y);
    }
    let mut v = x.clone();
    if x[x.len() - 1] != '/' {
        v.push('/');
    }
    extend_chars(&mut v, &y);
    string_from(&v)
}

/// Expands a leading `~` given the home directory (see `tilde_expanded`).
pub fn expand_tilde(raw: &str, home: Option<String>) -> (r: String)
    ensures
        r@ == tilde_expanded(raw@, match home {
            Some(h) => Some(h@),
            None => None,
        }),
{
    let v = to_chars(raw);
    let h = match home {
        Some(h) => h,
        None => String::from_str("."),
    };
    proof {
        reveal_strlit(".");
    }
    if v.len() >= 2 && v[0] == '~' && v[1] == '/' {
        let mut rest: Vec<char> = Vec::new();
        let mut i: usize = 2;
        while i < v.len()
            invariant
                2 <= i <= v.len(),
                rest@ == v@.subrange(2, i as int),
            decreases v.len() - i,
        {
            rest.push(v[i]);
            i = i + 1;
            assert(rest@ =~= v@.subrange(2, i as int));
        }
        assert(rest@ =~= v@.skip(2));
        join(h.as_str(), string_from(&rest).as_str())
    } else if v.len() == 1 && v[0] == '~' {
        assert(v@ =~= seq!['~']);
        h
    } else {
        proof {
            if v@ == seq!['~'] {
                assert(v@[0] == '~');
            }
        }
        string_from(&v)
    }
}

/// Expands a leading `~` to `home` (see `tilde_expanded`) and makes the
/// result absolute (see `absolute`): an error for an empty path, success for
/// one that starts with `/`, always an absolute result, and a plain absolute
/// path (see `plain_absolute`) unchanged.
pub fn expand_absolute_with(raw: &str, home: Option<String>) -> (r: Result<String, std::io::Error>)
    ensures
        ({
            let e = tilde_expanded(raw@, match home {
                Some(h) => Some(h@),
                None => None,
            });
            &&& e.len() == 0 ==> r is Err
            &&& e.len() > 0 && e[0] == '/' ==> r is Ok
            &&& r matches Ok(q) ==> q@.len() > 0 && q@[0] == '/'
            &&& plain_absolute(e) ==> (r matches Ok(q) && q@ == e)
        }),
        raw@.len() == 0 ==> r is Err,
{
    let expanded = expand_tilde(raw, home);
    proof {
        if raw@.len() == 0 {
            assert(expanded@ == raw@);
        }
    }
    absolute(expanded.as_str())
}

/// Expands a leading `~` to the home directory and makes the path absolute
/// (without touching the file system; see `expand_absolute_with`). A path
/// that starts with `/` needs neither the home nor the current directory: it
/// always succeeds, and comes back as it is when plain (see `plain_absolute`).
pub fn expand_absolute(raw: &str) -> (r: Result<String, std::io::Error>)
    ensures
        raw@.len() == 0 ==> r is Err,
        raw@.len() > 0 && raw@[0] == '/' ==> r is Ok,
        r matches Ok(q) ==> q@.len() > 0 && q@[0] == '/',
        plain_absolute(raw@) ==> (r matches Ok(q) && q@ == raw@),
{
    let home = home_dir();
    let ghost hv = match &home {
        Some(h) => Some(h@),
        None => None::<Seq<char>>,
    };
    proof {
        if raw@.len() > 0 && raw@[0] == '/' {
            assert(tilde_expanded(raw@, hv) == raw@);
        }
    }
    expand_absolute_with(raw, home)
}

/// The index of the last `/` before index `end`, or -1.
pub open spec fn last_slash_before(p: Seq<char>, end: int) -> int
    decreases end,
{
    if end <= 0 || end > p.len() {
        -1
    } else if p[end - 1] == '/' {
        end - 1
    } else {
        last_slash_before(p, end - 1)
    }
}

/// The length of `p[..end]` without its trailing `/`s, keeping a lone root `/`.
pub open spec fn without_trailing_slashes(p: Seq<char>, end: int) -> int
    decreases end,
{
    if end <= 1 || end > p.len() {
        end
    } else if p[end - 1] == '/' {
        without_trailing_slashes(p, end - 1)
    } else {
        end
    }
}

/// The parent directory of a path (as `Path::parent` gives it for a
/// normalized path): the path without its last component and the `/`s
/// before it; the root `/` for a top-level entry; empty for a bare name;
/// none for the root itself or an empty path.
pub open spec fn parent_of(p: Seq<char>) -> Option<Seq<char>> {
    let e = without_trailing_slashes(p, p.len() as int);
    if e == 0 || (e == 1 && p[0] == '/') {
        None
    } else {
        let k = last_slash_before(p, e);
        if k < 0 {
            Some(seq![])
        } else if k == 0 {
            Some(seq!['/'])
        } else {
            Some(p.take(without_trailing_slashes(p, k)))
        }
    }
}

/// The file `name` in the directory of the file `p` (`.` if `p` has none).
pub open spec fn sibling_path(p: Seq<char>, name: Seq<char>) -> Seq<char> {
    join_path(
        match parent_of(p) {
            Some(d) => d,
            None => seq!['.'],
        },
        name,
    )
}

proof fn lemma_without_trailing(p: Seq<char>, end: int)
    requires
        0 <= end <= p.len(),
    ensures
        0 <= without_trailing_slashes(p, end) <= end,
        end >= 1 ==> without_trailing_slashes(p, end) >= 1,
    decreases end,
{
    if end > 1 && p[end - 1] == '/' {
        lemma_without_trailing(p, end - 1);
    }
}

proof fn lemma_last_slash_before(p: Seq<char>, end: int)
    requires
        0 <= end <= p.len(),
    ensures
        -1 <= last_slash_before(p, end) < end,
    decreases end,
{
    if end > 0 && p[end - 1] != '/' {
        lemma_last_slash_before(p, end - 1);
    }
}

fn trailing_trimmed(p: &Vec<char>, end: usize) -> (e: usize)
    requires
        end <= p.len(),
    ensures
        e == without_trailing_slashes(p@, end as int),
{
    let mut e = end;
    while e > 1 && p[e - 1] == '/'
        invariant
            e <= end <= p.len(),
            without_trailing_slashes(p@, e as int) == without_trailing_slashes(p@, end as int),
        decreases e,
    {
        e = e - 1;
    }
    e
}

/// The file `name` next to the file `p` (see `sibling_path`).
pub fn sibling_file(p: &str, name: &str) -> (r: String)
    ensures
        r@ == sibling_path(p@, name@),
{
    let v = to_chars(p);
    let e = trailing_trimmed(&v, v.len());
    proof {
        lemma_without_trailing(v@, v@.len() as int);
    }
    let parent: String = if e == 0 || (e == 1 && v[0] == '/') {
        String::from_str(".")
    } else {
        let mut k = e;
        while k > 0 && v[k - 1] != '/'
            invariant
                k <= e <= v.len(),
                last_slash_before(v@, k as int) == last_slash_before(v@, e as int),
            decreases k,
        {
            k = k - 1;
        }
        proof {
            lemma_last_slash_before(v@, e as int);
        }
        if k == 0 {
            String::new()
        } else if k == 1 {
            String::from_str("/")
        } else {
            let d = trailing_trimmed(&v, k - 1);
            proof {
                lemma_without_trailing(v@, k - 1);
            }
            crate::text::string_of(&v, 0, d)
        }
    };
    proof {
        reveal_strlit(".");
        reveal_strlit("/");
    }
    assert(v@.subrange(0, 0) =~= Seq::<char>::empty());
    let ghost par = parent_of(v@);
    assert(parent@ == match par { Some(d) => d, None => seq!['.'] }) by {
        assert(seq!['/'] =~= "/"@);
        assert(seq!['.'] =~= "."@);
    }
    join(parent.as_str(), name)
}

} // verus!
