//! The command line that opens a file in the configured editor.
use vstd::prelude::*;
use crate::config::GeneralConfig;
use crate::text::{extend_chars, string_from, to_chars};

verus! {

/// The decimal digit for `d` (below ten).
pub open spec fn digit(d: nat) -> char {
    if d == 0 {
        '0'
    } else if d == 1 {
        '1'
    } else if d == 2 {
        '2'
    } else if d == 3 {
        '3'
    } else if d == 4 {
        '4'
    } else if d == 5 {
        '5'
    } else if d == 6 {
        '6'
    } else if d == 7 {
        '7'
    } else if d == 8 {
        '8'
    } else {
        '9'
    }
}

/// `n` written in decimal, without leading zeros.
pub open spec fn decimal(n: nat) -> Seq<char>
    decreases n,
{
    if n < 10 {
        seq![digit(n)]
    } else {
        decimal(n / 10).push(digit(n % 10))
    }
}

fn digit_char(d: usize) -> (c: char)
    requires
        d < 10,
    ensures
        c == digit(d as nat),
{
    if d == 0 {
        '0'
    } else if d == 1 {
        '1'
    } else if d == 2 {
        '2'
    } else if d == 3 {
        '3'
    } else if d == 4 {
        '4'
    } else if d == 5 {
        '5'
    } else if d == 6 {
        '6'
    } else if d == 7 {
        '7'
    } else if d == 8 {
        '8'
    } else {
        '9'
    }
}

/// Appends `n` in decimal to `out`.
fn push_decimal(out: &mut Vec<char>, n: usize)
    ensures
        final(out)@ == old(out)@ + decimal(n as nat),
    decreases n,
{
    if n >= 10 {
        push_decimal(out, n / 10);
    }
    out.push(digit_char(n % 10));
    assert(out@ =~= old(out)@ + decimal(n as nat));
}

/// The command line of `open`.
pub open spec fn open_line(editor: Seq<char>, path: Seq<char>, line: nat) -> Seq<char> {
    editor + seq![' ', '+'] + decimal(line) + seq![' '] + path
}

/// The shell command that opens `path` in the configured editor at `line`
/// (0 for no particular line): `<editor> +<line> <path>`.
pub fn open(general: &GeneralConfig, path: &str, line: usize) -> (r: String)
    ensures
        r@ == open_line(general.editor@, path@, line as nat),
{
    let mut out = to_chars(general.editor.as_str());
    out.push(' ');
    out.push('+');
    push_decimal(&mut out, line);
    out.push(' ');
    extend_chars(&mut out, &to_chars(path));
    assert(out@ =~= open_line(general.editor@, path@, line as nat));
    string_from(&out)
}

} // verus!
