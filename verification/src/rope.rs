//! Trusted boundary around the rope that stores buffer text. Each wrapper
//! makes one `ropey` call; its contract states the call's effect on the
//! rope's character content, named by `rope_text`. The crate is built with
//! its default features off, so only `'\n'` counts as a line break, which
//! is what the `split` model assumes.

use vstd::prelude::*;
use crate::text::{line_start, split};

verus! {

#[verifier::external_type_specification]
#[verifier::external_body]
pub struct ExRope(ropey::Rope);

/// The characters a rope holds, in order.
pub uninterp spec fn rope_text(r: ropey::Rope) -> Seq<char>;

/// Relies on ropey::Rope::from_str: builds a rope holding exactly the
/// characters of `s`.
#[verifier::external_body]
pub(crate) fn rope_from_str(s: &str) -> (r: ropey::Rope)
    ensures
        rope_text(r) == s@,
{
    ropey::Rope::from_str(s)
}

/// Relies on ropey::Rope::len_chars: the total number of characters.
#[verifier::external_body]
pub(crate) fn rope_len_chars(r: &ropey::Rope) -> (n: usize)
    ensures
        n == rope_text(*r).len(),
{
    r.len_chars()
}

/// Relies on ropey::Rope::len_lines: one more than the number of `'\n'`
/// characters, which is the number of lines of the split content.
#[verifier::external_body]
pub(crate) fn rope_len_lines(r: &ropey::Rope) -> (n: usize)
    ensures
        n == split(rope_text(*r)).len(),
{
    r.len_lines()
}

/// Relies on ropey::Rope::line_to_char: the char index where line `row`
/// begins, each earlier line contributing its characters plus one break.
#[verifier::external_body]
pub(crate) fn rope_line_to_char(r: &ropey::Rope, row: usize) -> (n: usize)
    requires
        row < split(rope_text(*r)).len(),
    ensures
        n == line_start(split(rope_text(*r)), row as int),
{
    r.line_to_char(row)
}

/// Relies on ropey::Rope::char: the character at a char index.
#[verifier::external_body]
pub(crate) fn rope_char(r: &ropey::Rope, idx: usize) -> (c: char)
    requires
        idx < rope_text(*r).len(),
    ensures
        c == rope_text(*r)[idx as int],
{
    r.char(idx)
}

/// Relies on ropey::Rope::insert_char: inserts one character at a char
/// index, shifting the rest right.
#[verifier::external_body]
pub(crate) fn rope_insert_char(r: &mut ropey::Rope, idx: usize, c: char)
    requires
        idx <= rope_text(*old(r)).len(),
    ensures
        rope_text(*final(r)) == rope_text(*old(r)).insert(idx as int, c),
{
    r.insert_char(idx, c)
}

/// Relies on ropey::Rope::remove: removes the characters of the half-open
/// char range `start..end`.
#[verifier::external_body]
pub(crate) fn rope_remove(r: &mut ropey::Rope, start: usize, end: usize)
    requires
        start <= end <= rope_text(*old(r)).len(),
    ensures
        rope_text(*final(r)) == rope_text(*old(r)).take(start as int) + rope_text(
            *old(r),
        ).skip(end as int),
{
    r.remove(start..end)
}

/// Relies on ropey::Rope's Display impl: writes out exactly the rope's
/// characters in order.
#[verifier::external_body]
pub(crate) fn rope_to_string(r: &ropey::Rope) -> (s: String)
    ensures
        s@ == rope_text(*r),
{
    r.to_string()
}

} // verus!
