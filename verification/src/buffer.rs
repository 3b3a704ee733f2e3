//! Rope-backed text buffer with its owned cursor. The buffer's model is its
//! sequence of newline-free lines; every operation keeps the cursor inside
//! the buffer: `row < line_count` and `col <= line_len(row)`.

use vstd::prelude::*;
use crate::rope::{
    rope_char, rope_from_str, rope_insert_char, rope_len_chars, rope_len_lines,
    rope_line_to_char, rope_remove, rope_text, rope_to_string,
};
use crate::text::{
    join, lemma_join_index, lemma_join_insert_char, lemma_join_insert_line,
    lemma_join_merge, lemma_join_remove_char, lemma_join_remove_line,
    lemma_join_split_line, lemma_line_start_bounds, lemma_split_basic, lemma_split_join,
    line_start, split, wf_lines,
};

verus! {

/// Where vertical motion lands horizontally: the sticky column, clamped to
/// the destination line's last character column (columns past the last
/// character are reserved for composing insertions).
pub open spec fn clamp_col(sticky: int, len: int) -> int {
    if len == 0 {
        0
    } else if sticky <= len - 1 {
        sticky
    } else {
        len - 1
    }
}

/// How far the scroll window may go down: the last position that still
/// fills a viewport of `height` lines where the buffer allows, never
/// negative.
pub open spec fn scroll_bound(len: int, height: int) -> int {
    if len >= height {
        len - height
    } else {
        0
    }
}

pub open spec fn spec_is_blank(c: char) -> bool {
    c == ' ' || c == '\t'
}

pub open spec fn spec_is_word(c: char) -> bool {
    ||| 97 <= c as u32 <= 122
    ||| 65 <= c as u32 <= 90
    ||| 48 <= c as u32 <= 57
    ||| c == '_'
}

/// The character class word motion watches for changes of: blank, word
/// (alphanumeric or underscore), or other punctuation.
pub open spec fn spec_char_class(c: char) -> int {
    if spec_is_blank(c) {
        0
    } else if spec_is_word(c) {
        1
    } else {
        2
    }
}

fn char_class(c: char) -> (k: u8)
    ensures
        k as int == spec_char_class(c),
{
    if c == ' ' || c == '\t' {
        0
    } else {
        let u = c as u32;
        if (97 <= u && u <= 122) || (65 <= u && u <= 90) || (48 <= u && u <= 57) || c == '_' {
            1
        } else {
            2
        }
    }
}

/// Where inserting `text` at `(row, col)` of `ls` leads, one character at
/// a time: a line break splits the line there, any other character lands
/// in the line; the result is the new lines and the cursor's final row and
/// column, just past the inserted text.
pub open spec fn inserted(ls: Seq<Seq<char>>, row: int, col: int, text: Seq<char>) -> (
    Seq<Seq<char>>,
    int,
    int,
)
    decreases text.len(),
{
    if text.len() == 0 {
        (ls, row, col)
    } else if text[0] == '\n' {
        inserted(
            ls.update(row, ls[row].take(col)).insert(row + 1, ls[row].skip(col)),
            row + 1,
            0,
            text.drop_first(),
        )
    } else {
        inserted(ls.update(row, ls[row].insert(col, text[0])), row, col + 1, text.drop_first())
    }
}

/// Sticky-column restoration: vertical motion recomputes the column from
/// the sticky column alone and leaves the sticky column itself unchanged,
/// so a column set before descending through shorter lines is restored
/// exactly on reaching a line long enough to contain it again.
pub proof fn lemma_sticky_column_restored(sticky: int, long_len: int)
    requires
        0 <= sticky < long_len,
    ensures
        clamp_col(sticky, long_len) == sticky,
{
}

/// Cursor state: absolute position, the sticky column that vertical motion
/// aims for, and the top visible line of the scroll window.
pub struct Cursor {
    pub row: usize,
    pub col: usize,
    pub sticky: usize,
    pub scroll: usize,
}

/// A text buffer: a display name (the backing path), rope-backed content,
/// its line decomposition as the ghost model, and the owned cursor.
pub struct TextBuffer {
    name: String,
    rope: ropey::Rope,
    model: Ghost<Seq<Seq<char>>>,
    cursor: Cursor,
}

impl TextBuffer {
    /// The buffer's content as a sequence of newline-free lines.
    pub closed spec fn lines(self) -> Seq<Seq<char>> {
        self.model@
    }

    /// The line the cursor would address at row `r`.
    pub open spec fn line_at(self, r: int) -> Seq<char> {
        self.lines()[r]
    }

    pub closed spec fn row(self) -> int {
        self.cursor.row as int
    }

    pub closed spec fn col(self) -> int {
        self.cursor.col as int
    }

    pub closed spec fn sticky(self) -> int {
        self.cursor.sticky as int
    }

    pub closed spec fn scroll(self) -> int {
        self.cursor.scroll as int
    }

    pub closed spec fn path(self) -> Seq<char> {
        self.name@
    }

    /// The buffer invariant: well-formed lines mirrored exactly by the rope,
    /// and a cursor inside the buffer's bounds.
    pub closed spec fn wf(self) -> bool {
        &&& wf_lines(self.model@)
        &&& rope_text(self.rope) == join(self.model@)
        &&& self.row() < self.lines().len()
        &&& self.col() <= self.line_at(self.row()).len()
        &&& self.scroll() < self.lines().len()
    }

    /// What the invariant guarantees to every caller: the cursor never
    /// leaves the buffer, and the scroll window starts on a real line.
    pub proof fn lemma_wf_bounds(self)
        requires
            self.wf(),
        ensures
            self.lines().len() >= 1,
            0 <= self.row() < self.lines().len(),
            0 <= self.col() <= self.line_at(self.row()).len(),
            0 <= self.scroll() < self.lines().len(),
    {
    }

    /// The invariant keeps every line free of line breaks.
    pub proof fn lemma_lines_ok(self)
        requires
            self.wf(),
        ensures
            forall|i: int| 0 <= i < self.lines().len()
                ==> !(#[trigger] self.lines()[i]).contains('\n'),
    {
    }

    /// Build a buffer holding `text`, split into lines, cursor at the
    /// origin.
    pub fn from_text(name: String, text: &str) -> (b: TextBuffer)
        ensures
            b.wf(),
            b.lines() == split(text@),
            b.path() == name@,
            b.row() == 0 && b.col() == 0 && b.sticky() == 0 && b.scroll() == 0,
    {
        let rope = rope_from_str(text);
        proof {
            lemma_split_basic(text@);
        }
        TextBuffer {
            name,
            rope,
            model: Ghost(split(text@)),
            cursor: Cursor { row: 0, col: 0, sticky: 0, scroll: 0 },
        }
    }

    /// An empty buffer: one empty line.
    pub fn empty(name: String) -> (b: TextBuffer)
        ensures
            b.wf(),
            b.lines() == seq![Seq::<char>::empty()],
            b.path() == name@,
            b.row() == 0 && b.col() == 0 && b.sticky() == 0 && b.scroll() == 0,
    {
        let b = TextBuffer::from_text(name, "");
        proof {
            reveal_strlit("");
            assert(b.lines() =~~= seq![Seq::<char>::empty()]);
        }
        b
    }

    pub fn line_count(&self) -> (n: usize)
        requires
            self.wf(),
        ensures
            n == self.lines().len(),
    {
        proof {
            lemma_split_join(self.model@);
        }
        rope_len_lines(&self.rope)
    }

    pub fn line_len(&self, row: usize) -> (n: usize)
        requires
            self.wf(),
            row < self.lines().len(),
        ensures
            n == self.line_at(row as int).len(),
    {
        proof {
            lemma_split_join(self.model@);
        }
        let nl = rope_len_lines(&self.rope);
        let start = rope_line_to_char(&self.rope, row);
        if row + 1 < nl {
            let next = rope_line_to_char(&self.rope, row + 1);
            proof {
                assert(line_start(self.model@, row + 1) == line_start(self.model@, row as int)
                    + self.model@[row as int].len() + 1);
            }
            next - start - 1
        } else {
            let total = rope_len_chars(&self.rope);
            proof {
                lemma_line_start_bounds(self.model@, row as int);
            }
            total - start
        }
    }

    /// The characters of line `row`.
    pub fn line_chars(&self, row: usize) -> (v: Vec<char>)
        requires
            self.wf(),
            row < self.lines().len(),
        ensures
            v@ == self.line_at(row as int),
    {
        proof {
            lemma_split_join(self.model@);
            lemma_line_start_bounds(self.model@, row as int);
            lemma_join_index(self.model@, row as int);
        }
        let n = self.line_len(row);
        let start = rope_line_to_char(&self.rope, row);
        let total = rope_len_chars(&self.rope);
        let mut v: Vec<char> = Vec::new();
        let mut j: usize = 0;
        while j < n
            invariant
                self.wf(),
                row < self.lines().len(),
                n == self.line_at(row as int).len(),
                start == line_start(self.lines(), row as int),
                total == rope_text(self.rope).len(),
                start + n <= total,
                j <= n,
                v@ == self.line_at(row as int).take(j as int),
                forall|k: int| 0 <= k < n ==> rope_text(self.rope)[start + k]
                    == self.line_at(row as int)[k],
            decreases n - j,
        {
            let c = rope_char(&self.rope, start + j);
            v.push(c);
            proof {
                assert(v@ =~= self.line_at(row as int).take(j + 1));
            }
            j = j + 1;
        }
        proof {
            assert(v@ =~= self.line_at(row as int));
        }
        v
    }

    /// The buffer's whole content: its lines joined by `'\n'`.
    pub fn content_string(&self) -> (s: String)
        requires
            self.wf(),
        ensures
            s@ == join(self.lines()),
    {
        rope_to_string(&self.rope)
    }

    /// Move the cursor down `n` rows, saturating at the last line; the
    /// column is recomputed from the sticky column.
    pub fn move_down(&mut self, n: usize)
        requires
            old(self).wf(),
        ensures
            final(self).wf(),
            final(self).lines() == old(self).lines(),
            final(self).path() == old(self).path(),
            final(self).row() == if old(self).row() + n < old(self).lines().len() {
                old(self).row() + n
            } else {
                old(self).lines().len() - 1
            },
            final(self).col() == clamp_col(
                old(self).sticky(),
                old(self).line_at(final(self).row()).len() as int,
            ),
            final(self).sticky() == old(self).sticky(),
            final(self).scroll() == old(self).scroll(),
    {
        let nl = self.line_count();
        let last = nl - 1;
        let row0 = self.cursor.row;
        let r2 = if n <= last - row0 {
            row0 + n
        } else {
            last
        };
        let ll = self.line_len(r2);
        let sticky = self.cursor.sticky;
        self.cursor.row = r2;
        self.cursor.col = if ll == 0 {
            0
        } else if sticky <= ll - 1 {
            sticky
        } else {
            ll - 1
        };
    }

    /// Move the cursor up `n` rows, saturating at the first line; the
    /// column is recomputed from the sticky column.
    pub fn move_up(&mut self, n: usize)
        requires
            old(self).wf(),
        ensures
            final(self).wf(),
            final(self).lines() == old(self).lines(),
            final(self).path() == old(self).path(),
            final(self).row() == if old(self).row() - n >= 0 {
                old(self).row() - n
            } else {
                0
            },
            final(self).col() == clamp_col(
                old(self).sticky(),
                old(self).line_at(final(self).row()).len() as int,
            ),
            final(self).sticky() == old(self).sticky(),
            final(self).scroll() == old(self).scroll(),
    {
        let row0 = self.cursor.row;
        let r2 = if n <= row0 {
            row0 - n
        } else {
            0
        };
        let ll = self.line_len(r2);
        let sticky = self.cursor.sticky;
        self.cursor.row = r2;
        self.cursor.col = if ll == 0 {
            0
        } else if sticky <= ll - 1 {
            sticky
        } else {
            ll - 1
        };
    }

    /// Move the cursor left `n` columns within the current line; the sticky
    /// column follows.
    pub fn move_left(&mut self, n: usize)
        requires
            old(self).wf(),
        ensures
            final(self).wf(),
            final(self).lines() == old(self).lines(),
            final(self).path() == old(self).path(),
            final(self).row() == old(self).row(),
            final(self).col() == if old(self).col() - n >= 0 {
                old(self).col() - n
            } else {
                0
            },
            final(self).sticky() == final(self).col(),
            final(self).scroll() == old(self).scroll(),
    {
        let col0 = self.cursor.col;
        let c2 = if n <= col0 {
            col0 - n
        } else {
            0
        };
        self.cursor.col = c2;
        self.cursor.sticky = c2;
    }

    /// Move the cursor right `n` columns, clamped to the current line's
    /// length; the sticky column follows.
    pub fn move_right(&mut self, n: usize)
        requires
            old(self).wf(),
        ensures
            final(self).wf(),
            final(self).lines() == old(self).lines(),
            final(self).path() == old(self).path(),
            final(self).row() == old(self).row(),
            final(self).col() == if old(self).col() + n
                <= old(self).line_at(old(self).row()).len() {
                old(self).col() + n
            } else {
                old(self).line_at(old(self).row()).len() as int
            },
            final(self).sticky() == final(self).col(),
            final(self).scroll() == old(self).scroll(),
    {
        let ll = self.line_len(self.cursor.row);
        let col0 = self.cursor.col;
        let c2 = if n <= ll - col0 {
            col0 + n
        } else {
            ll
        };
        self.cursor.col = c2;
        self.cursor.sticky = c2;
    }

    /// Column to the start of the line.
    pub fn home(&mut self)
        requires
            old(self).wf(),
        ensures
            final(self).wf(),
            final(self).lines() == old(self).lines(),
            final(self).path() == old(self).path(),
            final(self).row() == old(self).row(),
            final(self).col() == 0,
            final(self).sticky() == 0,
            final(self).scroll() == old(self).scroll(),
    {
        self.cursor.col = 0;
        self.cursor.sticky = 0;
    }

    /// Column to the end of the line.
    pub fn end_of_line(&mut self)
        requires
            old(self).wf(),
        ensures
            final(self).wf(),
            final(self).lines() == old(self).lines(),
            final(self).path() == old(self).path(),
            final(self).row() == old(self).row(),
            final(self).col() == old(self).line_at(old(self).row()).len(),
            final(self).sticky() == final(self).col(),
            final(self).scroll() == old(self).scroll(),
    {
        let ll = self.line_len(self.cursor.row);
        self.cursor.col = ll;
        self.cursor.sticky = ll;
    }

    /// Row to the first line; column recomputed from the sticky column.
    pub fn jump_first_line(&mut self)
        requires
            old(self).wf(),
        ensures
            final(self).wf(),
            final(self).lines() == old(self).lines(),
            final(self).path() == old(self).path(),
            final(self).row() == 0,
            final(self).col() == clamp_col(old(self).sticky(), old(self).line_at(0).len() as int),
            final(self).sticky() == old(self).sticky(),
            final(self).scroll() == old(self).scroll(),
    {
        let ll = self.line_len(0);
        let sticky = self.cursor.sticky;
        self.cursor.row = 0;
        self.cursor.col = if ll == 0 {
            0
        } else if sticky <= ll - 1 {
            sticky
        } else {
            ll - 1
        };
    }

    /// Row to the last line; column recomputed from the sticky column.
    pub fn jump_last_line(&mut self)
        requires
            old(self).wf(),
        ensures
            final(self).wf(),
            final(self).lines() == old(self).lines(),
            final(self).path() == old(self).path(),
            final(self).row() == old(self).lines().len() - 1,
            final(self).col() == clamp_col(
                old(self).sticky(),
                old(self).line_at(old(self).lines().len() - 1).len() as int,
            ),
            final(self).sticky() == old(self).sticky(),
            final(self).scroll() == old(self).scroll(),
    {
        let nl = self.line_count();
        let last = nl - 1;
        let ll = self.line_len(last);
        let sticky = self.cursor.sticky;
        self.cursor.row = last;
        self.cursor.col = if ll == 0 {
            0
        } else if sticky <= ll - 1 {
            sticky
        } else {
            ll - 1
        };
    }

    /// Column to the first non-blank character of the line (or to the end
    /// of an all-blank line); the sticky column follows.
    pub fn first_char_in_line(&mut self)
        requires
            old(self).wf(),
        ensures
            final(self).wf(),
            final(self).lines() == old(self).lines(),
            final(self).path() == old(self).path(),
            final(self).row() == old(self).row(),
            0 <= final(self).col() <= old(self).line_at(old(self).row()).len(),
            forall|k: int| 0 <= k < final(self).col()
                ==> spec_is_blank(old(self).line_at(old(self).row())[k]),
            final(self).col() < old(self).line_at(old(self).row()).len()
                ==> !spec_is_blank(old(self).line_at(old(self).row())[final(self).col()]),
            final(self).sticky() == final(self).col(),
            final(self).scroll() == old(self).scroll(),
    {
        let row = self.cursor.row;
        let line = self.line_chars(row);
        let len = line.len();
        let mut j: usize = 0;
        while j < len
            invariant_except_break
                j <= len,
                len == line@.len(),
                forall|k: int| 0 <= k < j ==> spec_is_blank(line@[k]),
            ensures
                j <= len,
                forall|k: int| 0 <= k < j ==> spec_is_blank(line@[k]),
                j < len ==> !spec_is_blank(line@[j as int]),
            decreases len - j,
        {
            let c = line[j];
            if !(c == ' ' || c == '\t') {
                break;
            }
            j = j + 1;
        }
        self.cursor.col = j;
        self.cursor.sticky = j;
    }

    /// Advance the cursor to the next character-class boundary in the line:
    /// the first later column whose class differs from the starting one, or
    /// the end of the line. A no-op at the end of the line.
    pub fn move_forward_by_word(&mut self)
        requires
            old(self).wf(),
        ensures
            final(self).wf(),
            final(self).lines() == old(self).lines(),
            final(self).path() == old(self).path(),
            final(self).row() == old(self).row(),
            final(self).scroll() == old(self).scroll(),
            old(self).col() >= old(self).line_at(old(self).row()).len() ==> final(self).col()
                == old(self).col() && final(self).sticky() == old(self).sticky(),
            old(self).col() < old(self).line_at(old(self).row()).len() ==> {
                let line = old(self).line_at(old(self).row());
                &&& old(self).col() < final(self).col() <= line.len()
                &&& forall|k: int| old(self).col() < k < final(self).col()
                    ==> spec_char_class(#[trigger] line[k]) == spec_char_class(
                    line[old(self).col()])
                &&& final(self).col() < line.len() ==> spec_char_class(
                    line[final(self).col()],
                ) != spec_char_class(line[old(self).col()])
                &&& final(self).sticky() == final(self).col()
            },
    {
        let row = self.cursor.row;
        let col = self.cursor.col;
        let line = self.line_chars(row);
        let len = line.len();
        if col >= len {
            return ;
        }
        let k0 = char_class(line[col]);
        let mut j: usize = col + 1;
        while j < len
            invariant_except_break
                col < j <= len,
                len == line@.len(),
                k0 as int == spec_char_class(line@[col as int]),
                forall|k: int| col < k < j ==> spec_char_class(line@[k]) == k0 as int,
            ensures
                col < j <= len,
                forall|k: int| col < k < j ==> spec_char_class(line@[k]) == k0 as int,
                j < len ==> spec_char_class(line@[j as int]) != k0 as int,
            decreases len - j,
        {
            if char_class(line[j]) != k0 {
                break;
            }
            j = j + 1;
        }
        self.cursor.col = j;
        self.cursor.sticky = j;
    }

    /// Retreat the cursor to the previous character-class boundary: the
    /// largest earlier column that starts a run of its class. A no-op at
    /// the start of the line.
    pub fn move_backward_by_word(&mut self)
        requires
            old(self).wf(),
        ensures
            final(self).wf(),
            final(self).lines() == old(self).lines(),
            final(self).path() == old(self).path(),
            final(self).row() == old(self).row(),
            final(self).scroll() == old(self).scroll(),
            old(self).col() == 0 ==> final(self).col() == 0 && final(self).sticky() == old(
                self,
            ).sticky(),
            old(self).col() > 0 ==> {
                let line = old(self).line_at(old(self).row());
                &&& 0 <= final(self).col() < old(self).col()
                &&& (final(self).col() == 0 || spec_char_class(line[final(self).col()])
                    != spec_char_class(line[final(self).col() - 1]))
                &&& forall|k: int| final(self).col() < k < old(self).col()
                    ==> spec_char_class(#[trigger] line[k]) == spec_char_class(line[k - 1])
                &&& final(self).sticky() == final(self).col()
            },
    {
        let row = self.cursor.row;
        let col = self.cursor.col;
        if col == 0 {
            return ;
        }
        let line = self.line_chars(row);
        let mut j: usize = col - 1;
        while j > 0
            invariant_except_break
                0 <= j < col,
                col <= line@.len(),
                forall|k: int| j < k < col ==> spec_char_class(#[trigger] line@[k])
                    == spec_char_class(line@[k - 1]),
            ensures
                0 <= j < col,
                forall|k: int| j < k < col ==> spec_char_class(#[trigger] line@[k])
                    == spec_char_class(line@[k - 1]),
                j == 0 || spec_char_class(line@[j as int]) != spec_char_class(line@[j - 1]),
            decreases j,
        {
            if char_class(line[j]) != char_class(line[j - 1]) {
                break;
            }
            j = j - 1;
        }
        self.cursor.col = j;
        self.cursor.sticky = j;
    }

    /// Shift the scroll window up `n` lines, saturating at the top.
    pub fn scroll_up(&mut self, n: usize)
        requires
            old(self).wf(),
        ensures
            final(self).wf(),
            final(self).lines() == old(self).lines(),
            final(self).path() == old(self).path(),
            final(self).row() == old(self).row(),
            final(self).col() == old(self).col(),
            final(self).sticky() == old(self).sticky(),
            final(self).scroll() == if old(self).scroll() - n >= 0 {
                old(self).scroll() - n
            } else {
                0
            },
    {
        let s0 = self.cursor.scroll;
        self.cursor.scroll = if n <= s0 {
            s0 - n
        } else {
            0
        };
    }

    /// Shift the scroll window down `n` lines, stopping where a viewport
    /// of `height` lines would run past the buffer.
    pub fn scroll_down(&mut self, n: usize, height: usize)
        requires
            old(self).wf(),
            height >= 1,
        ensures
            final(self).wf(),
            final(self).lines() == old(self).lines(),
            final(self).path() == old(self).path(),
            final(self).row() == old(self).row(),
            final(self).col() == old(self).col(),
            final(self).sticky() == old(self).sticky(),
            final(self).scroll() == if old(self).scroll() + n <= scroll_bound(
                old(self).lines().len() as int,
                height as int,
            ) {
                old(self).scroll() + n
            } else {
                scroll_bound(old(self).lines().len() as int, height as int)
            },
    {
        let nl = self.line_count();
        let bound = if nl >= height {
            nl - height
        } else {
            0
        };
        let s0 = self.cursor.scroll;
        self.cursor.scroll = if s0 <= bound && n <= bound - s0 {
            s0 + n
        } else {
            bound
        };
    }

    /// Place the cursor row directly (scripting surface), clamped to the
    /// buffer; the column is re-clamped into the destination line.
    pub fn set_cursor_row(&mut self, row: usize)
        requires
            old(self).wf(),
        ensures
            final(self).wf(),
            final(self).lines() == old(self).lines(),
            final(self).path() == old(self).path(),
            final(self).row() == if row < old(self).lines().len() {
                row as int
            } else {
                old(self).lines().len() - 1
            },
            final(self).col() == if old(self).col()
                <= old(self).line_at(final(self).row()).len() {
                old(self).col()
            } else {
                old(self).line_at(final(self).row()).len() as int
            },
            final(self).sticky() == old(self).sticky(),
            final(self).scroll() == old(self).scroll(),
    {
        let nl = self.line_count();
        let r2 = if row < nl {
            row
        } else {
            nl - 1
        };
        let ll = self.line_len(r2);
        self.cursor.row = r2;
        if self.cursor.col > ll {
            self.cursor.col = ll;
        }
    }

    /// Place the scroll window's top line directly (scripting surface),
    /// clamped so a viewport of `height` lines never starts past the
    /// buffer's tail.
    pub fn set_scroll_row(&mut self, row: usize, height: usize)
        requires
            old(self).wf(),
            height >= 1,
        ensures
            final(self).wf(),
            final(self).lines() == old(self).lines(),
            final(self).path() == old(self).path(),
            final(self).row() == old(self).row(),
            final(self).col() == old(self).col(),
            final(self).sticky() == old(self).sticky(),
            final(self).scroll() == if row <= scroll_bound(
                old(self).lines().len() as int,
                height as int,
            ) {
                row as int
            } else {
                scroll_bound(old(self).lines().len() as int, height as int)
            },
    {
        let nl = self.line_count();
        let bound = if nl >= height {
            nl - height
        } else {
            0
        };
        self.cursor.scroll = if row <= bound {
            row
        } else {
            bound
        };
    }

    /// Insert one non-break character into line `row` at `col`, leaving the
    /// cursor fields untouched.
    fn insert_char_at(&mut self, row: usize, col: usize, c: char)
        requires
            old(self).wf(),
            row < old(self).lines().len(),
            col <= old(self).line_at(row as int).len(),
            c != '\n',
        ensures
            final(self).wf(),
            final(self).lines() == old(self).lines().update(
                row as int,
                old(self).line_at(row as int).insert(col as int, c),
            ),
            final(self).path() == old(self).path(),
            final(self).row() == old(self).row(),
            final(self).col() == old(self).col(),
            final(self).sticky() == old(self).sticky(),
            final(self).scroll() == old(self).scroll(),
    {
        proof {
            lemma_split_join(self.model@);
            lemma_line_start_bounds(self.model@, row as int);
        }
        let start = rope_line_to_char(&self.rope, row);
        let total = rope_len_chars(&self.rope);
        let idx = start + col;
        rope_insert_char(&mut self.rope, idx, c);
        let ghost ls = old(self).lines();
        let ghost x = old(self).line_at(row as int).insert(col as int, c);
        let ghost ls2 = ls.update(row as int, x);
        proof {
            lemma_join_insert_char(ls, row as int, col as int, c);
        }
        self.model = Ghost(ls2);
        proof {
            ls[row as int].insert_ensures(col as int, c);
            assert forall|i: int| 0 <= i < ls2.len() implies !(#[trigger] ls2[i]).contains(
                '\n',
            ) by {
                if i == row {
                    assert(forall|k: int| 0 <= k < ls[row as int].len()
                        ==> #[trigger] ls[row as int][k] != '\n');
                    assert(forall|k: int| 0 <= k < x.len() ==> x[k] != '\n');
                } else {
                    assert(ls2[i] == ls[i]);
                }
            }
            assert(ls2[old(self).row()].len() >= ls[old(self).row()].len());
        }
    }

    /// Insert one character at the cursor and advance the column past it;
    /// the sticky column follows.
    pub fn insert_char(&mut self, c: char)
        requires
            old(self).wf(),
            c != '\n',
        ensures
            final(self).wf(),
            final(self).lines() == old(self).lines().update(
                old(self).row(),
                old(self).line_at(old(self).row()).insert(old(self).col(), c),
            ),
            final(self).path() == old(self).path(),
            final(self).row() == old(self).row(),
            final(self).col() == old(self).col() + 1,
            final(self).sticky() == final(self).col(),
            final(self).scroll() == old(self).scroll(),
    {
        let row = self.cursor.row;
        let col = self.cursor.col;
        self.insert_char_at(row, col, c);
        let ll = self.line_len(row);
        proof {
            old(self).line_at(row as int).insert_ensures(col as int, c);
            assert(col + 1 <= ll);
        }
        self.cursor.col = col + 1;
        self.cursor.sticky = col + 1;
    }

    /// Split the current line at the cursor; the cursor moves to the start
    /// of the new line below.
    pub fn newline(&mut self)
        requires
            old(self).wf(),
        ensures
            final(self).wf(),
            final(self).lines() == old(self).lines().update(
                old(self).row(),
                old(self).line_at(old(self).row()).take(old(self).col()),
            ).insert(old(self).row() + 1, old(self).line_at(old(self).row()).skip(old(self).col())),
            final(self).path() == old(self).path(),
            final(self).row() == old(self).row() + 1,
            final(self).col() == 0,
            final(self).sticky() == 0,
            final(self).scroll() == old(self).scroll(),
    {
        proof {
            lemma_split_join(self.model@);
            lemma_line_start_bounds(self.model@, self.row());
        }
        let row = self.cursor.row;
        let col = self.cursor.col;
        let nl = self.line_count();
        let start = rope_line_to_char(&self.rope, row);
        let total = rope_len_chars(&self.rope);
        let idx = start + col;
        rope_insert_char(&mut self.rope, idx, '\n');
        let ghost ls = old(self).lines();
        let ghost line = ls[row as int];
        let ghost ls2 = ls.update(row as int, line.take(col as int)).insert(
            row as int + 1,
            line.skip(col as int),
        );
        proof {
            lemma_join_split_line(ls, row as int, col as int);
        }
        self.model = Ghost(ls2);
        self.cursor.row = row + 1;
        self.cursor.col = 0;
        self.cursor.sticky = 0;
        proof {
            let ls1 = ls.update(row as int, line.take(col as int));
            assert forall|i: int| 0 <= i < ls2.len() implies !(#[trigger] ls2[i]).contains(
                '\n',
            ) by {
                assert(!line.contains('\n'));
                assert(forall|k: int| 0 <= k < line.len() ==> line[k] != '\n');
                if i < row {
                    assert(ls2[i] == ls[i]);
                } else if i == row {
                    assert(ls2[i] == line.take(col as int));
                    assert(forall|k: int| 0 <= k < col ==> line.take(col as int)[k] == line[k]);
                } else if i == row + 1 {
                    assert(ls2[i] == line.skip(col as int));
                    assert(forall|k: int| 0 <= k < line.skip(col as int).len()
                        ==> line.skip(col as int)[k] == line[k + col]);
                } else {
                    assert(ls2[i] == ls1[i - 1]);
                    assert(ls1[i - 1] == ls[i - 1]);
                }
            }
            assert(ls2.len() == ls.len() + 1);
        }
    }

    /// Insert a run of text at the cursor, character by character: each
    /// line break splits the current line and moves to the new line below,
    /// every other character lands in the line and advances the column.
    /// The cursor ends just past the inserted text.
    pub fn insert_text(&mut self, text: &Vec<char>)
        requires
            old(self).wf(),
        ensures
            final(self).wf(),
            final(self).path() == old(self).path(),
            (final(self).lines(), final(self).row(), final(self).col()) == inserted(
                old(self).lines(),
                old(self).row(),
                old(self).col(),
                text@,
            ),
            final(self).scroll() == old(self).scroll(),
            text@.len() > 0 ==> final(self).sticky() == final(self).col(),
            text@.len() == 0 ==> final(self).sticky() == old(self).sticky(),
    {
        let ghost ls0 = old(self).lines();
        let ghost row0 = old(self).row();
        let ghost col0 = old(self).col();
        let n = text.len();
        proof {
            assert(text@.skip(0) =~= text@);
        }
        let mut j: usize = 0;
        while j < n
            invariant
                self.wf(),
                n == text@.len(),
                j <= n,
                self.path() == old(self).path(),
                self.scroll() == old(self).scroll(),
                j > 0 ==> self.sticky() == self.col(),
                j == 0 ==> self.sticky() == old(self).sticky() && self.lines() == ls0
                    && self.row() == row0 && self.col() == col0,
                inserted(self.lines(), self.row(), self.col(), text@.skip(j as int))
                    == inserted(ls0, row0, col0, text@),
            decreases n - j,
        {
            let c = text[j];
            proof {
                assert(text@.skip(j as int)[0] == c);
                assert(text@.skip(j as int).drop_first() =~= text@.skip(j + 1));
            }
            if c == '\n' {
                self.newline();
            } else {
                self.insert_char(c);
            }
            j = j + 1;
        }
        proof {
            assert(text@.skip(n as int).len() == 0);
        }
    }

    /// Delete the character before the cursor. At the start of a line,
    /// join the line onto the previous one instead; at the start of the
    /// buffer, do nothing.
    pub fn backspace(&mut self)
        requires
            old(self).wf(),
        ensures
            final(self).wf(),
            final(self).path() == old(self).path(),
            old(self).col() > 0 ==> {
                &&& final(self).lines() == old(self).lines().update(
                    old(self).row(),
                    old(self).line_at(old(self).row()).remove(old(self).col() - 1),
                )
                &&& final(self).row() == old(self).row()
                &&& final(self).col() == old(self).col() - 1
                &&& final(self).sticky() == final(self).col()
                &&& final(self).scroll() == old(self).scroll()
            },
            old(self).col() == 0 && old(self).row() > 0 ==> {
                &&& final(self).lines() == old(self).lines().update(
                    old(self).row() - 1,
                    old(self).line_at(old(self).row() - 1) + old(self).line_at(old(self).row()),
                ).remove(old(self).row())
                &&& final(self).row() == old(self).row() - 1
                &&& final(self).col() == old(self).line_at(old(self).row() - 1).len()
                &&& final(self).sticky() == final(self).col()
                &&& final(self).scroll() == if old(self).scroll() < final(self).lines().len() {
                    old(self).scroll()
                } else {
                    final(self).lines().len() - 1
                }
            },
            old(self).col() == 0 && old(self).row() == 0 ==> {
                &&& final(self).lines() == old(self).lines()
                &&& final(self).row() == old(self).row()
                &&& final(self).col() == old(self).col()
                &&& final(self).sticky() == old(self).sticky()
                &&& final(self).scroll() == old(self).scroll()
            },
    {
        proof {
            lemma_split_join(self.model@);
            lemma_line_start_bounds(self.model@, self.row());
        }
        let row = self.cursor.row;
        let col = self.cursor.col;
        let total = rope_len_chars(&self.rope);
        let ghost ls = old(self).lines();
        proof {
            assert(line_start(ls, row as int) + ls[row as int].len() <= total);
        }
        if col > 0 {
            let start = rope_line_to_char(&self.rope, row);
            let idx = start + col;
            rope_remove(&mut self.rope, idx - 1, idx);
            let ghost x = ls[row as int].remove(col - 1);
            let ghost ls2 = ls.update(row as int, x);
            proof {
                lemma_join_remove_char(ls, row as int, col - 1);
                assert(rope_text(self.rope) =~= join(ls).remove(idx - 1));
            }
            self.model = Ghost(ls2);
            self.cursor.col = col - 1;
            self.cursor.sticky = col - 1;
            proof {
                ls[row as int].remove_ensures(col - 1);
                assert forall|i: int| 0 <= i < ls2.len() implies !(#[trigger] ls2[i]).contains(
                    '\n',
                ) by {
                    if i == row {
                        assert(forall|k: int| 0 <= k < ls[row as int].len()
                            ==> #[trigger] ls[row as int][k] != '\n');
                        assert(forall|k: int| 0 <= k < x.len() ==> x[k] != '\n');
                    } else {
                        assert(ls2[i] == ls[i]);
                    }
                }
            }
        } else if row > 0 {
            let nl = self.line_count();
            let plen = self.line_len(row - 1);
            let start = rope_line_to_char(&self.rope, row);
            proof {
                crate::text::lemma_line_start_nonneg(ls, row as int);
                assert(line_start(ls, row as int) == line_start(ls, row - 1) + ls[row
                    - 1].len() + 1);
            }
            rope_remove(&mut self.rope, start - 1, start);
            let ghost merged = ls[row - 1] + ls[row as int];
            let ghost ls2 = ls.update(row - 1, merged).remove(row as int);
            proof {
                lemma_join_merge(ls, row - 1);
                assert(rope_text(self.rope) =~= join(ls).remove(start - 1));
            }
            self.model = Ghost(ls2);
            self.cursor.row = row - 1;
            self.cursor.col = plen;
            self.cursor.sticky = plen;
            if self.cursor.scroll > nl - 2 {
                self.cursor.scroll = nl - 2;
            }
            proof {
                let ls1 = ls.update(row - 1, merged);
                ls1.remove_ensures(row as int);
                assert forall|i: int| 0 <= i < ls2.len() implies !(#[trigger] ls2[i]).contains(
                    '\n',
                ) by {
                    assert(forall|k: int| 0 <= k < ls[row - 1].len() ==> #[trigger] ls[row - 1][k] != '\n');
                    assert(forall|k: int| 0 <= k < ls[row as int].len()
                        ==> #[trigger] ls[row as int][k] != '\n');
                    assert(forall|k: int| 0 <= k < merged.len() ==> #[trigger] merged[k] != '\n');
                    if i < row {
                        assert(ls2[i] == ls1[i]);
                    } else {
                        assert(ls2[i] == ls1[i + 1]);
                        assert(ls1[i + 1] == ls[i + 1]);
                    }
                }
                assert(ls2[row - 1] == merged);
            }
        }
    }

    /// Delete the character under the cursor. At the end of a line, join
    /// the next line onto this one; at the end of the buffer, do nothing.
    pub fn delete_char(&mut self)
        requires
            old(self).wf(),
        ensures
            final(self).wf(),
            final(self).path() == old(self).path(),
            final(self).row() == old(self).row(),
            final(self).col() == old(self).col(),
            final(self).sticky() == old(self).sticky(),
            old(self).col() < old(self).line_at(old(self).row()).len() ==> {
                &&& final(self).lines() == old(self).lines().update(
                    old(self).row(),
                    old(self).line_at(old(self).row()).remove(old(self).col()),
                )
                &&& final(self).scroll() == old(self).scroll()
            },
            old(self).col() == old(self).line_at(old(self).row()).len() && old(self).row()
                < old(self).lines().len() - 1 ==> {
                &&& final(self).lines() == old(self).lines().update(
                    old(self).row(),
                    old(self).line_at(old(self).row()) + old(self).line_at(old(self).row() + 1),
                ).remove(old(self).row() + 1)
                &&& final(self).scroll() == if old(self).scroll() < final(self).lines().len() {
                    old(self).scroll()
                } else {
                    final(self).lines().len() - 1
                }
            },
            old(self).col() == old(self).line_at(old(self).row()).len() && old(self).row()
                == old(self).lines().len() - 1 ==> {
                &&& final(self).lines() == old(self).lines()
                &&& final(self).scroll() == old(self).scroll()
            },
    {
        proof {
            lemma_split_join(self.model@);
            lemma_line_start_bounds(self.model@, self.row());
        }
        let row = self.cursor.row;
        let col = self.cursor.col;
        let nl = self.line_count();
        let ll = self.line_len(row);
        let total = rope_len_chars(&self.rope);
        let ghost ls = old(self).lines();
        proof {
            assert(line_start(ls, row as int) + ls[row as int].len() <= total);
        }
        if col < ll {
            let start = rope_line_to_char(&self.rope, row);
            let idx = start + col;
            rope_remove(&mut self.rope, idx, idx + 1);
            let ghost x = ls[row as int].remove(col as int);
            let ghost ls2 = ls.update(row as int, x);
            proof {
                lemma_join_remove_char(ls, row as int, col as int);
                assert(rope_text(self.rope) =~= join(ls).remove(idx as int));
            }
            self.model = Ghost(ls2);
            proof {
                ls[row as int].remove_ensures(col as int);
                assert forall|i: int| 0 <= i < ls2.len() implies !(#[trigger] ls2[i]).contains(
                    '\n',
                ) by {
                    if i == row {
                        assert(forall|k: int| 0 <= k < ls[row as int].len()
                            ==> #[trigger] ls[row as int][k] != '\n');
                        assert(forall|k: int| 0 <= k < x.len() ==> x[k] != '\n');
                    } else {
                        assert(ls2[i] == ls[i]);
                    }
                }
            }
        } else if row + 1 < nl {
            let start = rope_line_to_char(&self.rope, row);
            let idx = start + ll;
            rope_remove(&mut self.rope, idx, idx + 1);
            let ghost merged = ls[row as int] + ls[row + 1];
            let ghost ls2 = ls.update(row as int, merged).remove(row + 1);
            proof {
                lemma_join_merge(ls, row as int);
                assert(rope_text(self.rope) =~= join(ls).remove(idx as int));
            }
            self.model = Ghost(ls2);
            if self.cursor.scroll > nl - 2 {
                self.cursor.scroll = nl - 2;
            }
            proof {
                let ls1 = ls.update(row as int, merged);
                ls1.remove_ensures(row + 1);
                assert forall|i: int| 0 <= i < ls2.len() implies !(#[trigger] ls2[i]).contains(
                    '\n',
                ) by {
                    assert(forall|k: int| 0 <= k < ls[row as int].len()
                        ==> #[trigger] ls[row as int][k] != '\n');
                    assert(forall|k: int| 0 <= k < ls[row + 1].len() ==> #[trigger] ls[row + 1][k] != '\n');
                    assert(forall|k: int| 0 <= k < merged.len() ==> #[trigger] merged[k] != '\n');
                    if i <= row {
                        assert(ls2[i] == ls1[i]);
                    } else {
                        assert(ls2[i] == ls1[i + 1]);
                        assert(ls1[i + 1] == ls[i + 1]);
                    }
                }
                assert(ls2[row as int] == merged);
            }
        }
    }

    /// Insert a whole line (break-free text) at index `i`, between `0` and
    /// the line count. The cursor keeps its numeric position, with the
    /// column re-clamped into whatever line now sits under it.
    pub fn insert_line(&mut self, i: usize, line_text: &Vec<char>)
        requires
            old(self).wf(),
            i <= old(self).lines().len(),
            forall|k: int| 0 <= k < line_text@.len() ==> line_text@[k] != '\n',
        ensures
            final(self).wf(),
            final(self).path() == old(self).path(),
            final(self).lines() == old(self).lines().insert(i as int, line_text@),
            final(self).row() == old(self).row(),
            final(self).col() == if old(self).col()
                <= final(self).line_at(old(self).row()).len() {
                old(self).col()
            } else {
                final(self).line_at(old(self).row()).len() as int
            },
            final(self).sticky() == old(self).sticky(),
            final(self).scroll() == old(self).scroll(),
    {
        proof {
            lemma_split_join(self.model@);
        }
        let ghost ls = old(self).lines();
        let nl = self.line_count();
        let col0 = self.cursor.col;
        self.cursor.col = 0;
        let ghost ls1 = ls.insert(i as int, Seq::<char>::empty());
        if i < nl {
            proof {
                lemma_line_start_bounds(ls, i as int);
            }
            let pos = rope_line_to_char(&self.rope, i);
            let total = rope_len_chars(&self.rope);
            rope_insert_char(&mut self.rope, pos, '\n');
            proof {
                lemma_join_insert_line(ls, i as int, Seq::<char>::empty());
                assert(rope_text(self.rope) =~= join(ls1));
            }
        } else {
            let total = rope_len_chars(&self.rope);
            rope_insert_char(&mut self.rope, total, '\n');
            proof {
                lemma_join_insert_line(ls, i as int, Seq::<char>::empty());
                assert(rope_text(self.rope) =~= join(ls1));
            }
        }
        self.model = Ghost(ls1);
        proof {
            ls.insert_ensures(i as int, Seq::<char>::empty());
            assert forall|j: int| 0 <= j < ls1.len() implies !(#[trigger] ls1[j]).contains(
                '\n',
            ) by {
                if j < i {
                    assert(ls1[j] == ls[j]);
                } else if j == i {
                    assert(ls1[j] == Seq::<char>::empty());
                } else {
                    assert(ls1[j] == ls[j - 1]);
                }
            }
            assert(ls1[self.row()].len() >= 0);
            assert(line_text@.take(0) =~= Seq::<char>::empty());
        }
        let m = line_text.len();
        let mut k: usize = 0;
        while k < m
            invariant
                self.wf(),
                m == line_text@.len(),
                forall|j: int| 0 <= j < line_text@.len() ==> line_text@[j] != '\n',
                k <= m,
                i <= ls.len(),
                i < self.lines().len(),
                self.lines() == ls.insert(i as int, line_text@.take(k as int)),
                self.line_at(i as int).len() == k,
                self.path() == old(self).path(),
                self.row() == old(self).row(),
                self.col() == 0,
                self.sticky() == old(self).sticky(),
                self.scroll() == old(self).scroll(),
            decreases m - k,
        {
            let c = line_text[k];
            self.insert_char_at(i, k, c);
            proof {
                assert(line_text@.take(k as int).insert(k as int, c)
                    =~= line_text@.take(k + 1));
                ls.insert_ensures(i as int, line_text@.take(k as int));
                ls.insert_ensures(i as int, line_text@.take(k + 1));
                assert(ls.insert(i as int, line_text@.take(k as int)).update(
                    i as int,
                    line_text@.take(k as int).insert(k as int, c),
                ) =~= ls.insert(i as int, line_text@.take(k + 1)));
            }
            k = k + 1;
        }
        proof {
            assert(line_text@.take(m as int) =~= line_text@);
            assert(self.lines() =~~= ls.insert(i as int, line_text@));
        }
        let llr = self.line_len(self.cursor.row);
        self.cursor.col = if col0 <= llr {
            col0
        } else {
            llr
        };
    }

    /// Remove line `i` and hand its text back. A single-line buffer keeps
    /// one empty line; otherwise the cursor follows its content line where
    /// possible and is re-clamped into the buffer.
    pub fn delete_line(&mut self, i: usize) -> (removed: Vec<char>)
        requires
            old(self).wf(),
            i < old(self).lines().len(),
        ensures
            final(self).wf(),
            final(self).path() == old(self).path(),
            removed@ == old(self).line_at(i as int),
            final(self).sticky() == old(self).sticky(),
            old(self).lines().len() == 1 ==> {
                &&& final(self).lines() == seq![Seq::<char>::empty()]
                &&& final(self).row() == 0
                &&& final(self).col() == 0
                &&& final(self).scroll() == old(self).scroll()
            },
            old(self).lines().len() > 1 ==> {
                &&& final(self).lines() == old(self).lines().remove(i as int)
                &&& final(self).row() == if old(self).row() > i {
                    old(self).row() - 1
                } else if old(self).row() < final(self).lines().len() {
                    old(self).row()
                } else {
                    final(self).lines().len() - 1
                }
                &&& final(self).col() == if old(self).col()
                    <= final(self).line_at(final(self).row()).len() {
                    old(self).col()
                } else {
                    final(self).line_at(final(self).row()).len() as int
                }
                &&& final(self).scroll() == if old(self).scroll() < final(self).lines().len() {
                    old(self).scroll()
                } else {
                    final(self).lines().len() - 1
                }
            },
    {
        proof {
            lemma_split_join(self.model@);
            lemma_line_start_bounds(self.model@, i as int);
        }
        let removed = self.line_chars(i);
        let nl = self.line_count();
        let total = rope_len_chars(&self.rope);
        let ghost ls = old(self).lines();
        if nl == 1 {
            rope_remove(&mut self.rope, 0, total);
            let ghost lone = seq![Seq::<char>::empty()];
            proof {
                assert(rope_text(self.rope) =~= Seq::<char>::empty());
                assert(join(lone) == Seq::<char>::empty());
            }
            self.model = Ghost(lone);
            self.cursor.row = 0;
            self.cursor.col = 0;
            removed
        } else {
            let start = rope_line_to_char(&self.rope, i);
            let ll = self.line_len(i);
            let ghost ls2 = ls.remove(i as int);
            if i + 1 < nl {
                rope_remove(&mut self.rope, start, start + ll + 1);
                proof {
                    lemma_join_remove_line(ls, i as int);
                    assert(rope_text(self.rope) == join(ls2));
                }
            } else {
                proof {
                    crate::text::lemma_line_start_nonneg(ls, i as int);
                }
                rope_remove(&mut self.rope, start - 1, total);
                proof {
                    lemma_join_remove_line(ls, i as int);
                    assert(join(ls).take(start - 1) + join(ls).skip(total as int)
                        =~= join(ls).take(start - 1));
                    assert(rope_text(self.rope) == join(ls2));
                }
            }
            self.model = Ghost(ls2);
            proof {
                ls.remove_ensures(i as int);
                assert forall|j: int| 0 <= j < ls2.len() implies !(#[trigger] ls2[j]).contains(
                    '\n',
                ) by {
                    if j < i {
                        assert(ls2[j] == ls[j]);
                    } else {
                        assert(ls2[j] == ls[j + 1]);
                    }
                }
            }
            let col0 = self.cursor.col;
            self.cursor.col = 0;
            let r0 = self.cursor.row;
            let r2 = if r0 > i {
                r0 - 1
            } else if r0 < nl - 1 {
                r0
            } else {
                nl - 2
            };
            self.cursor.row = r2;
            if self.cursor.scroll > nl - 2 {
                self.cursor.scroll = nl - 2;
            }
            let llr = self.line_len(r2);
            self.cursor.col = if col0 <= llr {
                col0
            } else {
                llr
            };
            removed
        }
    }

    pub fn get_row(&self) -> (r: usize)
        ensures
            r == self.row(),
    {
        self.cursor.row
    }

    pub fn get_col(&self) -> (c: usize)
        ensures
            c == self.col(),
    {
        self.cursor.col
    }

    pub fn get_sticky(&self) -> (c: usize)
        ensures
            c == self.sticky(),
    {
        self.cursor.sticky
    }

    pub fn get_scroll(&self) -> (r: usize)
        ensures
            r == self.scroll(),
    {
        self.cursor.scroll
    }

    pub fn get_name(&self) -> (s: &String)
        ensures
            s@ == self.path(),
    {
        &self.name
    }
}

} // verus!
