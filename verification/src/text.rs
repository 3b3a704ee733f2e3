//! The mathematical model of buffer text: a flat character sequence on one
//! side, a sequence of newline-free lines on the other, with `join` and
//! `split` translating between the two and lemmas describing how line-level
//! edits appear in the flat text.

use vstd::prelude::*;

verus! {

/// The flat text denoted by a sequence of lines: the lines joined by `'\n'`.
pub open spec fn join(ls: Seq<Seq<char>>) -> Seq<char>
    decreases ls.len(),
{
    if ls.len() == 0 {
        Seq::<char>::empty()
    } else if ls.len() == 1 {
        ls[0]
    } else {
        ls[0] + seq!['\n'] + join(ls.drop_first())
    }
}

/// A well-formed line sequence: at least one line, and no line contains a
/// line break of its own.
pub open spec fn wf_lines(ls: Seq<Seq<char>>) -> bool {
    &&& ls.len() >= 1
    &&& forall|i: int| 0 <= i < ls.len() ==> !(#[trigger] ls[i]).contains('\n')
}

/// The line decomposition of a flat text: split on `'\n'`, so that a text
/// with `k` line breaks has `k + 1` lines and a trailing break yields a
/// final empty line.
pub open spec fn split(t: Seq<char>) -> Seq<Seq<char>>
    decreases t.len(),
{
    if t.len() == 0 {
        seq![Seq::<char>::empty()]
    } else if t[0] == '\n' {
        seq![Seq::<char>::empty()] + split(t.drop_first())
    } else {
        let rest = split(t.drop_first());
        seq![seq![t[0]] + rest[0]] + rest.drop_first()
    }
}

/// The char index in `join(ls)` at which line `r` starts.
pub open spec fn line_start(ls: Seq<Seq<char>>, r: int) -> int
    decreases r,
{
    if r <= 0 {
        0
    } else {
        line_start(ls, r - 1) + ls[r - 1].len() + 1
    }
}

/// `split` always yields at least one newline-free line, and joining the
/// lines back restores the text.
pub proof fn lemma_split_basic(t: Seq<char>)
    ensures
        split(t).len() >= 1,
        wf_lines(split(t)),
        join(split(t)) == t,
    decreases t.len(),
{
    if t.len() == 0 {
        assert(join(split(t)) =~= t);
    } else if t[0] == '\n' {
        lemma_split_basic(t.drop_first());
        let s = split(t.drop_first());
        let full = seq![Seq::<char>::empty()] + s;
        assert(full.drop_first() =~= s);
        assert(forall|i: int|
            0 <= i < full.len() ==> !(#[trigger] full[i]).contains('\n')) by {
            assert(forall|i: int|
                1 <= i < full.len() ==> full[i] =~= s[i - 1]);
        }
        assert(join(full) =~= t);
    } else {
        lemma_split_basic(t.drop_first());
        let rest = split(t.drop_first());
        let head = seq![t[0]] + rest[0];
        let full = seq![head] + rest.drop_first();
        assert(!head.contains('\n')) by {
            assert(forall|j: int| 0 <= j < head.len() ==> head[j] != '\n') by {
                assert(head[0] == t[0]);
                assert(forall|j: int| 1 <= j < head.len() ==> head[j] == rest[0][j - 1]);
                assert(!rest[0].contains('\n'));
            }
        }
        assert(forall|i: int|
            0 <= i < full.len() ==> !(#[trigger] full[i]).contains('\n')) by {
            assert(forall|i: int| 1 <= i < full.len() ==> full[i] =~= rest[i]);
        }
        if rest.len() == 1 {
            assert(join(full) == head);
            assert(join(rest) == rest[0]);
            assert(join(full) =~= t);
        } else {
            assert(full.len() >= 2);
            assert(full.drop_first() =~= rest.drop_first());
            assert(join(full) == head + seq!['\n'] + join(rest.drop_first()));
            assert(join(rest) == rest[0] + seq!['\n'] + join(rest.drop_first()));
            assert(join(full) =~= seq![t[0]] + join(rest));
            assert(seq![t[0]] + t.drop_first() =~= t);
        }
    }
}

/// Splitting a text without line breaks yields that text as the only line.
proof fn lemma_split_no_break(s: Seq<char>)
    requires
        !s.contains('\n'),
    ensures
        split(s) == seq![s],
    decreases s.len(),
{
    if s.len() == 0 {
        assert(s =~= Seq::<char>::empty());
        assert(split(s) =~~= seq![s]);
    } else {
        assert(s[0] != '\n');
        assert(!s.drop_first().contains('\n')) by {
            assert(forall|j: int| 0 <= j < s.drop_first().len()
                ==> s.drop_first()[j] == s[j + 1]);
        }
        lemma_split_no_break(s.drop_first());
        let rest = split(s.drop_first());
        assert(rest == seq![s.drop_first()]);
        assert(split(s) == seq![seq![s[0]] + rest[0]] + rest.drop_first());
        assert(seq![s[0]] + rest[0] =~= s);
        assert(rest.drop_first() =~= Seq::<Seq<char>>::empty());
        assert(split(s) =~~= seq![s]);
    }
}

/// Splitting `a + '\n' + b`, with `a` break-free, peels `a` off as the
/// first line.
proof fn lemma_split_peel(a: Seq<char>, b: Seq<char>)
    requires
        !a.contains('\n'),
    ensures
        split(a + seq!['\n'] + b) == seq![a] + split(b),
    decreases a.len(),
{
    let t = a + seq!['\n'] + b;
    if a.len() == 0 {
        assert(t.len() == b.len() + 1);
        assert(t[0] == '\n');
        assert(t.drop_first() =~= b);
        assert(split(t) == seq![Seq::<char>::empty()] + split(b));
        assert(a =~= Seq::<char>::empty());
        assert(split(t) =~= seq![a] + split(b));
    } else {
        assert(t[0] == a[0]);
        assert(a.contains(a[0])) by {
            assert(a[0] == a[0]);
        }
        assert(t[0] != '\n');
        assert(!a.drop_first().contains('\n')) by {
            assert(forall|j: int| 0 <= j < a.drop_first().len()
                ==> a.drop_first()[j] == a[j + 1]);
        }
        lemma_split_peel(a.drop_first(), b);
        assert(t.drop_first() =~= a.drop_first() + seq!['\n'] + b);
        let rest = split(t.drop_first());
        assert(rest == seq![a.drop_first()] + split(b));
        assert(seq![t[0]] + rest[0] =~= a);
        assert(rest.drop_first() =~= split(b));
        assert(split(t) =~= seq![a] + split(b));
    }
}

/// Joining well-formed lines and splitting the result restores the lines.
pub proof fn lemma_split_join(ls: Seq<Seq<char>>)
    requires
        wf_lines(ls),
    ensures
        split(join(ls)) == ls,
    decreases ls.len(),
{
    if ls.len() == 1 {
        assert(join(ls) == ls[0]);
        lemma_split_no_break(ls[0]);
        assert(split(join(ls)) =~= ls);
    } else {
        let rest = ls.drop_first();
        assert(wf_lines(rest)) by {
            assert(forall|i: int| 0 <= i < rest.len() ==> rest[i] =~= ls[i + 1]);
        }
        lemma_split_join(rest);
        lemma_split_peel(ls[0], join(rest));
        assert(join(ls) == ls[0] + seq!['\n'] + join(rest));
        assert(split(join(ls)) == seq![ls[0]] + rest);
        assert(seq![ls[0]] + rest =~= ls);
    }
}

/// Line starts stay inside the joined text: line `r` together with its
/// characters fits before the end, and the last line ends the text.
pub proof fn lemma_line_start_bounds(ls: Seq<Seq<char>>, r: int)
    requires
        0 <= r < ls.len(),
    ensures
        0 <= line_start(ls, r),
        line_start(ls, r) + ls[r].len() <= join(ls).len(),
        r == ls.len() - 1 ==> line_start(ls, r) + ls[r].len() == join(ls).len(),
        r < ls.len() - 1 ==> line_start(ls, r) + ls[r].len() < join(ls).len(),
    decreases ls.len(),
{
    if ls.len() == 1 {
        assert(join(ls) == ls[0]);
    } else {
        let rest = ls.drop_first();
        assert(join(ls) == ls[0] + seq!['\n'] + join(rest));
        if r == 0 {
            assert(join(ls).len() == ls[0].len() + 1 + join(rest).len());
        } else {
            lemma_line_start_bounds(rest, r - 1);
            lemma_line_start_shift(ls, r);
            assert(rest[r - 1] =~= ls[r]);
        }
    }
}

/// Peeling the first line shifts every later line start by that line's
/// length plus one.
proof fn lemma_line_start_shift(ls: Seq<Seq<char>>, r: int)
    requires
        1 <= r < ls.len(),
    ensures
        line_start(ls, r) == ls[0].len() + 1 + line_start(ls.drop_first(), r - 1),
    decreases r,
{
    let rest = ls.drop_first();
    if r == 1 {
        assert(line_start(ls, 0) == 0);
        assert(line_start(rest, 0) == 0);
    } else {
        lemma_line_start_shift(ls, r - 1);
        assert(rest[r - 2] =~= ls[r - 1]);
        assert(line_start(ls, r) == line_start(ls, r - 1) + ls[r - 1].len() + 1);
        assert(line_start(rest, r - 1) == line_start(rest, r - 2) + rest[r - 2].len() + 1);
    }
}

/// Characters of line `r` appear in the joined text at its line start, and
/// a `'\n'` follows every line but the last.
pub proof fn lemma_join_index(ls: Seq<Seq<char>>, r: int)
    requires
        0 <= r < ls.len(),
    ensures
        forall|j: int| 0 <= j < ls[r].len()
            ==> join(ls)[line_start(ls, r) + j] == ls[r][j],
        r < ls.len() - 1 ==> join(ls)[line_start(ls, r) + ls[r].len()] == '\n',
    decreases r,
{
    lemma_line_start_bounds(ls, r);
    if ls.len() == 1 {
        assert(join(ls) == ls[0]);
    } else {
        let rest = ls.drop_first();
        assert(join(ls) == ls[0] + seq!['\n'] + join(rest));
        if r == 0 {
            assert(forall|j: int| 0 <= j < ls[0].len() ==> join(ls)[j] == ls[0][j]);
            assert(join(ls)[ls[0].len() as int] == '\n');
        } else {
            lemma_join_index(rest, r - 1);
            lemma_line_start_shift(ls, r);
            lemma_line_start_bounds(rest, r - 1);
            assert(rest[r - 1] =~= ls[r]);
            assert(forall|k: int| 0 <= k < join(rest).len()
                ==> join(ls)[ls[0].len() + 1 + k] == join(rest)[k]);
        }
    }
}

/// The joined text restricted to line `r`'s span is exactly line `r`.
pub proof fn lemma_join_subrange(ls: Seq<Seq<char>>, r: int)
    requires
        0 <= r < ls.len(),
    ensures
        join(ls).subrange(line_start(ls, r), line_start(ls, r) + ls[r].len() as int)
            == ls[r],
{
    lemma_line_start_bounds(ls, r);
    lemma_join_index(ls, r);
    assert(join(ls).subrange(line_start(ls, r), line_start(ls, r) + ls[r].len() as int)
        =~= ls[r]);
}

/// Every line start sits at or after its line index: each earlier line
/// contributes at least its separating break.
pub proof fn lemma_line_start_nonneg(ls: Seq<Seq<char>>, r: int)
    requires
        0 <= r,
    ensures
        line_start(ls, r) >= r,
    decreases r,
{
    if r > 0 {
        lemma_line_start_nonneg(ls, r - 1);
    }
}

/// Replacing line `r` replaces exactly its span in the joined text.
pub proof fn lemma_join_update(ls: Seq<Seq<char>>, r: int, x: Seq<char>)
    requires
        0 <= r < ls.len(),
    ensures
        join(ls.update(r, x)) == join(ls).take(line_start(ls, r)) + x + join(ls).skip(
            line_start(ls, r) + ls[r].len() as int,
        ),
    decreases r,
{
    lemma_line_start_bounds(ls, r);
    let upd = ls.update(r, x);
    if ls.len() == 1 {
        assert(join(ls) == ls[0]);
        assert(upd =~= seq![x]);
        assert(join(upd) == x);
        assert(join(ls).take(0) =~= Seq::<char>::empty());
        assert(join(ls).skip(ls[0].len() as int) =~= Seq::<char>::empty());
        assert(join(upd) =~= join(ls).take(0) + x + join(ls).skip(ls[0].len() as int));
    } else {
        let rest = ls.drop_first();
        assert(join(ls) == ls[0] + seq!['\n'] + join(rest));
        if r == 0 {
            assert(upd.len() >= 2);
            assert(upd.drop_first() =~= rest);
            assert(join(upd) == x + seq!['\n'] + join(rest));
            assert(join(ls).take(0) =~= Seq::<char>::empty());
            assert(join(ls).skip(ls[0].len() as int) =~= seq!['\n'] + join(rest));
            assert(join(upd) =~= join(ls).take(0) + x + join(ls).skip(ls[0].len() as int));
        } else {
            lemma_join_update(rest, r - 1, x);
            lemma_line_start_shift(ls, r);
            lemma_line_start_bounds(rest, r - 1);
            assert(rest[r - 1] =~= ls[r]);
            let s = line_start(rest, r - 1);
            assert(upd.len() >= 2);
            assert(upd.drop_first() =~= rest.update(r - 1, x));
            assert(join(upd) == ls[0] + seq!['\n'] + join(rest.update(r - 1, x)));
            assert(join(rest.update(r - 1, x)) == join(rest).take(s) + x + join(rest).skip(
                s + ls[r].len() as int,
            ));
            assert(join(ls).take(line_start(ls, r)) =~= ls[0] + seq!['\n'] + join(rest).take(s));
            assert(join(ls).skip(line_start(ls, r) + ls[r].len() as int) =~= join(rest).skip(
                s + ls[r].len() as int,
            ));
            assert(join(upd) =~= join(ls).take(line_start(ls, r)) + x + join(ls).skip(
                line_start(ls, r) + ls[r].len() as int,
            ));
        }
    }
}

/// Inserting one character into line `r` inserts it at the matching flat
/// position of the joined text.
pub proof fn lemma_join_insert_char(ls: Seq<Seq<char>>, r: int, col: int, c: char)
    requires
        0 <= r < ls.len(),
        0 <= col <= ls[r].len(),
    ensures
        join(ls.update(r, ls[r].insert(col, c))) == join(ls).insert(
            line_start(ls, r) + col,
            c,
        ),
{
    let start = line_start(ls, r);
    let x = ls[r].insert(col, c);
    lemma_line_start_bounds(ls, r);
    lemma_join_index(ls, r);
    lemma_join_update(ls, r, x);
    assert(join(ls).take(start) + x + join(ls).skip(start + ls[r].len() as int)
        =~= join(ls).insert(start + col, c));
}

/// Removing one character from line `r` removes it at the matching flat
/// position of the joined text.
pub proof fn lemma_join_remove_char(ls: Seq<Seq<char>>, r: int, col: int)
    requires
        0 <= r < ls.len(),
        0 <= col < ls[r].len(),
    ensures
        join(ls.update(r, ls[r].remove(col))) == join(ls).remove(line_start(ls, r) + col),
{
    let start = line_start(ls, r);
    let x = ls[r].remove(col);
    lemma_line_start_bounds(ls, r);
    lemma_join_index(ls, r);
    lemma_join_update(ls, r, x);
    assert(join(ls).take(start) + x + join(ls).skip(start + ls[r].len() as int)
        =~= join(ls).remove(start + col));
}

/// Splitting line `r` at `col` into two lines inserts a `'\n'` at the
/// matching flat position of the joined text.
pub proof fn lemma_join_split_line(ls: Seq<Seq<char>>, r: int, col: int)
    requires
        0 <= r < ls.len(),
        0 <= col <= ls[r].len(),
    ensures
        join(ls.update(r, ls[r].take(col)).insert(r + 1, ls[r].skip(col))) == join(
            ls,
        ).insert(line_start(ls, r) + col, '\n'),
    decreases r,
{
    lemma_line_start_bounds(ls, r);
    let ls2 = ls.update(r, ls[r].take(col)).insert(r + 1, ls[r].skip(col));
    if r == 0 {
        if ls.len() == 1 {
            assert(ls2 =~= seq![ls[0].take(col), ls[0].skip(col)]);
            assert(ls2.drop_first() =~= seq![ls[0].skip(col)]);
            assert(join(seq![ls[0].skip(col)]) == ls[0].skip(col));
            assert(join(ls2) == ls2[0] + seq!['\n'] + join(ls2.drop_first()));
            assert(join(ls) == ls[0]);
            assert(join(ls2) =~= join(ls).insert(col, '\n'));
        } else {
            let rest = ls.drop_first();
            assert(join(ls) == ls[0] + seq!['\n'] + join(rest));
            assert(ls2.len() >= 3);
            assert(ls2[0] == ls[0].take(col));
            let mid = ls2.drop_first();
            assert(mid =~= seq![ls[0].skip(col)] + rest);
            assert(mid.len() >= 2);
            assert(mid[0] == ls[0].skip(col));
            assert(mid.drop_first() =~= rest);
            assert(join(mid) == ls[0].skip(col) + seq!['\n'] + join(rest));
            assert(join(ls2) == ls2[0] + seq!['\n'] + join(mid));
            assert(join(ls2) =~= join(ls).insert(col, '\n'));
        }
    } else {
        let rest = ls.drop_first();
        assert(join(ls) == ls[0] + seq!['\n'] + join(rest));
        assert(rest[r - 1] =~= ls[r]);
        lemma_join_split_line(rest, r - 1, col);
        lemma_line_start_shift(ls, r);
        lemma_line_start_bounds(rest, r - 1);
        let s = line_start(rest, r - 1);
        let rest2 = rest.update(r - 1, ls[r].take(col)).insert(r, ls[r].skip(col));
        assert(ls2.len() >= 2);
        assert(ls2[0] == ls[0]);
        assert(ls2.drop_first() =~= rest2);
        assert(join(ls2) == ls[0] + seq!['\n'] + join(rest2));
        assert(join(rest2) == join(rest).insert(s + col, '\n'));
        assert(join(ls2) =~= join(ls).insert(line_start(ls, r) + col, '\n'));
    }
}

/// Joining line `r + 1` onto line `r` removes the separating `'\n'` at the
/// matching flat position of the joined text.
pub proof fn lemma_join_merge(ls: Seq<Seq<char>>, r: int)
    requires
        0 <= r,
        r + 1 < ls.len(),
    ensures
        join(ls.update(r, ls[r] + ls[r + 1]).remove(r + 1)) == join(ls).remove(
            line_start(ls, r) + ls[r].len(),
        ),
    decreases r,
{
    lemma_line_start_bounds(ls, r);
    let ls2 = ls.update(r, ls[r] + ls[r + 1]).remove(r + 1);
    let rest = ls.drop_first();
    assert(join(ls) == ls[0] + seq!['\n'] + join(rest));
    if r == 0 {
        if ls.len() == 2 {
            assert(ls2 =~= seq![ls[0] + ls[1]]);
            assert(join(ls2) == ls[0] + ls[1]);
            assert(join(rest) == ls[1]);
            assert(join(ls2) =~= join(ls).remove(ls[0].len() as int));
        } else {
            let rest2 = rest.drop_first();
            assert(join(rest) == ls[1] + seq!['\n'] + join(rest2));
            assert(ls2.len() >= 2);
            assert(ls2[0] == ls[0] + ls[1]);
            assert(ls2.drop_first() =~= rest2);
            assert(join(ls2) == (ls[0] + ls[1]) + seq!['\n'] + join(rest2));
            assert(join(ls2) =~= join(ls).remove(ls[0].len() as int));
        }
    } else {
        assert(rest[r - 1] =~= ls[r]);
        assert(rest[r] =~= ls[r + 1]);
        lemma_join_merge(rest, r - 1);
        lemma_line_start_shift(ls, r);
        lemma_line_start_bounds(rest, r - 1);
        let s = line_start(rest, r - 1);
        let rest2 = rest.update(r - 1, ls[r] + ls[r + 1]).remove(r);
        assert(ls2.len() >= 2);
        assert(ls2[0] == ls[0]);
        assert(ls2.drop_first() =~= rest2);
        assert(join(ls2) == ls[0] + seq!['\n'] + join(rest2));
        assert(join(rest2) == join(rest).remove(s + ls[r].len()));
        assert(join(ls2) =~= join(ls).remove(line_start(ls, r) + ls[r].len()));
    }
}

/// Inserting a whole line inserts its text plus a separating break into the
/// joined text: before the old line `i`'s start when `i` is interior, after
/// a fresh trailing break when appended at the end.
pub proof fn lemma_join_insert_line(ls: Seq<Seq<char>>, i: int, x: Seq<char>)
    requires
        ls.len() >= 1,
        0 <= i <= ls.len(),
    ensures
        i < ls.len() ==> join(ls.insert(i, x)) == join(ls).take(line_start(ls, i)) + x
            + seq!['\n'] + join(ls).skip(line_start(ls, i)),
        i == ls.len() ==> join(ls.insert(i, x)) == join(ls) + seq!['\n'] + x,
    decreases i,
{
    let ins = ls.insert(i, x);
    if i == 0 {
        assert(ins.len() >= 2);
        assert(ins[0] == x);
        assert(ins.drop_first() =~= ls);
        assert(join(ins) == x + seq!['\n'] + join(ls));
        assert(join(ls).take(0) =~= Seq::<char>::empty());
        assert(join(ls).skip(0) =~= join(ls));
        assert(join(ins) =~= join(ls).take(0) + x + seq!['\n'] + join(ls).skip(0));
    } else if ls.len() == 1 {
        // i == 1 == ls.len(): append after the only line.
        assert(ins.len() == 2);
        assert(ins[0] == ls[0]);
        assert(ins.drop_first() =~= seq![x]);
        assert(join(seq![x]) == x);
        assert(join(ins) == ins[0] + seq!['\n'] + join(ins.drop_first()));
        assert(join(ins) == ls[0] + seq!['\n'] + x);
        assert(join(ls) == ls[0]);
    } else {
        let rest = ls.drop_first();
        assert(join(ls) == ls[0] + seq!['\n'] + join(rest));
        lemma_join_insert_line(rest, i - 1, x);
        assert(ins.len() >= 2);
        assert(ins[0] == ls[0]);
        assert(ins.drop_first() =~= rest.insert(i - 1, x));
        assert(join(ins) == ls[0] + seq!['\n'] + join(rest.insert(i - 1, x)));
        if i < ls.len() {
            lemma_line_start_shift(ls, i);
            let s = line_start(rest, i - 1);
            lemma_line_start_bounds(rest, i - 1);
            assert(join(rest.insert(i - 1, x)) == join(rest).take(s) + x + seq!['\n']
                + join(rest).skip(s));
            assert(join(ls).take(line_start(ls, i)) =~= ls[0] + seq!['\n'] + join(rest).take(s));
            assert(join(ls).skip(line_start(ls, i)) =~= join(rest).skip(s));
            assert(join(ins) =~= join(ls).take(line_start(ls, i)) + x + seq!['\n'] + join(
                ls,
            ).skip(line_start(ls, i)));
        } else {
            assert(join(rest.insert(i - 1, x)) == join(rest) + seq!['\n'] + x);
            assert(join(ins) =~= join(ls) + seq!['\n'] + x);
        }
    }
}

/// Removing a whole line removes its text and one separating break from the
/// joined text: the break after it when interior, the one before it when it
/// is the last line.
pub proof fn lemma_join_remove_line(ls: Seq<Seq<char>>, i: int)
    requires
        ls.len() >= 2,
        0 <= i < ls.len(),
    ensures
        i < ls.len() - 1 ==> join(ls.remove(i)) == join(ls).take(line_start(ls, i)) + join(
            ls,
        ).skip(line_start(ls, i) + ls[i].len() + 1),
        i == ls.len() - 1 ==> join(ls.remove(i)) == join(ls).take(line_start(ls, i) - 1),
    decreases i,
{
    lemma_line_start_bounds(ls, i);
    let rem = ls.remove(i);
    let rest = ls.drop_first();
    assert(join(ls) == ls[0] + seq!['\n'] + join(rest));
    if i == 0 {
        assert(rem =~= rest);
        assert(join(ls).take(0) =~= Seq::<char>::empty());
        assert(join(ls).skip(ls[0].len() + 1 as int) =~= join(rest));
        assert(join(rem) =~= join(ls).take(0) + join(ls).skip(ls[0].len() + 1 as int));
    } else if ls.len() == 2 {
        // i == 1 == ls.len() - 1: drop the last of two lines.
        assert(rem =~= seq![ls[0]]);
        assert(join(rem) == ls[0]);
        lemma_line_start_shift(ls, 1);
        assert(line_start(ls, 1) == ls[0].len() + 1);
        assert(join(ls).take(line_start(ls, 1) - 1) =~= ls[0]);
        assert(join(rem) =~= join(ls).take(line_start(ls, 1) - 1));
    } else {
        lemma_join_remove_line(rest, i - 1);
        lemma_line_start_shift(ls, i);
        lemma_line_start_bounds(rest, i - 1);
        assert(rest[i - 1] =~= ls[i]);
        let s = line_start(rest, i - 1);
        assert(rem.len() >= 2);
        assert(rem[0] == ls[0]);
        assert(rem.drop_first() =~= rest.remove(i - 1));
        assert(join(rem) == ls[0] + seq!['\n'] + join(rest.remove(i - 1)));
        if i < ls.len() - 1 {
            assert(join(rest.remove(i - 1)) == join(rest).take(s) + join(rest).skip(
                s + ls[i].len() + 1,
            ));
            assert(join(ls).take(line_start(ls, i)) =~= ls[0] + seq!['\n'] + join(rest).take(s));
            assert(join(ls).skip(line_start(ls, i) + ls[i].len() + 1) =~= join(rest).skip(
                s + ls[i].len() + 1,
            ));
            assert(join(rem) =~= join(ls).take(line_start(ls, i)) + join(ls).skip(
                line_start(ls, i) + ls[i].len() + 1,
            ));
        } else {
            lemma_line_start_nonneg(rest, i - 1);
            assert(join(rest.remove(i - 1)) == join(rest).take(s - 1));
            assert(join(rem) == ls[0] + seq!['\n'] + join(rest).take(s - 1));
            assert(join(ls).len() == ls[0].len() + 1 + join(rest).len());
            assert(join(rem) =~= join(ls).take(line_start(ls, i) - 1));
        }
    }
}

} // verus!
