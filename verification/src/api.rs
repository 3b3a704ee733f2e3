//! The scripting surface: the narrow facade a scripting host may drive.
//! It exposes exactly cursor motion, direct row/scroll placement, and
//! key-binding registration; nothing else of the editor is scriptable.
//! Script functions are referred to by opaque tokens the host resolves.

use vstd::prelude::*;
use vstd::string::StrSliceExecFns;
use crate::buffer::{clamp_col, scroll_bound};
use crate::command::Command;
use crate::context::focused_buf_step;
use crate::editor::Editor;
use crate::keys::Key;
use crate::mode::Mode;

verus! {

/// The key sequence a combo string names: one character key per character.
pub open spec fn combo_keys(s: Seq<char>) -> Seq<Key>
    decreases s.len(),
{
    if s.len() == 0 {
        Seq::<Key>::empty()
    } else {
        combo_keys(s.drop_last()).push(Key::Char(s.last()))
    }
}

/// The row a host-supplied signed index names: negative rows mean the
/// first line, and anything beyond `usize` saturates.
pub open spec fn host_row(row: i64) -> int {
    if row <= 0 {
        0
    } else if row as int <= usize::MAX as int {
        row as int
    } else {
        usize::MAX as int
    }
}

/// Turn a combo string into its key sequence.
pub fn parse_combo(combo: &str) -> (ks: Vec<Key>)
    ensures
        ks@ == combo_keys(combo@),
{
    let n = combo.unicode_len();
    let mut ks: Vec<Key> = Vec::new();
    proof {
        assert(combo@.take(0).len() == 0);
        assert(ks@ =~= combo_keys(combo@.take(0)));
    }
    let mut i: usize = 0;
    while i < n
        invariant
            n == combo@.len(),
            i <= n,
            ks@ == combo_keys(combo@.take(i as int)),
        decreases n - i,
    {
        let c = combo.get_char(i);
        ks.push(Key::Char(c));
        proof {
            assert(combo@.take(i + 1).drop_last() =~= combo@.take(i as int));
            assert(combo@.take(i + 1).last() == combo@[i as int]);
            assert(combo@.take(i + 1).len() == i + 1);
            assert(ks@ == combo_keys(combo@.take(i + 1)));
        }
        i = i + 1;
    }
    proof {
        assert(combo@.take(n as int) =~= combo@);
    }
    ks
}

/// The editor facade handed to the scripting host.
pub struct ContextRhaiApi(pub Editor);

impl ContextRhaiApi {
    /// Move the focused buffer's cursor down one row.
    pub fn move_cursor_down(&mut self)
        requires
            old(self).0.wf(),
        ensures
            final(self).0.wf(),
            focused_buf_step(old(self).0.context(), final(self).0.context()),
            final(self).0.context().focused_buf().lines() == old(self).0.context().focused_buf().lines(),
            final(self).0.context().focused_buf().row() == if old(self).0.context().focused_buf().row() + 1 < old(self).0.context().focused_buf().lines().len() {
                old(self).0.context().focused_buf().row() + 1
            } else {
                old(self).0.context().focused_buf().lines().len() - 1
            },
            final(self).0.context().focused_buf().col() == clamp_col(
                old(self).0.context().focused_buf().sticky(),
                old(self).0.context().focused_buf().line_at(
                    final(self).0.context().focused_buf().row(),
                ).len() as int,
            ),
    {
        self.0.cursor_down_one()
    }

    /// Place the focused buffer's cursor row; a negative row means the
    /// first line.
    pub fn window_set_cursor_row(&mut self, row: i64)
        requires
            old(self).0.wf(),
        ensures
            final(self).0.wf(),
            focused_buf_step(old(self).0.context(), final(self).0.context()),
            final(self).0.context().focused_buf().lines() == old(self).0.context().focused_buf().lines(),
            final(self).0.context().focused_buf().row() == if host_row(row) < old(self).0.context().focused_buf().lines().len() {
                host_row(row)
            } else {
                old(self).0.context().focused_buf().lines().len() - 1
            },
    {
        let r: usize = if row <= 0 {
            0
        } else if row as u64 <= usize::MAX as u64 {
            row as usize
        } else {
            usize::MAX
        };
        self.0.set_cursor_row(r)
    }

    /// Place the focused buffer's scroll row; a negative row means the
    /// first line.
    pub fn window_set_scroll_row(&mut self, row: i64)
        requires
            old(self).0.wf(),
        ensures
            final(self).0.wf(),
            focused_buf_step(old(self).0.context(), final(self).0.context()),
            final(self).0.context().focused_buf().lines() == old(self).0.context().focused_buf().lines(),
            final(self).0.context().focused_buf().scroll() == if host_row(row) <= scroll_bound(
                old(self).0.context().focused_buf().lines().len() as int,
                old(self).0.context().windows()[old(self).0.context().focused()].height as int,
            ) {
                host_row(row)
            } else {
                scroll_bound(
                    old(self).0.context().focused_buf().lines().len() as int,
                    old(self).0.context().windows()[old(self).0.context().focused()].height as int,
                )
            },
    {
        let r: usize = if row <= 0 {
            0
        } else if row as u64 <= usize::MAX as u64 {
            row as usize
        } else {
            usize::MAX
        };
        self.0.set_scroll_row(r)
    }

    /// Bind a Normal-mode combo to the script function the host registered
    /// under `token`.
    pub fn keymap_nmap(&mut self, combo: &str, token: u64)
        requires
            old(self).0.wf(),
        ensures
            final(self).0.wf(),
            final(self).0.bindings().binds(Mode::Normal, combo_keys(combo@)),
            final(self).0.bindings().bound_cmd(Mode::Normal, combo_keys(combo@))
                == Command::Invoke(token),
            forall|m2: Mode, ks2: Seq<Key>| !(m2 == Mode::Normal && ks2 == combo_keys(combo@))
                ==> #[trigger] final(self).0.bindings().binds(m2, ks2) == old(self).0.bindings().binds(m2, ks2),
            forall|m2: Mode, ks2: Seq<Key>| !(m2 == Mode::Normal && ks2 == combo_keys(combo@))
                && old(self).0.bindings().binds(m2, ks2) ==> #[trigger] final(self).0.bindings().bound_cmd(m2, ks2) == old(self).0.bindings().bound_cmd(m2, ks2),
    {
        let ks = parse_combo(combo);
        self.0.bind(Mode::Normal, ks, Command::Invoke(token))
    }
}

/// A facade over the binding table alone.
pub struct KeyMapApi(pub crate::bindings::KeyBindingTable);

impl KeyMapApi {
    /// Bind a Normal-mode combo to the script function the host registered
    /// under `token`.
    pub fn nmap(&mut self, combo: &str, token: u64)
        requires
            old(self).0.wf(),
        ensures
            final(self).0.wf(),
            final(self).0.binds(Mode::Normal, combo_keys(combo@)),
            final(self).0.bound_cmd(Mode::Normal, combo_keys(combo@)) == Command::Invoke(token),
            forall|m2: Mode, ks2: Seq<Key>| !(m2 == Mode::Normal && ks2 == combo_keys(combo@))
                ==> #[trigger] final(self).0.binds(m2, ks2) == old(self).0.binds(m2, ks2),
            forall|m2: Mode, ks2: Seq<Key>| !(m2 == Mode::Normal && ks2 == combo_keys(combo@))
                && old(self).0.binds(m2, ks2) ==> #[trigger] final(self).0.bound_cmd(m2, ks2)
                == old(self).0.bound_cmd(m2, ks2),
    {
        let ks = parse_combo(combo);
        self.0.bind(Mode::Normal, ks, Command::Invoke(token))
    }
}

} // verus!
