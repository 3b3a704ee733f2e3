//! The editor's top-level state: buffers, windows, focus, clipboard
//! register, mode and running flag, together with the dispatcher that
//! applies each command as one atomic transition.

use vstd::prelude::*;
use crate::buffer::{clamp_col, scroll_bound, spec_is_blank, TextBuffer};
use crate::command::Command;
use crate::mode::Mode;
use crate::text::split;
use vstd::string::StringExecFns;

verus! {

/// A viewport onto one buffer. Window index `0` is reserved for the
/// command-line pane.
#[derive(Clone, Copy, PartialEq, Eq, Structural, Debug)]
pub struct Window {
    pub buffer: usize,
    pub width: usize,
    pub height: usize,
    pub dirty: bool,
    pub line_numbers: bool,
    pub status_bar: bool,
}

/// What a command asks the world outside the core to do. The core never
/// performs these itself: the driver does, and feeds results back as
/// status messages.
pub enum Action {
    /// Hand an ex-command line (marker stripped) to the external
    /// line-command interpreter.
    RunCommandLine(Vec<char>),
    /// Hand script source to the scripting host's evaluator.
    EvalScript(Vec<char>),
    /// Ask the scripting host to call the function registered under this
    /// token.
    Invoke(u64),
    /// Write `content` to `path`.
    SaveFile { path: String, content: String },
}

/// The window list with window `i` marked dirty.
pub open spec fn marked(ws: Seq<Window>, i: int) -> Seq<Window> {
    ws.update(i, Window { dirty: true, ..ws[i] })
}

/// A register line: free of line breaks.
pub open spec fn line_ok(s: Seq<char>) -> bool {
    forall|k: int| 0 <= k < s.len() ==> #[trigger] s[k] != '\n'
}

/// Every buffer keeps its own invariant.
pub open spec fn buffers_ok(bs: Seq<TextBuffer>) -> bool {
    forall|i: int| 0 <= i < bs.len() ==> (#[trigger] bs[i]).wf()
}

/// Every window shows a real buffer through a viewport of at least one
/// line.
pub open spec fn windows_ok(ws: Seq<Window>, nbufs: int) -> bool {
    forall|i: int| 0 <= i < ws.len() ==> (#[trigger] ws[i]).buffer < nbufs && ws[i].height >= 1
}

/// Replacing one buffer by a well-formed one keeps every buffer well
/// formed.
pub proof fn lemma_buffers_ok_update(bs: Seq<TextBuffer>, b2: TextBuffer, i: int)
    requires
        buffers_ok(bs),
        0 <= i < bs.len(),
        b2.wf(),
    ensures
        buffers_ok(bs.update(i, b2)),
{
    assert forall|j: int| 0 <= j < bs.update(i, b2).len() implies (#[trigger] bs.update(
        i,
        b2,
    )[j]).wf() by {
        if j != i {
            assert(bs.update(i, b2)[j] == bs[j]);
        }
    }
}

/// Marking a window dirty changes no window's buffer reference.
pub proof fn lemma_windows_ok_marked(ws: Seq<Window>, i: int, nbufs: int)
    requires
        windows_ok(ws, nbufs),
        0 <= i < ws.len(),
    ensures
        windows_ok(marked(ws, i), nbufs),
        marked(ws, i).len() == ws.len(),
        forall|j: int| 0 <= j < ws.len() ==> (#[trigger] marked(ws, i)[j]).buffer
            == ws[j].buffer && marked(ws, i)[j].height == ws[j].height,
{
    assert forall|j: int| 0 <= j < ws.len() implies (#[trigger] marked(ws, i)[j]).buffer
        == ws[j].buffer && marked(ws, i)[j].height == ws[j].height by {
        if j != i {
            assert(marked(ws, i)[j] == ws[j]);
        }
    }
}

/// Does `line` start with the script marker `lua`?
pub open spec fn is_script_line(line: Seq<char>) -> bool {
    line.len() >= 3 && line[0] == 'l' && line[1] == 'u' && line[2] == 'a'
}

/// The command line's current text with its leading marker stripped.
pub open spec fn cmdline_text(ctx: EditorContext) -> Seq<char> {
    let raw = ctx.buffers()[0].line_at(ctx.buffers()[0].row());
    if raw.len() > 0 {
        raw.drop_first()
    } else {
        raw
    }
}

/// `i` is the first space of `s`.
pub open spec fn first_space_at(s: Seq<char>, i: int) -> bool {
    0 <= i < s.len() && s[i] == ' ' && forall|j: int| 0 <= j < i ==> s[j] != ' '
}

/// `n` space characters.
pub open spec fn blanks(n: int) -> Seq<char> {
    Seq::new(n as nat, |i: int| ' ')
}

/// Saturating addition within `usize`.
pub open spec fn sat_add(a: int, b: int) -> int {
    if a + b <= usize::MAX {
        a + b
    } else {
        usize::MAX as int
    }
}

/// The buffer names joined for display, one per line; the command-line
/// pane's backing buffer (index 0) is not listed.
pub open spec fn spec_listing(bufs: Seq<TextBuffer>, n: int) -> Seq<char>
    decreases n,
{
    if n <= 1 {
        Seq::<char>::empty()
    } else {
        spec_listing(bufs, n - 1) + bufs[n - 1].path() + seq!['\n']
    }
}

/// Everything outside the focused buffer is unchanged, except that the
/// focused window is marked dirty.
pub open spec fn chrome_same(a: EditorContext, b: EditorContext) -> bool {
    &&& b.windows() == marked(a.windows(), a.focused())
    &&& b.focused() == a.focused()
    &&& b.prev_focused() == a.prev_focused()
    &&& b.mode() == a.mode()
    &&& b.running() == a.running()
    &&& b.clipboard() == a.clipboard()
    &&& b.tab_width() == a.tab_width()
    &&& b.status_msg() == a.status_msg()
}

/// The step replaced at most the focused buffer, and marked the focused
/// window dirty.
pub open spec fn focused_buf_step(a: EditorContext, b: EditorContext) -> bool {
    &&& chrome_same(a, b)
    &&& b.buffers() == a.buffers().update(a.fbuf_idx(), b.buffers()[a.fbuf_idx()])
    &&& b.focused_buf() == b.buffers()[a.fbuf_idx()]
    &&& b.focused_buf().path() == a.focused_buf().path()
}

/// Deleting a line and pasting it back reproduces its text: `DeleteLine`
/// captures line `r` of the buffer in the register and removes it, and
/// `Paste` inserts the register as a new line below the cursor, so the
/// pasted line is, character for character, the deleted one.
pub proof fn lemma_delete_paste_round_trip(ls: Seq<Seq<char>>, r: int, r2: int)
    requires
        ls.len() > 1,
        0 <= r < ls.len(),
        0 <= r2 < ls.remove(r).len(),
    ensures
        ls.remove(r).insert(r2 + 1, ls[r])[r2 + 1] == ls[r],
{
    ls.remove(r).insert_ensures(r2 + 1, ls[r]);
}

/// The transition `execute` makes for one command: how the editor state
/// changes and which requests come back, for every command of the closed
/// set. `Editor::handle_key` and `Editor::run_command` promise the same
/// transition for the commands they dispatch.
pub open spec fn execute_spec(
    pre: EditorContext,
    cmd: Command,
    count: int,
    post: EditorContext,
    acts: Seq<Action>,
) -> bool {
    &&& ({
        post.wf()
    })
    &&& ({
        cmd matches Command::CursorDown ==> {
                &&& focused_buf_step(pre, post)
                &&& post.focused_buf().lines() == pre.focused_buf().lines()
                &&& post.focused_buf().row() == if pre.focused_buf().row() + count
                    < pre.focused_buf().lines().len() {
                    pre.focused_buf().row() + count
                } else {
                    pre.focused_buf().lines().len() - 1
                }
                &&& post.focused_buf().col() == clamp_col(
                    pre.focused_buf().sticky(),
                    pre.focused_buf().line_at(post.focused_buf().row()).len() as int,
                )
                &&& post.focused_buf().sticky() == pre.focused_buf().sticky()
                &&& acts.len() == 0
            }
    })
    &&& ({
        cmd matches Command::CursorUp ==> {
                &&& focused_buf_step(pre, post)
                &&& post.focused_buf().lines() == pre.focused_buf().lines()
                &&& post.focused_buf().row() == if pre.focused_buf().row() - count
                    >= 0 {
                    pre.focused_buf().row() - count
                } else {
                    0
                }
                &&& post.focused_buf().col() == clamp_col(
                    pre.focused_buf().sticky(),
                    pre.focused_buf().line_at(post.focused_buf().row()).len() as int,
                )
                &&& post.focused_buf().sticky() == pre.focused_buf().sticky()
                &&& acts.len() == 0
            }
    })
    &&& ({
        cmd matches Command::CursorLeft ==> {
                &&& focused_buf_step(pre, post)
                &&& post.focused_buf().lines() == pre.focused_buf().lines()
                &&& post.focused_buf().row() == pre.focused_buf().row()
                &&& post.focused_buf().col() == if pre.focused_buf().col() - count
                    >= 0 {
                    pre.focused_buf().col() - count
                } else {
                    0
                }
                &&& post.focused_buf().sticky() == post.focused_buf().col()
                &&& acts.len() == 0
            }
    })
    &&& ({
        cmd matches Command::CursorRight ==> {
                &&& focused_buf_step(pre, post)
                &&& post.focused_buf().lines() == pre.focused_buf().lines()
                &&& post.focused_buf().row() == pre.focused_buf().row()
                &&& post.focused_buf().col() == if pre.focused_buf().col() + count
                    <= pre.focused_buf().line_at(pre.focused_buf().row()).len() {
                    pre.focused_buf().col() + count
                } else {
                    pre.focused_buf().line_at(pre.focused_buf().row()).len() as int
                }
                &&& post.focused_buf().sticky() == post.focused_buf().col()
                &&& acts.len() == 0
            }
    })
    &&& ({
        cmd matches Command::ScrollUp ==> {
                &&& focused_buf_step(pre, post)
                &&& post.focused_buf().lines() == pre.focused_buf().lines()
                &&& post.focused_buf().scroll() == if pre.focused_buf().scroll()
                    - count >= 0 {
                    pre.focused_buf().scroll() - count
                } else {
                    0
                }
                &&& acts.len() == 0
            }
    })
    &&& ({
        cmd matches Command::ScrollDown ==> {
                &&& focused_buf_step(pre, post)
                &&& post.focused_buf().lines() == pre.focused_buf().lines()
                &&& post.focused_buf().scroll() == if pre.focused_buf().scroll() + count
                    <= scroll_bound(
                    pre.focused_buf().lines().len() as int,
                    pre.windows()[pre.focused()].height as int,
                ) {
                    pre.focused_buf().scroll() + count
                } else {
                    scroll_bound(
                        pre.focused_buf().lines().len() as int,
                        pre.windows()[pre.focused()].height as int,
                    )
                }
                &&& acts.len() == 0
            }
    })
    &&& ({
        cmd matches Command::Home ==> {
                &&& focused_buf_step(pre, post)
                &&& post.focused_buf().lines() == pre.focused_buf().lines()
                &&& post.focused_buf().row() == pre.focused_buf().row()
                &&& post.focused_buf().col() == 0
                &&& post.focused_buf().sticky() == 0
                &&& acts.len() == 0
            }
    })
    &&& ({
        cmd matches Command::End ==> {
                &&& focused_buf_step(pre, post)
                &&& post.focused_buf().lines() == pre.focused_buf().lines()
                &&& post.focused_buf().row() == pre.focused_buf().row()
                &&& post.focused_buf().col() == pre.focused_buf().line_at(
                    pre.focused_buf().row(),
                ).len()
                &&& post.focused_buf().sticky() == post.focused_buf().col()
                &&& acts.len() == 0
            }
    })
    &&& ({
        cmd matches Command::JumpToFirstLineBuffer ==> {
                &&& focused_buf_step(pre, post)
                &&& post.focused_buf().lines() == pre.focused_buf().lines()
                &&& post.focused_buf().row() == 0
                &&& post.focused_buf().col() == clamp_col(
                    pre.focused_buf().sticky(),
                    pre.focused_buf().line_at(0).len() as int,
                )
                &&& acts.len() == 0
            }
    })
    &&& ({
        cmd matches Command::JumpToLastLineBuffer ==> {
                &&& focused_buf_step(pre, post)
                &&& post.focused_buf().lines() == pre.focused_buf().lines()
                &&& post.focused_buf().row() == pre.focused_buf().lines().len() - 1
                &&& post.focused_buf().col() == clamp_col(
                    pre.focused_buf().sticky(),
                    pre.focused_buf().line_at(
                        pre.focused_buf().lines().len() - 1,
                    ).len() as int,
                )
                &&& acts.len() == 0
            }
    })
    &&& ({
        cmd matches Command::FirstCharInLine ==> {
                &&& focused_buf_step(pre, post)
                &&& post.focused_buf().lines() == pre.focused_buf().lines()
                &&& post.focused_buf().row() == pre.focused_buf().row()
                &&& 0 <= post.focused_buf().col() <= pre.focused_buf().line_at(
                    pre.focused_buf().row(),
                ).len()
                &&& (forall|k: int| 0 <= k < post.focused_buf().col() ==> spec_is_blank(
                    #[trigger] pre.focused_buf().line_at(pre.focused_buf().row())[k],
                ))
                &&& (post.focused_buf().col() < pre.focused_buf().line_at(
                    pre.focused_buf().row(),
                ).len() ==> !spec_is_blank(
                    pre.focused_buf().line_at(pre.focused_buf().row())[post.focused_buf().col()],
                ))
                &&& acts.len() == 0
            }
    })
    &&& ({
        cmd matches Command::MoveForwardByWord ==> {
                &&& focused_buf_step(pre, post)
                &&& post.focused_buf().lines() == pre.focused_buf().lines()
                &&& post.focused_buf().row() == pre.focused_buf().row()
                &&& (pre.focused_buf().col() >= pre.focused_buf().line_at(
                    pre.focused_buf().row(),
                ).len() ==> post.focused_buf().col() == pre.focused_buf().col())
                &&& (pre.focused_buf().col() < pre.focused_buf().line_at(
                    pre.focused_buf().row(),
                ).len() ==> pre.focused_buf().col() < post.focused_buf().col()
                    <= pre.focused_buf().line_at(pre.focused_buf().row()).len())
                &&& acts.len() == 0
            }
    })
    &&& ({
        cmd matches Command::MoveBackwardByWord ==> {
                &&& focused_buf_step(pre, post)
                &&& post.focused_buf().lines() == pre.focused_buf().lines()
                &&& post.focused_buf().row() == pre.focused_buf().row()
                &&& (pre.focused_buf().col() == 0 ==> post.focused_buf().col() == 0)
                &&& (pre.focused_buf().col() > 0 ==> 0 <= post.focused_buf().col()
                    < pre.focused_buf().col())
                &&& acts.len() == 0
            }
    })
    &&& ({
        cmd matches Command::Backspace ==> {
                &&& focused_buf_step(pre, post)
                &&& (pre.focused_buf().col() > 0 ==> post.focused_buf().lines()
                    == pre.focused_buf().lines().update(
                    pre.focused_buf().row(),
                    pre.focused_buf().line_at(pre.focused_buf().row()).remove(
                        pre.focused_buf().col() - 1,
                    ),
                ) && post.focused_buf().col() == pre.focused_buf().col() - 1)
                &&& (pre.focused_buf().col() == 0 && pre.focused_buf().row() > 0
                    ==> post.focused_buf().lines() == pre.focused_buf().lines().update(
                    pre.focused_buf().row() - 1,
                    pre.focused_buf().line_at(pre.focused_buf().row() - 1) + pre.focused_buf().line_at(pre.focused_buf().row()),
                ).remove(pre.focused_buf().row()) && post.focused_buf().row() == pre.focused_buf().row() - 1 && post.focused_buf().col() == pre.focused_buf().line_at(pre.focused_buf().row() - 1).len())
                &&& (pre.focused_buf().col() == 0 && pre.focused_buf().row() == 0
                    ==> post.focused_buf().lines() == pre.focused_buf().lines())
                &&& acts.len() == 0
            }
    })
    &&& ({
        cmd matches Command::DeleteChar ==> {
                &&& focused_buf_step(pre, post)
                &&& (pre.focused_buf().col() < pre.focused_buf().line_at(
                    pre.focused_buf().row(),
                ).len() ==> post.focused_buf().lines() == pre.focused_buf().lines().update(
                    pre.focused_buf().row(),
                    pre.focused_buf().line_at(pre.focused_buf().row()).remove(
                        pre.focused_buf().col(),
                    ),
                ))
                &&& (pre.focused_buf().col() == pre.focused_buf().line_at(
                    pre.focused_buf().row(),
                ).len() && pre.focused_buf().row() < pre.focused_buf().lines().len()
                    - 1 ==> post.focused_buf().lines() == pre.focused_buf().lines().update(
                    pre.focused_buf().row(),
                    pre.focused_buf().line_at(pre.focused_buf().row()) + pre.focused_buf().line_at(pre.focused_buf().row() + 1),
                ).remove(pre.focused_buf().row() + 1))
                &&& (pre.focused_buf().col() == pre.focused_buf().line_at(
                    pre.focused_buf().row(),
                ).len() && pre.focused_buf().row() == pre.focused_buf().lines().len()
                    - 1 ==> post.focused_buf().lines() == pre.focused_buf().lines())
                &&& post.focused_buf().row() == pre.focused_buf().row()
                &&& post.focused_buf().col() == pre.focused_buf().col()
                &&& acts.len() == 0
            }
    })
    &&& ({
        cmd matches Command::NewLine ==> {
                &&& focused_buf_step(pre, post)
                &&& post.focused_buf().lines() == pre.focused_buf().lines().update(
                    pre.focused_buf().row(),
                    pre.focused_buf().line_at(pre.focused_buf().row()).take(
                        pre.focused_buf().col(),
                    ),
                ).insert(
                    pre.focused_buf().row() + 1,
                    pre.focused_buf().line_at(pre.focused_buf().row()).skip(
                        pre.focused_buf().col(),
                    ),
                )
                &&& post.focused_buf().row() == pre.focused_buf().row() + 1
                &&& post.focused_buf().col() == 0
                &&& acts.len() == 0
            }
    })
    &&& ({
        cmd matches Command::InsertChar(c) ==> {
                &&& focused_buf_step(pre, post)
                &&& (c != '\n' ==> post.focused_buf().lines() == pre.focused_buf().lines().update(
                    pre.focused_buf().row(),
                    pre.focused_buf().line_at(pre.focused_buf().row()).insert(
                        pre.focused_buf().col(),
                        c,
                    ),
                ) && post.focused_buf().row() == pre.focused_buf().row() && post.focused_buf().col() == pre.focused_buf().col() + 1)
                &&& (c == '\n' ==> post.focused_buf().lines() == pre.focused_buf().lines().update(
                    pre.focused_buf().row(),
                    pre.focused_buf().line_at(pre.focused_buf().row()).take(
                        pre.focused_buf().col(),
                    ),
                ).insert(
                    pre.focused_buf().row() + 1,
                    pre.focused_buf().line_at(pre.focused_buf().row()).skip(
                        pre.focused_buf().col(),
                    ),
                ) && post.focused_buf().row() == pre.focused_buf().row() + 1
                    && post.focused_buf().col() == 0)
                &&& acts.len() == 0
            }
    })
    &&& ({
        cmd matches Command::DeleteLine ==> {
                &&& post.windows() == marked(pre.windows(), pre.focused())
                &&& post.focused() == pre.focused()
                &&& post.mode() == pre.mode()
                &&& post.running() == pre.running()
                &&& post.buffers() == pre.buffers().update(
                    pre.fbuf_idx(),
                    post.focused_buf(),
                )
                &&& post.clipboard() == pre.focused_buf().line_at(
                    pre.focused_buf().row(),
                )
                &&& (pre.focused_buf().lines().len() == 1 ==> post.focused_buf().lines() == seq![Seq::<char>::empty()])
                &&& (pre.focused_buf().lines().len() > 1 ==> post.focused_buf().lines() == pre.focused_buf().lines().remove(
                    pre.focused_buf().row(),
                ) && post.focused_buf().row() == (if pre.focused_buf().row()
                    < post.focused_buf().lines().len() {
                    pre.focused_buf().row()
                } else {
                    post.focused_buf().lines().len() - 1
                }))
                &&& (pre.focused_buf().lines().len() == 1 ==> post.focused_buf().row() == 0 && post.focused_buf().col() == 0)
                &&& acts.len() == 0
            }
    })
    &&& ({
        cmd matches Command::YankLine ==> {
                &&& post.windows() == marked(pre.windows(), pre.focused())
                &&& post.buffers() == pre.buffers()
                &&& post.focused() == pre.focused()
                &&& post.mode() == pre.mode()
                &&& post.running() == pre.running()
                &&& post.clipboard() == pre.focused_buf().line_at(
                    pre.focused_buf().row(),
                )
                &&& acts.len() == 0
            }
    })
    &&& ({
        cmd matches Command::Paste ==> {
                &&& focused_buf_step(pre, post)
                &&& post.focused_buf().lines() == pre.focused_buf().lines().insert(
                    pre.focused_buf().row() + 1,
                    pre.clipboard(),
                )
                &&& post.focused_buf().row() == pre.focused_buf().row() + 1
                &&& post.focused_buf().line_at(post.focused_buf().row()) == pre.clipboard()
                &&& post.focused_buf().col() == clamp_col(
                    pre.focused_buf().sticky(),
                    pre.clipboard().len() as int,
                )
                &&& acts.len() == 0
            }
    })
    &&& ({
        cmd matches Command::PasteBack ==> {
                &&& focused_buf_step(pre, post)
                &&& post.focused_buf().lines() == pre.focused_buf().lines().insert(
                    pre.focused_buf().row() + 1,
                    pre.clipboard(),
                )
                &&& post.focused_buf().row() == pre.focused_buf().row()
                &&& post.focused_buf().col() == pre.focused_buf().col()
                &&& acts.len() == 0
            }
    })
    &&& ({
        cmd matches Command::ChangeMode(m) ==> {
                &&& post.mode() == m
                &&& post.buffers() == pre.buffers()
                &&& post.windows() == marked(pre.windows(), pre.focused())
                &&& post.focused() == pre.focused()
                &&& post.running() == pre.running()
                &&& post.clipboard() == pre.clipboard()
                &&& acts.len() == 0
            }
    })
    &&& ({
        cmd matches Command::EnterCommandMode ==> {
                &&& post.mode() == Mode::CommandLine
                &&& post.focused() == 0
                &&& post.prev_focused() == pre.focused()
                &&& post.buffers().len() == pre.buffers().len()
                &&& post.buffers() == pre.buffers().update(
                    0,
                    post.buffers()[0],
                )
                &&& post.buffers()[0].lines() == seq![seq![':']]
                &&& post.buffers()[0].row() == 0
                &&& post.buffers()[0].col() == 1
                &&& post.running() == pre.running()
                &&& post.clipboard() == pre.clipboard()
                &&& acts.len() == 0
            }
    })
    &&& ({
        cmd matches Command::ExitCommandMode ==> {
                &&& (pre.focused() == 0 ==> post.mode() == Mode::Normal && post.focused()
                    == pre.prev_focused() && post.windows() == marked(
                    pre.windows(),
                    pre.prev_focused(),
                ) && post.prev_focused() == pre.prev_focused())
                &&& (pre.focused() != 0 ==> post == pre)
                &&& post.buffers() == pre.buffers()
                &&& post.running() == pre.running()
                &&& post.clipboard() == pre.clipboard()
                &&& post.status_msg() == pre.status_msg()
                &&& post.tab_width() == pre.tab_width()
                &&& acts.len() == 0
            }
    })
    &&& ({
        cmd matches Command::NextWindow ==> {
                &&& post.focused() == if pre.windows().len() <= 1 {
                    pre.focused()
                } else if pre.focused() + 1 < pre.windows().len() && pre.focused() != 0 {
                    pre.focused() + 1
                } else {
                    1
                }
                &&& post.buffers() == pre.buffers()
                &&& post.mode() == pre.mode()
                &&& post.running() == pre.running()
                &&& acts.len() == 0
            }
    })
    &&& ({
        cmd matches Command::Print(s) ==> {
                &&& post.status_msg() == Option::Some(s@)
                &&& post.buffers() == pre.buffers()
                &&& post.mode() == pre.mode()
                &&& post.focused() == pre.focused()
                &&& post.running() == pre.running()
                &&& acts.len() == 0
            }
    })
    &&& ({
        cmd matches Command::Save ==> {
                &&& post == pre
                &&& acts.len() == 1
                &&& (acts[0] matches Action::SaveFile { path, content } && path@ == pre.focused_buf().path() && content@ == crate::text::join(
                    pre.focused_buf().lines(),
                ))
            }
    })
    &&& ({
        cmd matches Command::Quit ==> {
                &&& !post.running()
                &&& post.buffers() == pre.buffers()
                &&& post.mode() == pre.mode()
                &&& post.focused() == pre.focused()
                &&& acts.len() == 0
            }
    })
    &&& ({
        cmd matches Command::CloseWindow ==> {
                &&& (pre.focused() == 0 || pre.windows().len() <= 2 ==> post.windows() == pre.windows() && post.focused() == pre.focused()
                    && post.status_msg() matches Option::Some(_))
                &&& (pre.focused() != 0 && pre.windows().len() > 2 ==> post.windows() == marked(pre.windows().remove(pre.focused()), 1) && post.focused() == 1)
                &&& post.buffers() == pre.buffers()
                &&& post.running() == pre.running()
                &&& acts.len() == 0
            }
    })
    &&& ({
        cmd matches Command::Invoke(tok) ==> {
                &&& post == pre
                &&& acts.len() == 1
                &&& acts[0] matches Action::Invoke(t2) && t2 == tok
            }
    })
    &&& ({
        cmd matches Command::JumpListBack ==> post == pre && acts.len()
                == 0
    })
    &&& ({
        cmd matches Command::JumpListForward ==> post == pre && acts.len()
                == 0
    })
    &&& ({
        cmd matches Command::Undo ==> post == pre && acts.len() == 0
    })
    &&& ({
        cmd matches Command::InsertTab ==> {
                &&& focused_buf_step(pre, post)
                &&& post.focused_buf().lines() == pre.focused_buf().lines().update(
                    pre.focused_buf().row(),
                    pre.focused_buf().line_at(pre.focused_buf().row()).take(
                        pre.focused_buf().col(),
                    ) + blanks(sat_add(pre.tab_width(), count)) + pre.focused_buf().line_at(pre.focused_buf().row()).skip(
                        pre.focused_buf().col(),
                    ),
                )
                &&& post.focused_buf().row() == pre.focused_buf().row()
                &&& post.focused_buf().col() == pre.focused_buf().col() + sat_add(
                    pre.tab_width(),
                    count,
                )
                &&& acts.len() == 0
            }
    })
    &&& ({
        cmd matches Command::ExecuteCommandLine ==> {
                &&& post.mode() == pre.mode()
                &&& post.focused() == pre.focused()
                &&& post.buffers() == pre.buffers()
                &&& post.windows() == pre.windows()
                &&& post.running() == pre.running()
                &&& post.clipboard() == pre.clipboard()
                &&& (pre.focused() != 0 ==> acts.len() == 0 && post.status_msg()
                    == pre.status_msg())
                &&& (pre.focused() == 0 && !is_script_line(cmdline_text(pre))
                    ==> acts.len() == 1 && (acts[0] matches Action::RunCommandLine(l) && l@
                    == cmdline_text(pre)) && post.status_msg() == pre.status_msg())
                &&& (pre.focused() == 0 && is_script_line(cmdline_text(pre))
                    ==> (forall|i: int| #[trigger] first_space_at(cmdline_text(pre), i)
                    ==> acts.len() == 1 && (acts[0] matches Action::EvalScript(v) && v@
                    == cmdline_text(pre).skip(i + 1))) && ((forall|i: int| !(
                #[trigger] first_space_at(cmdline_text(pre), i))) ==> acts.len() == 0
                    && (post.status_msg() matches Option::Some(_))))
            }
    })
}

pub struct EditorContext {
    buffers: Vec<TextBuffer>,
    windows: Vec<Window>,
    focused: usize,
    prev_focused: usize,
    clipboard: Vec<char>,
    running: bool,
    mode: Mode,
    tab_width: usize,
    status: Option<String>,
}

impl EditorContext {
    pub closed spec fn buffers(self) -> Seq<TextBuffer> {
        self.buffers@
    }

    pub closed spec fn windows(self) -> Seq<Window> {
        self.windows@
    }

    pub closed spec fn focused(self) -> int {
        self.focused as int
    }

    pub closed spec fn prev_focused(self) -> int {
        self.prev_focused as int
    }

    pub closed spec fn clipboard(self) -> Seq<char> {
        self.clipboard@
    }

    pub closed spec fn running(self) -> bool {
        self.running
    }

    pub closed spec fn mode(self) -> Mode {
        self.mode
    }

    pub closed spec fn tab_width(self) -> int {
        self.tab_width as int
    }

    pub closed spec fn status_msg(self) -> Option<Seq<char>> {
        match self.status {
            Option::Some(s) => Option::Some(s@),
            Option::None => Option::None,
        }
    }

    /// The buffer index the focused window shows.
    pub open spec fn fbuf_idx(self) -> int {
        self.windows()[self.focused()].buffer as int
    }

    /// The focused window's buffer.
    pub open spec fn focused_buf(self) -> TextBuffer {
        self.buffers()[self.fbuf_idx()]
    }

    /// The whole-context invariant: at least the command-line pane and one
    /// buffer exist, focus indices are valid, every window shows a real
    /// buffer, every buffer keeps its own invariant, window `0` shows
    /// buffer `0`, and the register holds a single break-free line.
    pub open spec fn wf(self) -> bool {
        &&& 1 <= self.windows().len()
        &&& 1 <= self.buffers().len()
        &&& 0 <= self.focused() < self.windows().len()
        &&& 0 <= self.prev_focused() < self.windows().len()
        &&& windows_ok(self.windows(), self.buffers().len() as int)
        &&& buffers_ok(self.buffers())
        &&& self.windows()[0].buffer == 0
        &&& line_ok(self.clipboard())
    }

    /// A fresh context: the command-line pane (window 0 on buffer 0) plus
    /// one focused window showing a buffer with the given content.
    pub fn new(main_name: String, main_text: &str, width: usize, height: usize) -> (ctx:
        EditorContext)
        ensures
            ctx.wf(),
            ctx.mode() == Mode::Normal,
            ctx.running(),
            ctx.focused() == 1,
            ctx.buffers().len() == 2,
            ctx.windows().len() == 2,
            ctx.focused_buf().lines() == split(main_text@),
            ctx.focused_buf().path() == main_name@,
            ctx.clipboard() == Seq::<char>::empty(),
            ctx.status_msg() matches Option::None,
            ctx.tab_width() == 4,
    {
        let cmd_buf = TextBuffer::empty(String::new());
        let main_buf = TextBuffer::from_text(main_name, main_text);
        let mut buffers: Vec<TextBuffer> = Vec::new();
        buffers.push(cmd_buf);
        buffers.push(main_buf);
        let cmd_win = Window {
            buffer: 0,
            width,
            height: 1,
            dirty: true,
            line_numbers: false,
            status_bar: false,
        };
        let main_win = Window {
            buffer: 1,
            width,
            height: if height == 0 {
                1
            } else {
                height
            },
            dirty: true,
            line_numbers: true,
            status_bar: true,
        };
        let mut windows: Vec<Window> = Vec::new();
        windows.push(cmd_win);
        windows.push(main_win);
        EditorContext {
            buffers,
            windows,
            focused: 1,
            prev_focused: 1,
            clipboard: Vec::new(),
            running: true,
            mode: Mode::Normal,
            tab_width: 4,
            status: Option::None,
        }
    }

    pub fn get_mode(&self) -> (m: Mode)
        ensures
            m == self.mode(),
    {
        self.mode
    }

    pub fn is_running(&self) -> (b: bool)
        ensures
            b == self.running(),
    {
        self.running
    }

    pub fn get_focused(&self) -> (i: usize)
        ensures
            i == self.focused(),
    {
        self.focused
    }

    pub fn window_count(&self) -> (n: usize)
        ensures
            n == self.windows().len(),
    {
        self.windows.len()
    }

    pub fn buffer_count(&self) -> (n: usize)
        ensures
            n == self.buffers().len(),
    {
        self.buffers.len()
    }

    pub fn window_at(&self, i: usize) -> (w: Window)
        requires
            i < self.windows().len(),
        ensures
            w == self.windows()[i as int],
    {
        self.windows[i]
    }

    pub fn buffer_at(&self, i: usize) -> (b: &TextBuffer)
        requires
            i < self.buffers().len(),
        ensures
            *b == self.buffers()[i as int],
    {
        &self.buffers[i]
    }

    pub fn focused_buffer(&self) -> (b: &TextBuffer)
        requires
            self.wf(),
        ensures
            *b == self.focused_buf(),
    {
        let wi = self.focused;
        let bi = self.windows[wi].buffer;
        &self.buffers[bi]
    }

    pub fn clipboard_ref(&self) -> (c: &Vec<char>)
        ensures
            c@ == self.clipboard(),
    {
        &self.clipboard
    }

    pub fn status_ref(&self) -> (s: &Option<String>)
        ensures
            match *s {
                Option::Some(ref m) => self.status_msg() == Option::Some(m@),
                Option::None => self.status_msg() matches Option::None,
            },
    {
        &self.status
    }

    /// The focused window's buffer index, in bounds.
    pub fn focused_buffer_index(&self) -> (bi: usize)
        requires
            self.wf(),
        ensures
            bi == self.fbuf_idx(),
            bi < self.buffers().len(),
    {
        proof {
            assert(self.windows()[self.focused()].buffer < self.buffers().len());
        }
        self.windows[self.focused].buffer
    }

    /// Mark the focused window dirty, leaving everything else untouched.
    fn mark_focused_dirty(&mut self)
        requires
            old(self).wf(),
        ensures
            final(self).wf(),
            final(self).windows() == marked(old(self).windows(), old(self).focused()),
            final(self).buffers() == old(self).buffers(),
            final(self).focused() == old(self).focused(),
            final(self).prev_focused() == old(self).prev_focused(),
            final(self).mode() == old(self).mode(),
            final(self).running() == old(self).running(),
            final(self).clipboard() == old(self).clipboard(),
            final(self).tab_width() == old(self).tab_width(),
            final(self).status_msg() == old(self).status_msg(),
            final(self).fbuf_idx() == old(self).fbuf_idx(),
    {
        proof {
            lemma_windows_ok_marked(
                self.windows(),
                self.focused(),
                self.buffers().len() as int,
            );
        }
        let i = self.focused;
        let w = &mut self.windows[i];
        w.dirty = true;
        proof {
            assert(self.windows() =~= marked(old(self).windows(), old(self).focused()));
        }
    }

    /// Append a buffer holding `text` to the buffer list, as loading one
    /// more file does; windows and focus stay as they are. Returns the new
    /// buffer's index.
    pub fn add_buffer(&mut self, name: String, text: &str) -> (i: usize)
        requires
            old(self).wf(),
        ensures
            final(self).wf(),
            i == old(self).buffers().len(),
            final(self).buffers() == old(self).buffers().push(final(self).buffers()[i as int]),
            final(self).buffers()[i as int].lines() == split(text@),
            final(self).buffers()[i as int].path() == name@,
            final(self).windows() == old(self).windows(),
            final(self).focused() == old(self).focused(),
            final(self).prev_focused() == old(self).prev_focused(),
            final(self).mode() == old(self).mode(),
            final(self).running() == old(self).running(),
            final(self).clipboard() == old(self).clipboard(),
            final(self).status_msg() == old(self).status_msg(),
            final(self).tab_width() == old(self).tab_width(),
    {
        let i = self.buffers.len();
        let b = TextBuffer::from_text(name, text);
        self.buffers.push(b);
        proof {
            let bs = self.buffers();
            assert(bs =~= old(self).buffers().push(bs[i as int]));
            assert forall|j: int| 0 <= j < bs.len() implies (#[trigger] bs[j]).wf() by {
                if j < i {
                    assert(bs[j] == old(self).buffers()[j]);
                }
            }
            assert forall|j: int| 0 <= j < self.windows().len() implies (
            #[trigger] self.windows()[j]).buffer < bs.len() && self.windows()[j].height
                >= 1 by {
                assert(self.windows()[j].buffer < old(self).buffers().len());
            }
        }
        i
    }

    /// Open a new window onto buffer `buffer_idx` and focus it. A zero
    /// height is raised to one line. Returns the new window's index.
    pub fn add_window(&mut self, buffer_idx: usize, width: usize, height: usize) -> (i: usize)
        requires
            old(self).wf(),
            buffer_idx < old(self).buffers().len(),
        ensures
            final(self).wf(),
            i == old(self).windows().len(),
            final(self).windows() == old(self).windows().push(
                Window {
                    buffer: buffer_idx,
                    width,
                    height: if height == 0 {
                        1
                    } else {
                        height as int
                    } as usize,
                    dirty: true,
                    line_numbers: true,
                    status_bar: true,
                },
            ),
            final(self).focused() == i,
            final(self).prev_focused() == old(self).focused(),
            final(self).buffers() == old(self).buffers(),
            final(self).mode() == old(self).mode(),
            final(self).running() == old(self).running(),
            final(self).clipboard() == old(self).clipboard(),
            final(self).status_msg() == old(self).status_msg(),
            final(self).tab_width() == old(self).tab_width(),
    {
        let i = self.windows.len();
        let h = if height == 0 {
            1
        } else {
            height
        };
        let w = Window {
            buffer: buffer_idx,
            width,
            height: h,
            dirty: true,
            line_numbers: true,
            status_bar: true,
        };
        self.windows.push(w);
        self.prev_focused = self.focused;
        self.focused = i;
        proof {
            let ws = self.windows();
            assert forall|j: int| 0 <= j < ws.len() implies (#[trigger] ws[j]).buffer
                < self.buffers().len() && ws[j].height >= 1 by {
                if j < i {
                    assert(ws[j] == old(self).windows()[j]);
                }
            }
            assert(ws[0] == old(self).windows()[0]);
        }
        i
    }

    /// The focused cursor's position on screen: its column, and its row
    /// relative to the scroll window's top (zero, defensively, if the
    /// cursor sits above the window).
    pub fn screen_cursor(&self) -> (p: (usize, usize))
        requires
            self.wf(),
        ensures
            p.0 == self.focused_buf().col(),
            p.1 == if self.focused_buf().row() >= self.focused_buf().scroll() {
                self.focused_buf().row() - self.focused_buf().scroll()
            } else {
                0
            },
    {
        let b = self.focused_buffer();
        let row = b.get_row();
        let scroll = b.get_scroll();
        let y = if row >= scroll {
            row - scroll
        } else {
            0
        };
        (b.get_col(), y)
    }

    /// The save request for the focused buffer aimed at `path` instead of
    /// the buffer's stored path.
    pub fn save_as(&self, path: String) -> (act: Action)
        requires
            self.wf(),
        ensures
            act matches Action::SaveFile { path: p, content: c } && p@ == path@ && c@
                == crate::text::join(self.focused_buf().lines()),
    {
        let bi = self.focused_buffer_index();
        let b = &self.buffers[bi];
        proof {
            assert(self.buffers()[bi as int].wf());
        }
        let content = b.content_string();
        Action::SaveFile { path, content }
    }

    /// Clear the dirty flag of window `i`, for the renderer once it has
    /// drawn it.
    pub fn clear_dirty(&mut self, i: usize)
        requires
            old(self).wf(),
            i < old(self).windows().len(),
        ensures
            final(self).wf(),
            final(self).windows() == old(self).windows().update(
                i as int,
                Window { dirty: false, ..old(self).windows()[i as int] },
            ),
            final(self).buffers() == old(self).buffers(),
            final(self).focused() == old(self).focused(),
            final(self).mode() == old(self).mode(),
    {
        let w = &mut self.windows[i];
        w.dirty = false;
        proof {
            assert(self.windows()[i as int].buffer == old(self).windows()[i as int].buffer);
            assert(self.windows()[i as int].height == old(self).windows()[i as int].height);
            assert(forall|j: int| 0 <= j < self.windows().len() && j != i
                ==> self.windows()[j] == old(self).windows()[j]);
            assert(self.clipboard() == old(self).clipboard());
            assert(forall|k: int| 0 <= k < self.clipboard().len() ==> #[trigger] self.clipboard()[k] == old(self).clipboard()[k]);
        }
    }

    /// Apply one command to the editor state as a single atomic transition,
    /// returning the requests the outside world must carry out. `count` is
    /// the chord's resolved repeat count.
    #[verifier::rlimit(100)]
    pub fn execute(&mut self, cmd: &Command, count: usize) -> (acts: Vec<Action>)
        requires
            old(self).wf(),
        ensures
            final(self).wf(),
            execute_spec(*old(self), *cmd, count as int, *final(self), acts@),
    {
        match cmd {
            Command::CursorDown => {
                self.mark_focused_dirty();
                let bi = self.focused_buffer_index();
                let ghost bufs0 = self.buffers();
                let b = &mut self.buffers[bi];
                proof {
                    assert(bufs0[bi as int].wf());
                }
                b.move_down(count);
                proof {
                    lemma_buffers_ok_update(bufs0, self.buffers()[bi as int], bi as int);
                }
                Vec::new()
            },
            Command::CursorUp => {
                self.mark_focused_dirty();
                let bi = self.focused_buffer_index();
                let ghost bufs0 = self.buffers();
                let b = &mut self.buffers[bi];
                proof {
                    assert(bufs0[bi as int].wf());
                }
                b.move_up(count);
                proof {
                    lemma_buffers_ok_update(bufs0, self.buffers()[bi as int], bi as int);
                }
                Vec::new()
            },
            Command::CursorLeft => {
                self.mark_focused_dirty();
                let bi = self.focused_buffer_index();
                let ghost bufs0 = self.buffers();
                let b = &mut self.buffers[bi];
                proof {
                    assert(bufs0[bi as int].wf());
                }
                b.move_left(count);
                proof {
                    lemma_buffers_ok_update(bufs0, self.buffers()[bi as int], bi as int);
                }
                Vec::new()
            },
            Command::CursorRight => {
                self.mark_focused_dirty();
                let bi = self.focused_buffer_index();
                let ghost bufs0 = self.buffers();
                let b = &mut self.buffers[bi];
                proof {
                    assert(bufs0[bi as int].wf());
                }
                b.move_right(count);
                proof {
                    lemma_buffers_ok_update(bufs0, self.buffers()[bi as int], bi as int);
                }
                Vec::new()
            },
            Command::ScrollUp => {
                self.mark_focused_dirty();
                let bi = self.focused_buffer_index();
                let ghost bufs0 = self.buffers();
                let b = &mut self.buffers[bi];
                proof {
                    assert(bufs0[bi as int].wf());
                }
                b.scroll_up(count);
                proof {
                    lemma_buffers_ok_update(bufs0, self.buffers()[bi as int], bi as int);
                }
                Vec::new()
            },
            Command::ScrollDown => {
                proof {
                    assert(self.windows()[self.focused()].height >= 1);
                }
                let h = self.windows[self.focused].height;
                self.mark_focused_dirty();
                let bi = self.focused_buffer_index();
                let ghost bufs0 = self.buffers();
                let b = &mut self.buffers[bi];
                proof {
                    assert(bufs0[bi as int].wf());
                }
                b.scroll_down(count, h);
                proof {
                    lemma_buffers_ok_update(bufs0, self.buffers()[bi as int], bi as int);
                }
                Vec::new()
            },
            Command::Home => {
                self.mark_focused_dirty();
                let bi = self.focused_buffer_index();
                let ghost bufs0 = self.buffers();
                let b = &mut self.buffers[bi];
                proof {
                    assert(bufs0[bi as int].wf());
                }
                b.home();
                proof {
                    lemma_buffers_ok_update(bufs0, self.buffers()[bi as int], bi as int);
                }
                Vec::new()
            },
            Command::End => {
                self.mark_focused_dirty();
                let bi = self.focused_buffer_index();
                let ghost bufs0 = self.buffers();
                let b = &mut self.buffers[bi];
                proof {
                    assert(bufs0[bi as int].wf());
                }
                b.end_of_line();
                proof {
                    lemma_buffers_ok_update(bufs0, self.buffers()[bi as int], bi as int);
                }
                Vec::new()
            },
            Command::JumpToFirstLineBuffer => {
                self.mark_focused_dirty();
                let bi = self.focused_buffer_index();
                let ghost bufs0 = self.buffers();
                let b = &mut self.buffers[bi];
                proof {
                    assert(bufs0[bi as int].wf());
                }
                b.jump_first_line();
                proof {
                    lemma_buffers_ok_update(bufs0, self.buffers()[bi as int], bi as int);
                }
                Vec::new()
            },
            Command::JumpToLastLineBuffer => {
                self.mark_focused_dirty();
                let bi = self.focused_buffer_index();
                let ghost bufs0 = self.buffers();
                let b = &mut self.buffers[bi];
                proof {
                    assert(bufs0[bi as int].wf());
                }
                b.jump_last_line();
                proof {
                    lemma_buffers_ok_update(bufs0, self.buffers()[bi as int], bi as int);
                }
                Vec::new()
            },
            Command::FirstCharInLine => {
                self.mark_focused_dirty();
                let bi = self.focused_buffer_index();
                let ghost bufs0 = self.buffers();
                let b = &mut self.buffers[bi];
                proof {
                    assert(bufs0[bi as int].wf());
                }
                b.first_char_in_line();
                proof {
                    lemma_buffers_ok_update(bufs0, self.buffers()[bi as int], bi as int);
                }
                Vec::new()
            },
            Command::MoveForwardByWord => {
                self.mark_focused_dirty();
                let bi = self.focused_buffer_index();
                let ghost bufs0 = self.buffers();
                let b = &mut self.buffers[bi];
                proof {
                    assert(bufs0[bi as int].wf());
                }
                b.move_forward_by_word();
                proof {
                    lemma_buffers_ok_update(bufs0, self.buffers()[bi as int], bi as int);
                }
                Vec::new()
            },
            Command::MoveBackwardByWord => {
                self.mark_focused_dirty();
                let bi = self.focused_buffer_index();
                let ghost bufs0 = self.buffers();
                let b = &mut self.buffers[bi];
                proof {
                    assert(bufs0[bi as int].wf());
                }
                b.move_backward_by_word();
                proof {
                    lemma_buffers_ok_update(bufs0, self.buffers()[bi as int], bi as int);
                }
                Vec::new()
            },
            Command::Backspace => {
                self.mark_focused_dirty();
                let bi = self.focused_buffer_index();
                let ghost bufs0 = self.buffers();
                let b = &mut self.buffers[bi];
                proof {
                    assert(bufs0[bi as int].wf());
                }
                b.backspace();
                proof {
                    lemma_buffers_ok_update(bufs0, self.buffers()[bi as int], bi as int);
                }
                Vec::new()
            },
            Command::DeleteChar => {
                self.mark_focused_dirty();
                let bi = self.focused_buffer_index();
                let ghost bufs0 = self.buffers();
                let b = &mut self.buffers[bi];
                proof {
                    assert(bufs0[bi as int].wf());
                }
                b.delete_char();
                proof {
                    lemma_buffers_ok_update(bufs0, self.buffers()[bi as int], bi as int);
                }
                Vec::new()
            },
            Command::NewLine => {
                self.mark_focused_dirty();
                let bi = self.focused_buffer_index();
                let ghost bufs0 = self.buffers();
                let b = &mut self.buffers[bi];
                proof {
                    assert(bufs0[bi as int].wf());
                }
                b.newline();
                proof {
                    lemma_buffers_ok_update(bufs0, self.buffers()[bi as int], bi as int);
                }
                Vec::new()
            },
            Command::InsertChar(c) => {
                self.mark_focused_dirty();
                let bi = self.focused_buffer_index();
                let ghost bufs0 = self.buffers();
                let b = &mut self.buffers[bi];
                proof {
                    assert(bufs0[bi as int].wf());
                }
                if *c == '\n' {
                    b.newline();
                } else {
                    b.insert_char(*c);
                }
                proof {
                    lemma_buffers_ok_update(bufs0, self.buffers()[bi as int], bi as int);
                }
                Vec::new()
            },
            Command::DeleteLine => {
                self.mark_focused_dirty();
                let bi = self.focused_buffer_index();
                let ghost bufs0 = self.buffers();
                let row = {
                    let b = &self.buffers[bi];
                    proof {
                        assert(bufs0[bi as int].wf());
                    }
                    b.get_row()
                };
                let removed = {
                    let b = &mut self.buffers[bi];
                    proof {
                        b.lemma_wf_bounds();
                    }
                    b.delete_line(row)
                };
                proof {
                    lemma_buffers_ok_update(bufs0, self.buffers()[bi as int], bi as int);
                    bufs0[bi as int].lemma_lines_ok();
                    assert forall|k: int| 0 <= k < removed@.len() implies #[trigger] removed@[k]
                        != '\n' by {
                        let line = bufs0[bi as int].line_at(bufs0[bi as int].row());
                        if line[k] == '\n' {
                            assert(line.contains('\n'));
                        }
                    }
                }
                self.clipboard = removed;
                Vec::new()
            },
            Command::YankLine => {
                self.mark_focused_dirty();
                let bi = self.focused_buffer_index();
                let ghost bufs0 = self.buffers();
                let yanked = {
                    let b = &self.buffers[bi];
                    proof {
                        assert(bufs0[bi as int].wf());
                        b.lemma_wf_bounds();
                    }
                    let row = b.get_row();
                    b.line_chars(row)
                };
                proof {
                    bufs0[bi as int].lemma_lines_ok();
                    assert forall|k: int| 0 <= k < yanked@.len() implies #[trigger] yanked@[k]
                        != '\n' by {
                        let line = bufs0[bi as int].line_at(bufs0[bi as int].row());
                        if line[k] == '\n' {
                            assert(line.contains('\n'));
                        }
                    }
                }
                self.clipboard = yanked;
                Vec::new()
            },
            Command::Paste => {
                self.mark_focused_dirty();
                let bi = self.focused_buffer_index();
                let ghost bufs0 = self.buffers();
                let b = &mut self.buffers[bi];
                proof {
                    assert(bufs0[bi as int].wf());
                    b.lemma_wf_bounds();
                }
                let nl = b.line_count();
                let row = b.get_row();
                b.insert_line(row + 1, &self.clipboard);
                b.move_down(1);
                proof {
                    lemma_buffers_ok_update(bufs0, self.buffers()[bi as int], bi as int);
                    bufs0[bi as int].lines().insert_ensures(row + 1, old(self).clipboard());
                }
                Vec::new()
            },
            Command::PasteBack => {
                self.mark_focused_dirty();
                let bi = self.focused_buffer_index();
                let ghost bufs0 = self.buffers();
                let b = &mut self.buffers[bi];
                proof {
                    assert(bufs0[bi as int].wf());
                    b.lemma_wf_bounds();
                }
                let nl = b.line_count();
                let row = b.get_row();
                b.insert_line(row + 1, &self.clipboard);
                proof {
                    lemma_buffers_ok_update(bufs0, self.buffers()[bi as int], bi as int);
                    bufs0[bi as int].lines().insert_ensures(row + 1, old(self).clipboard());
                }
                Vec::new()
            },
            Command::ChangeMode(m) => {
                self.mark_focused_dirty();
                self.mode = *m;
                Vec::new()
            },
            Command::EnterCommandMode => {
                self.prev_focused = self.focused;
                self.focused = 0;
                self.mode = Mode::CommandLine;
                let ghost bufs0 = self.buffers();
                {
                    let b = &mut self.buffers[0];
                    *b = TextBuffer::from_text(String::new(), ":");
                    b.end_of_line();
                }
                proof {
                    reveal_strlit(":");
                    let t = ":"@;
                    assert(t.len() == 1 && t[0] == ':');
                    assert(t.drop_first().len() == 0);
                    assert(split(t.drop_first()) == seq![Seq::<char>::empty()]);
                    assert(split(t) == seq![seq![t[0]] + split(t.drop_first())[0]] + split(
                        t.drop_first(),
                    ).drop_first());
                    assert(seq![t[0]] + Seq::<char>::empty() =~= seq![':']);
                    assert(split(t.drop_first()).drop_first() =~= Seq::<Seq<char>>::empty());
                    assert(split(t) =~~= seq![seq![':']]);
                    assert(self.buffers()[0].lines() =~~= seq![seq![':']]);
                    lemma_buffers_ok_update(bufs0, self.buffers()[0], 0);
                }
                self.mark_focused_dirty();
                Vec::new()
            },
            Command::ExitCommandMode => {
                if self.focused == 0 {
                    self.focused = self.prev_focused;
                    self.mode = Mode::Normal;
                    self.mark_focused_dirty();
                }
                Vec::new()
            },
            Command::NextWindow => {
                let n = self.windows.len();
                if n > 1 {
                    let f = self.focused;
                    self.focused = if f + 1 < n && f != 0 {
                        f + 1
                    } else {
                        1
                    };
                    self.mark_focused_dirty();
                }
                Vec::new()
            },
            Command::Print(s) => {
                self.mark_focused_dirty();
                self.status = Some(s.clone());
                Vec::new()
            },
            Command::Save => {
                let bi = self.focused_buffer_index();
                let b = &self.buffers[bi];
                proof {
                    assert(self.buffers()[bi as int].wf());
                }
                let path = b.get_name().clone();
                let content = b.content_string();
                let mut acts: Vec<Action> = Vec::new();
                acts.push(Action::SaveFile { path, content });
                acts
            },
            Command::Quit => {
                self.running = false;
                Vec::new()
            },
            Command::CloseWindow => {
                let n = self.windows.len();
                if self.focused == 0 || n <= 2 {
                    self.status = Some(String::from_str("cannot close the last window"));
                    Vec::new()
                } else {
                    let f = self.focused;
                    self.windows.remove(f);
                    self.focused = 1;
                    self.prev_focused = 1;
                    proof {
                        assert forall|j: int| 0 <= j < self.windows().len() implies (
                        #[trigger] self.windows()[j]).buffer < self.buffers().len() by {
                            if j < f {
                                assert(self.windows()[j] == old(self).windows()[j]);
                            } else {
                                assert(self.windows()[j] == old(self).windows()[j + 1]);
                            }
                        }
                        assert(self.windows()[0] == old(self).windows()[0]);
                    }
                    self.mark_focused_dirty();
                    Vec::new()
                }
            },
            Command::ListBuffers => {
                self.mark_focused_dirty();
                let n = self.buffers.len();
                let mut s = String::new();
                let mut i: usize = 1;
                while i < n
                    invariant
                        self.wf(),
                        n == self.buffers().len(),
                        1 <= i,
                        i <= n || i == 1,
                        s@ == spec_listing(self.buffers(), i as int),
                    decreases n - i,
                {
                    proof {
                        assert(self.buffers()[i as int].wf());
                    }
                    let name = self.buffers[i].get_name();
                    s.append(name.as_str());
                    s.append("\n");
                    proof {
                        reveal_strlit("\n");
                        assert(s@ =~= spec_listing(self.buffers(), i + 1));
                    }
                    i = i + 1;
                }
                self.status = Some(s);
                Vec::new()
            },
            Command::Invoke(tok) => {
                let mut acts: Vec<Action> = Vec::new();
                acts.push(Action::Invoke(*tok));
                acts
            },
            Command::ExecuteCommandLine => {
                if self.focused != 0 {
                    return Vec::new();
                }
                let ghost bufs0 = self.buffers();
                let (row, mut line) = {
                    let b = &self.buffers[0];
                    proof {
                        assert(self.buffers()[0].wf());
                        b.lemma_wf_bounds();
                    }
                    let r = b.get_row();
                    (r, b.line_chars(r))
                };
                if line.len() > 0 {
                    line.remove(0);
                    proof {
                        let raw = bufs0[0].line_at(bufs0[0].row());
                        assert(line@ =~= raw.drop_first());
                    }
                }
                proof {
                    assert(line@ == cmdline_text(*old(self)));
                }
                let is_script = line.len() >= 3 && line[0] == 'l' && line[1] == 'u' && line[2]
                    == 'a';
                if is_script {
                    let m = line.len();
                    let mut sp: usize = 0;
                    let mut found = false;
                    while sp < m
                        invariant_except_break
                            m == line@.len(),
                            sp <= m,
                            !found,
                            forall|j: int| 0 <= j < sp ==> line@[j] != ' ',
                        ensures
                            sp <= m,
                            forall|j: int| 0 <= j < sp ==> line@[j] != ' ',
                            found ==> sp < m && line@[sp as int] == ' ',
                            !found ==> sp == m,
                        decreases m - sp,
                    {
                        if line[sp] == ' ' {
                            found = true;
                            break ;
                        }
                        sp = sp + 1;
                    }
                    if found {
                        proof {
                            assert(first_space_at(line@, sp as int));
                            assert forall|i: int| #[trigger] first_space_at(line@, i) implies i
                                == sp by {
                                if i < sp {
                                    assert(line@[i] != ' ');
                                } else if i > sp {
                                    assert(line@[sp as int] != ' ');
                                }
                            }
                        }
                        let mut rest: Vec<char> = Vec::new();
                        let mut k: usize = sp + 1;
                        while k < m
                            invariant
                                m == line@.len(),
                                sp + 1 <= k <= m,
                                rest@ == line@.subrange(sp + 1, k as int),
                            decreases m - k,
                        {
                            rest.push(line[k]);
                            proof {
                                assert(rest@ =~= line@.subrange(sp + 1, k + 1));
                            }
                            k = k + 1;
                        }
                        proof {
                            assert(rest@ =~= line@.skip(sp + 1));
                        }
                        let mut acts: Vec<Action> = Vec::new();
                        acts.push(Action::EvalScript(rest));
                        acts
                    } else {
                        proof {
                            assert forall|i: int| !(#[trigger] first_space_at(line@, i)) by {
                                if 0 <= i < line@.len() {
                                    assert(line@[i] != ' ');
                                }
                            }
                        }
                        self.status = Some(
                            String::from_str("lua command takes an argument expr"),
                        );
                        Vec::new()
                    }
                } else {
                    let mut acts: Vec<Action> = Vec::new();
                    acts.push(Action::RunCommandLine(line));
                    acts
                }
            },
            Command::InsertTab => {
                self.mark_focused_dirty();
                let bi = self.focused_buffer_index();
                let ghost bufs0 = self.buffers();
                let tab = self.tab_width;
                let n = if count <= usize::MAX - tab {
                    tab + count
                } else {
                    usize::MAX
                };
                let b = &mut self.buffers[bi];
                proof {
                    assert(bufs0[bi as int].wf());
                    b.lemma_wf_bounds();
                }
                let ghost ls0 = bufs0[bi as int].lines();
                let ghost row0 = bufs0[bi as int].row();
                let ghost col0 = bufs0[bi as int].col();
                proof {
                    assert(ls0[row0].take(col0) + blanks(0) + ls0[row0].skip(col0)
                        =~= ls0[row0]);
                    assert(ls0.update(row0, ls0[row0]) =~= ls0);
                }
                let mut j: usize = 0;
                while j < n
                    invariant
                        b.wf(),
                        j <= n,
                        0 <= row0 < ls0.len(),
                        0 <= col0 <= ls0[row0].len(),
                        b.lines() == ls0.update(
                            row0,
                            ls0[row0].take(col0) + blanks(j as int) + ls0[row0].skip(col0),
                        ),
                        b.row() == row0,
                        b.col() == col0 + j,
                        b.scroll() == bufs0[bi as int].scroll(),
                        b.path() == bufs0[bi as int].path(),
                    decreases n - j,
                {
                    let ghost cur = ls0[row0].take(col0) + blanks(j as int) + ls0[row0].skip(
                        col0,
                    );
                    b.insert_char(' ');
                    proof {
                        assert(cur.insert(col0 + j, ' ') =~= ls0[row0].take(col0) + blanks(
                            j + 1,
                        ) + ls0[row0].skip(col0));
                        assert(ls0.update(row0, cur).update(
                            row0,
                            cur.insert(col0 + j, ' '),
                        ) =~= ls0.update(
                            row0,
                            ls0[row0].take(col0) + blanks(j + 1) + ls0[row0].skip(col0),
                        ));
                    }
                    j = j + 1;
                }
                proof {
                    lemma_buffers_ok_update(bufs0, self.buffers()[bi as int], bi as int);
                }
                Vec::new()
            },
            Command::JumpListBack => Vec::new(),
            Command::JumpListForward => Vec::new(),
            Command::Undo => Vec::new(),
        }
    }

    /// Place the focused buffer's cursor row directly (scripting surface),
    /// clamped into the buffer, re-clamping the column.
    pub fn set_cursor_row(&mut self, row: usize)
        requires
            old(self).wf(),
        ensures
            final(self).wf(),
            focused_buf_step(*old(self), *final(self)),
            final(self).focused_buf().lines() == old(self).focused_buf().lines(),
            final(self).focused_buf().row() == if row < old(self).focused_buf().lines().len() {
                row as int
            } else {
                old(self).focused_buf().lines().len() - 1
            },
    {
        self.mark_focused_dirty();
        let bi = self.focused_buffer_index();
        let ghost bufs0 = self.buffers();
        let b = &mut self.buffers[bi];
        proof {
            assert(bufs0[bi as int].wf());
        }
        b.set_cursor_row(row);
        proof {
            lemma_buffers_ok_update(bufs0, self.buffers()[bi as int], bi as int);
        }
    }

    /// Place the focused buffer's scroll row directly (scripting surface),
    /// clamped so the focused window's viewport never starts past the
    /// buffer's tail.
    pub fn set_scroll_row(&mut self, row: usize)
        requires
            old(self).wf(),
        ensures
            final(self).wf(),
            focused_buf_step(*old(self), *final(self)),
            final(self).focused_buf().lines() == old(self).focused_buf().lines(),
            final(self).focused_buf().scroll() == if row <= scroll_bound(
                old(self).focused_buf().lines().len() as int,
                old(self).windows()[old(self).focused()].height as int,
            ) {
                row as int
            } else {
                scroll_bound(
                    old(self).focused_buf().lines().len() as int,
                    old(self).windows()[old(self).focused()].height as int,
                )
            },
    {
        proof {
            assert(self.windows()[self.focused()].height >= 1);
        }
        let h = self.windows[self.focused].height;
        self.mark_focused_dirty();
        let bi = self.focused_buffer_index();
        let ghost bufs0 = self.buffers();
        let b = &mut self.buffers[bi];
        proof {
            assert(bufs0[bi as int].wf());
        }
        b.set_scroll_row(row, h);
        proof {
            lemma_buffers_ok_update(bufs0, self.buffers()[bi as int], bi as int);
        }
    }

    /// The lines of buffer `i` visible from scroll position in a viewport
    /// of `height` lines: at most `height` lines starting at the buffer's
    /// scroll row.
    pub fn on_screen(&self, i: usize, height: usize) -> (v: Vec<Vec<char>>)
        requires
            self.wf(),
            i < self.buffers().len(),
        ensures
            v@.len() == if self.buffers()[i as int].scroll() + height
                <= self.buffers()[i as int].lines().len() {
                height as int
            } else {
                self.buffers()[i as int].lines().len() - self.buffers()[i as int].scroll()
            },
            forall|j: int| 0 <= j < v@.len() ==> #[trigger] v@[j]@ == self.buffers()[i as int].lines()[self.buffers()[i as int].scroll() + j],
    {
        let b = &self.buffers[i];
        proof {
            assert(self.buffers()[i as int].wf());
            b.lemma_wf_bounds();
        }
        let top = b.get_scroll();
        let nl = b.line_count();
        let last = if height <= nl - top {
            top + height
        } else {
            nl
        };
        let mut v: Vec<Vec<char>> = Vec::new();
        let mut r: usize = top;
        while r < last
            invariant
                self.wf(),
                i < self.buffers().len(),
                *b == self.buffers()[i as int],
                b.wf(),
                top == b.scroll(),
                top <= r <= last <= b.lines().len(),
                last == if top + height <= b.lines().len() {
                    top + height
                } else {
                    b.lines().len() as int
                },
                v@.len() == r - top,
                forall|j: int| 0 <= j < v@.len() ==> #[trigger] v@[j]@ == b.lines()[top + j],
            decreases last - r,
        {
            let line = b.line_chars(r);
            v.push(line);
            r = r + 1;
        }
        v
    }
}

} // verus!
