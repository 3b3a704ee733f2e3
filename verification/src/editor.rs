//! The editor: one context, one chord parser, one binding table, and the
//! step that turns a raw key event into at most one dispatched command.

use vstd::prelude::*;
use crate::bindings::{KeyBindingTable, LookupKind};
use crate::buffer::{clamp_col, scroll_bound};
use crate::chord::{KeyChordParser, COUNT_ACC_LIMIT};
use crate::command::Command;
use crate::context::{execute_spec, focused_buf_step, Action, EditorContext, Window};
use vstd::string::StringExecFns;
use crate::keys::{digit_of, spec_digit_of, Key};
use crate::mode::{counts_keys, literal_input, spec_counts_keys, spec_literal_input, Mode};

verus! {

pub struct Editor {
    context: EditorContext,
    parser: KeyChordParser,
    bindings: KeyBindingTable,
}

impl Editor {
    pub closed spec fn context(self) -> EditorContext {
        self.context
    }

    pub closed spec fn parser(self) -> KeyChordParser {
        self.parser
    }

    pub closed spec fn bindings(self) -> KeyBindingTable {
        self.bindings
    }

    pub open spec fn wf(self) -> bool {
        &&& self.context().wf()
        &&& self.bindings().wf()
    }

    pub fn new(main_name: String, main_text: &str, width: usize, height: usize) -> (e: Editor)
        ensures
            e.wf(),
            e.parser().is_ground(),
            e.bindings().entries().len() == 0,
            e.context().mode() == Mode::Normal,
            e.context().running(),
            e.context().focused_buf().lines() == crate::text::split(main_text@),
    {
        Editor {
            context: EditorContext::new(main_name, main_text, width, height),
            parser: KeyChordParser::new(),
            bindings: KeyBindingTable::new(),
        }
    }

    pub fn context_ref(&self) -> (c: &EditorContext)
        ensures
            *c == self.context(),
    {
        &self.context
    }

    pub fn parser_ref(&self) -> (p: &KeyChordParser)
        ensures
            *p == self.parser(),
    {
        &self.parser
    }

    pub fn bindings_ref(&self) -> (b: &KeyBindingTable)
        ensures
            *b == self.bindings(),
    {
        &self.bindings
    }

    /// Register a binding: `keys` fires `cmd` in mode `m`, replacing any
    /// earlier binding of the same sequence in that mode.
    pub fn bind(&mut self, m: Mode, keys: Vec<Key>, cmd: Command)
        requires
            old(self).wf(),
        ensures
            final(self).wf(),
            final(self).context() == old(self).context(),
            final(self).parser() == old(self).parser(),
            final(self).bindings().binds(m, keys@),
            final(self).bindings().bound_cmd(m, keys@) == cmd,
            forall|m2: Mode, ks2: Seq<Key>| !(m2 == m && ks2 == keys@) ==> #[trigger] final(self).bindings().binds(m2, ks2) == old(self).bindings().binds(m2, ks2),
            forall|m2: Mode, ks2: Seq<Key>| !(m2 == m && ks2 == keys@) && old(self).bindings().binds(m2, ks2) ==> #[trigger] final(self).bindings().bound_cmd(m2, ks2)
                == old(self).bindings().bound_cmd(m2, ks2),
    {
        self.bindings.bind(m, keys, cmd);
    }

    /// Run one command against the editor state, as the scripting host may
    /// do re-entrantly; the transition is exactly `EditorContext::execute`.
    pub fn run_command(&mut self, cmd: &Command, count: usize) -> (acts: Vec<Action>)
        requires
            old(self).wf(),
        ensures
            final(self).wf(),
            final(self).parser() == old(self).parser(),
            final(self).bindings() == old(self).bindings(),
            execute_spec(
                old(self).context(),
                *cmd,
                count as int,
                final(self).context(),
                acts@,
            ),
    {
        self.context.execute(cmd, count)
    }

    /// Feed one raw key event through the chord parser, the binding table
    /// and, when a chord fires, the dispatcher.
    ///
    /// Escape always cancels: wherever chord accumulation stands, it
    /// returns the parser to its ground state and fires no command; in
    /// Insert mode it also returns to Normal mode, and in the command line
    /// it leaves the command-line window.
    pub fn handle_key(&mut self, k: Key) -> (acts: Vec<Action>)
        requires
            old(self).wf(),
        ensures
            final(self).wf(),
            final(self).bindings() == old(self).bindings(),
            k == Key::Esc ==> final(self).parser().is_ground() && acts@.len() == 0,
            k == Key::Esc && old(self).context().mode() == Mode::Insert ==> final(self).context().mode() == Mode::Normal,
            k == Key::Esc && old(self).context().mode() == Mode::CommandLine && old(self).context().focused() == 0 ==> final(self).context().mode() == Mode::Normal,
            k != Key::Esc && spec_counts_keys(old(self).context().mode()) && old(self).parser().pending().len() == 0 && spec_digit_of(k) is Some ==> final(self).context()
                == old(self).context() && final(self).parser().pending().len() == 0
                && acts@.len() == 0 && (spec_digit_of(k) matches Some(d) ==> final(self).parser().count_acc() == if old(self).parser().count_acc() <= COUNT_ACC_LIMIT {
                (old(self).parser().count_acc() * 10 + d) as int
            } else {
                usize::MAX as int
            }),
            k != Key::Esc && !(spec_counts_keys(old(self).context().mode()) && old(self).parser().pending().len() == 0 && spec_digit_of(k) is Some) ==> {
                let ks = old(self).parser().pending().push(k);
                let kind = old(self).bindings().spec_classify(old(self).context().mode(), ks);
                &&& (kind == LookupKind::CompleteUnique ==> final(self).parser().is_ground()
                    && execute_spec(
                    old(self).context(),
                    old(self).bindings().bound_cmd(old(self).context().mode(), ks),
                    old(self).parser().spec_resolved_count() as int,
                    final(self).context(),
                    acts@,
                ))
                &&& (kind == LookupKind::CompleteExtensible || kind == LookupKind::Prefix
                    ==> final(self).parser().pending() == ks && final(self).context() == old(self).context() && acts@.len() == 0)
                &&& (kind == LookupKind::NoMatch ==> final(self).parser().is_ground())
                &&& (kind == LookupKind::NoMatch && !spec_literal_input(
                    old(self).context().mode(),
                ) ==> final(self).context().status_msg() == Option::Some("unmapped"@)
                    && acts@.len() == 0)
                &&& (kind == LookupKind::NoMatch && spec_literal_input(
                    old(self).context().mode(),
                ) ==> (k matches Key::Char(c) ==> (c != '\n'
                    ==> final(self).context().focused_buf().lines() == old(self).context().focused_buf().lines().update(
                    old(self).context().focused_buf().row(),
                    old(self).context().focused_buf().line_at(
                        old(self).context().focused_buf().row(),
                    ).insert(old(self).context().focused_buf().col(), c),
                ) && final(self).context().focused_buf().col() == old(self).context().focused_buf().col() + 1)))
            },
    {
        if k == Key::Esc {
            self.parser.clear();
            let m = self.context.get_mode();
            if m == Mode::Insert {
                let _acts = self.context.execute(&Command::ChangeMode(Mode::Normal), 1);
            } else if m == Mode::CommandLine {
                let _acts = self.context.execute(&Command::ExitCommandMode, 1);
            }
            return Vec::new();
        }
        let m = self.context.get_mode();
        if counts_keys(m) && self.parser.pending_is_empty() {
            match digit_of(k) {
                Some(d) => {
                    self.parser.push_digit(d);
                    return Vec::new();
                },
                None => {},
            }
        }
        self.parser.push_key(k);
        let kind = self.bindings.classify(m, self.parser.pending_keys().as_slice());
        match kind {
            LookupKind::CompleteUnique => {
                let count = self.parser.resolved_count();
                let found = self.bindings.find(m, self.parser.pending_keys().as_slice());
                let acts = match found {
                    Some(i) => {
                        let cmd = self.bindings.cmd_at(i);
                        self.context.execute(cmd, count)
                    },
                    None => {
                        proof {
                            assert(false);
                        }
                        Vec::new()
                    },
                };
                self.parser.clear();
                acts
            },
            LookupKind::CompleteExtensible => Vec::new(),
            LookupKind::Prefix => Vec::new(),
            LookupKind::NoMatch => {
                self.parser.clear();
                if literal_input(m) {
                    match k {
                        Key::Char(c) => self.context.execute(&Command::InsertChar(c), 1),
                        Key::Enter => self.context.execute(&Command::NewLine, 1),
                        Key::Backspace => self.context.execute(&Command::Backspace, 1),
                        _ => Vec::new(),
                    }
                } else {
                    let _acts = self.context.execute(
                        &Command::Print(String::from_str("unmapped")),
                        1,
                    );
                    Vec::new()
                }
            },
        }
    }

    /// Place the focused buffer's cursor row directly (scripting surface).
    pub fn set_cursor_row(&mut self, row: usize)
        requires
            old(self).wf(),
        ensures
            final(self).wf(),
            final(self).bindings() == old(self).bindings(),
            final(self).parser() == old(self).parser(),
            focused_buf_step(old(self).context(), final(self).context()),
            final(self).context().focused_buf().lines() == old(self).context().focused_buf().lines(),
            final(self).context().focused_buf().row() == if row < old(self).context().focused_buf().lines().len() {
                row as int
            } else {
                old(self).context().focused_buf().lines().len() - 1
            },
    {
        self.context.set_cursor_row(row)
    }

    /// Place the focused buffer's scroll row directly (scripting surface).
    pub fn set_scroll_row(&mut self, row: usize)
        requires
            old(self).wf(),
        ensures
            final(self).wf(),
            final(self).bindings() == old(self).bindings(),
            final(self).parser() == old(self).parser(),
            focused_buf_step(old(self).context(), final(self).context()),
            final(self).context().focused_buf().lines() == old(self).context().focused_buf().lines(),
            final(self).context().focused_buf().scroll() == if row <= scroll_bound(
                old(self).context().focused_buf().lines().len() as int,
                old(self).context().windows()[old(self).context().focused()].height as int,
            ) {
                row as int
            } else {
                scroll_bound(
                    old(self).context().focused_buf().lines().len() as int,
                    old(self).context().windows()[old(self).context().focused()].height as int,
                )
            },
    {
        self.context.set_scroll_row(row)
    }

    /// Append a buffer holding `text`, as loading one more file does;
    /// returns the new buffer's index.
    pub fn add_buffer(&mut self, name: String, text: &str) -> (i: usize)
        requires
            old(self).wf(),
        ensures
            final(self).wf(),
            final(self).parser() == old(self).parser(),
            final(self).bindings() == old(self).bindings(),
            i == old(self).context().buffers().len(),
            final(self).context().buffers() == old(self).context().buffers().push(
                final(self).context().buffers()[i as int],
            ),
            final(self).context().buffers()[i as int].lines() == crate::text::split(text@),
            final(self).context().buffers()[i as int].path() == name@,
            final(self).context().windows() == old(self).context().windows(),
            final(self).context().focused() == old(self).context().focused(),
            final(self).context().mode() == old(self).context().mode(),
    {
        self.context.add_buffer(name, text)
    }

    /// Open a new window onto buffer `buffer_idx` and focus it; returns
    /// the new window's index.
    pub fn add_window(&mut self, buffer_idx: usize, width: usize, height: usize) -> (i: usize)
        requires
            old(self).wf(),
            buffer_idx < old(self).context().buffers().len(),
        ensures
            final(self).wf(),
            final(self).parser() == old(self).parser(),
            final(self).bindings() == old(self).bindings(),
            i == old(self).context().windows().len(),
            final(self).context().windows() == old(self).context().windows().push(
                Window {
                    buffer: buffer_idx,
                    width,
                    height: if height == 0 {
                        1
                    } else {
                        height as int
                    } as usize,
                    dirty: true,
                    line_numbers: true,
                    status_bar: true,
                },
            ),
            final(self).context().focused() == i,
            final(self).context().buffers() == old(self).context().buffers(),
            final(self).context().mode() == old(self).context().mode(),
    {
        self.context.add_window(buffer_idx, width, height)
    }

    /// Move the focused buffer's cursor down one row (scripting surface).
    pub fn cursor_down_one(&mut self)
        requires
            old(self).wf(),
        ensures
            final(self).wf(),
            final(self).bindings() == old(self).bindings(),
            final(self).parser() == old(self).parser(),
            focused_buf_step(old(self).context(), final(self).context()),
            final(self).context().focused_buf().lines() == old(self).context().focused_buf().lines(),
            final(self).context().focused_buf().row() == if old(self).context().focused_buf().row() + 1 < old(self).context().focused_buf().lines().len() {
                old(self).context().focused_buf().row() + 1
            } else {
                old(self).context().focused_buf().lines().len() - 1
            },
            final(self).context().focused_buf().col() == clamp_col(
                old(self).context().focused_buf().sticky(),
                old(self).context().focused_buf().line_at(
                    final(self).context().focused_buf().row(),
                ).len() as int,
            ),
    {
        let _acts = self.context.execute(&Command::CursorDown, 1);
    }
}

} // verus!
