//! A modal, keyboard-driven text editor core: rope-backed buffers with
//! cursor motion and sticky columns, a key-chord parser with numeric
//! prefixes, per-mode key bindings with prefix/ambiguity resolution, a
//! closed command set dispatched atomically over one editor context, and a
//! narrow scripting facade.

pub mod api;
pub mod bindings;
pub mod buffer;
pub mod chord;
pub mod command;
pub mod context;
pub mod editor;
pub mod keys;
pub mod mode;
pub mod rope;
pub mod text;
