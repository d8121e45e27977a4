//! A multi-buffer text editor core: text buffers, the projection of a text
//! onto a character grid, the keystroke state machine of an editing session,
//! a registry of named sessions and the command line that drives them.

pub mod buffer;
pub mod command;
pub mod editor;
pub mod grid;
pub mod naming;
pub mod registry;
pub mod search;
pub mod text;
