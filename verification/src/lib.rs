//! Select lines of a text stream with ed/sed-style address patterns and
//! comment, uncomment or toggle the selected lines by adding or removing a
//! line-comment prefix.
//!
//! The address engine reproduces sed's stateful range semantics: a
//! two-component address such as `/start/,/end/` carries open/closed state
//! from line to line, `M,+N` counts lines from its start, and a trailing `!`
//! complements the selection without touching that state.

pub mod address;
pub mod chars;
pub mod parse;
pub mod regex_text;
pub mod select;
pub mod transform;
