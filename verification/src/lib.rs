//! The decision engine of a keyboard-driven application launcher.
//!
//! The user types into one input field and is shown a short list of
//! candidates: executables whose names match the text, or the value of the
//! text where it is a piece of arithmetic. One candidate is the current one,
//! and committing it runs it.
//!
//! - [`catalog`] builds the list of executables from what was read of the
//!   search paths.
//! - [`arith`] takes a text apart as one operation on two operands.
//! - [`fuzzy`] and [`ranking`] score the catalog against the text and put the
//!   matches in order; [`filter`] turns a text into the candidates for it.
//! - [`selection`] keeps the current candidate and the visible window.
//! - [`window`] holds the launcher's state and its transition function.
//! - [`config`] holds the settings, [`color`] reads the colours of a theme,
//!   and [`text`] has the helpers on characters that the others share.
//!
//! Nothing here reads a file, draws a window or starts a process: the caller
//! does, and hands over plain values.

pub mod arith;
pub mod catalog;
pub mod color;
pub mod config;
pub mod filter;
pub mod fuzzy;
pub mod ranking;
pub mod selection;
pub mod text;
pub mod window;
