//! Treemap layout and colour gradients for a terminal heatmap of weighted
//! assets, together with the small state machines of the dashboard around it
//! (command line buffer, interval selector).
//!
//! Each public function carries a contract over a mathematical model of its
//! arguments, and the properties that relate several functions are stated as
//! public proof functions. The proofs rest on vstd and on one assumption
//! about the standard library, stated in `text`: what `String::push` does.

pub mod geometry;
pub mod change;
pub mod entity;
pub mod proportion;
pub mod layout;
pub mod gradient;
pub mod text;
pub mod interval;
pub mod internal_terminal;
pub mod ranking;
pub mod heatmap;
pub mod assets;
pub mod state;
