//! Coordination core of a pseudo-terminal session multiplexer.
//!
//! Several PTY-backed sessions run at once; keyboard input and OS signals
//! are translated into commands on a single bus, and one render loop
//! consumes those commands, owning the focus rotation and the terminal's
//! raw/alternate-screen state.  This crate holds the decision logic of
//! that layer: the command vocabulary, the rotating session registry, the
//! signal and input translation tables, the render-loop state machine,
//! and the full-repaint layout of a grid snapshot.  The surrounding
//! process (PTY allocation, blocking reads, signal delivery, the output
//! device) hands these functions plain values and carries out the
//! actions they decide on.

pub mod app;
pub mod signals;
pub mod term;
pub mod tui;
