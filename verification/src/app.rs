//! The command vocabulary of the bus.
//!
//! Every producer (signal relay, input relay, each session's engine) pushes
//! `Command` values onto one multi-producer channel; the render loop is the
//! sole consumer.  Commands are plain data: engine events and driver
//! directives are carried as this crate's own value types, so the consumer's
//! decisions can be stated and checked over them.

use vstd::prelude::*;

verus! {

/// An asynchronous notification from a session's terminal engine,
/// forwarded onto the bus by that session's event sink.
#[derive(Debug, Clone, PartialEq, Eq)]
pub enum EngineEvent {
    /// The engine's screen contents changed; the focused session
    /// should be repainted.
    Wakeup,
    /// The engine requests shutdown (for example, its child exited).
    Exit,
    /// Any other engine notification; the render loop ignores these.
    Other,
}

/// The size handed to a session's driver on a resize directive.
#[derive(Debug, Clone, PartialEq, Eq)]
pub struct WindowSize {
    pub num_lines: u16,
    pub num_cols: u16,
    pub cell_width: u16,
    pub cell_height: u16,
}

/// A directive for a session's PTY I/O driver.
#[derive(Debug, Clone, PartialEq, Eq)]
pub enum Msg {
    /// Bytes to write to the session's PTY.
    Input(Vec<u8>),
    /// The session's window changed size.
    Resize(WindowSize),
    /// Stop the session's I/O driver.
    Shutdown,
}

/// A message on the command bus.
#[derive(Debug, Clone, PartialEq, Eq)]
pub enum Command {
    /// An event emitted by a session's terminal engine.
    TerminalEvent(EngineEvent),
    /// A directive destined for a session's I/O driver.
    Msg(Msg),
    /// Detach from the terminal and stop the whole process.
    Suspend,
    /// Re-attach to the terminal (idempotent).
    Resume,
    /// Flip between attached and detached.
    Toggle,
    /// Terminate the render loop.
    Exit,
    /// Rotate focus to the next session.
    NextWindow,
    /// Rotate focus to the previous session.
    PrevWindow,
}

/// Whether the render loop treats a command as a request to terminate.
pub open spec fn is_exit_command(c: Command) -> bool {
    c is Exit || c == Command::TerminalEvent(EngineEvent::Exit)
}

/// How many commands of a sequence the render loop treats as termination
/// requests.
pub open spec fn exit_command_count(s: Seq<Command>) -> nat
    decreases s.len(),
{
    if s.len() == 0 {
        0
    } else {
        (if is_exit_command(s[0]) {
            1nat
        } else {
            0nat
        }) + exit_command_count(s.subrange(1, s.len() as int))
    }
}

/// Counting termination requests in a one-command sequence.
pub proof fn lemma_exit_count_single(c: Command)
    ensures
        exit_command_count(seq![c]) == if is_exit_command(c) {
            1nat
        } else {
            0nat
        },
{
    assert(seq![c].subrange(1, 1) =~= Seq::<Command>::empty());
    assert(exit_command_count(Seq::<Command>::empty()) == 0);
}

/// Termination requests in a concatenation are counted part by part.
pub proof fn lemma_exit_count_add(a: Seq<Command>, b: Seq<Command>)
    ensures
        exit_command_count(a + b) == exit_command_count(a) + exit_command_count(b),
    decreases a.len(),
{
    if a.len() == 0 {
        assert(a + b =~= b);
    } else {
        assert((a + b)[0] == a[0]);
        assert((a + b).subrange(1, (a + b).len() as int) =~= a.subrange(1, a.len() as int) + b);
        lemma_exit_count_add(a.subrange(1, a.len() as int), b);
    }
}

} // verus!
