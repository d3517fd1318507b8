//! Input translation, the input relay, the render loop's state machine,
//! and the full-repaint layout of a grid snapshot.
//!
//! The input relay blocks on the terminal's next input event, translates
//! it into zero or more commands, and forwards them onto the bus; on its
//! own termination it always sends one final exit.  The render loop is
//! the sole consumer of the bus: it owns the attach state (raw mode plus
//! alternate screen) and decides, for each received command, the next
//! attach state and the one action to carry out.  Repainting copies the
//! focused session's grid snapshot into lines of characters, one line per
//! row, each exactly as wide as the grid.

use crate::app::{
    exit_command_count,
    is_exit_command,
    lemma_exit_count_add,
    lemma_exit_count_single,
    Command,
    EngineEvent,
    Msg,
    WindowSize,
};
use vstd::prelude::*;

verus! {

/// One input event read from the controlling terminal, reduced to what
/// the translation table distinguishes.
#[derive(Debug, Clone, Copy, PartialEq, Eq)]
pub enum InputEvent {
    /// The controlling terminal was resized to (width, height).
    Resize(u16, u16),
    /// A key press: the character and whether control was held.
    Key { ch: char, ctrl: bool },
    /// Any other input event; nothing is emitted for it.
    Other,
}

/// The commands one input event translates to: a resize becomes a resize
/// directive, Ctrl-Q exit, Ctrl-Z suspend, Ctrl-N and Ctrl-P a rotation
/// paired with a wakeup, and anything else nothing.
pub open spec fn spec_input_commands(ev: InputEvent) -> Seq<Command> {
    match ev {
        InputEvent::Resize(w, h) => seq![
            Command::Msg(
                Msg::Resize(
                    WindowSize { num_lines: h, num_cols: w, cell_width: 1, cell_height: 1 },
                ),
            ),
        ],
        InputEvent::Key { ch, ctrl } => {
            if ctrl && ch == 'q' {
                seq![Command::Exit]
            } else if ctrl && ch == 'z' {
                seq![Command::Suspend]
            } else if ctrl && ch == 'n' {
                seq![Command::NextWindow, Command::TerminalEvent(EngineEvent::Wakeup)]
            } else if ctrl && ch == 'p' {
                seq![Command::PrevWindow, Command::TerminalEvent(EngineEvent::Wakeup)]
            } else {
                Seq::empty()
            }
        },
        InputEvent::Other => Seq::empty(),
    }
}

/// Translates one input event into the commands it stands for, in order.
pub fn input_event_to_command(ev: &InputEvent) -> (r: Vec<Command>)
    ensures
        r@ == spec_input_commands(*ev),
{
    let mut r: Vec<Command> = Vec::new();
    match ev {
        InputEvent::Resize(w, h) => {
            r.push(
                Command::Msg(
                    Msg::Resize(
                        WindowSize {
                            num_lines: *h,
                            num_cols: *w,
                            cell_width: 1,
                            cell_height: 1,
                        },
                    ),
                ),
            );
        },
        InputEvent::Key { ch, ctrl } => {
            if *ctrl && *ch == 'q' {
                r.push(Command::Exit);
            } else if *ctrl && *ch == 'z' {
                r.push(Command::Suspend);
            } else if *ctrl && *ch == 'n' {
                r.push(Command::NextWindow);
                r.push(Command::TerminalEvent(EngineEvent::Wakeup));
            } else if *ctrl && *ch == 'p' {
                r.push(Command::PrevWindow);
                r.push(Command::TerminalEvent(EngineEvent::Wakeup));
            }
        },
        InputEvent::Other => {},
    }
    proof {
        assert(r@ =~= spec_input_commands(*ev));
    }
    r
}

/// The commands of a sequence that are not the bare exit command, in
/// order: what the relay forwards while it watches for exit itself.
pub open spec fn non_exit_commands(s: Seq<Command>) -> Seq<Command>
    decreases s.len(),
{
    if s.len() == 0 {
        Seq::empty()
    } else {
        let front = non_exit_commands(s.drop_last());
        if s.last() is Exit {
            front
        } else {
            front.push(s.last())
        }
    }
}

/// Whether a command sequence holds the bare exit command.
pub open spec fn contains_exit(s: Seq<Command>) -> bool
    decreases s.len(),
{
    if s.len() == 0 {
        false
    } else {
        s.last() is Exit || contains_exit(s.drop_last())
    }
}

/// One read made by the input relay: an event, or a failed read.
#[derive(Debug, Clone, Copy, PartialEq, Eq)]
pub enum InputRead {
    Event(InputEvent),
    ReadError,
}

/// What the relay forwards onto the bus for one read: the translated
/// commands with the bare exit held back.
pub open spec fn spec_relay_forward(r: InputRead) -> Seq<Command> {
    match r {
        InputRead::Event(ev) => non_exit_commands(spec_input_commands(ev)),
        InputRead::ReadError => Seq::empty(),
    }
}

/// Whether one read ends the relay: a failed read does, and so does an
/// event whose translation holds the bare exit.
pub open spec fn spec_relay_done(r: InputRead) -> bool {
    match r {
        InputRead::Event(ev) => contains_exit(spec_input_commands(ev)),
        InputRead::ReadError => true,
    }
}

/// The relay's reaction to one read: the commands it forwards, and
/// whether it stops reading afterwards.
#[derive(Debug, Clone, PartialEq, Eq)]
pub struct RelayStep {
    pub forward: Vec<Command>,
    pub done: bool,
}

/// Processes one read as the relay's loop body does: every translated
/// command except the bare exit is forwarded in order; an exit among
/// them, or a failed read, makes this the relay's last read.
pub fn input_relay_step(r: &InputRead) -> (s: RelayStep)
    ensures
        s.forward@ == spec_relay_forward(*r),
        s.done == spec_relay_done(*r),
{
    match r {
        InputRead::ReadError => RelayStep { forward: Vec::new(), done: true },
        InputRead::Event(ev) => {
            let mut cmds = input_event_to_command(ev);
            let ghost orig = cmds@;
            let mut forward: Vec<Command> = Vec::new();
            let mut done = false;
            proof {
                assert(orig.subrange(orig.len() - cmds@.len(), orig.len() as int) =~= cmds@);
                assert(orig.take(0) =~= Seq::<Command>::empty());
            }
            while cmds.len() > 0
                invariant
                    cmds@.len() <= orig.len(),
                    cmds@ == orig.subrange(orig.len() - cmds@.len(), orig.len() as int),
                    forward@ == non_exit_commands(orig.take(orig.len() - cmds@.len())),
                    done == contains_exit(orig.take(orig.len() - cmds@.len())),
                decreases cmds@.len(),
            {
                let ghost k = orig.len() - cmds@.len();
                let c = cmds.remove(0);
                proof {
                    assert(c == orig[k]);
                    assert(cmds@ =~= orig.subrange(orig.len() - cmds@.len(), orig.len() as int));
                    assert(orig.take(k + 1).drop_last() =~= orig.take(k));
                    assert(orig.take(k + 1).last() == orig[k]);
                }
                match c {
                    Command::Exit => {
                        done = true;
                    },
                    other => {
                        forward.push(other);
                    },
                }
            }
            proof {
                assert(orig.take(orig.len() as int) =~= orig);
            }
            RelayStep { forward, done }
        },
    }
}

/// The commands a whole run of the input relay sends for a finite read
/// sequence: each read's forwarded commands in order, cut off at the
/// first read that ends the relay, then the one final exit that every
/// termination path sends.
pub open spec fn spec_input_relay_outputs(reads: Seq<InputRead>) -> Seq<Command>
    decreases reads.len(),
{
    if reads.len() == 0 {
        seq![Command::Exit]
    } else {
        let fwd = spec_relay_forward(reads[0]);
        if spec_relay_done(reads[0]) {
            fwd + seq![Command::Exit]
        } else {
            fwd + spec_input_relay_outputs(reads.subrange(1, reads.len() as int))
        }
    }
}

/// A whole run of the input relay over a finite read sequence: returns
/// the commands sent, in order, the final exit included.  `reads` is
/// what the relay read until it stopped; if no read in it ends the
/// relay, the run is the one a relay whose source was then exhausted
/// would make.
pub fn input_relay_outputs(reads: &Vec<InputRead>) -> (out: Vec<Command>)
    ensures
        out@ == spec_input_relay_outputs(reads@),
{
    let mut out: Vec<Command> = Vec::new();
    let n = reads.len();
    let mut k: usize = 0;
    let mut done = false;
    proof {
        assert(reads@.subrange(0, reads@.len() as int) =~= reads@);
        assert(out@ + spec_input_relay_outputs(reads@) =~= spec_input_relay_outputs(reads@));
    }
    while k < n && !done
        invariant
            0 <= k <= n,
            n == reads@.len(),
            !done ==> spec_input_relay_outputs(reads@) == out@ + spec_input_relay_outputs(
                reads@.subrange(k as int, reads@.len() as int),
            ),
            done ==> spec_input_relay_outputs(reads@) == out@ + seq![Command::Exit],
        decreases n - k,
    {
        let mut step = input_relay_step(&reads[k]);
        proof {
            let rest = reads@.subrange(k as int, reads@.len() as int);
            assert(rest[0] == reads@[k as int]);
            assert(rest.subrange(1, rest.len() as int) =~= reads@.subrange(
                k as int + 1,
                reads@.len() as int,
            ));
        }
        out.append(&mut step.forward);
        if step.done {
            done = true;
        }
        k = k + 1;
    }
    proof {
        if !done {
            assert(reads@.subrange(k as int, reads@.len() as int) =~= Seq::<InputRead>::empty());
        }
    }
    out.push(Command::Exit);
    out
}

/// A command sequence without the bare exit command and without engine
/// exit requests holds nothing the render loop treats as termination.
proof fn lemma_non_exit_count(s: Seq<Command>)
    requires
        forall|i: int|
            0 <= i < s.len() ==> s[i] != Command::TerminalEvent(EngineEvent::Exit),
    ensures
        exit_command_count(non_exit_commands(s)) == 0,
    decreases s.len(),
{
    assert(exit_command_count(Seq::<Command>::empty()) == 0);
    if s.len() > 0 {
        let dl = s.drop_last();
        assert(forall|i: int| 0 <= i < dl.len() ==> dl[i] == s[i]);
        lemma_non_exit_count(dl);
        if !(s.last() is Exit) {
            assert(non_exit_commands(s) == non_exit_commands(dl).push(s.last()));
            assert(non_exit_commands(dl).push(s.last()) =~= non_exit_commands(dl) + seq![
                s.last(),
            ]);
            lemma_exit_count_add(non_exit_commands(dl), seq![s.last()]);
            lemma_exit_count_single(s.last());
            assert(s[s.len() - 1] != Command::TerminalEvent(EngineEvent::Exit));
            assert(!is_exit_command(s.last()));
        }
    }
}

/// What the relay forwards for one read never holds a command the
/// render loop treats as termination: the bare exit is held back, and
/// the translation table never emits an engine exit request.
proof fn lemma_relay_forward_no_exit(r: InputRead)
    ensures
        exit_command_count(spec_relay_forward(r)) == 0,
{
    match r {
        InputRead::ReadError => {
            assert(exit_command_count(Seq::<Command>::empty()) == 0);
        },
        InputRead::Event(ev) => {
            lemma_non_exit_count(spec_input_commands(ev));
        },
    }
}

/// Every termination path of the input relay yields exactly one command
/// that the render loop treats as termination, and it is the last
/// command sent: whatever was read, the run's output ends in the one
/// final exit and holds no other termination request.
pub proof fn lemma_input_relay_exit_commands(reads: Seq<InputRead>)
    ensures
        spec_input_relay_outputs(reads).len() > 0,
        spec_input_relay_outputs(reads)[spec_input_relay_outputs(reads).len() - 1]
            == Command::Exit,
        exit_command_count(spec_input_relay_outputs(reads)) == 1,
    decreases reads.len(),
{
    let out = spec_input_relay_outputs(reads);
    lemma_exit_count_single(Command::Exit);
    if reads.len() == 0 {
        assert(out == seq![Command::Exit]);
    } else {
        let fwd = spec_relay_forward(reads[0]);
        lemma_relay_forward_no_exit(reads[0]);
        if spec_relay_done(reads[0]) {
            assert(out == fwd + seq![Command::Exit]);
            lemma_exit_count_add(fwd, seq![Command::Exit]);
            assert(out[out.len() - 1] == seq![Command::Exit][0]);
        } else {
            let rest = reads.subrange(1, reads.len() as int);
            lemma_input_relay_exit_commands(rest);
            let out_rest = spec_input_relay_outputs(rest);
            assert(out == fwd + out_rest);
            lemma_exit_count_add(fwd, out_rest);
            assert(out[out.len() - 1] == out_rest[out_rest.len() - 1]);
        }
    }
}

/// What the render loop receives in one blocking read of the bus: a
/// command, or the report that every producer is gone.
#[derive(Debug, Clone, PartialEq, Eq)]
pub enum Received {
    Cmd(Command),
    Closed,
}

/// The one action the render loop carries out for a received command.
#[derive(Debug, Clone, Copy, PartialEq, Eq)]
pub enum RenderAction {
    /// Leave the loop; the one cleanup pass follows.
    Stop,
    /// Repaint the focused session's grid snapshot.
    Repaint,
    /// Leave raw mode, then raise a stop signal on the own process.
    SuspendSelf,
    /// Enter raw mode and the alternate screen (idempotent).
    Attach,
    /// Leave raw mode (idempotent).
    Detach,
    /// Rotate the registry forward and rebind the focused session.
    FocusNext,
    /// Rotate the registry backward and rebind the focused session.
    FocusPrev,
    /// Log the command and do nothing else.
    Ignore,
}

/// The render loop's reaction to one received command: its attach state
/// afterwards, and the action to carry out.
#[derive(Debug, Clone, Copy, PartialEq, Eq)]
pub struct RenderStep {
    pub attached: bool,
    pub action: RenderAction,
}

/// The render loop's transition table.  Exit, an engine exit request and
/// a closed bus all end the loop; a wakeup repaints; suspend detaches
/// and stops the process; resume attaches; toggle flips the attach
/// state; the rotation commands move focus without repainting; anything
/// else is logged and ignored.  Only suspend, resume and toggle change
/// the attach state.
pub open spec fn spec_render_step(attached: bool, r: Received) -> RenderStep {
    match r {
        Received::Closed => RenderStep { attached, action: RenderAction::Stop },
        Received::Cmd(c) => match c {
            Command::Exit => RenderStep { attached, action: RenderAction::Stop },
            Command::TerminalEvent(EngineEvent::Exit) => RenderStep {
                attached,
                action: RenderAction::Stop,
            },
            Command::TerminalEvent(EngineEvent::Wakeup) => RenderStep {
                attached,
                action: RenderAction::Repaint,
            },
            Command::TerminalEvent(EngineEvent::Other) => RenderStep {
                attached,
                action: RenderAction::Ignore,
            },
            Command::Suspend => RenderStep { attached: false, action: RenderAction::SuspendSelf },
            Command::Resume => RenderStep { attached: true, action: RenderAction::Attach },
            Command::Toggle => RenderStep {
                attached: !attached,
                action: if attached {
                    RenderAction::Detach
                } else {
                    RenderAction::Attach
                },
            },
            Command::NextWindow => RenderStep { attached, action: RenderAction::FocusNext },
            Command::PrevWindow => RenderStep { attached, action: RenderAction::FocusPrev },
            Command::Msg(_) => RenderStep { attached, action: RenderAction::Ignore },
        },
    }
}

/// Decides one iteration of the render loop.
pub fn render_step(attached: bool, r: &Received) -> (s: RenderStep)
    ensures
        s == spec_render_step(attached, *r),
{
    match r {
        Received::Closed => RenderStep { attached, action: RenderAction::Stop },
        Received::Cmd(c) => match c {
            Command::Exit => RenderStep { attached, action: RenderAction::Stop },
            Command::TerminalEvent(EngineEvent::Exit) => RenderStep {
                attached,
                action: RenderAction::Stop,
            },
            Command::TerminalEvent(EngineEvent::Wakeup) => RenderStep {
                attached,
                action: RenderAction::Repaint,
            },
            Command::TerminalEvent(EngineEvent::Other) => RenderStep {
                attached,
                action: RenderAction::Ignore,
            },
            Command::Suspend => RenderStep { attached: false, action: RenderAction::SuspendSelf },
            Command::Resume => RenderStep { attached: true, action: RenderAction::Attach },
            Command::Toggle => RenderStep {
                attached: !attached,
                action: if attached {
                    RenderAction::Detach
                } else {
                    RenderAction::Attach
                },
            },
            Command::NextWindow => RenderStep { attached, action: RenderAction::FocusNext },
            Command::PrevWindow => RenderStep { attached, action: RenderAction::FocusPrev },
            Command::Msg(_) => RenderStep { attached, action: RenderAction::Ignore },
        },
    }
}

/// Resume while already attached leaves the loop attached, and two
/// consecutive toggles return it to its original attach state: both
/// bring the render loop back where it started.
pub proof fn lemma_attach_state_restored(attached: bool)
    ensures
        spec_render_step(true, Received::Cmd(Command::Resume)).attached == true,
        spec_render_step(
            spec_render_step(attached, Received::Cmd(Command::Toggle)).attached,
            Received::Cmd(Command::Toggle),
        ).attached == attached,
{
}

/// Whether one received item ends the render loop.
pub open spec fn is_break_input(r: Received) -> bool {
    match r {
        Received::Closed => true,
        Received::Cmd(c) => is_exit_command(c),
    }
}

/// The attach state after the render loop has processed a sequence of
/// received items, starting from `attached`.
pub open spec fn spec_attached_after(attached: bool, inputs: Seq<Received>) -> bool
    decreases inputs.len(),
{
    if inputs.len() == 0 {
        attached
    } else {
        spec_attached_after(
            spec_render_step(attached, inputs[0]).attached,
            inputs.subrange(1, inputs.len() as int),
        )
    }
}

/// Processing one more received item steps the attach state once.
proof fn lemma_attached_after_push(attached: bool, s: Seq<Received>, x: Received)
    ensures
        spec_attached_after(attached, s.push(x)) == spec_render_step(
            spec_attached_after(attached, s),
            x,
        ).attached,
    decreases s.len(),
{
    if s.len() == 0 {
        assert(s.push(x)[0] == x);
        assert(s.push(x).subrange(1, 1) =~= Seq::<Received>::empty());
        assert(spec_attached_after(
            spec_render_step(attached, x).attached,
            Seq::<Received>::empty(),
        ) == spec_render_step(attached, x).attached);
        assert(spec_attached_after(attached, Seq::<Received>::empty()) == attached);
    } else {
        assert(s.push(x)[0] == s[0]);
        assert(s.push(x).subrange(1, s.len() as int + 1) =~= s.subrange(1, s.len() as int).push(
            x,
        ));
        lemma_attached_after_push(
            spec_render_step(attached, s[0]).attached,
            s.subrange(1, s.len() as int),
            x,
        );
    }
}

/// What one terminated run of the render loop did: how many received
/// items it consumed, the attach state when it left the loop, and how
/// many cleanup passes it made.
#[derive(Debug, Clone, Copy, PartialEq, Eq)]
pub struct RenderOutcome {
    pub consumed: usize,
    pub attached: bool,
    pub cleanups: usize,
}

/// A whole terminated run of the render loop over a finite sequence of
/// received items, of which some item must end the loop (a closed bus
/// counts), as the real loop blocks forever otherwise.  The run consumes
/// items up to and including the first ending one — an exit received
/// first thus terminates the loop immediately — and makes exactly one
/// cleanup pass after leaving the loop, whatever the attach state.
pub fn render_run(attached0: bool, inputs: &Vec<Received>) -> (outcome: RenderOutcome)
    requires
        exists|i: int| 0 <= i < inputs@.len() && is_break_input(inputs@[i]),
    ensures
        1 <= outcome.consumed <= inputs@.len(),
        is_break_input(inputs@[outcome.consumed - 1]),
        forall|j: int| 0 <= j < outcome.consumed - 1 ==> !is_break_input(inputs@[j]),
        outcome.attached == spec_attached_after(attached0, inputs@.take(outcome.consumed as int)),
        outcome.cleanups == 1,
{
    let mut attached = attached0;
    let mut k: usize = 0;
    let n = inputs.len();
    proof {
        assert(inputs@.take(0) =~= Seq::<Received>::empty());
    }
    loop
        invariant_except_break
            n == inputs@.len(),
            0 <= k < n,
            exists|i: int| k <= i < inputs@.len() && is_break_input(inputs@[i]),
            forall|j: int| 0 <= j < k ==> !is_break_input(inputs@[j]),
            attached == spec_attached_after(attached0, inputs@.take(k as int)),
        ensures
            0 <= k < inputs@.len(),
            is_break_input(inputs@[k as int]),
            forall|j: int| 0 <= j < k ==> !is_break_input(inputs@[j]),
            attached == spec_attached_after(attached0, inputs@.take(k as int + 1)),
        decreases inputs@.len() - k,
    {
        let step = render_step(attached, &inputs[k]);
        proof {
            lemma_attached_after_push(attached0, inputs@.take(k as int), inputs@[k as int]);
            assert(inputs@.take(k as int).push(inputs@[k as int]) =~= inputs@.take(k as int + 1));
        }
        attached = step.attached;
        match step.action {
            RenderAction::Stop => {
                break;
            },
            _ => {},
        }
        proof {
            let j = choose|i: int| k <= i < inputs@.len() && is_break_input(inputs@[i]);
            assert(j != k);
            assert(k + 1 <= j < inputs@.len() && is_break_input(inputs@[j]));
        }
        k = k + 1;
    }
    let outcome = RenderOutcome { consumed: k + 1, attached, cleanups: 1 };
    outcome
}

/// One character cell of a grid snapshot, at a line and column of the
/// grid.
#[derive(Debug, Clone, Copy, PartialEq, Eq)]
pub struct GridCell {
    pub line: usize,
    pub column: usize,
    pub ch: char,
}

/// The character a snapshot puts at (line, column): the last cell there,
/// or a blank when no cell covers that spot.
pub open spec fn cell_at(cells: Seq<GridCell>, line: int, column: int) -> char
    decreases cells.len(),
{
    if cells.len() == 0 {
        ' '
    } else if cells.last().line == line && cells.last().column == column {
        cells.last().ch
    } else {
        cell_at(cells.drop_last(), line, column)
    }
}

/// Lays a grid snapshot out for a full repaint: exactly `rows` lines of
/// exactly `columns` characters each, the cell at (line, column) put at
/// that line and column, and every spot no cell covers rendered as a
/// space.  Every cell must address a spot inside the grid.
pub fn render_grid(columns: usize, rows: usize, cells: &Vec<GridCell>) -> (grid: Vec<Vec<char>>)
    requires
        forall|i: int|
            0 <= i < cells@.len() ==> cells@[i].line < rows && cells@[i].column < columns,
    ensures
        grid@.len() == rows,
        forall|l: int| 0 <= l < rows ==> (#[trigger] grid@[l])@.len() == columns,
        forall|l: int, c: int|
            #![trigger grid@[l]@[c]]
            0 <= l < rows && 0 <= c < columns ==> grid@[l]@[c] == cell_at(cells@, l, c),
{
    let mut grid: Vec<Vec<char>> = Vec::new();
    let mut l: usize = 0;
    while l < rows
        invariant
            0 <= l <= rows,
            grid@.len() == l,
            forall|i: int| 0 <= i < l ==> (#[trigger] grid@[i])@.len() == columns,
            forall|i: int, c: int|
                #![trigger grid@[i]@[c]]
                0 <= i < l && 0 <= c < columns ==> grid@[i]@[c] == ' ',
        decreases rows - l,
    {
        let row: Vec<char> = vec![' '; columns];
        grid.push(row);
        l = l + 1;
    }
    let mut k: usize = 0;
    let n = cells.len();
    proof {
        assert(cells@.take(0) =~= Seq::<GridCell>::empty());
    }
    while k < n
        invariant
            0 <= k <= n,
            n == cells@.len(),
            forall|i: int|
                0 <= i < cells@.len() ==> cells@[i].line < rows && cells@[i].column < columns,
            grid@.len() == rows,
            forall|i: int| 0 <= i < rows ==> (#[trigger] grid@[i])@.len() == columns,
            forall|i: int, c: int|
                #![trigger grid@[i]@[c]]
                0 <= i < rows && 0 <= c < columns ==> grid@[i]@[c] == cell_at(
                    cells@.take(k as int),
                    i,
                    c,
                ),
        decreases n - k,
    {
        let cell = cells[k];
        let row: &mut Vec<char> = &mut grid[cell.line];
        row.set(cell.column, cell.ch);
        proof {
            assert(cells@.take(k as int + 1).drop_last() =~= cells@.take(k as int));
            assert(cells@.take(k as int + 1).last() == cells@[k as int]);
        }
        k = k + 1;
    }
    proof {
        assert(cells@.take(cells@.len() as int) =~= cells@);
    }
    grid
}

} // verus!
