use pty_test::app::{Command, EngineEvent, Msg};
use pty_test::signals::{signal_step, Signal};
use pty_test::tui::{
    render_grid, render_run, render_step, GridCell, Received, RenderAction,
};

#[test]
fn exit_and_engine_exit_and_closed_bus_end_the_loop() {
    for r in [
        Received::Cmd(Command::Exit),
        Received::Cmd(Command::TerminalEvent(EngineEvent::Exit)),
        Received::Closed,
    ] {
        let step = render_step(true, &r);
        assert_eq!(step.action, RenderAction::Stop);
        assert!(step.attached);
    }
}

#[test]
fn wakeup_repaints_without_changing_attach_state() {
    let step = render_step(true, &Received::Cmd(Command::TerminalEvent(EngineEvent::Wakeup)));
    assert_eq!(step.action, RenderAction::Repaint);
    assert!(step.attached);
}

#[test]
fn suspend_while_attached_detaches_and_stops_the_process() {
    let step = render_step(true, &Received::Cmd(Command::Suspend));
    assert_eq!(step.action, RenderAction::SuspendSelf);
    assert!(!step.attached);
}

#[test]
fn resume_after_suspend_reattaches() {
    let suspended = render_step(true, &Received::Cmd(Command::Suspend));
    assert!(!suspended.attached);
    let resumed = render_step(suspended.attached, &Received::Cmd(Command::Resume));
    assert_eq!(resumed.action, RenderAction::Attach);
    assert!(resumed.attached);
}

#[test]
fn continue_signal_after_suspend_reattaches_the_loop() {
    let suspended = render_step(true, &Received::Cmd(Command::Suspend));
    assert_eq!(suspended.action, RenderAction::SuspendSelf);
    assert!(!suspended.attached);
    let resume = signal_step(Signal::Cont).emit.unwrap();
    let resumed = render_step(suspended.attached, &Received::Cmd(resume));
    assert_eq!(resumed.action, RenderAction::Attach);
    assert!(resumed.attached);
}

#[test]
fn resume_while_attached_keeps_the_loop_attached() {
    let step = render_step(true, &Received::Cmd(Command::Resume));
    assert!(step.attached);
    assert_eq!(step.action, RenderAction::Attach);
}

#[test]
fn toggle_twice_restores_the_attach_state() {
    for start in [true, false] {
        let once = render_step(start, &Received::Cmd(Command::Toggle));
        assert_eq!(once.attached, !start);
        let twice = render_step(once.attached, &Received::Cmd(Command::Toggle));
        assert_eq!(twice.attached, start);
    }
}

#[test]
fn rotation_commands_move_focus_without_repainting() {
    let next = render_step(true, &Received::Cmd(Command::NextWindow));
    assert_eq!(next.action, RenderAction::FocusNext);
    assert!(next.attached);
    let prev = render_step(true, &Received::Cmd(Command::PrevWindow));
    assert_eq!(prev.action, RenderAction::FocusPrev);
    assert!(prev.attached);
}

#[test]
fn unrecognized_commands_are_ignored() {
    let step = render_step(true, &Received::Cmd(Command::Msg(Msg::Shutdown)));
    assert_eq!(step.action, RenderAction::Ignore);
    assert!(step.attached);
}

#[test]
fn exit_as_first_command_terminates_with_one_cleanup_pass() {
    let inputs = vec![Received::Cmd(Command::Exit)];
    let outcome = render_run(true, &inputs);
    assert_eq!(outcome.consumed, 1);
    assert_eq!(outcome.cleanups, 1);
    assert!(outcome.attached);
}

#[test]
fn closed_bus_is_treated_like_exit() {
    let inputs = vec![Received::Closed];
    let outcome = render_run(true, &inputs);
    assert_eq!(outcome.consumed, 1);
    assert_eq!(outcome.cleanups, 1);
}

#[test]
fn suspend_resume_cycle_ends_attached() {
    let inputs = vec![
        Received::Cmd(Command::Suspend),
        Received::Cmd(Command::Resume),
        Received::Cmd(Command::Exit),
    ];
    let outcome = render_run(true, &inputs);
    assert_eq!(outcome.consumed, 3);
    assert!(outcome.attached);
    assert_eq!(outcome.cleanups, 1);
}

#[test]
fn render_grid_lays_out_rows_by_columns() {
    let cells = vec![
        GridCell { line: 0, column: 0, ch: 'h' },
        GridCell { line: 0, column: 1, ch: 'i' },
        GridCell { line: 1, column: 2, ch: '!' },
    ];
    let grid = render_grid(3, 2, &cells);
    assert_eq!(grid.len(), 2);
    assert_eq!(grid[0], vec!['h', 'i', ' ']);
    assert_eq!(grid[1], vec![' ', ' ', '!']);
}

#[test]
fn render_grid_with_no_cells_is_all_blank() {
    let grid = render_grid(4, 3, &Vec::new());
    assert_eq!(grid.len(), 3);
    for row in &grid {
        assert_eq!(*row, vec![' ', ' ', ' ', ' ']);
    }
}

#[test]
fn render_grid_last_cell_wins_on_a_repeated_spot() {
    let cells = vec![
        GridCell { line: 0, column: 0, ch: 'a' },
        GridCell { line: 0, column: 0, ch: 'b' },
    ];
    let grid = render_grid(1, 1, &cells);
    assert_eq!(grid[0], vec!['b']);
}
