use pty_test::app::{Command, EngineEvent, Msg, WindowSize};
use pty_test::tui::{input_event_to_command, input_relay_outputs, input_relay_step, InputEvent, InputRead};

#[test]
fn resize_maps_to_one_resize_directive() {
    let cmds = input_event_to_command(&InputEvent::Resize(80, 24));
    assert_eq!(
        cmds,
        vec![Command::Msg(Msg::Resize(WindowSize {
            num_lines: 24,
            num_cols: 80,
            cell_width: 1,
            cell_height: 1,
        }))]
    );
}

#[test]
fn ctrl_q_maps_to_exit() {
    let cmds = input_event_to_command(&InputEvent::Key { ch: 'q', ctrl: true });
    assert_eq!(cmds, vec![Command::Exit]);
}

#[test]
fn ctrl_z_maps_to_suspend() {
    let cmds = input_event_to_command(&InputEvent::Key { ch: 'z', ctrl: true });
    assert_eq!(cmds, vec![Command::Suspend]);
}

#[test]
fn ctrl_n_maps_to_next_window_then_wakeup() {
    let cmds = input_event_to_command(&InputEvent::Key { ch: 'n', ctrl: true });
    assert_eq!(
        cmds,
        vec![
            Command::NextWindow,
            Command::TerminalEvent(EngineEvent::Wakeup),
        ]
    );
}

#[test]
fn ctrl_p_maps_to_prev_window_then_wakeup() {
    let cmds = input_event_to_command(&InputEvent::Key { ch: 'p', ctrl: true });
    assert_eq!(
        cmds,
        vec![
            Command::PrevWindow,
            Command::TerminalEvent(EngineEvent::Wakeup),
        ]
    );
}

#[test]
fn other_input_maps_to_nothing() {
    assert_eq!(input_event_to_command(&InputEvent::Key { ch: 'q', ctrl: false }), vec![]);
    assert_eq!(input_event_to_command(&InputEvent::Key { ch: 'x', ctrl: true }), vec![]);
    assert_eq!(input_event_to_command(&InputEvent::Other), vec![]);
}

#[test]
fn relay_step_forwards_rotation_and_goes_on() {
    let step = input_relay_step(&InputRead::Event(InputEvent::Key { ch: 'n', ctrl: true }));
    assert_eq!(
        step.forward,
        vec![
            Command::NextWindow,
            Command::TerminalEvent(EngineEvent::Wakeup),
        ]
    );
    assert!(!step.done);
}

#[test]
fn relay_step_holds_back_exit_and_stops() {
    let step = input_relay_step(&InputRead::Event(InputEvent::Key { ch: 'q', ctrl: true }));
    assert_eq!(step.forward, vec![]);
    assert!(step.done);
}

#[test]
fn relay_step_stops_on_read_error() {
    let step = input_relay_step(&InputRead::ReadError);
    assert_eq!(step.forward, vec![]);
    assert!(step.done);
}

#[test]
fn relay_run_ends_with_exactly_one_exit() {
    let reads = vec![
        InputRead::Event(InputEvent::Key { ch: 'n', ctrl: true }),
        InputRead::Event(InputEvent::Other),
        InputRead::Event(InputEvent::Key { ch: 'q', ctrl: true }),
    ];
    let out = input_relay_outputs(&reads);
    assert_eq!(
        out,
        vec![
            Command::NextWindow,
            Command::TerminalEvent(EngineEvent::Wakeup),
            Command::Exit,
        ]
    );
    let exits = out.iter().filter(|c| **c == Command::Exit).count();
    assert_eq!(exits, 1);
}

#[test]
fn relay_run_on_immediate_read_error_sends_only_the_final_exit() {
    let out = input_relay_outputs(&vec![InputRead::ReadError]);
    assert_eq!(out, vec![Command::Exit]);
}

#[test]
fn relay_run_stops_reading_after_exit() {
    let reads = vec![
        InputRead::Event(InputEvent::Key { ch: 'q', ctrl: true }),
        InputRead::Event(InputEvent::Key { ch: 'n', ctrl: true }),
    ];
    let out = input_relay_outputs(&reads);
    assert_eq!(out, vec![Command::Exit]);
}
