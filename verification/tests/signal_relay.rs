use pty_test::app::{Command, EngineEvent};
use pty_test::signals::{signal_relay_outputs, signal_step, Signal};

#[test]
fn continue_emits_resume_and_relay_goes_on() {
    let step = signal_step(Signal::Cont);
    assert_eq!(step.emit, Some(Command::Resume));
    assert!(!step.stop);
}

#[test]
fn window_change_emits_nothing_and_relay_goes_on() {
    let step = signal_step(Signal::WinCh);
    assert_eq!(step.emit, None);
    assert!(!step.stop);
}

#[test]
fn hangup_and_user_signal_end_relay_silently() {
    for sig in [Signal::Hup, Signal::Usr1] {
        let step = signal_step(sig);
        assert_eq!(step.emit, None);
        assert!(step.stop);
    }
}

#[test]
fn interrupt_and_alarm_emit_exit_request_and_end_relay() {
    for sig in [Signal::Int, Signal::Alrm] {
        let step = signal_step(sig);
        assert_eq!(step.emit, Some(Command::TerminalEvent(EngineEvent::Exit)));
        assert!(step.stop);
    }
}

#[test]
fn group_termination_and_unknown_signals_end_relay_silently() {
    for sig in [Signal::TermGroup, Signal::Other] {
        let step = signal_step(sig);
        assert_eq!(step.emit, None);
        assert!(step.stop);
    }
}

#[test]
fn relay_run_resumes_then_exits_on_interrupt() {
    let sigs = vec![Signal::Cont, Signal::WinCh, Signal::Cont, Signal::Int];
    let out = signal_relay_outputs(&sigs);
    assert_eq!(
        out,
        vec![
            Command::Resume,
            Command::Resume,
            Command::TerminalEvent(EngineEvent::Exit),
        ]
    );
    let exits = out
        .iter()
        .filter(|c| **c == Command::TerminalEvent(EngineEvent::Exit))
        .count();
    assert_eq!(exits, 1);
}

#[test]
fn relay_run_on_hangup_emits_nothing() {
    let out = signal_relay_outputs(&vec![Signal::Hup]);
    assert_eq!(out, vec![]);
}

#[test]
fn relay_never_translates_after_it_ended() {
    let sigs = vec![Signal::Int, Signal::Cont, Signal::Cont];
    let out = signal_relay_outputs(&sigs);
    assert_eq!(out, vec![Command::TerminalEvent(EngineEvent::Exit)]);
}
