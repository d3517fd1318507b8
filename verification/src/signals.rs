//! The signal relay's translation table.
//!
//! A dedicated thread blocks on a fixed set of OS signals and translates
//! each delivery into at most one command on the bus; some signals also
//! end the relay, and once ended it never translates again.  The decision
//! for a single delivery is `signal_step`; `signal_relay_outputs` gives
//! the commands a whole run of the relay sends for a finite delivery
//! sequence.

use crate::app::{exit_command_count, lemma_exit_count_add, lemma_exit_count_single, Command, EngineEvent};
use vstd::prelude::*;

verus! {

/// A delivered OS signal, as the relay distinguishes them.
#[derive(Debug, Clone, Copy, PartialEq, Eq)]
pub enum Signal {
    /// Continue after a process stop: the suspended terminal resumes.
    Cont,
    /// The controlling window changed size; observed, nothing emitted.
    WinCh,
    /// Hangup: the relay ends without emitting.
    Hup,
    /// User-defined signal one: the relay ends without emitting.
    Usr1,
    /// Interrupt: an exit request is emitted and the relay ends.
    Int,
    /// Alarm: an exit request is emitted and the relay ends.
    Alrm,
    /// A group-termination signal: the relay ends without emitting.
    TermGroup,
    /// Any other delivery: the relay ends without emitting.
    Other,
}

/// What the relay does with one delivered signal: the command it sends,
/// if any, and whether it stops translating afterwards.
#[derive(Debug, Clone, PartialEq, Eq)]
pub struct SignalStep {
    pub emit: Option<Command>,
    pub stop: bool,
}

/// The translation table for one delivered signal.
pub open spec fn spec_signal_step(sig: Signal) -> SignalStep {
    match sig {
        Signal::Cont => SignalStep { emit: Some(Command::Resume), stop: false },
        Signal::WinCh => SignalStep { emit: None, stop: false },
        Signal::Hup => SignalStep { emit: None, stop: true },
        Signal::Usr1 => SignalStep { emit: None, stop: true },
        Signal::Int => SignalStep {
            emit: Some(Command::TerminalEvent(EngineEvent::Exit)),
            stop: true,
        },
        Signal::Alrm => SignalStep {
            emit: Some(Command::TerminalEvent(EngineEvent::Exit)),
            stop: true,
        },
        Signal::TermGroup => SignalStep { emit: None, stop: true },
        Signal::Other => SignalStep { emit: None, stop: true },
    }
}

/// Translates one delivered signal: continue emits Resume and the relay
/// goes on; window-change emits nothing and the relay goes on; interrupt
/// and alarm emit an engine exit request and the relay ends; every other
/// delivery ends the relay without emitting.
pub fn signal_step(sig: Signal) -> (r: SignalStep)
    ensures
        r == spec_signal_step(sig),
{
    match sig {
        Signal::Cont => SignalStep { emit: Some(Command::Resume), stop: false },
        Signal::WinCh => SignalStep { emit: None, stop: false },
        Signal::Hup => SignalStep { emit: None, stop: true },
        Signal::Usr1 => SignalStep { emit: None, stop: true },
        Signal::Int => SignalStep {
            emit: Some(Command::TerminalEvent(EngineEvent::Exit)),
            stop: true,
        },
        Signal::Alrm => SignalStep {
            emit: Some(Command::TerminalEvent(EngineEvent::Exit)),
            stop: true,
        },
        Signal::TermGroup => SignalStep { emit: None, stop: true },
        Signal::Other => SignalStep { emit: None, stop: true },
    }
}

/// Whether one delivered signal ends the relay.
pub open spec fn stops_relay(sig: Signal) -> bool {
    spec_signal_step(sig).stop
}

/// The commands a relay run emits for the deliveries it consumes:
/// translation of each delivery in order, cut off at (and including)
/// the first one that ends the relay.
pub open spec fn spec_signal_outputs(sigs: Seq<Signal>) -> Seq<Command>
    decreases sigs.len(),
{
    if sigs.len() == 0 {
        Seq::empty()
    } else {
        let step = spec_signal_step(sigs[0]);
        let head: Seq<Command> = match step.emit {
            Some(c) => seq![c],
            None => Seq::empty(),
        };
        if step.stop {
            head
        } else {
            head + spec_signal_outputs(sigs.subrange(1, sigs.len() as int))
        }
    }
}

/// A whole run of the signal relay over a finite delivery sequence:
/// returns the commands sent, in order.  The relay consumes deliveries
/// up to and including the first one that ends it; `sigs` must contain
/// such a delivery, as a real run blocks forever otherwise.
pub fn signal_relay_outputs(sigs: &Vec<Signal>) -> (out: Vec<Command>)
    requires
        exists|i: int| 0 <= i < sigs@.len() && stops_relay(sigs@[i]),
    ensures
        out@ == spec_signal_outputs(sigs@),
{
    let mut out: Vec<Command> = Vec::new();
    let mut k: usize = 0;
    proof {
        assert(sigs@.subrange(0, sigs@.len() as int) =~= sigs@);
        assert(out@ + spec_signal_outputs(sigs@) =~= spec_signal_outputs(sigs@));
    }
    let n: usize = sigs.len();
    loop
        invariant_except_break
            sigs@.len() == n,
            0 <= k < sigs@.len(),
            exists|i: int| k <= i < sigs@.len() && stops_relay(sigs@[i]),
            spec_signal_outputs(sigs@) == out@ + spec_signal_outputs(
                sigs@.subrange(k as int, sigs@.len() as int),
            ),
        ensures
            out@ == spec_signal_outputs(sigs@),
        decreases sigs@.len() - k,
    {
        let step = signal_step(sigs[k]);
        proof {
            let rest = sigs@.subrange(k as int, sigs@.len() as int);
            assert(rest[0] == sigs@[k as int]);
            assert(rest.subrange(1, rest.len() as int) =~= sigs@.subrange(
                k as int + 1,
                sigs@.len() as int,
            ));
        }
        match step.emit {
            Some(c) => { out.push(c); },
            None => {},
        }
        if step.stop {
            break;
        }
        proof {
            let j = choose|i: int| k <= i < sigs@.len() && stops_relay(sigs@[i]);
            assert(j != k);
            assert(k + 1 <= j < sigs@.len() && stops_relay(sigs@[j]));
        }
        k = k + 1;
    }
    out
}

/// How a run of the relay ends decides what the render loop observes
/// from it: interrupt and alarm are the only endings that themselves
/// emit a termination request, and they emit exactly one, as the last
/// command of the run.  Every other ending emits no termination request
/// at all; the consumer then learns of the relay's death only when the
/// bus reports closure, which it treats as an exit.
pub proof fn lemma_signal_relay_exit_commands(sigs: Seq<Signal>)
    requires
        exists|i: int| 0 <= i < sigs.len() && stops_relay(sigs[i]),
    ensures
        ({
            let first = first_stop(sigs);
            let out = spec_signal_outputs(sigs);
            if sigs[first] == Signal::Int || sigs[first] == Signal::Alrm {
                &&& exit_command_count(out) == 1
                &&& out.len() > 0
                &&& out[out.len() - 1] == Command::TerminalEvent(EngineEvent::Exit)
            } else {
                exit_command_count(out) == 0
            }
        }),
    decreases sigs.len(),
{
    lemma_first_stop(sigs);
    let first = first_stop(sigs);
    let out = spec_signal_outputs(sigs);
    let step = spec_signal_step(sigs[0]);
    assert(exit_command_count(Seq::<Command>::empty()) == 0);
    if step.stop {
        assert(first == 0);
        match step.emit {
            Some(c) => {
                assert(out =~= seq![c]);
                lemma_exit_count_single(c);
            },
            None => {
                assert(out =~= Seq::<Command>::empty());
            },
        }
    } else {
        let rest = sigs.subrange(1, sigs.len() as int);
        let j = choose|i: int| 0 <= i < sigs.len() && stops_relay(sigs[i]);
        assert(j >= 1);
        assert(stops_relay(rest[j - 1]));
        lemma_signal_relay_exit_commands(rest);
        lemma_first_stop(rest);
        assert(first == 1 + first_stop(rest));
        assert(sigs[first] == rest[first_stop(rest)]);
        let head: Seq<Command> = match step.emit {
            Some(c) => seq![c],
            None => Seq::empty(),
        };
        let out_rest = spec_signal_outputs(rest);
        assert(out == head + out_rest);
        lemma_exit_count_add(head, out_rest);
        match step.emit {
            Some(c) => {
                assert(c == Command::Resume);
                lemma_exit_count_single(c);
                if out_rest.len() > 0 {
                    assert(out[out.len() - 1] == out_rest[out_rest.len() - 1]);
                }
            },
            None => {
                assert(head =~= Seq::<Command>::empty());
                assert(out =~= out_rest);
            },
        }
    }
}

/// When some delivery ends the relay, the first such delivery is at a
/// position inside the sequence, it ends the relay, and none before it
/// does.
pub proof fn lemma_first_stop(sigs: Seq<Signal>)
    requires
        exists|i: int| 0 <= i < sigs.len() && stops_relay(sigs[i]),
    ensures
        0 <= first_stop(sigs) < sigs.len(),
        stops_relay(sigs[first_stop(sigs)]),
        forall|i: int| 0 <= i < first_stop(sigs) ==> !stops_relay(sigs[i]),
    decreases sigs.len(),
{
    if !stops_relay(sigs[0]) {
        let rest = sigs.subrange(1, sigs.len() as int);
        let j = choose|i: int| 0 <= i < sigs.len() && stops_relay(sigs[i]);
        assert(j >= 1);
        assert(stops_relay(rest[j - 1]));
        lemma_first_stop(rest);
        assert forall|i: int| 0 <= i < first_stop(sigs) implies !stops_relay(sigs[i]) by {
            if i >= 1 {
                assert(sigs[i] == rest[i - 1]);
            }
        }
    }
}

/// The position of the first delivery that ends the relay.
pub open spec fn first_stop(sigs: Seq<Signal>) -> int
    decreases sigs.len(),
{
    if sigs.len() == 0 {
        0
    } else if stops_relay(sigs[0]) {
        0
    } else {
        1 + first_stop(sigs.subrange(1, sigs.len() as int))
    }
}

} // verus!
