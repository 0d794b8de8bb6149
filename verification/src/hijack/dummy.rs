//! Taking control of a forked dummy child. The child waits in its initial
//! stop; its register state is replaced with the pending original syscall
//! state so that, from the ptrace point of view, it looks just like the
//! parent. Signals that stop it are of no concern: it is about to be killed.

use vstd::prelude::*;

use crate::abi::{PTRACE_O_TRACESYSGOOD, SIGSTOP, SIGTRAP};
use crate::arch::{Arch, Regs, SyscallStop};
use crate::error::{msg, Error, ErrorView};
use crate::hijack::{Captured, Hijacker};
use crate::ptrace::Stop;
use crate::text;
use crate::text::{copy_text, push_signed};
use crate::tracee;
use crate::tracee::{Action, Event, Step, StepView};

verus! {

/// Which request is outstanding.
#[derive(Debug, Clone, Copy, PartialEq, Eq, Structural)]
pub enum Phase {
    /// Waiting for the initial stop.
    FirstStop,
    /// Asking for syscall stops that can be told from SIGTRAP.
    Arming,
    /// Writing the parent's state.
    Seeding,
    /// Letting the child run.
    Resuming,
    /// Waiting for the child to stop.
    Waiting,
    /// Finding out what kind of syscall stop it is.
    Classifying,
    /// Nothing is outstanding.
    Over,
}

/// A dummy child on its way to an entry stop.
pub struct Adopting<A: Arch> {
    tid: i32,
    saved: Regs<A::Raw>,
    saved_nr: u64,
    phase: Phase,
}

pub struct AdoptingView<R> {
    pub tid: i32,
    pub saved: Regs<R>,
    pub saved_nr: u64,
    pub phase: Phase,
}

impl<A: Arch> View for Adopting<A> {
    type V = AdoptingView<A::Raw>;

    closed spec fn view(&self) -> AdoptingView<A::Raw> {
        AdoptingView {
            tid: self.tid,
            saved: self.saved,
            saved_nr: self.saved_nr,
            phase: self.phase,
        }
    }
}

pub type Transition<R> = (AdoptingView<R>, StepView<R, Captured<R>>);

/// A stop as it is shown to the user.
pub open spec fn shown(stop: Stop) -> Seq<char> {
    match stop {
        Stop::Syscall => "Syscall"@,
        Stop::Signal(sig) => "Signal("@ + text::signed_decimal(sig as int) + ")"@,
        Stop::Event(event) => "Event("@ + text::signed_decimal(event as int) + ")"@,
        Stop::Exited => "Exited"@,
    }
}

pub open spec fn bad_first_stop(tid: i32, stop: Stop) -> ErrorView {
    ErrorView::Msg(
        "dummy child "@ + text::signed_decimal(tid as int) + " stopped unexpectedly: "@ + shown(
            stop,
        ),
    )
}

pub open spec fn ask<R>(d: AdoptingView<R>, phase: Phase, action: Action<R>) -> Transition<R> {
    (AdoptingView { phase, ..d }, StepView::Do(action))
}

pub open spec fn fail<R>(d: AdoptingView<R>, e: ErrorView) -> Transition<R> {
    (AdoptingView { phase: Phase::Over, ..d }, StepView::Finish(Err(e)))
}

pub open spec fn resume<R>(d: AdoptingView<R>) -> Transition<R> {
    ask(d, Phase::Resuming, Action::Resume { tid: d.tid, sig: 0 })
}

/// What happens with an answer.
pub open spec fn next<R>(d: AdoptingView<R>, ev: Event<R>) -> Transition<R> {
    match (d.phase, ev) {
        (_, Event::Failed(errno)) => fail(d, ErrorView::Os(errno)),
        (Phase::FirstStop, Event::Stopped(stop)) => if stop == Stop::Signal(SIGSTOP) || stop
            == Stop::Signal(SIGTRAP) {
            ask(
                d,
                Phase::Arming,
                Action::SetOptions { tid: d.tid, options: PTRACE_O_TRACESYSGOOD },
            )
        } else {
            fail(d, bad_first_stop(d.tid, stop))
        },
        (Phase::Arming, _) => ask(
            d,
            Phase::Seeding,
            Action::SetRegs { tid: d.tid, regs: d.saved },
        ),
        (Phase::Seeding, _) => resume(d),
        (Phase::Resuming, _) => ask(d, Phase::Waiting, Action::Wait { tid: d.tid }),
        (Phase::Waiting, Event::Stopped(stop)) => match stop {
            Stop::Syscall => ask(d, Phase::Classifying, Action::StopKind { tid: d.tid }),
            Stop::Exited => fail(d, ErrorView::Msg("dummy child exited during setup"@)),
            _ => resume(d),
        },
        (Phase::Classifying, Event::Kind(kind)) => if kind == SyscallStop::Entry {
            (
                AdoptingView { phase: Phase::Over, ..d },
                StepView::Finish(
                    Ok(
                        Captured {
                            tid: d.tid,
                            saved: d.saved,
                            raw_saved: d.saved,
                            saved_nr: d.saved_nr,
                        },
                    ),
                ),
            )
        } else {
            resume(d)
        },
        _ => arbitrary(),
    }
}

/// An adoption that has just begun, with its first step.
pub open spec fn begun<R>(tid: i32, saved: Regs<R>, saved_nr: u64) -> Transition<R> {
    (
        AdoptingView { tid, saved, saved_nr, phase: Phase::FirstStop },
        StepView::Do(Action::Wait { tid }),
    )
}

/// Whether `ev` can be the answer that is waited for.
pub open spec fn expects<R>(d: AdoptingView<R>, ev: Event<R>) -> bool {
    match d.phase {
        Phase::FirstStop | Phase::Waiting => ev is Stopped || ev is Failed,
        Phase::Classifying => ev is Kind,
        Phase::Over => false,
        _ => ev is Done || ev is Failed,
    }
}

/// A stop as it is shown to the user.
fn show(stop: Stop) -> (r: String)
    ensures
        r@ == shown(stop),
{
    match stop {
        Stop::Syscall => copy_text("Syscall"),
        Stop::Signal(sig) => {
            let mut m: String = copy_text("Signal(");
            push_signed(&mut m, sig as i64);
            m.append(")");
            m
        },
        Stop::Event(event) => {
            let mut m: String = copy_text("Event(");
            push_signed(&mut m, event as i64);
            m.append(")");
            m
        },
        Stop::Exited => copy_text("Exited"),
    }
}

impl<A: Arch> Hijacker<A> {
    /// Build a remote-syscall handle for a forked dummy child, from the
    /// state of its parent.
    pub fn for_dummy(tid: i32, saved: Regs<A::Raw>, saved_nr: u64) -> (r: (
        Adopting<A>,
        Step<A::Raw, Captured<A::Raw>>,
    ))
        ensures
            r.0@ == (AdoptingView { tid, saved, saved_nr, phase: Phase::FirstStop }),
            r.1@ == StepView::<A::Raw, Captured<A::Raw>>::Do(Action::Wait { tid }),
            (r.0@, r.1@) == begun::<A::Raw>(tid, saved, saved_nr),
    {
        (
            Adopting { tid, saved, saved_nr, phase: Phase::FirstStop },
            Step::Do(Action::Wait { tid }),
        )
    }
}

impl<A: Arch> Adopting<A> {
    fn ask(&mut self, phase: Phase, action: Action<A::Raw>) -> (r: Step<A::Raw, Captured<A::Raw>>)
        ensures
            (final(self)@, r@) == ask(old(self)@, phase, action),
    {
        self.phase = phase;
        Step::Do(action)
    }

    fn fail(&mut self, e: Error) -> (r: Step<A::Raw, Captured<A::Raw>>)
        ensures
            (final(self)@, r@) == fail(old(self)@, e@),
    {
        self.phase = Phase::Over;
        Step::Finish(Err(e))
    }

    fn resume(&mut self) -> (r: Step<A::Raw, Captured<A::Raw>>)
        ensures
            (final(self)@, r@) == resume(old(self)@),
    {
        let tid: i32 = self.tid;
        self.ask(Phase::Resuming, Action::Resume { tid, sig: 0 })
    }

    /// Go on, now that the request was answered.
    pub fn step(&mut self, ev: Event<A::Raw>) -> (r: Step<A::Raw, Captured<A::Raw>>)
        requires
            expects(old(self)@, ev),
        ensures
            (final(self)@, r@) == next(old(self)@, ev),
    {
        let tid: i32 = self.tid;
        match (self.phase, ev) {
            (_, Event::Failed(errno)) => self.fail(Error::Os(errno)),
            (Phase::FirstStop, Event::Stopped(stop)) => if stop == Stop::Signal(SIGSTOP) || stop
                == Stop::Signal(SIGTRAP) {
                self.ask(
                    Phase::Arming,
                    Action::SetOptions { tid, options: PTRACE_O_TRACESYSGOOD },
                )
            } else {
                let mut m: String = copy_text("dummy child ");
                push_signed(&mut m, tid as i64);
                m.append(" stopped unexpectedly: ");
                m.append(show(stop).as_str());
                self.fail(Error::Msg(m))
            },
            (Phase::Arming, _) => {
                let regs: Regs<A::Raw> = self.saved;
                self.ask(Phase::Seeding, Action::SetRegs { tid, regs })
            },
            (Phase::Seeding, _) => self.resume(),
            (Phase::Resuming, _) => self.ask(Phase::Waiting, Action::Wait { tid }),
            (Phase::Waiting, Event::Stopped(stop)) => match stop {
                Stop::Syscall => self.ask(Phase::Classifying, Action::StopKind { tid }),
                Stop::Exited => self.fail(msg("dummy child exited during setup")),
                _ => self.resume(),
            },
            (Phase::Classifying, Event::Kind(kind)) => if kind == SyscallStop::Entry {
                self.phase = Phase::Over;
                Step::Finish(
                    Ok(
                        Captured {
                            tid,
                            saved: self.saved,
                            raw_saved: self.saved,
                            saved_nr: self.saved_nr,
                        },
                    ),
                )
            } else {
                self.resume()
            },
            // No other answer is expected.
            _ => self.fail(Error::Os(0)),
        }
    }
}

/// The registers of the child become those of its parent before it runs:
/// every path to its first run goes through writing them.
pub proof fn dummy_runs_as_its_parent<R>(d: AdoptingView<R>, ev: Event<R>)
    requires
        expects(d, ev),
        d.phase == Phase::FirstStop || d.phase == Phase::Arming,
    ensures
        match next(d, ev).1 {
            StepView::Do(Action::SetOptions { .. }) => d.phase == Phase::FirstStop && next(
                d,
                ev,
            ).0.phase == Phase::Arming,
            StepView::Do(Action::SetRegs { tid, regs }) => d.phase == Phase::Arming && tid == d.tid
                && regs == d.saved,
            StepView::Do(_) => false,
            StepView::Finish(r) => r is Err,
        },
{
}

/// Whatever a request can bring back, the adoption is prepared for it.
pub proof fn every_answer_is_expected<R>(
    d: AdoptingView<R>,
    ev: Event<R>,
    action: Action<R>,
    answer: Event<R>,
)
    requires
        expects(d, ev),
        next(d, ev).1 == StepView::<R, Captured<R>>::Do(action),
        tracee::answers(action, answer),
    ensures
        expects(next(d, ev).0, answer),
{
}

/// The adoption of a dummy fails for a reason, and says which: a request
/// failed, its first stop was not by SIGSTOP or SIGTRAP, or it exited. It
/// succeeds at the first entry stop, with the child and its parent's state,
/// and after every other answer it goes on: it arms the child, gives it the
/// state, and lets it run until that stop, however often it stops on the
/// way.
pub proof fn adoption_ends_for_a_reason<R>(d: AdoptingView<R>, ev: Event<R>)
    requires
        expects(d, ev),
    ensures
        ({
            let (t, step) = next(d, ev);
            let failed = step matches StepView::Finish(Err(_));
            let e = step->Finish_0->Err_0;
            let run = StepView::<R, Captured<R>>::Do(Action::Resume { tid: d.tid, sig: 0 });
            &&& t.tid == d.tid && t.saved == d.saved && t.saved_nr == d.saved_nr
            &&& match ev {
                Event::Failed(errno) => failed && e == ErrorView::Os(errno),
                Event::Stopped(stop) => if d.phase == Phase::FirstStop {
                    &&& failed <==> stop != Stop::Signal(19) && stop != Stop::Signal(5)
                    &&& failed ==> e == ErrorView::Msg(
                        "dummy child "@ + text::signed_decimal(d.tid as int)
                            + " stopped unexpectedly: "@ + shown(stop),
                    )
                    &&& !failed ==> t.phase == Phase::Arming && step == StepView::<
                        R,
                        Captured<R>,
                    >::Do(Action::SetOptions { tid: d.tid, options: 1 })
                } else {
                    &&& failed <==> stop == Stop::Exited
                    &&& failed ==> e == ErrorView::Msg("dummy child exited during setup"@)
                    &&& stop == Stop::Syscall ==> t.phase == Phase::Classifying && step
                        == StepView::<R, Captured<R>>::Do(Action::StopKind { tid: d.tid })
                    &&& stop is Signal || stop is Event ==> t.phase == Phase::Resuming && step
                        == run
                },
                Event::Kind(kind) => if kind == SyscallStop::Entry {
                    step == StepView::<R, Captured<R>>::Finish(
                        Ok(
                            Captured {
                                tid: d.tid,
                                saved: d.saved,
                                raw_saved: d.saved,
                                saved_nr: d.saved_nr,
                            },
                        ),
                    )
                } else {
                    t.phase == Phase::Resuming && step == run
                },
                _ => match d.phase {
                    Phase::Arming => t.phase == Phase::Seeding && step == StepView::<
                        R,
                        Captured<R>,
                    >::Do(Action::SetRegs { tid: d.tid, regs: d.saved }),
                    Phase::Seeding => t.phase == Phase::Resuming && step == run,
                    _ => t.phase == Phase::Waiting && step == StepView::<R, Captured<R>>::Do(
                        Action::Wait { tid: d.tid },
                    ),
                },
            }
        }),
{
}

/// Stops are shown by their kind and their number.
pub proof fn stops_are_shown_by_name(n: nat)
    requires
        n <= i32::MAX,
    ensures
        shown(Stop::Syscall) == "Syscall"@,
        shown(Stop::Exited) == "Exited"@,
        shown(Stop::Signal(n as i32)) == "Signal("@ + text::decimal(n) + ")"@,
        shown(Stop::Event(n as i32)) == "Event("@ + text::decimal(n) + ")"@,
{
}

/// An adoption waits for the child first, and knows the parent's state.
pub proof fn adoption_begins_with_the_first_stop<R>(tid: i32, saved: Regs<R>, saved_nr: u64)
    ensures
        ({
            let (d, step) = begun::<R>(tid, saved, saved_nr);
            &&& step == StepView::<R, Captured<R>>::Do(Action::Wait { tid })
            &&& d.tid == tid && d.saved == saved && d.saved_nr == saved_nr
            &&& d.phase == Phase::FirstStop
        }),
{
}

} // verus!
