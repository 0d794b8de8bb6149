//! Syscall-hijack engine.
//!
//! No tracee memory is patched and no instruction is fabricated. A thread
//! is driven to a natural syscall-entry stop (PTRACE_SYSCALL with
//! TRACESYSGOOD) and the syscall number and arguments are swapped
//! temporarily. After each injected syscall only the instruction pointer
//! is rewound, so the next resume re-enters at the same syscall
//! instruction; that re-entry is immediately overwritten by the next
//! injection and never dispatches. The original syscall stays saved, with
//! architecture fixups applied, until it is restored and runs, so no
//! syscall is ever lost.

use vstd::prelude::*;

use crate::abi::{
    PTRACE_EVENT_FORK, PTRACE_O_TRACEFORK, PTRACE_O_TRACESYSGOOD, SIGCHLD,
};
use crate::arch::{Arch, Regs, SyscallStop};
use crate::error::{msg, Error, ErrorView};
use crate::ptrace::Stop;
use crate::text;
use crate::text::{copy_text, push_signed};
use crate::tracee;
use crate::tracee::{Action, Event, Log, Missed, Step, StepView};

pub mod dummy;
pub mod seize;

verus! {

/// A syscall to run inside the tracee.
#[derive(Clone, Copy)]
pub struct Call {
    pub nr: u64,
    pub args: [u64; 6],
    /// Whether it forks, so that it surfaces as a fork event.
    pub fork: bool,
}

/// Which request of the current operation is outstanding.
#[derive(Clone, Copy)]
pub enum Phase<R> {
    /// No operation is under way.
    Idle,
    /// Asking for fork events.
    Arm,
    /// Rewinding the instruction pointer: reading the registers.
    RewindRead,
    /// Rewinding the instruction pointer: writing the registers.
    RewindWrite,
    /// Letting the thread run toward the wanted stop.
    Resuming(SyscallStop),
    /// Waiting for the thread to stop.
    Waiting(SyscallStop),
    /// Finding out what kind of syscall stop it is.
    Classifying(SyscallStop),
    /// Injecting: reading the registers.
    InjectRead,
    /// Injecting: writing the number word; the registers come next.
    InjectNumber(Regs<R>),
    /// Injecting: writing the registers.
    InjectWrite,
    /// Reading the result of the injected call.
    ResultRead,
    /// Letting the forking thread run.
    ForkResuming,
    /// Waiting for the fork event.
    ForkWaiting,
    /// Asking for the child's pid.
    ForkChild,
    /// Asking for no more fork events.
    Disarm(i32),
}

/// What an operation brought.
#[derive(Debug, Clone, Copy, PartialEq, Eq, Structural)]
pub enum Reply {
    /// The raw return value of a syscall; negative values are -errno.
    Value(i64),
    /// The pid of a forked child.
    Child(i32),
}

/// A thread under control, whose original syscall is pending.
pub struct Hijacker<A: Arch> {
    tid: i32,
    /// Register state of the pending original syscall, captured at its
    /// entry stop with [`Arch::save_fixup`] applied.
    saved: Regs<A::Raw>,
    /// The same state without the fixup, for the error path: restoring
    /// it at an entry stop lets the syscall continue cleanly.
    raw_saved: Regs<A::Raw>,
    /// The pending original syscall number (kept outside `saved` on
    /// architectures that carry it in a number word).
    saved_nr: u64,
    /// The signals that were swallowed while the thread was under control;
    /// re-delivered on detach.
    missed: Vec<Missed>,
    /// Whether the tracee currently sits at a syscall-entry stop.
    /// Injected syscalls leave it at an exit stop; the next injection
    /// first rewinds the instruction pointer to get a fresh entry stop.
    /// It is cleared as soon as the tracee is let go, so that it is right
    /// even when the operation fails midway.
    at_entry: bool,
    /// The call of the current operation.
    call: Call,
    phase: Phase<A::Raw>,
}

/// What a [`Hijacker`] remembers.
pub struct HijackerView<R> {
    pub tid: i32,
    pub saved: Regs<R>,
    pub raw_saved: Regs<R>,
    pub saved_nr: u64,
    pub missed: Seq<Missed>,
    pub at_entry: bool,
    pub call: Call,
    pub phase: Phase<R>,
}

impl<A: Arch> View for Hijacker<A> {
    type V = HijackerView<A::Raw>;

    closed spec fn view(&self) -> HijackerView<A::Raw> {
        HijackerView {
            tid: self.tid,
            saved: self.saved,
            raw_saved: self.raw_saved,
            saved_nr: self.saved_nr,
            missed: self.missed@,
            at_entry: self.at_entry,
            call: self.call,
            phase: self.phase,
        }
    }
}

pub open spec fn exited_during_hijack(tid: i32) -> ErrorView {
    ErrorView::Msg("thread "@ + text::signed_decimal(tid as int) + " exited during hijack"@)
}

pub open spec fn unexpected_fork_event(event: i32) -> ErrorView {
    ErrorView::Msg(
        "unexpected ptrace event "@ + text::signed_decimal(event as int) + " during fork"@,
    )
}

/// Whether the call is the clone that forks, which asks for SIGCHLD when
/// the child exits and for nothing else.
pub open spec fn is_fork<A: Arch>(call: Call) -> bool {
    &&& call.fork
    &&& call.nr == A::numbers().clone
    &&& call.args@ == seq![17u64, 0, 0, 0, 0, 0]
}

/// A thread at a syscall-entry stop, with what it takes to put its pending
/// syscall back.
#[derive(Debug, Clone, Copy)]
pub struct Captured<R> {
    pub tid: i32,
    pub saved: Regs<R>,
    pub raw_saved: Regs<R>,
    pub saved_nr: u64,
}

// ---------------------------------------------------------------------
// The engine's transitions
// ---------------------------------------------------------------------

/// The engine and its next step.
pub type Transition<R> = (HijackerView<R>, StepView<R, Reply>);

/// Ask for `action` and expect its answer in `phase`.
pub open spec fn ask<R>(h: HijackerView<R>, phase: Phase<R>, action: Action<R>) -> Transition<R> {
    (HijackerView { phase, ..h }, StepView::Do(action))
}

/// End the operation without a result.
pub open spec fn fail<R>(h: HijackerView<R>, e: ErrorView) -> Transition<R> {
    (HijackerView { phase: Phase::Idle, ..h }, StepView::Finish(Err(e)))
}

/// Let the thread run, delivering nothing, toward the wanted stop.
pub open spec fn resume<R>(h: HijackerView<R>, want: SyscallStop) -> Transition<R> {
    ask(h, Phase::Resuming(want), Action::Resume { tid: h.tid, sig: 0 })
}

/// Let the forking thread run, delivering nothing.
pub open spec fn resume_fork<R>(h: HijackerView<R>) -> Transition<R> {
    ask(h, Phase::ForkResuming, Action::Resume { tid: h.tid, sig: 0 })
}

/// Once it runs, the thread is at no entry stop any more.
pub open spec fn left_behind<R>(h: HijackerView<R>) -> HijackerView<R> {
    HijackerView { at_entry: false, ..h }
}

/// Go for a fresh entry stop, by way of a rewind where the thread is not at
/// one.
pub open spec fn enter<R>(h: HijackerView<R>) -> Transition<R> {
    ask(
        h,
        if h.at_entry {
            Phase::InjectRead
        } else {
            Phase::RewindRead
        },
        Action::GetRegs { tid: h.tid },
    )
}

/// The registers that make the entry stop with registers `r` dispatch
/// `call`.
pub open spec fn injected<A: Arch>(r: Regs<A::Raw>, call: Call) -> Regs<A::Raw> {
    Regs(A::with_args(A::with_nr(r.0, call.nr), call.args@))
}

/// The registers `r` with the instruction pointer back at the syscall
/// instruction.
pub open spec fn rewound<A: Arch>(r: Regs<A::Raw>, saved: Regs<A::Raw>) -> Regs<A::Raw> {
    Regs(A::with_ip(r.0, A::ip(saved.0)))
}

/// The thread stopped while the engine waits for the wanted syscall stop.
pub open spec fn on_stop<R>(h: HijackerView<R>, want: SyscallStop, stop: Stop) -> Transition<R> {
    match stop {
        Stop::Syscall => ask(h, Phase::Classifying(want), Action::StopKind { tid: h.tid }),
        Stop::Signal(sig) => resume(
            HijackerView { missed: tracee::noted(h.missed, h.tid, sig), ..h },
            want,
        ),
        Stop::Event(_) => resume(h, want),
        Stop::Exited => fail(h, exited_during_hijack(h.tid)),
    }
}

/// The thread stopped while the engine waits for the fork event.
pub open spec fn on_fork_stop<R>(h: HijackerView<R>, stop: Stop) -> Transition<R> {
    match stop {
        Stop::Event(event) => if event == PTRACE_EVENT_FORK {
            ask(h, Phase::ForkChild, Action::EventMessage { tid: h.tid })
        } else {
            fail(h, unexpected_fork_event(event))
        },
        Stop::Signal(sig) => resume_fork(
            HijackerView { missed: tracee::noted(h.missed, h.tid, sig), ..h },
        ),
        _ => fail(h, ErrorView::Msg("target did not report a fork event"@)),
    }
}

/// What kind of syscall stop the thread is at became known.
pub open spec fn on_kind<R>(h: HijackerView<R>, want: SyscallStop, kind: SyscallStop) -> Transition<
    R,
> {
    if kind != want && kind != SyscallStop::Unknown {
        resume(h, want)
    } else if want == SyscallStop::Entry {
        ask(
            HijackerView { at_entry: true, ..h },
            Phase::InjectRead,
            Action::GetRegs { tid: h.tid },
        )
    } else {
        ask(h, Phase::ResultRead, Action::GetRegs { tid: h.tid })
    }
}

/// What the engine does with an answer.
pub open spec fn next<A: Arch>(h: HijackerView<A::Raw>, ev: Event<A::Raw>) -> Transition<A::Raw> {
    match ev {
        Event::Failed(errno) => fail(h, ErrorView::Os(errno)),
        _ => match (h.phase, ev) {
            (Phase::Arm, _) => enter(h),
            (Phase::RewindRead, Event::Registers(r)) => ask(
                h,
                Phase::RewindWrite,
                Action::SetRegs { tid: h.tid, regs: rewound::<A>(r, h.saved) },
            ),
            (Phase::RewindWrite, _) => resume(h, SyscallStop::Entry),
            (Phase::Resuming(want), _) => ask(
                left_behind(h),
                Phase::Waiting(want),
                Action::Wait { tid: h.tid },
            ),
            (Phase::Waiting(want), Event::Stopped(stop)) => on_stop(h, want, stop),
            (Phase::Classifying(want), Event::Kind(kind)) => on_kind(h, want, kind),
            (Phase::InjectRead, Event::Registers(r)) => match A::nr_word(h.call.nr) {
                Some(word) => ask(
                    h,
                    Phase::InjectNumber(injected::<A>(r, h.call)),
                    Action::SetNr { tid: h.tid, word },
                ),
                None => ask(
                    h,
                    Phase::InjectWrite,
                    Action::SetRegs { tid: h.tid, regs: injected::<A>(r, h.call) },
                ),
            },
            (Phase::InjectNumber(regs), _) => ask(
                h,
                Phase::InjectWrite,
                Action::SetRegs { tid: h.tid, regs },
            ),
            (Phase::InjectWrite, _) => if h.call.fork {
                resume_fork(h)
            } else {
                resume(h, SyscallStop::Exit)
            },
            (Phase::ResultRead, Event::Registers(r)) => (
                HijackerView { phase: Phase::Idle, ..h },
                StepView::Finish(Ok(Reply::Value(A::result(r.0)))),
            ),
            (Phase::ForkResuming, _) => ask(
                left_behind(h),
                Phase::ForkWaiting,
                Action::Wait { tid: h.tid },
            ),
            (Phase::ForkWaiting, Event::Stopped(stop)) => on_fork_stop(h, stop),
            (Phase::ForkChild, Event::Message(message)) => ask(
                h,
                Phase::Disarm(message as i32),
                Action::SetOptions { tid: h.tid, options: PTRACE_O_TRACESYSGOOD },
            ),
            (Phase::Disarm(child), _) => (
                HijackerView { phase: Phase::Idle, ..h },
                StepView::Finish(Ok(Reply::Child(child))),
            ),
            _ => arbitrary(),
        },
    }
}

/// Whether `ev` can be the answer that the engine is waiting for.
pub open spec fn expects<R>(h: HijackerView<R>, ev: Event<R>) -> bool {
    match h.phase {
        Phase::Idle => false,
        Phase::RewindRead | Phase::InjectRead | Phase::ResultRead => ev is Registers
            || ev is Failed,
        Phase::Waiting(_) | Phase::ForkWaiting => ev is Stopped || ev is Failed,
        Phase::Classifying(_) => ev is Kind,
        Phase::ForkChild => ev is Message || ev is Failed,
        _ => ev is Done || ev is Failed,
    }
}

// ---------------------------------------------------------------------
// Laws
// ---------------------------------------------------------------------

/// Whether each of `evs` can be the answer that the engine is waiting for
/// when it comes.
pub open spec fn accepts<A: Arch>(h: HijackerView<A::Raw>, evs: Seq<Event<A::Raw>>) -> bool
    decreases evs.len(),
{
    evs.len() > 0 ==> expects(h, evs[0]) && accepts::<A>(next::<A>(h, evs[0]).0, evs.skip(1))
}

/// The engine after the answers `evs`.
pub open spec fn engine_after<A: Arch>(
    h: HijackerView<A::Raw>,
    evs: Seq<Event<A::Raw>>,
) -> HijackerView<A::Raw>
    decreases evs.len(),
{
    if evs.len() == 0 {
        h
    } else {
        engine_after::<A>(next::<A>(h, evs[0]).0, evs.skip(1))
    }
}

/// Whatever the kernel answers, the engine keeps the captured state of the
/// thread.
pub proof fn captured_state_is_kept<A: Arch>(h: HijackerView<A::Raw>, evs: Seq<Event<A::Raw>>)
    requires
        accepts::<A>(h, evs),
    ensures
        ({
            let end = engine_after::<A>(h, evs);
            &&& end.tid == h.tid
            &&& end.saved == h.saved
            &&& end.raw_saved == h.raw_saved
            &&& end.saved_nr == h.saved_nr
        }),
    decreases evs.len(),
{
    if evs.len() > 0 {
        captured_state_is_kept::<A>(next::<A>(h, evs[0]).0, evs.skip(1));
    }
}

/// Every request of the engine is about its own thread, and no signal is
/// delivered to the thread while it is under control.
pub proof fn nothing_is_delivered_under_control<A: Arch>(
    h: HijackerView<A::Raw>,
    ev: Event<A::Raw>,
)
    requires
        expects(h, ev),
    ensures
        next::<A>(h, ev).1 matches StepView::Do(action) ==> match action {
            Action::Resume { tid, sig } => tid == h.tid && sig == 0,
            Action::Wait { tid } => tid == h.tid,
            Action::StopKind { tid } => tid == h.tid,
            Action::GetRegs { tid } => tid == h.tid,
            Action::SetRegs { tid, .. } => tid == h.tid,
            Action::SetNr { tid, .. } => tid == h.tid,
            Action::SetOptions { tid, .. } => tid == h.tid,
            Action::EventMessage { tid } => tid == h.tid,
            _ => false,
        },
{
}

/// An operation of the engine, with what the kernel answered on the way.
pub struct Operation<R> {
    pub call: Call,
    pub evs: Seq<Event<R>>,
}

/// The engine and its first step, when it is told to run the call.
pub open spec fn told<R>(h: HijackerView<R>, call: Call) -> Transition<R> {
    if call.fork {
        ask(
            HijackerView { call, ..h },
            Phase::Arm,
            Action::SetOptions {
                tid: h.tid,
                options: (PTRACE_O_TRACESYSGOOD + PTRACE_O_TRACEFORK) as i32,
            },
        )
    } else {
        enter(HijackerView { call, ..h })
    }
}

/// The engine once the operations have been run, one after the other.
pub open spec fn engine_once<A: Arch>(
    h: HijackerView<A::Raw>,
    ops: Seq<Operation<A::Raw>>,
) -> HijackerView<A::Raw>
    decreases ops.len(),
{
    if ops.len() == 0 {
        h
    } else {
        let op = ops.last();
        engine_after::<A>(told(engine_once::<A>(h, ops.drop_last()), op.call).0, op.evs)
    }
}

/// Whether each answer of the operations can be the one that the engine is
/// waiting for when it comes.
pub open spec fn all_accepted<A: Arch>(
    h: HijackerView<A::Raw>,
    ops: Seq<Operation<A::Raw>>,
) -> bool
    decreases ops.len(),
{
    ops.len() > 0 ==> {
        &&& all_accepted::<A>(h, ops.drop_last())
        &&& accepts::<A>(
            told(engine_once::<A>(h, ops.drop_last()), ops.last().call).0,
            ops.last().evs,
        )
    }
}

/// The requests from `step` on that were answered by `evs`, with their
/// answers.
pub open spec fn log<A: Arch>(
    h: HijackerView<A::Raw>,
    step: StepView<A::Raw, Reply>,
    evs: Seq<Event<A::Raw>>,
) -> Log<A::Raw>
    decreases evs.len(),
{
    if evs.len() == 0 {
        Seq::empty()
    } else {
        let (h2, step2) = next::<A>(h, evs[0]);
        seq![(step->Do_0, evs[0])] + log::<A>(h2, step2, evs.skip(1))
    }
}

/// The requests of the operations, with their answers.
pub open spec fn log_once<A: Arch>(
    h: HijackerView<A::Raw>,
    ops: Seq<Operation<A::Raw>>,
) -> Log<A::Raw>
    decreases ops.len(),
{
    if ops.len() == 0 {
        Seq::empty()
    } else {
        let op = ops.last();
        let (h1, step1) = told(engine_once::<A>(h, ops.drop_last()), op.call);
        log_once::<A>(h, ops.drop_last()) + log::<A>(h1, step1, op.evs)
    }
}

/// Which requests a waiting engine made.
spec fn asks<R>(h: HijackerView<R>, step: StepView<R, Reply>) -> bool {
    h.phase is Idle || {
        &&& step matches StepView::Do(action)
        &&& h.phase is Waiting || h.phase is ForkWaiting ==> action == Action::<R>::Wait {
            tid: h.tid,
        }
        &&& !(action is Detach || action is Send)
        &&& action matches Action::Resume { sig, .. } ==> sig == 0
    }
}

proof fn lemma_signals_of_log<A: Arch>(
    h: HijackerView<A::Raw>,
    step: StepView<A::Raw, Reply>,
    evs: Seq<Event<A::Raw>>,
)
    requires
        asks(h, step),
        accepts::<A>(h, evs),
    ensures
        engine_after::<A>(h, evs).missed == h.missed + tracee::swallowed(log::<A>(h, step, evs)),
        tracee::delivered(log::<A>(h, step, evs)) == Seq::<Missed>::empty(),
        tracee::detached(log::<A>(h, step, evs)) == Seq::<i32>::empty(),
    decreases evs.len(),
{
    if evs.len() == 0 {
        assert(h.missed =~= h.missed + tracee::swallowed(log::<A>(h, step, evs)));
    } else {
        let (h2, step2) = next::<A>(h, evs[0]);
        let head: Log<A::Raw> = seq![(step->Do_0, evs[0])];
        lemma_signals_of_log::<A>(h2, step2, evs.skip(1));
        tracee::lemma_logs_add_up(head, log::<A>(h2, step2, evs.skip(1)));
        assert(head.drop_last() =~= Seq::empty());
        reveal_with_fuel(tracee::swallowed, 2);
        reveal_with_fuel(tracee::delivered, 2);
        reveal_with_fuel(tracee::detached, 2);
        assert(h2.missed =~= h.missed + tracee::swallowed(head));
        assert(engine_after::<A>(h, evs).missed =~= h.missed + tracee::swallowed(
            log::<A>(h, step, evs),
        ));
    }
}

/// Whatever operations are run and however they end, the engine keeps every
/// signal of the thread's own that stopped the thread meanwhile, delivers
/// nothing, and does not let the thread go.
pub proof fn swallowed_signals_are_kept<A: Arch>(
    h: HijackerView<A::Raw>,
    ops: Seq<Operation<A::Raw>>,
)
    requires
        all_accepted::<A>(h, ops),
    ensures
        engine_once::<A>(h, ops).missed == h.missed + tracee::swallowed(log_once::<A>(h, ops)),
        tracee::delivered(log_once::<A>(h, ops)) == Seq::<Missed>::empty(),
        tracee::detached(log_once::<A>(h, ops)) == Seq::<i32>::empty(),
    decreases ops.len(),
{
    if ops.len() == 0 {
        assert(h.missed =~= h.missed + tracee::swallowed(log_once::<A>(h, ops)));
    } else {
        let front = ops.drop_last();
        let op = ops.last();
        swallowed_signals_are_kept::<A>(h, front);
        let (h1, step1) = told(engine_once::<A>(h, front), op.call);
        lemma_signals_of_log::<A>(h1, step1, op.evs);
        tracee::lemma_logs_add_up(log_once::<A>(h, front), log::<A>(h1, step1, op.evs));
        assert(engine_once::<A>(h, ops).missed =~= h.missed + tracee::swallowed(
            log_once::<A>(h, ops),
        ));
    }
}

/// The registers that the engine writes are those that it just read, with
/// only the instruction pointer moved, or with only the syscall number and
/// the arguments replaced.
pub proof fn registers_are_barely_touched<A: Arch>(h: HijackerView<A::Raw>, r: Regs<A::Raw>)
    requires
        expects(h, Event::Registers(r)),
    ensures
        match next::<A>(h, Event::Registers(r)) {
            (_, StepView::Do(Action::SetRegs { regs, .. })) => {
                ||| regs.0 == A::with_ip(r.0, A::ip(h.saved.0))
                ||| regs.0 == A::with_args(A::with_nr(r.0, h.call.nr), h.call.args@)
            },
            (h2, StepView::Do(Action::SetNr { word, .. })) => {
                &&& A::nr_word(h.call.nr) == Some(word)
                &&& h2.phase == Phase::InjectNumber(
                    Regs(A::with_args(A::with_nr(r.0, h.call.nr), h.call.args@)),
                )
            },
            (_, StepView::Finish(Ok(reply))) => reply == Reply::Value(A::result(r.0)),
            _ => false,
        },
{
}

/// Whatever a request can bring back, the engine is prepared for it: from
/// the first request of an operation on, and after every answer.
pub proof fn every_answer_is_expected<A: Arch>(
    h: HijackerView<A::Raw>,
    ev: Event<A::Raw>,
    action: Action<A::Raw>,
    answer: Event<A::Raw>,
)
    requires
        tracee::answers(action, answer),
        enter(h).1 == StepView::<A::Raw, Reply>::Do(action) || (expects(h, ev) && next::<A>(
            h,
            ev,
        ).1 == StepView::<A::Raw, Reply>::Do(action)),
    ensures
        enter(h).1 == StepView::<A::Raw, Reply>::Do(action) ==> expects(enter(h).0, answer),
        expects(h, ev) && next::<A>(h, ev).1 == StepView::<A::Raw, Reply>::Do(action) ==> expects(
            next::<A>(h, ev).0,
            answer,
        ),
{
}

/// An operation fails for a reason, and says which: a request failed, the
/// thread exited, or a fork did not surface as one. No other answer ends it
/// without a result.
pub proof fn operation_fails_for_a_reason<A: Arch>(h: HijackerView<A::Raw>, ev: Event<A::Raw>)
    requires
        expects(h, ev),
    ensures
        ({
            let failed = next::<A>(h, ev).1 matches StepView::Finish(Err(_));
            let e = next::<A>(h, ev).1->Finish_0->Err_0;
            &&& ev matches Event::Failed(errno) ==> failed && e == ErrorView::Os(errno)
            &&& ev matches Event::Stopped(Stop::Exited) ==> failed && e == (if h.phase
                is ForkWaiting {
                ErrorView::Msg("target did not report a fork event"@)
            } else {
                ErrorView::Msg(
                    "thread "@ + text::signed_decimal(h.tid as int) + " exited during hijack"@,
                )
            })
            &&& ev matches Event::Stopped(Stop::Syscall) ==> {
                &&& failed <==> h.phase is ForkWaiting
                &&& failed ==> e == ErrorView::Msg("target did not report a fork event"@)
            }
            &&& ev matches Event::Stopped(Stop::Event(event)) ==> {
                &&& failed <==> h.phase is ForkWaiting && event != 1
                &&& failed ==> e == ErrorView::Msg(
                    "unexpected ptrace event "@ + text::signed_decimal(event as int)
                        + " during fork"@,
                )
            }
            &&& ev matches Event::Stopped(Stop::Signal(_)) ==> !failed
            &&& !(ev is Failed) && !(ev is Stopped) ==> !failed
        }),
{
}

/// The child that a fork reports is the one that the kernel named, and it
/// is reported once fork events are off again.
pub proof fn forked_child_is_the_one_named<A: Arch>(
    h: HijackerView<A::Raw>,
    pid: i32,
    message: u64,
)
    requires
        h.phase is ForkChild,
        pid >= 0,
        message == pid,
    ensures
        ({
            let (h2, step2) = next::<A>(h, Event::Message(message));
            let (h3, step3) = next::<A>(h2, Event::Done);
            &&& step2 == StepView::<A::Raw, Reply>::Do(
                Action::SetOptions { tid: h.tid, options: 1 },
            )
            &&& expects(h2, Event::<A::Raw>::Done)
            &&& step3 == StepView::<A::Raw, Reply>::Finish(Ok(Reply::Child(pid)))
            &&& h3.phase is Idle
        }),
{
}

/// The state to put back into a thread, and the number word that goes with
/// it, where the architecture has one.
#[derive(Clone, Copy)]
pub struct Restoration<R> {
    pub regs: Regs<R>,
    pub word: Option<i32>,
}

/// What puts the original syscall back: at an entry stop the raw state,
/// elsewhere the state that re-executes the syscall instruction.
pub open spec fn restoration<A: Arch>(h: HijackerView<A::Raw>) -> Restoration<A::Raw> {
    Restoration {
        regs: if h.at_entry {
            h.raw_saved
        } else {
            h.saved
        },
        word: A::nr_word(h.saved_nr),
    }
}

/// The first swallowed signal, and what is left to remember without it.
pub open spec fn first_taken<R>(h: HijackerView<R>) -> (Option<i32>, HijackerView<R>) {
    if h.missed.len() > 0 {
        (Some(h.missed[0].sig), HijackerView { missed: h.missed.skip(1), ..h })
    } else {
        (None, h)
    }
}

/// Every swallowed signal, and what is left to remember without them.
pub open spec fn all_taken<R>(h: HijackerView<R>) -> (Seq<Missed>, HijackerView<R>) {
    (h.missed, HijackerView { missed: Seq::empty(), ..h })
}

/// Whether the engine has just taken control of a captured thread.
pub open spec fn takes_over<R>(h: HijackerView<R>, c: Captured<R>) -> bool {
    &&& h.tid == c.tid
    &&& h.saved == c.saved
    &&& h.raw_saved == c.raw_saved
    &&& h.saved_nr == c.saved_nr
    &&& h.missed.len() == 0
    &&& h.at_entry
    &&& h.phase is Idle
}

/// A thread that was captured at an entry stop is in step with the engine
/// that takes it over: nothing needs to be put back as long as nothing was
/// injected, and nothing is owed yet.
pub proof fn taken_over_thread_is_as_captured<A: Arch>(
    h: HijackerView<A::Raw>,
    c: Captured<A::Raw>,
)
    requires
        takes_over(h, c),
    ensures
        h.tid == c.tid && h.saved == c.saved && h.raw_saved == c.raw_saved,
        h.saved_nr == c.saved_nr,
        finishing::<A>(h) is None,
        restoration::<A>(h).regs == c.raw_saved,
        all_taken(h).0 == Seq::<Missed>::empty(),
        first_taken(h).0 is None,
{
    assert(h.missed =~= Seq::<Missed>::empty());
}

/// Taking all signals at once gives what taking them one by one gives.
pub proof fn all_signals_are_taken<R>(h: HijackerView<R>)
    ensures
        ({
            let (taken, t) = all_taken(h);
            let (first, rest) = first_taken(h);
            &&& t.missed.len() == 0
            &&& t.tid == h.tid && t.saved == h.saved && t.raw_saved == h.raw_saved
            &&& t.saved_nr == h.saved_nr && t.at_entry == h.at_entry && t.call == h.call
            &&& t.phase == h.phase
            &&& first is None ==> taken.len() == 0
            &&& first matches Some(sig) ==> {
                &&& taken.len() > 0 && taken[0].sig == sig
                &&& all_taken(rest).0 == taken.skip(1)
                &&& all_taken(rest).1 == t
            }
        }),
{
}

/// What restores the thread, when it is detached next.
pub open spec fn finishing<A: Arch>(h: HijackerView<A::Raw>) -> Option<Restoration<A::Raw>> {
    if h.at_entry {
        None
    } else {
        Some(Restoration { regs: h.saved, word: A::nr_word(h.saved_nr) })
    }
}

/// Signals are taken in the order in which they came, each once, until none
/// is left; the thread itself is not concerned.
pub proof fn signals_are_taken_in_order<R>(h: HijackerView<R>)
    ensures
        ({
            let (sig, t) = first_taken(h);
            &&& t.tid == h.tid && t.saved == h.saved && t.raw_saved == h.raw_saved
            &&& t.saved_nr == h.saved_nr && t.at_entry == h.at_entry && t.call == h.call
            &&& t.phase == h.phase
            &&& sig is None <==> h.missed.len() == 0
            &&& h.missed == match sig {
                Some(sig) => seq![Missed { tid: h.missed[0].tid, sig }] + t.missed,
                None => t.missed,
            }
        }),
{
    let (sig, t) = first_taken(h);
    if h.missed.len() > 0 {
        assert(h.missed =~= seq![Missed { tid: h.missed[0].tid, sig: h.missed[0].sig }]
            + t.missed);
    }
}

/// A thread that is not at an entry stop is restored in the same way
/// whether all went well or not; at an entry stop nothing needs to be done
/// when all went well, and the raw state is put back when it did not.
pub proof fn both_ways_restore_the_thread<A: Arch>(h: HijackerView<A::Raw>)
    ensures
        h.at_entry ==> finishing::<A>(h) is None && restoration::<A>(h).regs == h.raw_saved,
        !h.at_entry ==> finishing::<A>(h) == Some(restoration::<A>(h)) && restoration::<A>(h).regs
            == h.saved,
        restoration::<A>(h).word == A::nr_word(h.saved_nr),
{
}

impl<A: Arch> Hijacker<A> {
    /// Take control of a captured thread.
    pub fn new(c: Captured<A::Raw>) -> (h: Self)
        ensures
            h@.tid == c.tid,
            h@.saved == c.saved,
            h@.raw_saved == c.raw_saved,
            h@.saved_nr == c.saved_nr,
            h@.missed.len() == 0,
            h@.at_entry,
            takes_over(h@, c),
            h@.call.nr == 0,
            h@.call.args@ == seq![0u64, 0, 0, 0, 0, 0],
            !h@.call.fork,
            h@.phase is Idle,
    {
        Hijacker {
            tid: c.tid,
            saved: c.saved,
            raw_saved: c.raw_saved,
            saved_nr: c.saved_nr,
            missed: Vec::new(),
            at_entry: true,
            call: Call { nr: 0, args: [0, 0, 0, 0, 0, 0], fork: false },
            phase: Phase::Idle,
        }
    }

    pub fn tid(&self) -> (r: i32)
        ensures
            r == self@.tid,
    {
        self.tid
    }

    /// A copy of the pending original register state, for seeding a
    /// forked dummy child.
    pub fn saved_clone(&self) -> (r: Regs<A::Raw>)
        ensures
            r == self@.saved,
    {
        self.saved
    }

    pub fn saved_nr(&self) -> (r: u64)
        ensures
            r == self@.saved_nr,
    {
        self.saved_nr
    }

    /// The first swallowed signal, which is then forgotten here.
    pub fn take_signal(&mut self) -> (r: Option<i32>)
        ensures
            match r {
                Some(sig) => {
                    &&& old(self)@.missed.len() > 0
                    &&& sig == old(self)@.missed[0].sig
                    &&& final(self)@ == (HijackerView {
                        missed: old(self)@.missed.skip(1),
                        ..old(self)@
                    })
                },
                None => old(self)@.missed.len() == 0 && final(self)@ == old(self)@,
            },
            (r, final(self)@) == first_taken(old(self)@),
    {
        if self.missed.len() == 0 {
            return None;
        }
        let first: Missed = self.missed.remove(0);
        assert(self.missed@ =~= old(self)@.missed.skip(1));
        Some(first.sig)
    }

    /// Every swallowed signal; they are then forgotten here.
    pub fn take_missed(&mut self) -> (r: Vec<Missed>)
        ensures
            r@ == old(self)@.missed,
            final(self)@ == (HijackerView { missed: Seq::empty(), ..old(self)@ }),
            (r@, final(self)@) == all_taken(old(self)@),
    {
        let mut r: Vec<Missed> = Vec::new();
        r.append(&mut self.missed);
        assert(r@ =~= old(self)@.missed);
        assert(self.missed@ =~= Seq::<Missed>::empty());
        r
    }

    fn ask(&mut self, phase: Phase<A::Raw>, action: Action<A::Raw>) -> (r: Step<A::Raw, Reply>)
        ensures
            (final(self)@, r@) == ask(old(self)@, phase, action),
    {
        self.phase = phase;
        Step::Do(action)
    }

    fn fail(&mut self, e: Error) -> (r: Step<A::Raw, Reply>)
        ensures
            (final(self)@, r@) == fail(old(self)@, e@),
    {
        self.phase = Phase::Idle;
        Step::Finish(Err(e))
    }

    fn resume(&mut self, want: SyscallStop) -> (r: Step<A::Raw, Reply>)
        ensures
            (final(self)@, r@) == resume(old(self)@, want),
    {
        let tid: i32 = self.tid;
        self.ask(Phase::Resuming(want), Action::Resume { tid, sig: 0 })
    }

    fn resume_fork(&mut self) -> (r: Step<A::Raw, Reply>)
        ensures
            (final(self)@, r@) == resume_fork(old(self)@),
    {
        let tid: i32 = self.tid;
        self.ask(Phase::ForkResuming, Action::Resume { tid, sig: 0 })
    }

    /// Move from the previous syscall's exit stop to a fresh entry stop
    /// by rewinding the instruction pointer. The tracee re-enters at the
    /// same syscall instruction; that re-entry is immediately overwritten
    /// by the next injection and never dispatches.
    fn ensure_entry(&mut self) -> (r: Step<A::Raw, Reply>)
        ensures
            (final(self)@, r@) == enter(old(self)@),
    {
        let tid: i32 = self.tid;
        if self.at_entry {
            self.ask(Phase::InjectRead, Action::GetRegs { tid })
        } else {
            self.ask(Phase::RewindRead, Action::GetRegs { tid })
        }
    }

    fn record_signal(&mut self, sig: i32)
        ensures
            final(self)@ == (HijackerView {
                missed: tracee::noted(old(self)@.missed, old(self)@.tid, sig),
                ..old(self)@
            }),
    {
        let tid: i32 = self.tid;
        tracee::note(&mut self.missed, tid, sig);
    }

    /// Execute `nr(args)` inside the tracee. The operation ends with the raw
    /// syscall return value, and with the tracee at the syscall-exit stop.
    pub fn syscall(&mut self, nr: u64, args: [u64; 6]) -> (r: Step<A::Raw, Reply>)
        requires
            old(self)@.phase is Idle,
        ensures
            (final(self)@, r@) == told(old(self)@, Call { nr, args, fork: false }),
    {
        self.call = Call { nr, args, fork: false };
        self.ensure_entry()
    }

    /// Inject clone(SIGCHLD), which has fork semantics. The operation ends
    /// with the child's pid; the child is attached by itself (TRACEFORK)
    /// and left in its initial stop for [`Hijacker::for_dummy`].
    pub fn fork_child(&mut self, a: &A) -> (r: Step<A::Raw, Reply>)
        requires
            old(self)@.phase is Idle,
        ensures
            final(self)@.call.nr == A::numbers().clone,
            final(self)@.call.args@ == seq![SIGCHLD as u64, 0, 0, 0, 0, 0],
            final(self)@.call.fork,
            is_fork::<A>(final(self)@.call),
            (final(self)@, r@) == told(old(self)@, final(self)@.call),
    {
        self.call = Call { nr: a.nr_clone(), args: [SIGCHLD as u64, 0, 0, 0, 0, 0], fork: true };
        let tid: i32 = self.tid;
        self.ask(
            Phase::Arm,
            Action::SetOptions { tid, options: PTRACE_O_TRACESYSGOOD + PTRACE_O_TRACEFORK },
        )
    }

    fn on_stop(&mut self, want: SyscallStop, stop: Stop) -> (r: Step<A::Raw, Reply>)
        ensures
            (final(self)@, r@) == on_stop(old(self)@, want, stop),
    {
        let tid: i32 = self.tid;
        match stop {
            Stop::Syscall => self.ask(Phase::Classifying(want), Action::StopKind { tid }),
            Stop::Signal(sig) => {
                self.record_signal(sig);
                self.resume(want)
            },
            Stop::Event(_) => self.resume(want),
            Stop::Exited => {
                let mut m: String = copy_text("thread ");
                push_signed(&mut m, tid as i64);
                m.append(" exited during hijack");
                self.fail(Error::Msg(m))
            },
        }
    }

    fn on_fork_stop(&mut self, stop: Stop) -> (r: Step<A::Raw, Reply>)
        ensures
            (final(self)@, r@) == on_fork_stop(old(self)@, stop),
    {
        let tid: i32 = self.tid;
        match stop {
            Stop::Event(event) => if event == PTRACE_EVENT_FORK {
                self.ask(Phase::ForkChild, Action::EventMessage { tid })
            } else {
                let mut m: String = copy_text("unexpected ptrace event ");
                push_signed(&mut m, event as i64);
                m.append(" during fork");
                self.fail(Error::Msg(m))
            },
            Stop::Signal(sig) => {
                self.record_signal(sig);
                self.resume_fork()
            },
            _ => self.fail(msg("target did not report a fork event")),
        }
    }

    fn on_kind(&mut self, want: SyscallStop, kind: SyscallStop) -> (r: Step<A::Raw, Reply>)
        ensures
            (final(self)@, r@) == on_kind(old(self)@, want, kind),
    {
        let tid: i32 = self.tid;
        if kind != want && kind != SyscallStop::Unknown {
            // Not the stop that is needed; let the thread run on.
            return self.resume(want);
        }
        if want == SyscallStop::Entry {
            self.at_entry = true;
            self.ask(Phase::InjectRead, Action::GetRegs { tid })
        } else {
            self.ask(Phase::ResultRead, Action::GetRegs { tid })
        }
    }

    /// Go on with the current operation, now that its request was answered.
    pub fn step(&mut self, a: &A, ev: Event<A::Raw>) -> (r: Step<A::Raw, Reply>)
        requires
            expects(old(self)@, ev),
        ensures
            (final(self)@, r@) == next::<A>(old(self)@, ev),
    {
        let tid: i32 = self.tid;
        match (self.phase, ev) {
            (_, Event::Failed(errno)) => self.fail(Error::Os(errno)),
            (Phase::Arm, _) => self.ensure_entry(),
            (Phase::RewindRead, Event::Registers(r)) => {
                let mut regs: Regs<A::Raw> = r;
                a.restore_ip(&mut regs, &self.saved);
                self.ask(Phase::RewindWrite, Action::SetRegs { tid, regs })
            },
            (Phase::RewindWrite, _) => self.resume(SyscallStop::Entry),
            (Phase::Resuming(want), _) => {
                self.at_entry = false;
                self.ask(Phase::Waiting(want), Action::Wait { tid })
            },
            (Phase::Waiting(want), Event::Stopped(stop)) => self.on_stop(want, stop),
            (Phase::Classifying(want), Event::Kind(kind)) => self.on_kind(want, kind),
            (Phase::InjectRead, Event::Registers(r)) => {
                let mut regs: Regs<A::Raw> = r;
                let word: Option<i32> = a.set_syscall_nr(&mut regs, self.call.nr);
                a.set_syscall_args(&mut regs, self.call.args);
                match word {
                    Some(word) => self.ask(Phase::InjectNumber(regs), Action::SetNr { tid, word }),
                    None => self.ask(Phase::InjectWrite, Action::SetRegs { tid, regs }),
                }
            },
            (Phase::InjectNumber(regs), _) => self.ask(
                Phase::InjectWrite,
                Action::SetRegs { tid, regs },
            ),
            (Phase::InjectWrite, _) => if self.call.fork {
                self.resume_fork()
            } else {
                self.resume(SyscallStop::Exit)
            },
            (Phase::ResultRead, Event::Registers(r)) => {
                self.phase = Phase::Idle;
                Step::Finish(Ok(Reply::Value(a.syscall_result(&r))))
            },
            (Phase::ForkResuming, _) => {
                self.at_entry = false;
                self.ask(Phase::ForkWaiting, Action::Wait { tid })
            },
            (Phase::ForkWaiting, Event::Stopped(stop)) => self.on_fork_stop(stop),
            (Phase::ForkChild, Event::Message(message)) => self.ask(
                Phase::Disarm(message as i32),
                Action::SetOptions { tid, options: PTRACE_O_TRACESYSGOOD },
            ),
            (Phase::Disarm(child), _) => {
                // The fork event stands in for the clone's exit stop; the
                // next injection rewinds to a fresh entry stop on its own.
                self.phase = Phase::Idle;
                Step::Finish(Ok(Reply::Child(child)))
            },
            // No other answer is expected.
            _ => self.fail(Error::Os(0)),
        }
    }

    /// What restores the pending original syscall, when the thread is
    /// detached next: once it is detached at the last injected syscall's
    /// exit stop, it returns to the syscall instruction and re-executes it
    /// with the original number and arguments. `None` at an entry stop,
    /// where the live state is already correct.
    pub fn finish(&self, a: &A) -> (r: Option<Restoration<A::Raw>>)
        ensures
            r == if self@.at_entry {
                None
            } else {
                Some(Restoration { regs: self@.saved, word: A::nr_word(self@.saved_nr) })
            },
            r == finishing::<A>(self@),
    {
        if !self.at_entry {
            Some(Restoration { regs: self.saved, word: a.restore_syscall_nr(self.saved_nr) })
        } else {
            None
        }
    }

    /// What puts the original syscall back, whatever went wrong. The raw
    /// state is right for an entry-stop detach, which continues the entry
    /// path into the original syscall.
    pub fn last_resort(&self, a: &A) -> (r: Restoration<A::Raw>)
        ensures
            r == restoration::<A>(self@),
    {
        Restoration {
            regs: if self.at_entry {
                self.raw_saved
            } else {
                self.saved
            },
            word: a.restore_syscall_nr(self.saved_nr),
        }
    }
}

/// A stop of the wanted kind counts, and so does one of a kind that is not
/// known; a stop of the other kind does not, and the thread is let run on
/// toward the wanted one.
pub proof fn only_the_wanted_stop_counts<A: Arch>(
    h: HijackerView<A::Raw>,
    want: SyscallStop,
    kind: SyscallStop,
)
    requires
        h.phase == Phase::<A::Raw>::Classifying(want),
        want != SyscallStop::Unknown,
    ensures
        ({
            let (t, step) = next::<A>(h, Event::Kind(kind));
            if kind == want || kind == SyscallStop::Unknown {
                &&& step == StepView::<A::Raw, Reply>::Do(Action::GetRegs { tid: h.tid })
                &&& want == SyscallStop::Entry ==> t.phase is InjectRead && t.at_entry
                &&& want == SyscallStop::Exit ==> t.phase is ResultRead && t.at_entry
                    == h.at_entry
            } else {
                &&& step == StepView::<A::Raw, Reply>::Do(Action::Resume { tid: h.tid, sig: 0 })
                &&& t.phase == Phase::<A::Raw>::Resuming(want)
                &&& t.at_entry == h.at_entry
            }
        }),
{
}

/// An operation begins with the registers, where the call is injected at
/// once at an entry stop and the thread is rewound to one elsewhere; one
/// that forks asks first for marked syscall stops and fork events.
pub proof fn operations_begin_where_the_thread_is<R>(h: HijackerView<R>, call: Call)
    ensures
        ({
            let (t, step) = told(h, call);
            &&& t.call == call
            &&& t.tid == h.tid && t.saved == h.saved && t.raw_saved == h.raw_saved
            &&& t.saved_nr == h.saved_nr && t.missed == h.missed && t.at_entry == h.at_entry
            &&& call.fork ==> t.phase is Arm && step == StepView::<R, Reply>::Do(
                Action::SetOptions { tid: h.tid, options: 3 },
            )
            &&& !call.fork ==> step == StepView::<R, Reply>::Do(Action::GetRegs { tid: h.tid })
            &&& !call.fork && h.at_entry ==> t.phase is InjectRead
            &&& !call.fork && !h.at_entry ==> t.phase is RewindRead
        }),
{
}

/// What is done with the registers that were read depends on what they were
/// read for. To get back to the syscall instruction, the instruction
/// pointer alone is put where the captured state has it, the rest stays;
/// to inject a call, its number and arguments alone are put in; and to get
/// the result nothing is written.
pub proof fn registers_are_written_as_needed<A: Arch>(h: HijackerView<A::Raw>, r: Regs<A::Raw>)
    requires
        expects(h, Event::Registers(r)),
    ensures
        ({
            let (t, step) = next::<A>(h, Event::Registers(r));
            let loaded = A::with_args(A::with_nr(r.0, h.call.nr), h.call.args@);
            match h.phase {
                Phase::RewindRead => {
                    &&& step matches StepView::Do(Action::SetRegs { tid, regs })
                    &&& tid == h.tid
                    &&& regs.0 == A::with_ip(r.0, A::ip(h.saved.0))
                    &&& t.phase is RewindWrite
                },
                Phase::InjectRead => match A::nr_word(h.call.nr) {
                    Some(word) => {
                        let (u, last) = next::<A>(t, Event::Done);
                        &&& step == StepView::<A::Raw, Reply>::Do(
                            Action::SetNr { tid: h.tid, word },
                        )
                        &&& last matches StepView::Do(Action::SetRegs { tid, regs })
                        &&& tid == h.tid
                        &&& regs.0 == loaded
                        &&& u.phase is InjectWrite
                    },
                    None => {
                        &&& step matches StepView::Do(Action::SetRegs { tid, regs })
                        &&& tid == h.tid
                        &&& regs.0 == loaded
                        &&& t.phase is InjectWrite
                    },
                },
                _ => step == StepView::<A::Raw, Reply>::Finish(Ok(Reply::Value(A::result(r.0)))),
            }
        }),
{
}

/// Writing the registers is followed by a run: toward the entry stop after
/// a rewind, and into the call after an injection, for its exit stop or for
/// the fork event. A thread that was let run is waited for, and is at no
/// entry stop any more.
pub proof fn writes_are_followed_by_a_run<A: Arch>(h: HijackerView<A::Raw>)
    requires
        expects(h, Event::<A::Raw>::Done),
    ensures
        ({
            let (t, step) = next::<A>(h, Event::Done);
            let run = StepView::<A::Raw, Reply>::Do(Action::Resume { tid: h.tid, sig: 0 });
            let wait = StepView::<A::Raw, Reply>::Do(Action::Wait { tid: h.tid });
            match h.phase {
                Phase::RewindWrite => step == run && t.phase == Phase::<A::Raw>::Resuming(
                    SyscallStop::Entry,
                ),
                Phase::InjectWrite => step == run && if h.call.fork {
                    t.phase is ForkResuming
                } else {
                    t.phase == Phase::<A::Raw>::Resuming(SyscallStop::Exit)
                },
                Phase::Resuming(want) => step == wait && !t.at_entry && t.phase == Phase::<
                    A::Raw,
                >::Waiting(want),
                Phase::ForkResuming => step == wait && !t.at_entry && t.phase is ForkWaiting,
                _ => true,
            }
        }),
{
}

} // verus!
