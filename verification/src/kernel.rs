//! How the kernel runs a traced thread, as far as injected syscalls depend
//! on it, and what the hijack engine does to a thread that is run so.

use vstd::prelude::*;

use crate::arch::{Arch, SyscallStop};
use crate::hijack;
use crate::hijack::{Call, HijackerView, Phase, Reply};
use crate::ptrace::Stop;
use crate::tracee;
use crate::tracee::{Action, Event, StepView};

verus! {

/// Where a traced thread is.
pub enum At {
    /// At a syscall-entry stop: the syscall has not been dispatched.
    Entry,
    /// At a syscall-exit stop.
    Exit,
    /// Running, and next at a syscall-entry stop.
    ToEntry,
    /// Inside a dispatched syscall, and next at its exit stop.
    ToExit,
    /// At a signal or event stop on the way to a syscall-entry stop.
    PausedToEntry,
    /// At a signal or event stop on the way to a syscall-exit stop.
    PausedToExit,
    /// Exited.
    Gone,
}

/// A traced thread.
pub struct Thread<R> {
    pub at: At,
    pub regs: R,
    /// The number word.
    pub word: i32,
    /// The syscalls dispatched so far, with their arguments.
    pub ran: Seq<(u64, Seq<u64>)>,
}

/// Resuming from an entry stop dispatches the syscall that the registers
/// select at that moment; resuming from anywhere else dispatches nothing.
pub open spec fn resumed<A: Arch>(t: Thread<A::Raw>, u: Thread<A::Raw>) -> bool {
    match t.at {
        At::Entry => u == (Thread {
            at: At::ToExit,
            ran: t.ran.push((A::entry_nr(t.regs, t.word), A::args(t.regs))),
            ..t
        }),
        At::Exit | At::PausedToEntry => u == (Thread { at: At::ToEntry, ..t }),
        At::PausedToExit => u == (Thread { at: At::ToExit, ..t }),
        _ => false,
    }
}

/// A running thread stops: at the syscall stop that is next, or on the way
/// to it, or for good. Its registers are then whatever the run left.
pub open spec fn stopped<R>(t: Thread<R>, stop: Stop, u: Thread<R>) -> bool {
    &&& u.ran == t.ran
    &&& match (t.at, stop) {
        (At::ToEntry, Stop::Syscall) => u.at == At::Entry,
        (At::ToExit, Stop::Syscall) => u.at == At::Exit,
        (At::ToEntry, Stop::Signal(_) | Stop::Event(_)) => u.at == At::PausedToEntry,
        (At::ToExit, Stop::Signal(_) | Stop::Event(_)) => u.at == At::PausedToExit,
        (At::ToEntry | At::ToExit, Stop::Exited) => u.at == At::Gone,
        _ => false,
    }
}

/// Whether a kernel can answer `action` with `ev` and take the thread from
/// `t` to `u` thereby. A kernel with `tells` always tells the two kinds of
/// syscall stop apart; one without may answer that it does not know.
pub open spec fn serves<A: Arch>(
    tells: bool,
    t: Thread<A::Raw>,
    action: Action<A::Raw>,
    ev: Event<A::Raw>,
    u: Thread<A::Raw>,
) -> bool {
    &&& tracee::answers(action, ev)
    &&& match (action, ev) {
        (_, Event::Failed(_)) => u == t,
        (Action::Resume { .. }, _) => resumed::<A>(t, u),
        (Action::Wait { .. }, Event::Stopped(stop)) => stopped(t, stop, u),
        (Action::StopKind { .. }, Event::Kind(kind)) => {
            &&& u == t
            &&& t.at == At::Entry ==> kind == SyscallStop::Entry || (!tells && kind
                == SyscallStop::Unknown)
            &&& t.at == At::Exit ==> kind == SyscallStop::Exit || (!tells && kind
                == SyscallStop::Unknown)
        },
        (Action::GetRegs { .. }, Event::Registers(regs)) => u == t && regs.0 == t.regs,
        (Action::SetRegs { regs, .. }, _) => u == (Thread { regs: regs.0, ..t }),
        (Action::SetNr { word, .. }, _) => u == (Thread { word, ..t }),
        (Action::GetNr { .. }, Event::Number(word)) => u == t && word == t.word,
        _ => u == t,
    }
}

/// Whether a kernel can answer the engine's requests, from `step` on, with
/// `evs` and take the thread from `t` through `ts` thereby.
pub open spec fn possible<A: Arch>(
    tells: bool,
    h: HijackerView<A::Raw>,
    step: StepView<A::Raw, Reply>,
    t: Thread<A::Raw>,
    evs: Seq<Event<A::Raw>>,
    ts: Seq<Thread<A::Raw>>,
) -> bool
    decreases evs.len(),
{
    &&& ts.len() == evs.len()
    &&& evs.len() > 0 ==> {
        &&& step matches StepView::Do(action)
        &&& serves::<A>(tells, t, action, evs[0], ts[0])
        &&& ({
            let (h2, step2) = hijack::next::<A>(h, evs[0]);
            possible::<A>(tells, h2, step2, ts[0], evs.skip(1), ts.skip(1))
        })
    }
}

/// The engine and its step after the answers `evs`.
pub open spec fn after<A: Arch>(
    h: HijackerView<A::Raw>,
    step: StepView<A::Raw, Reply>,
    evs: Seq<Event<A::Raw>>,
) -> hijack::Transition<A::Raw>
    decreases evs.len(),
{
    if evs.len() == 0 {
        (h, step)
    } else {
        let (h2, step2) = hijack::next::<A>(h, evs[0]);
        after::<A>(h2, step2, evs.skip(1))
    }
}

/// The call, as a thread that dispatched it records it.
pub open spec fn record(call: Call) -> (u64, Seq<u64>) {
    (call.nr, call.args@)
}

/// Whether a fresh entry stop can be reached from where the thread is, by
/// way of a rewind. From an event stop inside a syscall that takes a kernel
/// that tells the exit stop, which comes first, from the entry stop.
pub open spec fn rewindable<R>(tells: bool, t: Thread<R>) -> bool {
    ||| t.at == At::Exit
    ||| t.at == At::PausedToEntry
    ||| tells && t.at == At::PausedToExit
}

/// Whether the engine is right about where the thread is, so that the next
/// operation can start.
pub open spec fn in_step<R>(tells: bool, h: HijackerView<R>, t: Thread<R>) -> bool {
    if h.at_entry {
        t.at == At::Entry
    } else {
        rewindable(tells, t)
    }
}

/// An entry stop that dispatches `call` when it is resumed.
pub open spec fn loaded<A: Arch>(t: Thread<A::Raw>, call: Call) -> bool {
    &&& t.at == At::Entry
    &&& A::entry_nr(t.regs, t.word) == call.nr
    &&& A::args(t.regs) == call.args@
}

/// About to dispatch the call of the operation, or on the way back from it.
spec fn at_call<A: Arch>(
    h: HijackerView<A::Raw>,
    t: Thread<A::Raw>,
    base: Seq<(u64, Seq<u64>)>,
) -> bool {
    if h.at_entry {
        loaded::<A>(t, h.call) && t.ran == base
    } else {
        t.at == At::PausedToExit && t.ran == base.push(record(h.call))
    }
}

/// How the engine and the thread stand to each other in the middle of an
/// operation that began when `base` had been dispatched.
spec fn on_track<A: Arch>(
    tells: bool,
    h: HijackerView<A::Raw>,
    step: StepView<A::Raw, Reply>,
    t: Thread<A::Raw>,
    base: Seq<(u64, Seq<u64>)>,
) -> bool {
    let whole = base.push(record(h.call));
    match step {
        StepView::Finish(Err(_)) => {
            &&& t.ran == base || t.ran == whole
            &&& t.at == At::Entry || rewindable(tells, t) ==> in_step(tells, h, t)
        },
        StepView::Finish(Ok(reply)) => {
            &&& t.ran == whole
            &&& !h.at_entry
            &&& match reply {
                Reply::Value(value) => !h.call.fork && t.at == At::Exit && value == A::result(
                    t.regs,
                ),
                Reply::Child(_) => h.call.fork && t.at == At::PausedToExit,
            }
        },
        StepView::Do(action) => match h.phase {
            Phase::Idle => false,
            Phase::Arm => action is SetOptions && in_step(tells, h, t) && t.ran == base,
            Phase::RewindRead => {
                &&& action is GetRegs
                &&& !h.at_entry && rewindable(tells, t) && t.ran == base
            },
            Phase::RewindWrite => {
                &&& action is SetRegs
                &&& !h.at_entry && rewindable(tells, t) && t.ran == base
            },
            Phase::Resuming(want) => {
                &&& action is Resume
                &&& match want {
                    SyscallStop::Entry => !h.at_entry && rewindable(tells, t) && t.ran == base,
                    SyscallStop::Exit => !h.call.fork && at_call::<A>(h, t, base),
                    SyscallStop::Unknown => false,
                }
            },
            Phase::Waiting(want) => {
                &&& action is Wait
                &&& !h.at_entry
                &&& match want {
                    SyscallStop::Entry => {
                        &&& t.at == At::ToEntry || (tells && t.at == At::ToExit)
                        &&& t.ran == base
                    },
                    SyscallStop::Exit => !h.call.fork && t.at == At::ToExit && t.ran == whole,
                    SyscallStop::Unknown => false,
                }
            },
            Phase::Classifying(want) => {
                &&& action is StopKind
                &&& !h.at_entry
                &&& match want {
                    SyscallStop::Entry => {
                        &&& t.at == At::Entry || (tells && t.at == At::Exit)
                        &&& t.ran == base
                    },
                    SyscallStop::Exit => !h.call.fork && t.at == At::Exit && t.ran == whole,
                    SyscallStop::Unknown => false,
                }
            },
            Phase::InjectRead => {
                &&& action is GetRegs
                &&& h.at_entry && t.at == At::Entry && t.ran == base
            },
            Phase::InjectNumber(regs) => {
                &&& action matches Action::SetNr { word, .. }
                &&& h.at_entry && t.at == At::Entry && t.ran == base
                &&& A::entry_nr(regs.0, word) == h.call.nr
                &&& A::args(regs.0) == h.call.args@
            },
            Phase::InjectWrite => {
                &&& action matches Action::SetRegs { regs, .. }
                &&& h.at_entry && t.at == At::Entry && t.ran == base
                &&& A::entry_nr(regs.0, t.word) == h.call.nr
                &&& A::args(regs.0) == h.call.args@
            },
            Phase::ResultRead => {
                &&& action is GetRegs
                &&& !h.call.fork && !h.at_entry && t.at == At::Exit && t.ran == whole
            },
            Phase::ForkResuming => {
                &&& action is Resume
                &&& h.call.fork && at_call::<A>(h, t, base)
            },
            Phase::ForkWaiting => {
                &&& action is Wait
                &&& h.call.fork && !h.at_entry && t.at == At::ToExit && t.ran == whole
            },
            Phase::ForkChild => {
                &&& action is EventMessage
                &&& h.call.fork && !h.at_entry && t.at == At::PausedToExit && t.ran == whole
            },
            Phase::Disarm(_) => {
                &&& action is SetOptions
                &&& h.call.fork && !h.at_entry && t.at == At::PausedToExit && t.ran == whole
            },
        },
    }
}

proof fn lemma_on_track_step<A: Arch>(
    tells: bool,
    h: HijackerView<A::Raw>,
    action: Action<A::Raw>,
    t: Thread<A::Raw>,
    ev: Event<A::Raw>,
    u: Thread<A::Raw>,
    base: Seq<(u64, Seq<u64>)>,
)
    requires
        h.call.nr <= i32::MAX,
        on_track::<A>(tells, h, StepView::Do(action), t, base),
        serves::<A>(tells, t, action, ev, u),
    ensures
        ({
            let (h2, step2) = hijack::next::<A>(h, ev);
            &&& h2.call == h.call
            &&& on_track::<A>(tells, h2, step2, u, base)
        }),
{
    if let Event::Registers(r) = ev {
        A::injection_law(r.0, h.call.nr, h.call.args@, t.word);
    }
}

proof fn lemma_on_track<A: Arch>(
    tells: bool,
    h: HijackerView<A::Raw>,
    step: StepView<A::Raw, Reply>,
    t: Thread<A::Raw>,
    evs: Seq<Event<A::Raw>>,
    ts: Seq<Thread<A::Raw>>,
    base: Seq<(u64, Seq<u64>)>,
)
    requires
        h.call.nr <= i32::MAX,
        on_track::<A>(tells, h, step, t, base),
        possible::<A>(tells, h, step, t, evs, ts),
    ensures
        ({
            let (h2, step2) = after::<A>(h, step, evs);
            let u = final_thread(t, ts);
            h2.call == h.call && on_track::<A>(tells, h2, step2, u, base)
        }),
    decreases evs.len(),
{
    if evs.len() > 0 {
        let action = step->Do_0;
        lemma_on_track_step::<A>(tells, h, action, t, evs[0], ts[0], base);
        let (h2, step2) = hijack::next::<A>(h, evs[0]);
        lemma_on_track::<A>(tells, h2, step2, ts[0], evs.skip(1), ts.skip(1), base);
    }
}

/// The thread after an operation: as it was, or as the last answer left it.
pub open spec fn final_thread<R>(t: Thread<R>, ts: Seq<Thread<R>>) -> Thread<R> {
    if ts.len() == 0 {
        t
    } else {
        ts.last()
    }
}

/// An operation that runs `nr(args)` makes the thread dispatch that call
/// and no other, however signals, events and stops come in between: in
/// particular the entry stop that a rewind brings about never dispatches.
/// When the operation succeeds, the call has been dispatched once, its
/// value is what the operation reports, and the thread is in step for the
/// next operation.
pub proof fn injected_call_is_all_that_runs<A: Arch>(
    tells: bool,
    h: HijackerView<A::Raw>,
    nr: u64,
    args: [u64; 6],
    t: Thread<A::Raw>,
    evs: Seq<Event<A::Raw>>,
    ts: Seq<Thread<A::Raw>>,
)
    requires
        nr <= i32::MAX,
        in_step(tells, h, t),
        ({
            let (h1, step1) = hijack::enter(
                HijackerView { call: Call { nr, args, fork: false }, ..h },
            );
            possible::<A>(tells, h1, step1, t, evs, ts)
        }),
    ensures
        ({
            let (h1, step1) = hijack::enter(
                HijackerView { call: Call { nr, args, fork: false }, ..h },
            );
            let (h2, step2) = after::<A>(h1, step1, evs);
            let u = final_thread(t, ts);
            &&& u.ran == t.ran || u.ran == t.ran.push((nr, args@))
            &&& step2 matches StepView::Finish(Ok(reply)) ==> {
                &&& u.ran == t.ran.push((nr, args@))
                &&& reply == Reply::Value(A::result(u.regs))
                &&& u.at == At::Exit
                &&& in_step(tells, h2, u)
            }
        }),
{
    let (h1, step1) = hijack::enter(HijackerView { call: Call { nr, args, fork: false }, ..h });
    lemma_on_track::<A>(tells, h1, step1, t, evs, ts, t.ran);
}

/// A fork operation makes the thread dispatch its clone call and no other.
pub proof fn fork_is_all_that_runs<A: Arch>(
    tells: bool,
    h: HijackerView<A::Raw>,
    call: Call,
    step: StepView<A::Raw, Reply>,
    t: Thread<A::Raw>,
    evs: Seq<Event<A::Raw>>,
    ts: Seq<Thread<A::Raw>>,
)
    requires
        call.nr <= i32::MAX,
        call.fork,
        in_step(tells, h, t),
        step matches StepView::Do(action) && action is SetOptions,
        possible::<A>(tells, HijackerView { call, phase: Phase::Arm, ..h }, step, t, evs, ts),
    ensures
        ({
            let (h2, step2) = after::<A>(
                HijackerView { call, phase: Phase::Arm, ..h },
                step,
                evs,
            );
            let u = final_thread(t, ts);
            &&& u.ran == t.ran || u.ran == t.ran.push(record(call))
            &&& step2 matches StepView::Finish(Ok(reply)) ==> {
                &&& u.ran == t.ran.push(record(call))
                &&& reply is Child
                &&& in_step(true, h2, u)
            }
        }),
{
    lemma_on_track::<A>(
        tells,
        HijackerView { call, phase: Phase::Arm, ..h },
        step,
        t,
        evs,
        ts,
        t.ran,
    );
}

/// However an operation ends, the engine is right about where the thread
/// is, wherever it is stopped: at an entry stop, or where a rewind leads to
/// one. So the next operation can start, even after a failure.
pub proof fn failed_operation_stays_in_step<A: Arch>(
    tells: bool,
    h: HijackerView<A::Raw>,
    nr: u64,
    args: [u64; 6],
    t: Thread<A::Raw>,
    evs: Seq<Event<A::Raw>>,
    ts: Seq<Thread<A::Raw>>,
)
    requires
        nr <= i32::MAX,
        in_step(tells, h, t),
        ({
            let (h1, step1) = hijack::enter(
                HijackerView { call: Call { nr, args, fork: false }, ..h },
            );
            &&& possible::<A>(tells, h1, step1, t, evs, ts)
            &&& after::<A>(h1, step1, evs).1 is Finish
        }),
        final_thread(t, ts).at == At::Entry || rewindable(tells, final_thread(t, ts)),
    ensures
        ({
            let (h1, step1) = hijack::enter(
                HijackerView { call: Call { nr, args, fork: false }, ..h },
            );
            in_step(tells, after::<A>(h1, step1, evs).0, final_thread(t, ts))
        }),
{
    let (h1, step1) = hijack::enter(HijackerView { call: Call { nr, args, fork: false }, ..h });
    lemma_on_track::<A>(tells, h1, step1, t, evs, ts, t.ran);
}

/// The same of a fork operation.
pub proof fn failed_fork_stays_in_step<A: Arch>(
    tells: bool,
    h: HijackerView<A::Raw>,
    call: Call,
    step: StepView<A::Raw, Reply>,
    t: Thread<A::Raw>,
    evs: Seq<Event<A::Raw>>,
    ts: Seq<Thread<A::Raw>>,
)
    requires
        call.nr <= i32::MAX,
        call.fork,
        in_step(tells, h, t),
        step matches StepView::Do(action) && action is SetOptions,
        possible::<A>(tells, HijackerView { call, phase: Phase::Arm, ..h }, step, t, evs, ts),
        after::<A>(HijackerView { call, phase: Phase::Arm, ..h }, step, evs).1 is Finish,
        final_thread(t, ts).at == At::Entry || rewindable(tells, final_thread(t, ts)),
    ensures
        in_step(
            tells,
            after::<A>(HijackerView { call, phase: Phase::Arm, ..h }, step, evs).0,
            final_thread(t, ts),
        ),
{
    lemma_on_track::<A>(
        tells,
        HijackerView { call, phase: Phase::Arm, ..h },
        step,
        t,
        evs,
        ts,
        t.ran,
    );
}

/// The first syscall that a thread dispatches once it is let go, when its
/// program has a syscall instruction at `insn`: from an entry stop the one
/// that is pending, from a stop outside the kernel's syscall path the one
/// that the instruction makes when the thread continues there.
pub open spec fn dispatches_first<A: Arch>(t: Thread<A::Raw>, insn: u64) -> Option<
    (u64, Seq<u64>),
> {
    match t.at {
        At::Entry => Some((A::entry_nr(t.regs, t.word), A::args(t.regs))),
        At::Exit | At::PausedToEntry => if A::ip(t.regs) == insn {
            Some((A::issued_nr(t.regs), A::args(t.regs)))
        } else {
            None
        },
        _ => None,
    }
}

/// The thread after a restoration.
pub open spec fn restored<A: Arch>(
    t: Thread<A::Raw>,
    to: hijack::Restoration<A::Raw>,
) -> Thread<A::Raw> {
    Thread {
        regs: to.regs.0,
        word: match to.word {
            Some(word) => word,
            None => t.word,
        },
        ..t
    }
}

/// The engine holds the state of a thread that was captured at the entry
/// stop with the registers `raw_saved` and the given number word.
pub open spec fn captured<A: Arch>(h: HijackerView<A::Raw>, word: i32) -> bool {
    &&& A::entry_shape(h.raw_saved.0, word)
    &&& A::insn_len() <= A::ip(h.raw_saved.0)
    &&& h.saved.0 == A::fixed(h.raw_saved.0)
    &&& h.saved_nr == A::entry_nr(h.raw_saved.0, word)
}

/// The original syscall is never lost: whatever calls were injected, and
/// however the last one ended, a thread that the engine is right about and
/// that is let go after the restoration dispatches the captured call first,
/// from the instruction that it came from.
pub proof fn original_call_runs_when_let_go<A: Arch>(
    h: HijackerView<A::Raw>,
    to: hijack::Restoration<A::Raw>,
    word: i32,
    t: Thread<A::Raw>,
)
    requires
        captured::<A>(h, word),
        in_step(false, h, t),
        to == hijack::restoration::<A>(h),
    ensures
        dispatches_first::<A>(
            restored::<A>(t, to),
            (A::ip(h.raw_saved.0) - A::insn_len()) as u64,
        ) == Some((h.saved_nr, A::args(h.raw_saved.0))),
{
    A::fixup_law(h.raw_saved.0, word);
    A::number_word_law(h.raw_saved.0, word, t.word);
}

/// An operation of the engine, with what the kernel answered on the way and
/// where the thread was after each answer.
pub struct Served<R> {
    pub call: Call,
    pub evs: Seq<Event<R>>,
    pub ts: Seq<Thread<R>>,
}

/// The engine once the operations have been run, one after the other.
pub open spec fn served_engine<A: Arch>(
    h: HijackerView<A::Raw>,
    ops: Seq<Served<A::Raw>>,
) -> HijackerView<A::Raw>
    decreases ops.len(),
{
    if ops.len() == 0 {
        h
    } else {
        let op = ops.last();
        let (h1, step1) = hijack::told(served_engine::<A>(h, ops.drop_last()), op.call);
        after::<A>(h1, step1, op.evs).0
    }
}

/// The thread once the operations have been run, one after the other.
pub open spec fn served_thread<R>(t: Thread<R>, ops: Seq<Served<R>>) -> Thread<R>
    decreases ops.len(),
{
    if ops.len() == 0 {
        t
    } else {
        final_thread(served_thread(t, ops.drop_last()), ops.last().ts)
    }
}

/// The outcome of the last of the operations.
pub open spec fn outcome<A: Arch>(
    h: HijackerView<A::Raw>,
    ops: Seq<Served<A::Raw>>,
) -> StepView<A::Raw, Reply> {
    let op = ops.last();
    let (h1, step1) = hijack::told(served_engine::<A>(h, ops.drop_last()), op.call);
    after::<A>(h1, step1, op.evs).1
}

/// Whether the operations can have been run one after the other, each to
/// its end, with success or not, and the thread stopped after each where
/// the next can start. A fork takes a kernel that tells the two kinds of
/// syscall stop apart.
pub open spec fn all_served<A: Arch>(
    tells: bool,
    h: HijackerView<A::Raw>,
    t: Thread<A::Raw>,
    ops: Seq<Served<A::Raw>>,
) -> bool
    decreases ops.len(),
{
    ops.len() > 0 ==> {
        let op = ops.last();
        let (h1, step1) = hijack::told(served_engine::<A>(h, ops.drop_last()), op.call);
        let u = served_thread(t, ops);
        &&& all_served::<A>(tells, h, t, ops.drop_last())
        &&& op.call.nr <= i32::MAX
        &&& op.call.fork ==> tells
        &&& possible::<A>(
            tells,
            h1,
            step1,
            served_thread(t, ops.drop_last()),
            op.evs,
            op.ts,
        )
        &&& outcome::<A>(h, ops) is Finish
        &&& u.at == At::Entry || rewindable(tells, u)
    }
}

/// The calls of those operations that made the thread dispatch something.
pub open spec fn dispatched<R>(t: Thread<R>, ops: Seq<Served<R>>) -> Seq<(u64, Seq<u64>)>
    decreases ops.len(),
{
    if ops.len() == 0 {
        Seq::empty()
    } else {
        let front = ops.drop_last();
        if served_thread(t, ops).ran == served_thread(t, front).ran {
            dispatched(t, front)
        } else {
            dispatched(t, front).push(record(ops.last().call))
        }
    }
}

/// The original syscall is never lost. Take a thread that was captured at
/// an entry stop and any operations on it, calls and forks, each of which
/// may have failed midway. The thread has dispatched calls of these
/// operations and nothing else, in order, each at most once; and that of
/// every operation that succeeded. Unless it is still inside a call that it
/// forked with, it dispatches its original call first once it is restored
/// and let go.
pub proof fn displaced_call_runs_after_the_injected_ones<A: Arch>(
    tells: bool,
    h: HijackerView<A::Raw>,
    word: i32,
    t: Thread<A::Raw>,
    ops: Seq<Served<A::Raw>>,
)
    requires
        captured::<A>(h, word),
        h.at_entry,
        t.at == At::Entry,
        all_served::<A>(tells, h, t, ops),
    ensures
        ({
            let end = served_engine::<A>(h, ops);
            let u = served_thread(t, ops);
            &&& u.ran == t.ran + dispatched(t, ops)
            &&& forall|i: int|
                0 < i <= ops.len() && (#[trigger] outcome::<A>(
                    h,
                    ops.take(i),
                ) matches StepView::Finish(Ok(_))) ==> dispatched(t, ops.take(i)) == dispatched(
                    t,
                    ops.take(i - 1),
                ).push(record(ops[i - 1].call))
            &&& u.at != At::PausedToExit ==> dispatches_first::<A>(
                restored::<A>(u, hijack::restoration::<A>(end)),
                (A::ip(h.raw_saved.0) - A::insn_len()) as u64,
            ) == Some((h.saved_nr, A::args(h.raw_saved.0)))
        }),
{
    lemma_all_served::<A>(tells, h, t, ops);
    let end = served_engine::<A>(h, ops);
    let u = served_thread(t, ops);
    if u.at != At::PausedToExit {
        original_call_runs_when_let_go::<A>(end, hijack::restoration::<A>(end), word, u);
    }
}

proof fn lemma_all_served<A: Arch>(
    tells: bool,
    h: HijackerView<A::Raw>,
    t: Thread<A::Raw>,
    ops: Seq<Served<A::Raw>>,
)
    requires
        h.at_entry,
        t.at == At::Entry,
        all_served::<A>(tells, h, t, ops),
    ensures
        ({
            let end = served_engine::<A>(h, ops);
            let u = served_thread(t, ops);
            &&& u.ran == t.ran + dispatched(t, ops)
            &&& u.at == At::Entry || rewindable(tells, u)
            &&& in_step(tells, end, u)
            &&& end.saved == h.saved
            &&& end.raw_saved == h.raw_saved
            &&& end.saved_nr == h.saved_nr
            &&& forall|i: int|
                0 < i <= ops.len() && (#[trigger] outcome::<A>(
                    h,
                    ops.take(i),
                ) matches StepView::Finish(Ok(_))) ==> dispatched(t, ops.take(i)) == dispatched(
                    t,
                    ops.take(i - 1),
                ).push(record(ops[i - 1].call))
        }),
    decreases ops.len(),
{
    if ops.len() == 0 {
        assert(t.ran =~= t.ran + dispatched(t, ops));
    } else {
        let front = ops.drop_last();
        let op = ops.last();
        lemma_all_served::<A>(tells, h, t, front);
        let before = served_engine::<A>(h, front);
        let mid = served_thread(t, front);
        let u = served_thread(t, ops);
        let (h1, step1) = hijack::told(before, op.call);
        assert(on_track::<A>(tells, h1, step1, mid, mid.ran));
        lemma_on_track::<A>(tells, h1, step1, mid, op.evs, op.ts, mid.ran);
        lemma_kept::<A>(tells, h1, step1, mid, op.evs, op.ts, mid.ran);
        assert(mid.ran.len() != mid.ran.push(record(op.call)).len());
        assert((t.ran + dispatched(t, front)).push(record(op.call)) =~= t.ran + dispatched(
            t,
            front,
        ).push(record(op.call)));
        assert forall|i: int|
            0 < i <= ops.len() && (#[trigger] outcome::<A>(
                h,
                ops.take(i),
            ) matches StepView::Finish(Ok(_))) implies dispatched(t, ops.take(i)) == dispatched(
            t,
            ops.take(i - 1),
        ).push(record(ops[i - 1].call)) by {
            if i == ops.len() {
                assert(ops.take(i) =~= ops);
                assert(ops.take(i - 1) =~= front);
            } else {
                assert(ops.take(i) =~= front.take(i));
                assert(ops.take(i - 1) =~= front.take(i - 1));
            }
        }
    }
}

proof fn lemma_kept<A: Arch>(
    tells: bool,
    h: HijackerView<A::Raw>,
    step: StepView<A::Raw, Reply>,
    t: Thread<A::Raw>,
    evs: Seq<Event<A::Raw>>,
    ts: Seq<Thread<A::Raw>>,
    base: Seq<(u64, Seq<u64>)>,
)
    requires
        h.call.nr <= i32::MAX,
        on_track::<A>(tells, h, step, t, base),
        possible::<A>(tells, h, step, t, evs, ts),
    ensures
        ({
            let end = after::<A>(h, step, evs).0;
            &&& end.saved == h.saved
            &&& end.raw_saved == h.raw_saved
            &&& end.saved_nr == h.saved_nr
        }),
    decreases evs.len(),
{
    if evs.len() > 0 {
        let action = step->Do_0;
        lemma_on_track_step::<A>(tells, h, action, t, evs[0], ts[0], base);
        let (h2, step2) = hijack::next::<A>(h, evs[0]);
        lemma_kept::<A>(tells, h2, step2, ts[0], evs.skip(1), ts.skip(1), base);
    }
}

/// What the kernel returned is what the operation reports: when the call's
/// return register holds `v` at the exit stop, all 64 bits of it, the
/// operation replies `v`.
pub proof fn returned_value_is_reported<A: Arch>(
    tells: bool,
    h: HijackerView<A::Raw>,
    nr: u64,
    args: [u64; 6],
    t: Thread<A::Raw>,
    evs: Seq<Event<A::Raw>>,
    ts: Seq<Thread<A::Raw>>,
    v: i64,
)
    requires
        nr <= i32::MAX,
        in_step(tells, h, t),
        ({
            let (h1, step1) = hijack::enter(
                HijackerView { call: Call { nr, args, fork: false }, ..h },
            );
            &&& possible::<A>(tells, h1, step1, t, evs, ts)
            &&& after::<A>(h1, step1, evs).1 matches StepView::Finish(Ok(_))
        }),
        A::return_register(final_thread(t, ts).regs) == v as u64,
    ensures
        ({
            let (h1, step1) = hijack::enter(
                HijackerView { call: Call { nr, args, fork: false }, ..h },
            );
            after::<A>(h1, step1, evs).1 == StepView::<A::Raw, Reply>::Finish(
                Ok(Reply::Value(v)),
            )
        }),
{
    injected_call_is_all_that_runs::<A>(tells, h, nr, args, t, evs, ts);
    A::result_law(final_thread(t, ts).regs, v);
}

/// A call fails only when a request failed or the thread is gone: as long
/// as neither happens, however many signals, events and other stops come in
/// between, the operation goes on, and once it is over it has the call's
/// value.
pub proof fn undisturbed_call_succeeds<A: Arch>(
    tells: bool,
    h: HijackerView<A::Raw>,
    nr: u64,
    args: [u64; 6],
    t: Thread<A::Raw>,
    evs: Seq<Event<A::Raw>>,
    ts: Seq<Thread<A::Raw>>,
)
    requires
        nr <= i32::MAX,
        in_step(tells, h, t),
        ({
            let (h1, step1) = hijack::enter(
                HijackerView { call: Call { nr, args, fork: false }, ..h },
            );
            possible::<A>(tells, h1, step1, t, evs, ts)
        }),
        forall|i: int|
            0 <= i < evs.len() ==> !(#[trigger] evs[i] is Failed) && evs[i]
                != Event::<A::Raw>::Stopped(Stop::Exited),
    ensures
        ({
            let (h1, step1) = hijack::enter(
                HijackerView { call: Call { nr, args, fork: false }, ..h },
            );
            match after::<A>(h1, step1, evs).1 {
                StepView::Do(_) => true,
                StepView::Finish(Ok(reply)) => reply is Value,
                StepView::Finish(Err(_)) => false,
            }
        }),
{
    let (h1, step1) = hijack::enter(HijackerView { call: Call { nr, args, fork: false }, ..h });
    lemma_undisturbed::<A>(tells, h1, step1, t, evs, ts, t.ran);
}

proof fn lemma_undisturbed<A: Arch>(
    tells: bool,
    h: HijackerView<A::Raw>,
    step: StepView<A::Raw, Reply>,
    t: Thread<A::Raw>,
    evs: Seq<Event<A::Raw>>,
    ts: Seq<Thread<A::Raw>>,
    base: Seq<(u64, Seq<u64>)>,
)
    requires
        h.call.nr <= i32::MAX,
        !h.call.fork,
        on_track::<A>(tells, h, step, t, base),
        possible::<A>(tells, h, step, t, evs, ts),
        !(step matches StepView::Finish(Err(_))),
        forall|i: int|
            0 <= i < evs.len() ==> !(#[trigger] evs[i] is Failed) && evs[i]
                != Event::<A::Raw>::Stopped(Stop::Exited),
    ensures
        ({
            let (h2, step2) = after::<A>(h, step, evs);
            &&& !h2.call.fork
            &&& on_track::<A>(tells, h2, step2, final_thread(t, ts), base)
            &&& !(step2 matches StepView::Finish(Err(_)))
        }),
    decreases evs.len(),
{
    if evs.len() > 0 {
        let action = step->Do_0;
        lemma_on_track_step::<A>(tells, h, action, t, evs[0], ts[0], base);
        let (h2, step2) = hijack::next::<A>(h, evs[0]);
        assert(!(evs[0] is Failed) && evs[0] != Event::<A::Raw>::Stopped(Stop::Exited));
        assert forall|i: int| 0 <= i < evs.skip(1).len() implies !(#[trigger] evs.skip(
            1,
        )[i] is Failed) && evs.skip(1)[i] != Event::<A::Raw>::Stopped(Stop::Exited) by {
            assert(evs.skip(1)[i] == evs[i + 1]);
        }
        lemma_undisturbed::<A>(tells, h2, step2, ts[0], evs.skip(1), ts.skip(1), base);
    }
}

} // verus!
