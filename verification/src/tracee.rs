//! Requests to the kernel about one traced thread, and their answers.

use vstd::prelude::*;

use crate::abi::{SIGSTOP, SIGTRAP};
use crate::arch::{Regs, SyscallStop};
use crate::error::{Error, ErrorView};
use crate::ptrace::Stop;

verus! {

/// A request about a traced thread.
#[derive(Debug, Clone, Copy)]
pub enum Action<R> {
    /// PTRACE_SEIZE.
    Seize { tid: i32 },
    /// PTRACE_DETACH, delivering `sig` (0 delivers nothing).
    Detach { tid: i32, sig: i32 },
    /// PTRACE_SYSCALL, delivering `sig` (0 delivers nothing).
    Resume { tid: i32, sig: i32 },
    /// Wait until the thread stops.
    Wait { tid: i32 },
    /// Wait until the thread stops, for at most so many milliseconds.
    WaitFor { tid: i32, ms: u64 },
    /// Tell a syscall-entry stop from a syscall-exit stop.
    StopKind { tid: i32 },
    GetRegs { tid: i32 },
    SetRegs { tid: i32, regs: Regs<R> },
    /// Read the number word.
    GetNr { tid: i32 },
    /// Write the number word.
    SetNr { tid: i32, word: i32 },
    /// PTRACE_SETOPTIONS.
    SetOptions { tid: i32, options: i32 },
    /// PTRACE_GETEVENTMSG.
    EventMessage { tid: i32 },
    /// PTRACE_INTERRUPT.
    Interrupt { tid: i32 },
    /// Send a signal to the thread `tid` of the process `pid`.
    Send { pid: i32, tid: i32, sig: i32 },
    /// Read the clock.
    Clock,
}

/// What a request brought back.
#[derive(Debug, Clone, Copy)]
pub enum Event<R> {
    Done,
    /// The request failed with this `errno`.
    Failed(i32),
    Stopped(Stop),
    TimedOut,
    Kind(SyscallStop),
    Registers(Regs<R>),
    Number(i32),
    Message(u64),
    /// Milliseconds on a clock that never goes back.
    Time(u64),
}

/// Whether `ev` can be the answer to `action`.
pub open spec fn answers<R>(action: Action<R>, ev: Event<R>) -> bool {
    match action {
        Action::Seize { .. } => ev is Done || ev is Failed,
        Action::Detach { .. } => ev is Done || ev is Failed,
        Action::Resume { .. } => ev is Done || ev is Failed,
        Action::Wait { .. } => ev is Stopped || ev is Failed,
        Action::WaitFor { .. } => ev is Stopped || ev is TimedOut || ev is Failed,
        Action::StopKind { .. } => ev is Kind,
        Action::GetRegs { .. } => ev is Registers || ev is Failed,
        Action::SetRegs { .. } => ev is Done || ev is Failed,
        Action::GetNr { .. } => ev is Number || ev is Failed,
        Action::SetNr { .. } => ev is Done || ev is Failed,
        Action::SetOptions { .. } => ev is Done || ev is Failed,
        Action::EventMessage { .. } => ev is Message || ev is Failed,
        Action::Interrupt { .. } => ev is Done || ev is Failed,
        Action::Send { .. } => ev is Done || ev is Failed,
        Action::Clock => ev is Time,
    }
}

/// What an operation on a thread does next.
pub enum Step<R, T> {
    Do(Action<R>),
    Finish(Result<T, Error>),
}

/// A [`Step`] with its error taken by its view.
pub enum StepView<R, T> {
    Do(Action<R>),
    Finish(Result<T, ErrorView>),
}

impl<R, T> View for Step<R, T> {
    type V = StepView<R, T>;

    open spec fn view(&self) -> StepView<R, T> {
        match self {
            Step::Do(action) => StepView::Do(*action),
            Step::Finish(Ok(value)) => StepView::Finish(Ok(*value)),
            Step::Finish(Err(e)) => StepView::Finish(Err(e@)),
        }
    }
}

/// Requests with their answers, in the order in which they were made.
pub type Log<R> = Seq<(Action<R>, Event<R>)>;

/// The threads that are held after the requests of `log`: seized, and since
/// then neither found gone nor asked to be detached.
pub open spec fn held<R>(log: Log<R>) -> Set<i32>
    decreases log.len(),
{
    if log.len() == 0 {
        Set::empty()
    } else {
        let before = held(log.drop_last());
        match log.last() {
            (Action::Seize { tid }, Event::Done) => before.insert(tid),
            (Action::Detach { tid, .. }, _) => before.remove(tid),
            (Action::WaitFor { tid, .. }, Event::Stopped(Stop::Exited)) => before.remove(tid),
            _ => before,
        }
    }
}

/// The threads that were asked to be detached, in order.
pub open spec fn detached<R>(log: Log<R>) -> Seq<i32>
    decreases log.len(),
{
    if log.len() == 0 {
        Seq::empty()
    } else {
        let before = detached(log.drop_last());
        match log.last() {
            (Action::Detach { tid, .. }, _) => before.push(tid),
            _ => before,
        }
    }
}

// ---------------------------------------------------------------------
// Swallowed signals
// ---------------------------------------------------------------------

/// A signal that stopped a thread and was swallowed: it is owed to that
/// thread.
#[derive(Debug, Clone, Copy, PartialEq, Eq, Structural)]
pub struct Missed {
    pub tid: i32,
    pub sig: i32,
}

/// Whether a signal that stops a thread is the target's own, and not one
/// that ptrace itself uses. The number 0 is no signal.
pub open spec fn owed(sig: i32) -> bool {
    sig != SIGTRAP && sig != SIGSTOP && sig != 0
}

/// What is owed once the thread `tid` was stopped by one more signal.
pub open spec fn noted(missed: Seq<Missed>, tid: i32, sig: i32) -> Seq<Missed> {
    if owed(sig) {
        missed.push(Missed { tid, sig })
    } else {
        missed
    }
}

/// Note a signal that stopped a thread.
pub fn note(missed: &mut Vec<Missed>, tid: i32, sig: i32)
    ensures
        final(missed)@ == noted(old(missed)@, tid, sig),
{
    if sig != SIGTRAP && sig != SIGSTOP && sig != 0 {
        missed.push(Missed { tid, sig });
    }
}

/// Whether everything in the list is owed to a thread.
pub open spec fn all_owed(missed: Seq<Missed>) -> bool {
    forall|i: int| 0 <= i < missed.len() ==> owed((#[trigger] missed[i]).sig)
}

/// Where the first signal that is owed to a thread stands in the list; its
/// length, where nothing is.
pub open spec fn first_of(missed: Seq<Missed>, tid: i32) -> int
    decreases missed.len(),
{
    if missed.len() == 0 || missed[0].tid == tid {
        0
    } else {
        1 + first_of(missed.skip(1), tid)
    }
}

/// The first signal that is owed to a thread, or 0.
pub open spec fn first_signal(missed: Seq<Missed>, tid: i32) -> i32 {
    let i = first_of(missed, tid);
    if i < missed.len() {
        missed[i].sig
    } else {
        0
    }
}

/// What is owed once a thread got its first signal.
pub open spec fn without_first(missed: Seq<Missed>, tid: i32) -> Seq<Missed> {
    let i = first_of(missed, tid);
    if i < missed.len() {
        missed.remove(i)
    } else {
        missed
    }
}

/// What [`first_of`] is.
pub proof fn lemma_first_of(missed: Seq<Missed>, tid: i32)
    ensures
        0 <= first_of(missed, tid) <= missed.len(),
        first_of(missed, tid) < missed.len() ==> missed[first_of(missed, tid)].tid == tid,
        forall|j: int| 0 <= j < first_of(missed, tid) ==> (#[trigger] missed[j]).tid != tid,
    decreases missed.len(),
{
    if missed.len() > 0 && missed[0].tid != tid {
        lemma_first_of(missed.skip(1), tid);
        assert forall|j: int| 0 <= j < first_of(missed, tid) implies (
        #[trigger] missed[j]).tid != tid by {
            if j > 0 {
                assert(missed.skip(1)[j - 1] == missed[j]);
            }
        }
    }
}

fn find_first(missed: &Vec<Missed>, tid: i32) -> (r: usize)
    ensures
        r == first_of(missed@, tid),
        r <= missed@.len(),
{
    proof {
        lemma_first_of(missed@, tid);
    }
    let mut i: usize = 0;
    while i < missed.len() && missed[i].tid != tid
        invariant
            i <= first_of(missed@, tid) <= missed@.len(),
            first_of(missed@, tid) < missed@.len() ==> missed@[first_of(missed@, tid)].tid == tid,
            forall|j: int| 0 <= j < first_of(missed@, tid) ==> (#[trigger] missed@[j]).tid != tid,
        decreases missed@.len() - i,
    {
        i = i + 1;
    }
    i
}

/// The first signal that is owed to a thread, or 0.
pub fn peek_first(missed: &Vec<Missed>, tid: i32) -> (r: i32)
    ensures
        r == first_signal(missed@, tid),
{
    let i: usize = find_first(missed, tid);
    if i < missed.len() {
        missed[i].sig
    } else {
        0
    }
}

/// Strike the first signal that is owed to a thread from the list.
pub fn drop_first_of(missed: &mut Vec<Missed>, tid: i32)
    ensures
        final(missed)@ == without_first(old(missed)@, tid),
{
    let i: usize = find_first(missed, tid);
    if i < missed.len() {
        missed.remove(i);
    }
}

/// A copy of a list.
pub fn copy_missed(missed: &Vec<Missed>) -> (r: Vec<Missed>)
    ensures
        r@ == missed@,
{
    let mut r: Vec<Missed> = Vec::new();
    let mut i: usize = 0;
    while i < missed.len()
        invariant
            i <= missed@.len(),
            r@ == missed@.take(i as int),
        decreases missed@.len() - i,
    {
        r.push(missed[i]);
        i = i + 1;
        assert(r@ =~= missed@.take(i as int));
    }
    assert(r@ =~= missed@);
    r
}

/// The signals of the target's own that stopped a thread, in order.
pub open spec fn swallowed<R>(log: Log<R>) -> Seq<Missed>
    decreases log.len(),
{
    if log.len() == 0 {
        Seq::empty()
    } else {
        let before = swallowed(log.drop_last());
        match log.last() {
            (Action::Wait { tid }, Event::Stopped(Stop::Signal(sig))) => noted(before, tid, sig),
            (Action::WaitFor { tid, .. }, Event::Stopped(Stop::Signal(sig))) => noted(
                before,
                tid,
                sig,
            ),
            _ => before,
        }
    }
}

/// The signals that were delivered to a thread, in order: with a resume or
/// a detach that succeeded, or sent to it.
pub open spec fn delivered<R>(log: Log<R>) -> Seq<Missed>
    decreases log.len(),
{
    if log.len() == 0 {
        Seq::empty()
    } else {
        let before = delivered(log.drop_last());
        match log.last() {
            (Action::Resume { tid, sig }, Event::Done) if sig != 0 => before.push(
                Missed { tid, sig },
            ),
            (Action::Detach { tid, sig }, Event::Done) if sig != 0 => before.push(
                Missed { tid, sig },
            ),
            (Action::Send { tid, sig, .. }, _) => before.push(Missed { tid, sig }),
            _ => before,
        }
    }
}

/// What was swallowed is owed.
pub proof fn lemma_swallowed_is_owed<R>(log: Log<R>)
    ensures
        all_owed(swallowed(log)),
    decreases log.len(),
{
    if log.len() > 0 {
        lemma_swallowed_is_owed(log.drop_last());
    }
}

/// What one log after the other swallowed, delivered and detached.
pub proof fn lemma_logs_add_up<R>(a: Log<R>, b: Log<R>)
    ensures
        swallowed(a + b) == swallowed(a) + swallowed(b),
        delivered(a + b) == delivered(a) + delivered(b),
        detached(a + b) == detached(a) + detached(b),
    decreases b.len(),
{
    if b.len() == 0 {
        assert(a + b =~= a);
    } else {
        lemma_logs_add_up(a, b.drop_last());
        assert((a + b).drop_last() =~= a + b.drop_last());
        assert((a + b).last() == b.last());
        assert(swallowed(a + b) =~= swallowed(a) + swallowed(b));
        assert(delivered(a + b) =~= delivered(a) + delivered(b));
        assert(detached(a + b) =~= detached(a) + detached(b));
    }
}

/// Striking the first signal of a thread strikes exactly that signal.
pub proof fn lemma_without_first(missed: Seq<Missed>, tid: i32)
    requires
        all_owed(missed),
    ensures
        all_owed(without_first(missed, tid)),
        first_signal(missed, tid) == 0 ==> without_first(missed, tid) == missed,
        first_signal(missed, tid) != 0 ==> {
            &&& missed.to_multiset() == without_first(missed, tid).to_multiset().insert(
                Missed { tid, sig: first_signal(missed, tid) },
            )
        },
{
    lemma_first_of(missed, tid);
    let i = first_of(missed, tid);
    if i < missed.len() {
        let rest = missed.remove(i);
        missed.to_multiset_ensures();
        assert(missed[i] == Missed { tid, sig: missed[i].sig });
        assert(missed.contains(missed[i]));
        assert(missed.to_multiset().count(missed[i]) > 0);
        assert(missed.to_multiset() =~= rest.to_multiset().insert(missed[i]));
        assert forall|j: int| 0 <= j < rest.len() implies owed((#[trigger] rest[j]).sig) by {
            assert(rest[j] == missed[if j < i {
                j
            } else {
                j + 1
            }]);
        }
    }
}

/// Every signal that stops a thread is the target's own and is owed to the
/// thread, but for the two that ptrace itself uses, SIGTRAP, which is 5,
/// and SIGSTOP, which is 19: it is noted behind what is owed already, as
/// often as it comes.
pub proof fn own_signals_are_noted(missed: Seq<Missed>, tid: i32, sig: i32)
    requires
        sig != 0,
    ensures
        sig != 5 && sig != 19 ==> noted(missed, tid, sig) == missed.push(Missed { tid, sig }),
        sig == 5 || sig == 19 ==> noted(missed, tid, sig) == missed,
{
}

/// What a thread is given first is the earliest signal that is owed to it,
/// and nothing when there is none; striking it leaves everything else as it
/// is and where it is.
pub proof fn earliest_signal_comes_first(missed: Seq<Missed>, tid: i32, i: int)
    requires
        0 <= i <= missed.len(),
        forall|j: int| 0 <= j < i ==> (#[trigger] missed[j]).tid != tid,
        i < missed.len() ==> missed[i].tid == tid,
    ensures
        i < missed.len() ==> first_signal(missed, tid) == missed[i].sig,
        i < missed.len() ==> without_first(missed, tid) == missed.take(i) + missed.skip(i + 1),
        i == missed.len() ==> first_signal(missed, tid) == 0,
        i == missed.len() ==> without_first(missed, tid) == missed,
{
    lemma_first_of(missed, tid);
    let k = first_of(missed, tid);
    if k < i {
        assert(missed[k].tid == tid);
    }
    if i < k {
        assert(missed[i].tid != tid);
    }
    if i < missed.len() {
        assert(missed.remove(i) =~= missed.take(i) + missed.skip(i + 1));
    }
}

} // verus!
