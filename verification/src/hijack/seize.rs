//! Picking a thread to hijack: one after the other, the seized threads are
//! let run until one of them enters a syscall. Threads blocked in a syscall
//! re-enter it when resumed (restart semantics), so even an idle `cat`
//! yields an entry stop immediately.

use vstd::prelude::*;

use crate::arch::{Arch, Regs, SyscallStop};
use crate::error::{msg, Error, ErrorView};
use crate::hijack;
use crate::hijack::{Captured, Hijacker};
use crate::kernel;
use crate::list;
use crate::ptrace::Stop;
use crate::session::{Session, SessionView};
use crate::text;
use crate::text::{copy_text, push_signed};
use crate::tracee;
use crate::tracee::{Action, Event, Log, Missed, Step, StepView};

verus! {

/// How long to wait for a candidate thread to reach a syscall entry, in
/// milliseconds.
pub const ENTRY_TIMEOUT: u64 = 3000;

/// Give up on the whole seize after this long, in milliseconds.
pub const TOTAL_TIMEOUT: u64 = 15000;

/// Which request is outstanding.
#[derive(Clone, Copy)]
pub enum Phase<R> {
    /// Reading the clock to set the limit for the whole.
    Begin,
    /// Reading the clock before the next thread.
    Choosing,
    /// Letting the thread run for the first time.
    Starting,
    /// Reading the clock to set the limit for the thread.
    Timing,
    /// Reading the clock before each wait.
    Looking,
    /// Waiting for the thread to stop.
    Watching,
    /// Finding out what kind of syscall stop it is.
    Classifying,
    /// Letting the thread run on.
    Continuing,
    /// Reading the registers of an entry stop.
    Capturing,
    /// Reading the number word of the entry stop with these registers.
    Numbering(Regs<R>),
    /// Out of time: stopping the thread again.
    Interrupting,
    /// Out of time: waiting for the stop.
    Settling,
    /// Out of time: letting the thread run with the first signal that it
    /// missed.
    Releasing,
    /// Nothing is outstanding.
    Over,
}

/// A search for a thread to hijack.
pub struct Seizing<A: Arch> {
    tids: Vec<i32>,
    /// How many threads were tried, with the current one.
    tried: usize,
    /// When to give up on the whole.
    limit: u64,
    /// When to give up on the current thread.
    deadline: u64,
    /// The signals that the threads are owed.
    missed: Vec<Missed>,
    phase: Phase<A::Raw>,
}

pub struct SeizingView<R> {
    pub tids: Seq<i32>,
    pub tried: nat,
    pub limit: u64,
    pub deadline: u64,
    pub missed: Seq<Missed>,
    pub phase: Phase<R>,
}

impl<R> SeizingView<R> {
    /// The thread that is being tried.
    pub open spec fn tid(self) -> i32 {
        self.tids[self.tried - 1]
    }

    /// Whether a thread is being tried.
    pub open spec fn trying(self) -> bool {
        !(self.phase is Begin || self.phase is Choosing || self.phase is Over)
    }

    pub open spec fn wf(self) -> bool {
        &&& self.tried <= self.tids.len()
        &&& self.trying() ==> self.tried > 0
        &&& self.phase is Choosing ==> self.tried < self.tids.len()
    }
}

impl<A: Arch> View for Seizing<A> {
    type V = SeizingView<A::Raw>;

    closed spec fn view(&self) -> SeizingView<A::Raw> {
        SeizingView {
            tids: self.tids@,
            tried: self.tried as nat,
            limit: self.limit,
            deadline: self.deadline,
            missed: self.missed@,
            phase: self.phase,
        }
    }
}

pub type Transition<R> = (SeizingView<R>, StepView<R, Captured<R>>);

pub open spec fn nothing_to_hijack() -> ErrorView {
    ErrorView::Msg(
        "unable to find a syscall to hijack; the target may be stopped (send SIGCONT) or blocked without syscalls"@,
    )
}

pub open spec fn exited_while_hijacking(tid: i32) -> ErrorView {
    ErrorView::Msg("thread "@ + text::signed_decimal(tid as int) + " exited while hijacking"@)
}

pub open spec fn ask<R>(s: SeizingView<R>, phase: Phase<R>, action: Action<R>) -> Transition<R> {
    (SeizingView { phase, ..s }, StepView::Do(action))
}

pub open spec fn fail<R>(s: SeizingView<R>, e: ErrorView) -> Transition<R> {
    (SeizingView { phase: Phase::Over, ..s }, StepView::Finish(Err(e)))
}

/// Try the next thread, if there is one.
pub open spec fn next_thread<R>(s: SeizingView<R>) -> Transition<R> {
    if s.tried < s.tids.len() {
        ask(s, Phase::Choosing, Action::Clock)
    } else {
        fail(s, nothing_to_hijack())
    }
}

/// Let the current thread run on, delivering nothing.
pub open spec fn run_on<R>(s: SeizingView<R>) -> Transition<R> {
    ask(s, Phase::Continuing, Action::Resume { tid: s.tid(), sig: 0 })
}

/// Let the current thread run for good, with the first signal that it is
/// owed.
pub open spec fn release<R>(s: SeizingView<R>) -> Transition<R> {
    ask(
        s,
        Phase::Releasing,
        Action::Resume { tid: s.tid(), sig: tracee::first_signal(s.missed, s.tid()) },
    )
}

/// The current thread is at an entry stop with the registers `raw` and the
/// number word `word`: it is the one.
pub open spec fn capture<A: Arch>(
    s: SeizingView<A::Raw>,
    raw: Regs<A::Raw>,
    word: i32,
) -> Transition<A::Raw> {
    (
        SeizingView { phase: Phase::Over, ..s },
        StepView::Finish(
            Ok(
                Captured {
                    tid: s.tid(),
                    saved: Regs(A::fixed(raw.0)),
                    raw_saved: raw,
                    saved_nr: A::entry_nr(A::fixed(raw.0), word),
                },
            ),
        ),
    )
}

/// The current thread stopped, or did not in time.
pub open spec fn on_stop<R>(s: SeizingView<R>, stop: Stop) -> Transition<R> {
    match stop {
        Stop::Syscall => ask(s, Phase::Classifying, Action::StopKind { tid: s.tid() }),
        Stop::Signal(sig) => run_on(
            SeizingView { missed: tracee::noted(s.missed, s.tid(), sig), ..s },
        ),
        Stop::Event(_) => run_on(s),
        Stop::Exited => fail(s, exited_while_hijacking(s.tid())),
    }
}

/// The clock was read.
pub open spec fn on_time<R>(s: SeizingView<R>, now: u64) -> Transition<R> {
    match s.phase {
        Phase::Begin => next_thread(SeizingView { limit: (now + TOTAL_TIMEOUT) as u64, ..s }),
        Phase::Choosing => if now >= s.limit {
            fail(s, nothing_to_hijack())
        } else {
            ask(
                SeizingView { tried: s.tried + 1, ..s },
                Phase::Starting,
                Action::Resume { tid: s.tids[s.tried as int], sig: 0 },
            )
        },
        Phase::Timing => ask(
            SeizingView { deadline: (now + ENTRY_TIMEOUT) as u64, ..s },
            Phase::Looking,
            Action::Clock,
        ),
        Phase::Looking => if now >= s.deadline {
            ask(s, Phase::Interrupting, Action::Interrupt { tid: s.tid() })
        } else {
            ask(
                s,
                Phase::Watching,
                Action::WaitFor { tid: s.tid(), ms: (s.deadline - now) as u64 },
            )
        },
        _ => arbitrary(),
    }
}

/// What the search does with an answer.
pub open spec fn next<A: Arch>(s: SeizingView<A::Raw>, ev: Event<A::Raw>) -> Transition<A::Raw> {
    match (s.phase, ev) {
        // Best effort: the thread stays seized, whatever these bring.
        (Phase::Interrupting, _) => ask(s, Phase::Settling, Action::Wait { tid: s.tid() }),
        (Phase::Settling, Event::Stopped(Stop::Signal(sig))) => release(
            SeizingView { missed: tracee::noted(s.missed, s.tid(), sig), ..s },
        ),
        (Phase::Settling, _) => release(s),
        // A signal that was given back is not owed any more.
        (Phase::Releasing, Event::Done) => next_thread(
            SeizingView { missed: tracee::without_first(s.missed, s.tid()), ..s },
        ),
        (Phase::Releasing, _) => next_thread(s),
        (_, Event::Failed(errno)) => fail(s, ErrorView::Os(errno)),
        (_, Event::Time(now)) => on_time(s, now),
        (Phase::Starting, _) => ask(s, Phase::Timing, Action::Clock),
        (Phase::Continuing, _) => ask(s, Phase::Looking, Action::Clock),
        (Phase::Watching, Event::Stopped(stop)) => on_stop(s, stop),
        (Phase::Watching, Event::TimedOut) => ask(s, Phase::Looking, Action::Clock),
        (Phase::Classifying, Event::Kind(kind)) => if kind == SyscallStop::Entry {
            ask(s, Phase::Capturing, Action::GetRegs { tid: s.tid() })
        } else {
            run_on(s)
        },
        (Phase::Capturing, Event::Registers(raw)) => match A::nr_word(0) {
            Some(_) => ask(s, Phase::Numbering(raw), Action::GetNr { tid: s.tid() }),
            None => capture::<A>(s, raw, 0),
        },
        (Phase::Numbering(raw), Event::Number(word)) => capture::<A>(s, raw, word),
        _ => arbitrary(),
    }
}

/// Whether `ev` can be the answer that the search is waiting for. The
/// instruction pointer of an entry stop is past a syscall instruction, and
/// the clock is not about to overflow.
pub open spec fn expects<A: Arch>(s: SeizingView<A::Raw>, ev: Event<A::Raw>) -> bool {
    match s.phase {
        Phase::Begin | Phase::Timing => ev matches Event::Time(now) && now + TOTAL_TIMEOUT
            <= u64::MAX,
        Phase::Choosing | Phase::Looking => ev is Time,
        Phase::Watching => ev is Stopped || ev is TimedOut || ev is Failed,
        Phase::Classifying => ev is Kind,
        Phase::Capturing => {
            ||| ev is Failed
            ||| ev matches Event::Registers(raw) && A::insn_len() <= A::ip(raw.0)
        },
        Phase::Numbering(_) => ev is Number || ev is Failed,
        Phase::Settling => ev is Stopped || ev is Failed,
        Phase::Over => false,
        _ => ev is Done || ev is Failed,
    }
}

/// A search that has just begun.
pub open spec fn begun<R>(session: SessionView) -> SeizingView<R> {
    SeizingView {
        tids: session.tids,
        tried: 0,
        limit: 0,
        deadline: 0,
        missed: session.missed,
        phase: Phase::Begin,
    }
}

/// The first step of every search.
pub open spec fn first_step<R>() -> StepView<R, Captured<R>> {
    StepView::Do(Action::Clock)
}

impl<A: Arch> Hijacker<A> {
    /// Pick a thread of the session and wait until it enters a syscall.
    pub fn seize(session: &Session) -> (r: (Seizing<A>, Step<A::Raw, Captured<A::Raw>>))
        ensures
            r.0@ == begun::<A::Raw>(session@),
            r.0@.wf(),
            r.1@ == first_step::<A::Raw>(),
    {
        let tids: Vec<i32> = list::copy(session.tids());
        let missed: Vec<Missed> = tracee::copy_missed(session.missed());
        (
            Seizing { tids, tried: 0, limit: 0, deadline: 0, missed, phase: Phase::Begin },
            Step::Do(Action::Clock),
        )
    }
}

impl<A: Arch> Seizing<A> {
    fn ask(&mut self, phase: Phase<A::Raw>, action: Action<A::Raw>) -> (r: Step<
        A::Raw,
        Captured<A::Raw>,
    >)
        ensures
            (final(self)@, r@) == ask(old(self)@, phase, action),
    {
        self.phase = phase;
        Step::Do(action)
    }

    fn fail(&mut self, e: Error) -> (r: Step<A::Raw, Captured<A::Raw>>)
        ensures
            (final(self)@, r@) == fail(old(self)@, e@),
    {
        self.phase = Phase::Over;
        Step::Finish(Err(e))
    }

    fn give_up(&mut self) -> (r: Step<A::Raw, Captured<A::Raw>>)
        ensures
            (final(self)@, r@) == fail(old(self)@, nothing_to_hijack()),
    {
        self.fail(
            msg(
                "unable to find a syscall to hijack; the target may be stopped (send SIGCONT) or blocked without syscalls",
            ),
        )
    }

    fn next_thread(&mut self) -> (r: Step<A::Raw, Captured<A::Raw>>)
        ensures
            (final(self)@, r@) == next_thread(old(self)@),
    {
        if self.tried < self.tids.len() {
            self.ask(Phase::Choosing, Action::Clock)
        } else {
            self.give_up()
        }
    }

    fn run_on(&mut self, tid: i32) -> (r: Step<A::Raw, Captured<A::Raw>>)
        requires
            tid == old(self)@.tid(),
        ensures
            (final(self)@, r@) == run_on(old(self)@),
    {
        self.ask(Phase::Continuing, Action::Resume { tid, sig: 0 })
    }

    fn capture(&mut self, a: &A, tid: i32, raw: Regs<A::Raw>, word: i32) -> (r: Step<
        A::Raw,
        Captured<A::Raw>,
    >)
        requires
            tid == old(self)@.tid(),
            A::insn_len() <= A::ip(raw.0),
        ensures
            (final(self)@, r@) == capture::<A>(old(self)@, raw, word),
    {
        let mut saved: Regs<A::Raw> = raw;
        a.save_fixup(&mut saved);
        let saved_nr: u64 = a.get_syscall_nr(&saved, word);
        self.phase = Phase::Over;
        Step::Finish(
            Ok(
                Captured {
                    tid,
                    saved,
                    raw_saved: raw,
                    saved_nr,
                },
            ),
        )
    }

    fn on_stop(&mut self, tid: i32, stop: Stop) -> (r: Step<A::Raw, Captured<A::Raw>>)
        requires
            tid == old(self)@.tid(),
        ensures
            (final(self)@, r@) == on_stop(old(self)@, stop),
    {
        match stop {
            Stop::Syscall => self.ask(Phase::Classifying, Action::StopKind { tid }),
            Stop::Signal(sig) => {
                tracee::note(&mut self.missed, tid, sig);
                self.run_on(tid)
            },
            Stop::Event(_) => self.run_on(tid),
            Stop::Exited => {
                let mut m: String = copy_text("thread ");
                push_signed(&mut m, tid as i64);
                m.append(" exited while hijacking");
                self.fail(Error::Msg(m))
            },
        }
    }

    fn on_time(&mut self, tid: i32, now: u64) -> (r: Step<A::Raw, Captured<A::Raw>>)
        requires
            old(self)@.wf(),
            old(self)@.trying() ==> tid == old(self)@.tid(),
            expects::<A>(old(self)@, Event::Time(now)),
        ensures
            (final(self)@, r@) == on_time(old(self)@, now),
    {
        match self.phase {
            Phase::Begin => {
                self.limit = now + TOTAL_TIMEOUT;
                self.next_thread()
            },
            Phase::Choosing => {
                if now >= self.limit {
                    return self.give_up();
                }
                let tid: i32 = self.tids[self.tried];
                assert(self.tried < self.tids.len());
                self.tried = self.tried + 1;
                self.ask(Phase::Starting, Action::Resume { tid, sig: 0 })
            },
            Phase::Timing => {
                self.deadline = now + ENTRY_TIMEOUT;
                self.ask(Phase::Looking, Action::Clock)
            },
            _ => if now >= self.deadline {
                // Stop the thread again; it remains seized in the session.
                self.ask(Phase::Interrupting, Action::Interrupt { tid })
            } else {
                let ms: u64 = self.deadline - now;
                self.ask(Phase::Watching, Action::WaitFor { tid, ms })
            },
        }
    }

    fn release(&mut self, tid: i32) -> (r: Step<A::Raw, Captured<A::Raw>>)
        requires
            tid == old(self)@.tid(),
        ensures
            (final(self)@, r@) == release(old(self)@),
    {
        let sig: i32 = tracee::peek_first(&self.missed, tid);
        self.ask(Phase::Releasing, Action::Resume { tid, sig })
    }

    /// The signals that the threads are still owed, once the search is over.
    pub fn into_missed(self) -> (r: Vec<Missed>)
        ensures
            r@ == self@.missed,
    {
        self.missed
    }

    /// Go on with the search, now that its request was answered.
    pub fn step(&mut self, a: &A, ev: Event<A::Raw>) -> (r: Step<A::Raw, Captured<A::Raw>>)
        requires
            old(self)@.wf(),
            expects::<A>(old(self)@, ev),
            // The registers that came before the number word were accepted.
            old(self)@.phase matches Phase::Numbering(raw) ==> A::insn_len() <= A::ip(raw.0),
        ensures
            (final(self)@, r@) == next::<A>(old(self)@, ev),
            final(self)@.wf(),
            final(self)@.phase matches Phase::Numbering(raw) ==> A::insn_len() <= A::ip(raw.0),
    {
        let tid: i32 = if self.tried > 0 {
            self.tids[self.tried - 1]
        } else {
            0
        };
        match (self.phase, ev) {
            (Phase::Interrupting, _) => self.ask(Phase::Settling, Action::Wait { tid }),
            (Phase::Settling, Event::Stopped(Stop::Signal(sig))) => {
                tracee::note(&mut self.missed, tid, sig);
                self.release(tid)
            },
            (Phase::Settling, _) => self.release(tid),
            (Phase::Releasing, Event::Done) => {
                tracee::drop_first_of(&mut self.missed, tid);
                self.next_thread()
            },
            (Phase::Releasing, _) => self.next_thread(),
            (_, Event::Failed(errno)) => self.fail(Error::Os(errno)),
            (_, Event::Time(now)) => self.on_time(tid, now),
            (Phase::Starting, _) => self.ask(Phase::Timing, Action::Clock),
            (Phase::Continuing, _) => self.ask(Phase::Looking, Action::Clock),
            (Phase::Watching, Event::Stopped(stop)) => self.on_stop(tid, stop),
            (Phase::Watching, Event::TimedOut) => self.ask(Phase::Looking, Action::Clock),
            (Phase::Classifying, Event::Kind(kind)) => if kind == SyscallStop::Entry {
                self.ask(Phase::Capturing, Action::GetRegs { tid })
            } else {
                // An exit stop: the thread is leaving a syscall that it was
                // already in; let it run on toward the next entry.
                self.run_on(tid)
            },
            (Phase::Capturing, Event::Registers(raw)) => if a.has_nr_word() {
                self.ask(Phase::Numbering(raw), Action::GetNr { tid })
            } else {
                self.capture(a, tid, raw, 0)
            },
            (Phase::Numbering(raw), Event::Number(word)) => self.capture(a, tid, raw, word),
            // No other answer is expected.
            _ => self.fail(Error::Os(0)),
        }
    }
}

// ---------------------------------------------------------------------
// Laws
// ---------------------------------------------------------------------

/// The thread that the search hands out is held as it was captured: once it
/// is restored, its pending syscall runs.
pub proof fn found_thread_is_captured<A: Arch>(
    s: SeizingView<A::Raw>,
    raw: Regs<A::Raw>,
    word: i32,
    h: hijack::HijackerView<A::Raw>,
)
    requires
        A::insn_len() <= A::ip(raw.0),
        A::entry_shape(raw.0, word),
        capture::<A>(s, raw, word).1 matches StepView::Finish(Ok(c)) && {
            &&& h.saved == c.saved
            &&& h.raw_saved == c.raw_saved
            &&& h.saved_nr == c.saved_nr
        },
    ensures
        kernel::captured::<A>(h, word),
{
    A::fixup_law(raw.0, word);
}

/// The search and its step after the answers `evs`.
pub open spec fn after<A: Arch>(
    s: SeizingView<A::Raw>,
    step: StepView<A::Raw, Captured<A::Raw>>,
    evs: Seq<Event<A::Raw>>,
) -> Transition<A::Raw>
    decreases evs.len(),
{
    if evs.len() == 0 {
        (s, step)
    } else {
        next::<A>(after::<A>(s, step, evs.drop_last()).0, evs.last())
    }
}

/// Whether each of `evs` can be the answer that the search is waiting for
/// when it comes.
pub open spec fn accepts<A: Arch>(
    s: SeizingView<A::Raw>,
    step: StepView<A::Raw, Captured<A::Raw>>,
    evs: Seq<Event<A::Raw>>,
) -> bool
    decreases evs.len(),
{
    evs.len() > 0 ==> {
        &&& accepts::<A>(s, step, evs.drop_last())
        &&& expects::<A>(after::<A>(s, step, evs.drop_last()).0, evs.last())
    }
}

/// The requests that were answered by `evs`, with their answers.
pub open spec fn log<A: Arch>(
    s: SeizingView<A::Raw>,
    step: StepView<A::Raw, Captured<A::Raw>>,
    evs: Seq<Event<A::Raw>>,
) -> Log<A::Raw>
    decreases evs.len(),
{
    if evs.len() == 0 {
        Seq::empty()
    } else {
        log::<A>(s, step, evs.drop_last()).push(
            (after::<A>(s, step, evs.drop_last()).1->Do_0, evs.last()),
        )
    }
}

/// Which requests a search made that is waiting.
spec fn asks<R>(s: SeizingView<R>, step: StepView<R, Captured<R>>) -> bool {
    s.phase is Over || {
        &&& step matches StepView::Do(action)
        &&& match s.phase {
            Phase::Watching => action matches Action::WaitFor { tid, .. } && tid == s.tid(),
            Phase::Settling => action == Action::<R>::Wait { tid: s.tid() },
            Phase::Releasing => action == Action::<R>::Resume {
                tid: s.tid(),
                sig: tracee::first_signal(s.missed, s.tid()),
            },
            _ => {
                &&& !(action is Detach || action is Send || action is Wait || action is WaitFor)
                &&& action matches Action::Resume { sig, .. } ==> sig == 0
            },
        }
    }
}

proof fn lemma_answer_is_noted<A: Arch>(
    s: SeizingView<A::Raw>,
    step: StepView<A::Raw, Captured<A::Raw>>,
    ev: Event<A::Raw>,
    before: Log<A::Raw>,
)
    requires
        asks(s, step),
        expects::<A>(s, ev),
        tracee::all_owed(s.missed),
    ensures
        ({
            let (s2, step2) = next::<A>(s, ev);
            let log = before.push((step->Do_0, ev));
            &&& asks(s2, step2)
            &&& tracee::all_owed(s2.missed)
            &&& tracee::detached(log) == tracee::detached(before)
            &&& tracee::delivered(log).to_multiset().add(s2.missed.to_multiset()).add(
                tracee::swallowed(before).to_multiset(),
            ) == tracee::delivered(before).to_multiset().add(s.missed.to_multiset()).add(
                tracee::swallowed(log).to_multiset(),
            )
        }),
{
    let (s2, step2) = next::<A>(s, ev);
    let log = before.push((step->Do_0, ev));
    assert(log.drop_last() =~= before);
    tracee::delivered(before).to_multiset_ensures();
    tracee::swallowed(before).to_multiset_ensures();
    s.missed.to_multiset_ensures();
    tracee::lemma_without_first(s.missed, s.tid());
    assert(tracee::delivered(log).to_multiset().add(s2.missed.to_multiset()).add(
        tracee::swallowed(before).to_multiset(),
    ) =~= tracee::delivered(before).to_multiset().add(s.missed.to_multiset()).add(
        tracee::swallowed(log).to_multiset(),
    ));
}

/// No signal that a thread misses while it is tried is lost, and none is
/// delivered twice: what the threads were owed before, together with what
/// was swallowed meanwhile, is what was delivered to a thread that was let
/// run for good, together with what is owed still. And no thread is detached.
pub proof fn missed_signals_are_kept<A: Arch>(session: SessionView, evs: Seq<Event<A::Raw>>)
    requires
        tracee::all_owed(session.missed),
        accepts::<A>(
            begun::<A::Raw>(session),
            first_step::<A::Raw>(),
            evs,
        ),
    ensures
        ({
            let s = begun::<A::Raw>(session);
            let step = first_step::<A::Raw>();
            let end = after::<A>(s, step, evs).0;
            let done = log::<A>(s, step, evs);
            &&& tracee::all_owed(end.missed)
            &&& tracee::detached(done) == Seq::<i32>::empty()
            &&& session.missed.to_multiset().add(tracee::swallowed(done).to_multiset())
                == tracee::delivered(done).to_multiset().add(end.missed.to_multiset())
        }),
{
    lemma_missed_signals_are_kept::<A>(session, evs);
}

proof fn lemma_missed_signals_are_kept<A: Arch>(session: SessionView, evs: Seq<Event<A::Raw>>)
    requires
        tracee::all_owed(session.missed),
        accepts::<A>(
            begun::<A::Raw>(session),
            first_step::<A::Raw>(),
            evs,
        ),
    ensures
        ({
            let s = begun::<A::Raw>(session);
            let step = first_step::<A::Raw>();
            let (end, last) = after::<A>(s, step, evs);
            let done = log::<A>(s, step, evs);
            &&& asks(end, last)
            &&& tracee::all_owed(end.missed)
            &&& tracee::detached(done) == Seq::<i32>::empty()
            &&& session.missed.to_multiset().add(tracee::swallowed(done).to_multiset())
                == tracee::delivered(done).to_multiset().add(end.missed.to_multiset())
        }),
    decreases evs.len(),
{
    let s = begun::<A::Raw>(session);
    let step = first_step::<A::Raw>();
    let done = log::<A>(s, step, evs);
    let end = after::<A>(s, step, evs).0;
    if evs.len() > 0 {
        let front = evs.drop_last();
        lemma_missed_signals_are_kept::<A>(session, front);
        let (t, tstep) = after::<A>(s, step, front);
        let before = log::<A>(s, step, front);
        lemma_answer_is_noted::<A>(t, tstep, evs.last(), before);
        let a = session.missed.to_multiset();
        let sw0 = tracee::swallowed(before).to_multiset();
        let sw1 = tracee::swallowed(done).to_multiset();
        let de0 = tracee::delivered(before).to_multiset();
        let de1 = tracee::delivered(done).to_multiset();
        let m0 = t.missed.to_multiset();
        let m1 = end.missed.to_multiset();
        assert forall|x: Missed| a.add(sw1).count(x) == de1.add(m1).count(x) by {
            assert(a.add(sw0).count(x) == de0.add(m0).count(x));
            assert(de1.add(m1).add(sw0).count(x) == de0.add(m0).add(sw1).count(x));
        }
        assert(a.add(sw1) =~= de1.add(m1));
    } else {
        Seq::<Missed>::empty().to_multiset_ensures();
        assert(session.missed.to_multiset().add(tracee::swallowed(done).to_multiset())
            =~= tracee::delivered(done).to_multiset().add(end.missed.to_multiset()));
    }
}

/// Whatever a request can bring back, the search is prepared for it, as
/// long as an entry stop is past a syscall instruction and the clock is far
/// from its end.
pub proof fn every_answer_is_expected<A: Arch>(
    s: SeizingView<A::Raw>,
    ev: Event<A::Raw>,
    action: Action<A::Raw>,
    answer: Event<A::Raw>,
)
    requires
        expects::<A>(s, ev),
        next::<A>(s, ev).1 == StepView::<A::Raw, Captured<A::Raw>>::Do(action),
        tracee::answers(action, answer),
        answer matches Event::Registers(raw) ==> A::insn_len() <= A::ip(raw.0),
        answer matches Event::Time(now) ==> now + TOTAL_TIMEOUT <= u64::MAX,
    ensures
        expects::<A>(next::<A>(s, ev).0, answer),
{
}

/// A search fails for a reason, and says which: a request failed while the
/// current thread was under watch, that thread exited, or every thread has
/// been tried, or the time for the whole is up before another is. No other
/// answer ends it without a thread.
pub proof fn search_fails_for_a_reason<A: Arch>(s: SeizingView<A::Raw>, ev: Event<A::Raw>)
    requires
        s.wf(),
        expects::<A>(s, ev),
    ensures
        ({
            let (t, step) = next::<A>(s, ev);
            let failed = step matches StepView::Finish(Err(_));
            let e = step->Finish_0->Err_0;
            let nothing = ErrorView::Msg(
                "unable to find a syscall to hijack; the target may be stopped (send SIGCONT) or blocked without syscalls"@,
            );
            match s.phase {
                Phase::Interrupting | Phase::Settling => !failed,
                Phase::Releasing | Phase::Begin => {
                    &&& failed <==> s.tried == s.tids.len()
                    &&& failed ==> e == nothing
                },
                _ => match ev {
                    Event::Failed(errno) => failed && e == ErrorView::Os(errno),
                    Event::Stopped(Stop::Exited) => failed && e == ErrorView::Msg(
                        "thread "@ + text::signed_decimal(s.tid() as int)
                            + " exited while hijacking"@,
                    ),
                    Event::Time(now) => {
                        &&& failed <==> s.phase is Choosing && now >= s.limit
                        &&& failed ==> e == nothing
                    },
                    _ => !failed,
                },
            }
        }),
{
}

/// The search as a whole has 15 seconds from its first look at the clock,
/// and each thread 3 seconds from when it was let run. Till its time is up
/// a thread is waited for, for what is left of the time; when it is up, the
/// thread is interrupted, and not before. Nothing else moves these limits.
pub proof fn search_keeps_its_time<A: Arch>(s: SeizingView<A::Raw>, ev: Event<A::Raw>, now: u64)
    requires
        s.wf(),
        expects::<A>(s, ev),
    ensures
        ({
            let (t, step) = next::<A>(s, ev);
            let asked_at = ev == Event::<A::Raw>::Time(now);
            &&& s.phase is Begin && asked_at ==> t.limit == now + 15000
            &&& !(s.phase is Begin) ==> t.limit == s.limit
            &&& s.phase is Timing && asked_at ==> t.deadline == now + 3000
            &&& !(s.phase is Timing) ==> t.deadline == s.deadline
            &&& s.phase is Starting && ev is Done ==> t.phase is Timing && step == StepView::<
                A::Raw,
                Captured<A::Raw>,
            >::Do(Action::Clock)
            &&& s.phase is Looking && asked_at ==> step == StepView::<
                A::Raw,
                Captured<A::Raw>,
            >::Do(
                if now < s.deadline {
                    Action::WaitFor { tid: s.tid(), ms: (s.deadline - now) as u64 }
                } else {
                    Action::Interrupt { tid: s.tid() }
                },
            )
            &&& (step matches StepView::Do(action) && action is Interrupt) ==> {
                &&& s.phase is Looking
                &&& ev matches Event::Time(at)
                &&& at >= s.deadline
            }
            &&& (step matches StepView::Do(action) && action is WaitFor) ==> s.phase is Looking
        }),
{
}

/// Threads are tried one after the other, in the order of the session, each
/// once: a thread is let run with nothing delivered, and the next comes
/// after it was interrupted, waited for, and let run for good.
pub proof fn threads_are_tried_in_order<A: Arch>(s: SeizingView<A::Raw>, ev: Event<A::Raw>)
    requires
        s.wf(),
        expects::<A>(s, ev),
    ensures
        ({
            let (t, step) = next::<A>(s, ev);
            &&& t.tids == s.tids
            &&& t.wf()
            &&& t.tried == s.tried || t.tried == s.tried + 1
            &&& t.tried == s.tried + 1 <==> t.phase is Starting
            &&& t.phase is Starting ==> s.phase is Choosing && step == StepView::<
                A::Raw,
                Captured<A::Raw>,
            >::Do(Action::Resume { tid: s.tids[s.tried as int], sig: 0 })
            &&& s.phase is Choosing ==> (t.phase is Starting <==> (ev matches Event::Time(now)
                && now < s.limit))
            &&& s.phase is Interrupting ==> step == StepView::<A::Raw, Captured<A::Raw>>::Do(
                Action::Wait { tid: s.tid() },
            )
            &&& s.phase is Settling ==> t.phase is Releasing && step == StepView::<
                A::Raw,
                Captured<A::Raw>,
            >::Do(Action::Resume { tid: s.tid(), sig: tracee::first_signal(t.missed, s.tid()) })
            &&& t.phase is Choosing ==> s.phase is Begin || s.phase is Releasing
        }),
{
}

/// A thread is taken at the first entry stop that it shows, and at no other
/// stop: the search then reads its registers, and where there is one its
/// number word, and hands out that thread, with these registers, and with
/// them moved back to the syscall instruction. After an exit stop, one that
/// is not known, a signal or an event the thread is let run on.
pub proof fn first_entry_stop_is_taken<A: Arch>(s: SeizingView<A::Raw>, ev: Event<A::Raw>)
    requires
        s.wf(),
        expects::<A>(s, ev),
    ensures
        ({
            let (t, step) = next::<A>(s, ev);
            let run_on = StepView::<A::Raw, Captured<A::Raw>>::Do(
                Action::Resume { tid: s.tid(), sig: 0 },
            );
            &&& s.phase is Watching ==> match ev {
                Event::Stopped(Stop::Syscall) => t.phase is Classifying && step == StepView::<
                    A::Raw,
                    Captured<A::Raw>,
                >::Do(Action::StopKind { tid: s.tid() }),
                Event::Stopped(Stop::Signal(_)) | Event::Stopped(Stop::Event(_)) => step == run_on,
                Event::TimedOut => t.phase is Looking && step == StepView::<
                    A::Raw,
                    Captured<A::Raw>,
                >::Do(Action::Clock),
                _ => true,
            }
            &&& s.phase is Continuing && ev is Done ==> t.phase is Looking && step == StepView::<
                A::Raw,
                Captured<A::Raw>,
            >::Do(Action::Clock)
            &&& s.phase is Classifying ==> match ev {
                Event::Kind(SyscallStop::Entry) => t.phase is Capturing && step == StepView::<
                    A::Raw,
                    Captured<A::Raw>,
                >::Do(Action::GetRegs { tid: s.tid() }),
                _ => step == run_on,
            }
            &&& t.phase is Capturing ==> s.phase is Classifying && ev == Event::<A::Raw>::Kind(
                SyscallStop::Entry,
            )
            &&& t.phase is Numbering ==> {
                &&& s.phase is Capturing
                &&& ev == Event::<A::Raw>::Registers(t.phase->Numbering_0)
                &&& step == StepView::<A::Raw, Captured<A::Raw>>::Do(Action::GetNr { tid: s.tid() })
            }
            &&& step matches StepView::Finish(Ok(c)) ==> {
                &&& c.tid == s.tid()
                &&& c.saved.0 == A::fixed(c.raw_saved.0)
                &&& match s.phase {
                    Phase::Capturing => {
                        &&& ev == Event::<A::Raw>::Registers(c.raw_saved)
                        &&& A::nr_word(0) is None
                        &&& c.saved_nr == A::entry_nr(c.saved.0, 0)
                    },
                    Phase::Numbering(raw) => {
                        &&& c.raw_saved == raw
                        &&& ev matches Event::Number(word)
                        &&& c.saved_nr == A::entry_nr(c.saved.0, word)
                    },
                    _ => false,
                }
            }
            &&& s.phase is Capturing && ev is Registers ==> t.phase is Numbering || (
            step matches StepView::Finish(Ok(_)))
            &&& s.phase is Numbering && ev is Number ==> step matches StepView::Finish(Ok(_))
        }),
{
}

/// A search is about the threads of its session, from the first to the
/// last, and begins with what these are owed.
pub proof fn search_begins_with_the_session<R>(session: SessionView)
    ensures
        ({
            let s = begun::<R>(session);
            &&& s.tids == session.tids
            &&& s.missed == session.missed
            &&& s.tried == 0
            &&& s.phase is Begin
            &&& s.wf()
        }),
{
}

} // verus!
