//! The attach/detach lifecycle of every thread in the target process.

use vstd::prelude::*;

use crate::abi::PTRACE_O_TRACESYSGOOD;
use crate::error::{msg, Error, ErrorView};
use crate::leave;
use crate::leave::{Leaving, LeavingView};
use crate::list;
use crate::ptrace;
use crate::ptrace::Stop;
use crate::text;
use crate::text::{copy_text, push_signed};
use crate::tracee;
use crate::tracee::{Action, Event, Log, Missed, Step, StepView};

verus! {

/// How long to wait for a thread to acknowledge an interrupt, in
/// milliseconds.
pub const INTERRUPT_TIMEOUT: u64 = 30000;

/// Every thread of the target process, seized and stopped. Whatever
/// happens during the hijack, the threads are detached in the end, so that
/// they never stay ptrace-stopped.
pub struct Session {
    pid: i32,
    attached: Vec<i32>,
    /// The signals that were swallowed while attaching.
    missed: Vec<Missed>,
}

pub struct SessionView {
    pub pid: i32,
    pub tids: Seq<i32>,
    pub missed: Seq<Missed>,
}

impl View for Session {
    type V = SessionView;

    closed spec fn view(&self) -> SessionView {
        SessionView { pid: self.pid, tids: self.attached@, missed: self.missed@ }
    }
}

/// A thread to detach, and the signal to deliver thereby.
#[derive(Debug, Clone, Copy, PartialEq, Eq, Structural)]
pub struct Detach {
    pub tid: i32,
    pub sig: i32,
}

/// Letting threads go, all with the same signal.
pub open spec fn detaches(tids: Seq<i32>, sig: i32) -> Seq<Detach> {
    tids.map_values(|tid: i32| Detach { tid, sig })
}

impl Session {
    /// The threads, the main thread first.
    pub fn tids(&self) -> (r: &[i32])
        ensures
            r@ == self@.tids,
    {
        self.attached.as_slice()
    }

    /// The signals that were swallowed while attaching.
    pub fn missed(&self) -> (r: &Vec<Missed>)
        ensures
            r@ == self@.missed,
    {
        &self.missed
    }

    /// Let every thread go, and re-deliver the signals that they are owed
    /// by now. The session is empty then.
    pub fn leave<R>(&mut self, missed: Vec<Missed>) -> (r: (Leaving, Step<R, ()>))
        ensures
            (r.0@, r.1@) == leave::begun::<R>(old(self)@.pid, old(self)@.tids, missed@),
            r.0@.wf(),
            final(self)@ == (SessionView {
                pid: old(self)@.pid,
                tids: Seq::empty(),
                missed: Seq::empty(),
            }),
    {
        let mut tids: Vec<i32> = Vec::new();
        tids.append(&mut self.attached);
        assert(tids@ =~= old(self)@.tids);
        assert(self.attached@ =~= Seq::<i32>::empty());
        self.missed = Vec::new();
        assert(self.missed@ =~= Seq::<Missed>::empty());
        leave::start(self.pid, tids, missed)
    }

    /// Let every thread go with the same signal: what to detach, best
    /// effort, one after the other. The session holds no thread then.
    pub fn detach_all(&mut self, sig: i32) -> (r: Vec<Detach>)
        ensures
            r@ == old(self)@.tids.map_values(|tid: i32| Detach { tid, sig }),
            r@ == detaches(old(self)@.tids, sig),
            final(self)@ == (SessionView { tids: Seq::empty(), ..old(self)@ }),
    {
        let mut r: Vec<Detach> = Vec::new();
        let mut i: usize = 0;
        while i < self.attached.len()
            invariant
                i <= self.attached@.len(),
                r@ == self.attached@.take(i as int).map_values(|tid: i32| Detach { tid, sig }),
            decreases self.attached@.len() - i,
        {
            let tid: i32 = self.attached[i];
            r.push(Detach { tid, sig });
            i = i + 1;
            assert(r@ =~= self.attached@.take(i as int).map_values(
                |tid: i32| Detach { tid, sig },
            ));
        }
        assert(self.attached@.take(i as int) =~= self.attached@);
        self.attached = Vec::new();
        assert(self.attached@ =~= Seq::<i32>::empty());
        r
    }
}

// ---------------------------------------------------------------------
// Attaching
// ---------------------------------------------------------------------

/// Which request is outstanding. Each number is a position in a list of
/// threads.
#[derive(Debug, Clone, Copy, PartialEq, Eq, Structural)]
pub enum Phase {
    Seizing(usize),
    Interrupting(usize),
    Waiting(usize),
    Arming(usize),
    /// Something failed: letting the threads go again.
    Leaving,
    /// Every thread is seized and stopped.
    Ready,
    /// The attempt failed, and no thread is held.
    Failed,
}

/// An attempt to seize and stop every thread of a process.
pub struct Attaching {
    pid: i32,
    /// The threads to seize.
    tids: Vec<i32>,
    /// The threads that were seized, once all of them were tried.
    seized: Vec<i32>,
    /// The threads that are seized now.
    attached: Vec<i32>,
    /// The signals that were swallowed so far.
    missed: Vec<Missed>,
    /// How the threads are let go again.
    leaving: Leaving,
    /// Why the attempt fails.
    failure: Option<Error>,
    phase: Phase,
}

pub struct AttachingView {
    pub pid: i32,
    pub tids: Seq<i32>,
    pub seized: Seq<i32>,
    pub attached: Seq<i32>,
    pub missed: Seq<Missed>,
    pub leaving: LeavingView,
    pub failure: Option<ErrorView>,
    pub phase: Phase,
}

impl AttachingView {
    pub open spec fn wf(self) -> bool {
        match self.phase {
            Phase::Seizing(i) => i < self.tids.len(),
            Phase::Interrupting(i) => i < self.attached.len(),
            Phase::Waiting(i) => i < self.seized.len(),
            Phase::Arming(i) => i < self.attached.len(),
            Phase::Leaving => {
                &&& self.leaving.wf()
                &&& self.leaving.phase != leave::Phase::Over
                &&& self.failure is Some
            },
            Phase::Ready => self.attached.len() > 0,
            Phase::Failed => true,
        }
    }
}

impl View for Attaching {
    type V = AttachingView;

    closed spec fn view(&self) -> AttachingView {
        AttachingView {
            pid: self.pid,
            tids: self.tids@,
            seized: self.seized@,
            attached: self.attached@,
            missed: self.missed@,
            leaving: self.leaving@,
            failure: match self.failure {
                Some(e) => Some(e@),
                None => None,
            },
            phase: self.phase,
        }
    }
}

pub type Transition<R> = (AttachingView, StepView<R, ()>);

pub open spec fn did_not_stop(tid: i32) -> ErrorView {
    ErrorView::Msg(
        "thread "@ + text::signed_decimal(tid as int)
            + " did not stop (stuck in uninterruptible sleep?)"@,
    )
}

pub open spec fn ask<R>(s: AttachingView, phase: Phase, action: Action<R>) -> Transition<R> {
    (AttachingView { phase, ..s }, StepView::Do(action))
}

/// Go on with letting the threads go, then end.
pub open spec fn carry<R>(s: AttachingView, left: leave::Transition<R>) -> Transition<R> {
    match left.1 {
        StepView::Do(action) => ask(
            AttachingView { leaving: left.0, ..s },
            Phase::Leaving,
            action,
        ),
        StepView::Finish(_) => (
            AttachingView { leaving: left.0, phase: Phase::Failed, failure: None, ..s },
            StepView::Finish(Err(s.failure->Some_0)),
        ),
    }
}

/// Give up: nothing stays seized, and every swallowed signal is
/// re-delivered.
pub open spec fn fail<R>(s: AttachingView, e: ErrorView) -> Transition<R> {
    carry(
        AttachingView {
            failure: Some(e),
            attached: Seq::empty(),
            missed: Seq::empty(),
            ..s
        },
        leave::begun::<R>(s.pid, s.attached, s.missed),
    )
}

/// Arm the syscall stops of the threads from position `i` on.
pub open spec fn arm_from<R>(s: AttachingView, i: int) -> Transition<R> {
    if i < s.attached.len() {
        ask(
            s,
            Phase::Arming(i as usize),
            Action::SetOptions { tid: s.attached[i], options: PTRACE_O_TRACESYSGOOD },
        )
    } else {
        (AttachingView { phase: Phase::Ready, ..s }, StepView::Finish(Ok(())))
    }
}

/// Wait for the stops of the threads from position `i` on.
pub open spec fn wait_from<R>(s: AttachingView, i: int) -> Transition<R> {
    if i < s.seized.len() {
        ask(
            s,
            Phase::Waiting(i as usize),
            Action::WaitFor { tid: s.seized[i], ms: INTERRUPT_TIMEOUT },
        )
    } else if s.attached.len() == 0 {
        fail(s, ErrorView::Msg("target vanished while attaching"@))
    } else {
        arm_from(s, 0)
    }
}

/// Interrupt the threads from position `i` on.
pub open spec fn interrupt_from<R>(s: AttachingView, i: int) -> Transition<R> {
    if i < s.attached.len() {
        ask(s, Phase::Interrupting(i as usize), Action::Interrupt { tid: s.attached[i] })
    } else {
        wait_from(AttachingView { seized: s.attached, ..s }, 0)
    }
}

/// Seize the threads from position `i` on.
pub open spec fn seize_from<R>(s: AttachingView, i: int) -> Transition<R> {
    if i < s.tids.len() {
        ask(s, Phase::Seizing(i as usize), Action::Seize { tid: s.tids[i] })
    } else if s.attached.len() == 0 {
        fail(s, ErrorView::Msg("target has no attachable threads"@))
    } else {
        interrupt_from(s, 0)
    }
}

/// An attempt that has asked for nothing yet.
pub open spec fn blank(pid: i32, tids: Seq<i32>) -> AttachingView {
    AttachingView {
        pid,
        tids,
        seized: Seq::empty(),
        attached: Seq::empty(),
        missed: Seq::empty(),
        leaving: LeavingView {
            pid: 0,
            tids: Seq::empty(),
            missed: Seq::empty(),
            phase: leave::Phase::Over,
        },
        failure: None,
        phase: Phase::Failed,
    }
}

/// An attempt that has just begun, with its first step.
pub open spec fn begun<R>(pid: i32, tids: Seq<i32>) -> Transition<R> {
    seize_from(blank(pid, tids), 0)
}

/// The threads in the order in which they are tried.
pub open spec fn lined_up(pid: i32, tids: Seq<i32>) -> Seq<i32> {
    list::arranged(Some(pid), tids)
}

/// What the attempt does with an answer.
pub open spec fn next<R>(s: AttachingView, ev: Event<R>) -> Transition<R> {
    match (s.phase, ev) {
        // Individual threads may vanish between enumeration and seize; the
        // main thread may not.
        (Phase::Seizing(i), Event::Failed(errno)) => if s.tids[i as int] == s.pid {
            fail(s, ptrace::seize_error(s.pid, errno))
        } else {
            seize_from(s, i + 1)
        },
        (Phase::Seizing(i), _) => seize_from(
            AttachingView { attached: s.attached.push(s.tids[i as int]), ..s },
            i + 1,
        ),
        (Phase::Leaving, _) => carry(s, leave::next(s.leaving, ev)),
        (_, Event::Failed(errno)) => fail(s, ErrorView::Os(errno)),
        (Phase::Interrupting(i), _) => interrupt_from(s, i + 1),
        (Phase::Waiting(i), Event::Stopped(Stop::Exited)) => wait_from(
            AttachingView { attached: list::without(s.attached, s.seized[i as int]), ..s },
            i + 1,
        ),
        (Phase::Waiting(i), Event::Stopped(Stop::Signal(sig))) => wait_from(
            AttachingView { missed: tracee::noted(s.missed, s.seized[i as int], sig), ..s },
            i + 1,
        ),
        (Phase::Waiting(i), Event::Stopped(_)) => wait_from(s, i + 1),
        (Phase::Waiting(i), Event::TimedOut) => fail(s, did_not_stop(s.seized[i as int])),
        (Phase::Arming(i), _) => arm_from(s, i + 1),
        _ => arbitrary(),
    }
}

/// Whether `ev` can be the answer that the attempt is waiting for.
pub open spec fn expects<R>(s: AttachingView, ev: Event<R>) -> bool {
    match s.phase {
        Phase::Waiting(_) => ev is Stopped || ev is TimedOut || ev is Failed,
        Phase::Ready | Phase::Failed => false,
        Phase::Leaving => leave::expects(s.leaving, ev),
        _ => ev is Done || ev is Failed,
    }
}

impl Session {
    /// Seize and stop every thread of the process `pid`, whose threads are
    /// `tids`.
    pub fn attach_all<R>(pid: i32, tids: &Vec<i32>) -> (r: (Attaching, Step<R, ()>))
        ensures
            r.0@.wf(),
            r.0@.pid == pid,
            // The main thread is tried first when looking for a syscall to
            // hijack.
            r.0@.tids == list::arranged(Some(pid), tids@),
            r.0@.tids == lined_up(pid, tids@),
            list::ordered(Some(pid), r.0@.tids),
            r.0@.tids.to_multiset() == tids@.to_multiset(),
            (r.0@, r.1@) == begun::<R>(pid, r.0@.tids),
    {
        let sorted: Vec<i32> = list::sort(tids, Some(pid));
        let mut s: Attaching = Attaching {
            pid,
            tids: sorted,
            seized: Vec::new(),
            attached: Vec::new(),
            missed: Vec::new(),
            leaving: leave::idle(),
            failure: None,
            phase: Phase::Failed,
        };
        assert(s@ == blank(pid, s@.tids));
        let step: Step<R, ()> = s.seize_from(0);
        (s, step)
    }
}

impl Attaching {
    fn carry<R>(&mut self, step: Step<R, ()>) -> (r: Step<R, ()>)
        requires
            old(self)@.failure is Some,
            old(self)@.leaving.wf(),
            step@ is Do ==> old(self)@.leaving.phase != leave::Phase::Over,
        ensures
            (final(self)@, r@) == carry::<R>(old(self)@, (old(self)@.leaving, step@)),
            final(self)@.wf(),
    {
        match step {
            Step::Do(action) => {
                self.phase = Phase::Leaving;
                Step::Do(action)
            },
            Step::Finish(_) => {
                self.phase = Phase::Failed;
                match self.failure.take() {
                    Some(e) => Step::Finish(Err(e)),
                    None => Step::Finish(Err(Error::Os(0))),
                }
            },
        }
    }

    fn fail<R>(&mut self, e: Error) -> (r: Step<R, ()>)
        ensures
            (final(self)@, r@) == fail::<R>(old(self)@, e@),
            final(self)@.wf(),
    {
        let mut tids: Vec<i32> = Vec::new();
        tids.append(&mut self.attached);
        let mut missed: Vec<Missed> = Vec::new();
        missed.append(&mut self.missed);
        assert(tids@ =~= old(self)@.attached);
        assert(missed@ =~= old(self)@.missed);
        assert(self.attached@ =~= Seq::<i32>::empty());
        assert(self.missed@ =~= Seq::<Missed>::empty());
        let (leaving, step): (Leaving, Step<R, ()>) = leave::start(self.pid, tids, missed);
        self.leaving = leaving;
        self.failure = Some(e);
        self.carry(step)
    }

    fn arm_from<R>(&mut self, i: usize) -> (r: Step<R, ()>)
        requires
            old(self)@.attached.len() > 0,
        ensures
            (final(self)@, r@) == arm_from::<R>(old(self)@, i as int),
            final(self)@.wf(),
    {
        if i < self.attached.len() {
            self.phase = Phase::Arming(i);
            let tid: i32 = self.attached[i];
            Step::Do(Action::SetOptions { tid, options: PTRACE_O_TRACESYSGOOD })
        } else {
            self.phase = Phase::Ready;
            Step::Finish(Ok(()))
        }
    }

    fn wait_from<R>(&mut self, i: usize) -> (r: Step<R, ()>)
        ensures
            (final(self)@, r@) == wait_from::<R>(old(self)@, i as int),
            final(self)@.wf(),
    {
        if i < self.seized.len() {
            self.phase = Phase::Waiting(i);
            let tid: i32 = self.seized[i];
            Step::Do(Action::WaitFor { tid, ms: INTERRUPT_TIMEOUT })
        } else if self.attached.len() == 0 {
            self.fail(msg("target vanished while attaching"))
        } else {
            self.arm_from(0)
        }
    }

    fn interrupt_from<R>(&mut self, i: usize) -> (r: Step<R, ()>)
        ensures
            (final(self)@, r@) == interrupt_from::<R>(old(self)@, i as int),
            final(self)@.wf(),
    {
        if i < self.attached.len() {
            self.phase = Phase::Interrupting(i);
            let tid: i32 = self.attached[i];
            Step::Do(Action::Interrupt { tid })
        } else {
            self.seized = list::copy(self.attached.as_slice());
            self.wait_from(0)
        }
    }

    fn seize_from<R>(&mut self, i: usize) -> (r: Step<R, ()>)
        ensures
            (final(self)@, r@) == seize_from::<R>(old(self)@, i as int),
            final(self)@.wf(),
    {
        if i < self.tids.len() {
            self.phase = Phase::Seizing(i);
            let tid: i32 = self.tids[i];
            Step::Do(Action::Seize { tid })
        } else if self.attached.len() == 0 {
            self.fail(msg("target has no attachable threads"))
        } else {
            self.interrupt_from(0)
        }
    }

    /// Go on with the attempt, now that its request was answered.
    pub fn step<R>(&mut self, ev: Event<R>) -> (r: Step<R, ()>)
        requires
            old(self)@.wf(),
            expects(old(self)@, ev),
        ensures
            (final(self)@, r@) == next(old(self)@, ev),
            final(self)@.wf(),
    {
        match (self.phase, ev) {
            (Phase::Seizing(i), Event::Failed(errno)) => {
                let tid: i32 = self.tids[i];
                assert(i < self.tids.len());
                if tid == self.pid {
                    match ptrace::seize(tid, -1, errno) {
                        Err(e) => self.fail(e),
                        Ok(_) => self.seize_from(i + 1),
                    }
                } else {
                    self.seize_from(i + 1)
                }
            },
            (Phase::Seizing(i), _) => {
                assert(i < self.tids.len());
                let tid: i32 = self.tids[i];
                self.attached.push(tid);
                self.seize_from(i + 1)
            },
            (Phase::Leaving, ev) => {
                let step: Step<R, ()> = self.leaving.step(ev);
                self.carry(step)
            },
            (_, Event::Failed(errno)) => self.fail(Error::Os(errno)),
            (Phase::Interrupting(i), _) => {
                assert(i < self.attached.len());
                self.interrupt_from(i + 1)
            },
            (Phase::Waiting(i), Event::Stopped(Stop::Exited)) => {
                assert(i < self.seized.len());
                let tid: i32 = self.seized[i];
                list::remove_all(&mut self.attached, tid);
                self.wait_from(i + 1)
            },
            (Phase::Waiting(i), Event::Stopped(Stop::Signal(sig))) => {
                assert(i < self.seized.len());
                let tid: i32 = self.seized[i];
                tracee::note(&mut self.missed, tid, sig);
                self.wait_from(i + 1)
            },
            (Phase::Waiting(i), Event::Stopped(_)) => {
                assert(i < self.seized.len());
                self.wait_from(i + 1)
            },
            (Phase::Waiting(i), Event::TimedOut) => {
                let mut m: String = copy_text("thread ");
                push_signed(&mut m, self.seized[i] as i64);
                m.append(" did not stop (stuck in uninterruptible sleep?)");
                self.fail(Error::Msg(m))
            },
            (Phase::Arming(i), _) => {
                assert(i < self.attached.len());
                self.arm_from(i + 1)
            },
            // No other answer is expected.
            _ => self.fail(Error::Os(0)),
        }
    }

    /// The session of an attempt that succeeded.
    pub fn into_session(self) -> (r: Session)
        requires
            self@.phase == Phase::Ready,
        ensures
            r@ == (SessionView {
                pid: self@.pid,
                tids: self@.attached,
                missed: self@.missed,
            }),
    {
        Session { pid: self.pid, attached: self.attached, missed: self.missed }
    }
}

// ---------------------------------------------------------------------
// Laws
// ---------------------------------------------------------------------

/// The attempt and its step after the answers `evs`.
pub open spec fn after<R>(s: AttachingView, step: StepView<R, ()>, evs: Seq<Event<R>>) -> Transition<
    R,
>
    decreases evs.len(),
{
    if evs.len() == 0 {
        (s, step)
    } else {
        next(after(s, step, evs.drop_last()).0, evs.last())
    }
}

/// Whether each of `evs` can be the answer that the attempt is waiting for
/// when it comes.
pub open spec fn accepts<R>(s: AttachingView, step: StepView<R, ()>, evs: Seq<Event<R>>) -> bool
    decreases evs.len(),
{
    evs.len() > 0 ==> {
        &&& accepts(s, step, evs.drop_last())
        &&& expects(after(s, step, evs.drop_last()).0, evs.last())
    }
}

/// The requests that were answered by `evs`, with their answers.
pub open spec fn log<R>(s: AttachingView, step: StepView<R, ()>, evs: Seq<Event<R>>) -> Log<R>
    decreases evs.len(),
{
    if evs.len() == 0 {
        Seq::empty()
    } else {
        log(s, step, evs.drop_last()).push((after(s, step, evs.drop_last()).1->Do_0, evs.last()))
    }
}

/// How the list of seized threads stands to the threads that are held.
spec fn sound<R>(s: AttachingView, step: StepView<R, ()>, held: Set<i32>) -> bool {
    &&& s.wf()
    &&& list::ordered(Some(s.pid), s.attached)
    &&& list::ordered(Some(s.pid), s.tids)
    &&& match s.phase {
        Phase::Seizing(i) => {
            &&& step == StepView::<R, ()>::Do(Action::Seize { tid: s.tids[i as int] })
            &&& held == s.attached.to_set()
            &&& forall|j: int, k: int|
                0 <= j < s.attached.len() && i <= k < s.tids.len() ==> list::precedes(
                    Some(s.pid),
                    #[trigger] s.attached[j],
                    #[trigger] s.tids[k],
                )
        },
        Phase::Interrupting(_) => step matches StepView::Do(action) && action is Interrupt && held
            == s.attached.to_set(),
        Phase::Waiting(i) => {
            &&& step matches StepView::Do(Action::WaitFor { tid, .. })
            &&& tid == s.seized[i as int]
            &&& held == s.attached.to_set()
        },
        Phase::Arming(_) => step matches StepView::Do(action) && action is SetOptions && held
            == s.attached.to_set(),
        Phase::Leaving => {
            &&& leave::asks(s.leaving, step)
            &&& match s.leaving.phase {
                leave::Phase::Detaching(i) => held.subset_of(
                    s.leaving.tids.skip(i as int).to_set(),
                ),
                _ => held == Set::<i32>::empty(),
            }
        },
        Phase::Ready => step matches StepView::Finish(Ok(_)) && held == s.attached.to_set(),
        Phase::Failed => step matches StepView::Finish(Err(_)) && held == Set::<i32>::empty(),
    }
}

proof fn lemma_detach_from_sound<R>(s: AttachingView, l: LeavingView, i: int, held: Set<i32>)
    requires
        s.failure is Some,
        s.attached.len() == 0,
        list::ordered(Some(s.pid), s.tids),
        0 <= i <= l.tids.len() <= usize::MAX,
        held.subset_of(l.tids.skip(i).to_set()),
    ensures
        ({
            let left = leave::detach_from::<R>(l, i);
            sound(carry(s, left).0, carry(s, left).1, held)
        }),
{
    if i == l.tids.len() {
        assert(held =~= Set::<i32>::empty());
    }
}

proof fn lemma_fail_sound<R>(s: AttachingView, e: ErrorView, held: Set<i32>)
    requires
        s.attached.len() <= usize::MAX,
        list::ordered(Some(s.pid), s.tids),
        held == s.attached.to_set(),
    ensures
        sound(fail::<R>(s, e).0, fail::<R>(s, e).1, held),
{
    assert(s.attached.skip(0) =~= s.attached);
    lemma_detach_from_sound::<R>(
        AttachingView { failure: Some(e), attached: Seq::empty(), missed: Seq::empty(), ..s },
        LeavingView {
            pid: s.pid,
            tids: s.attached,
            missed: s.missed,
            phase: leave::Phase::Over,
        },
        0,
        held,
    );
}

proof fn lemma_wait_from_sound<R>(s: AttachingView, i: int, held: Set<i32>)
    requires
        0 <= i <= s.seized.len() <= usize::MAX,
        s.attached.len() <= usize::MAX,
        list::ordered(Some(s.pid), s.attached),
        list::ordered(Some(s.pid), s.tids),
        held == s.attached.to_set(),
    ensures
        sound(wait_from::<R>(s, i).0, wait_from::<R>(s, i).1, held),
{
    if i == s.seized.len() && s.attached.len() == 0 {
        lemma_fail_sound::<R>(s, ErrorView::Msg("target vanished while attaching"@), held);
    }
}

proof fn lemma_seize_from_sound<R>(s: AttachingView, i: int, held: Set<i32>)
    requires
        0 <= i <= s.tids.len() <= usize::MAX,
        s.attached.len() <= usize::MAX,
        list::ordered(Some(s.pid), s.attached),
        list::ordered(Some(s.pid), s.tids),
        held == s.attached.to_set(),
        forall|j: int, k: int|
            0 <= j < s.attached.len() && i <= k < s.tids.len() ==> list::precedes(
                Some(s.pid),
                #[trigger] s.attached[j],
                #[trigger] s.tids[k],
            ),
    ensures
        sound(seize_from::<R>(s, i).0, seize_from::<R>(s, i).1, held),
{
    if i == s.tids.len() {
        if s.attached.len() == 0 {
            lemma_fail_sound::<R>(s, ErrorView::Msg("target has no attachable threads"@), held);
        }
    }
}

/// How many threads there can be.
spec fn small(s: AttachingView) -> bool {
    &&& s.seized.len() <= s.tids.len() <= usize::MAX
    &&& s.attached.len() <= s.tids.len()
    &&& s.phase matches Phase::Seizing(i) ==> s.attached.len() <= i
}

proof fn lemma_leaving_sound<R>(
    s: AttachingView,
    step: StepView<R, ()>,
    ev: Event<R>,
    before: Log<R>,
)
    requires
        sound(s, step, tracee::held(before)),
        expects(s, ev),
        s.phase == Phase::Leaving,
        s.attached.len() == 0,
    ensures
        ({
            let (s2, step2) = next(s, ev);
            sound(s2, step2, tracee::held(before.push((step->Do_0, ev))))
        }),
{
    let log = before.push((step->Do_0, ev));
    let held0 = tracee::held(before);
    let held = tracee::held(log);
    assert(log.drop_last() =~= before);
    let l = s.leaving;
    if let leave::Phase::Detaching(i) = l.phase {
        let tid = l.tids[i as int];
        assert(held == held0.remove(tid));
        assert forall|x: i32| held.contains(x) implies l.tids.skip(i + 1).to_set().contains(x) by {
            let rest = l.tids.skip(i as int);
            assert(rest.to_set().contains(x));
            let j = choose|j: int| 0 <= j < rest.len() && rest[j] == x;
            assert(l.tids.skip(i + 1)[j - 1] == x);
        }
        lemma_detach_from_sound::<R>(
            s,
            if ev is Done {
                LeavingView { missed: tracee::without_first(l.missed, tid), ..l }
            } else {
                l
            },
            i + 1,
            held,
        );
    }
}

proof fn lemma_step_sound<R>(
    s: AttachingView,
    step: StepView<R, ()>,
    ev: Event<R>,
    before: Log<R>,
)
    requires
        sound(s, step, tracee::held(before)),
        expects(s, ev),
        small(s),
        s.phase == Phase::Leaving ==> s.attached.len() == 0,
    ensures
        ({
            let (s2, step2) = next(s, ev);
            &&& sound(s2, step2, tracee::held(before.push((step->Do_0, ev))))
            &&& s2.phase == Phase::Leaving ==> s2.attached.len() == 0
        }),
{
    let log = before.push((step->Do_0, ev));
    let held0 = tracee::held(before);
    let held = tracee::held(log);
    assert(log.drop_last() =~= before);
    match (s.phase, ev) {
        (Phase::Seizing(i), Event::Failed(errno)) => {
            if s.tids[i as int] == s.pid {
                lemma_fail_sound::<R>(s, ptrace::seize_error(s.pid, errno), held);
            } else {
                lemma_seize_from_sound::<R>(s, i + 1, held);
            }
        },
        (Phase::Seizing(i), _) => {
            let tid = s.tids[i as int];
            let t = AttachingView { attached: s.attached.push(tid), ..s };
            assert(held == held0.insert(tid));
            assert(t.attached.to_set() =~= held) by {
                assert(forall|x: i32| t.attached.contains(x) <==> s.attached.contains(x) || x == tid) by {
                    assert(t.attached[s.attached.len() as int] == tid);
                    assert forall|x: i32| s.attached.contains(x) implies t.attached.contains(x) by {
                        let j = choose|j: int| 0 <= j < s.attached.len() && s.attached[j] == x;
                        assert(t.attached[j] == x);
                    }
                }
            }
            lemma_seize_from_sound::<R>(t, i + 1, held);
        },
        (Phase::Leaving, _) => {
            lemma_leaving_sound(s, step, ev, before);
        },
        (_, Event::Failed(errno)) => {
            lemma_fail_sound::<R>(s, ErrorView::Os(errno), held);
        },
        (Phase::Interrupting(i), _) => {
            if i + 1 == s.attached.len() {
                lemma_wait_from_sound::<R>(AttachingView { seized: s.attached, ..s }, 0, held);
            }
        },
        (Phase::Waiting(i), Event::Stopped(Stop::Exited)) => {
            let tid = s.seized[i as int];
            let t = AttachingView { attached: list::without(s.attached, tid), ..s };
            assert(held == held0.remove(tid));
            list::lemma_without(Some(s.pid), s.attached, tid);
            assert(t.attached.to_set() =~= held);
            lemma_wait_from_sound::<R>(t, i + 1, held);
        },
        (Phase::Waiting(i), Event::Stopped(Stop::Signal(sig))) => {
            let t = AttachingView {
                missed: tracee::noted(s.missed, s.seized[i as int], sig),
                ..s
            };
            lemma_wait_from_sound::<R>(t, i + 1, held);
        },
        (Phase::Waiting(i), Event::Stopped(_)) => {
            lemma_wait_from_sound::<R>(s, i + 1, held);
        },
        (Phase::Waiting(i), Event::TimedOut) => {
            lemma_fail_sound::<R>(s, did_not_stop(s.seized[i as int]), held);
        },
        _ => {},
    }
}

proof fn lemma_lengths<R>(s: AttachingView, step: StepView<R, ()>, evs: Seq<Event<R>>)
    requires
        s.wf(),
        small(s),
        accepts(s, step, evs),
    ensures
        ({
            let t = after(s, step, evs).0;
            &&& t.wf()
            &&& t.tids == s.tids
            &&& t.pid == s.pid
            &&& small(t)
        }),
    decreases evs.len(),
{
    if evs.len() > 0 {
        lemma_lengths(s, step, evs.drop_last());
        let t = after(s, step, evs.drop_last()).0;
        if let Phase::Waiting(i) = t.phase {
            list::lemma_without(Some(t.pid), t.attached, t.seized[i as int]);
        }
    }
}

proof fn lemma_run_sound<R>(s: AttachingView, step: StepView<R, ()>, evs: Seq<Event<R>>)
    requires
        sound(s, step, Set::empty()),
        small(s),
        s.phase == Phase::Leaving ==> s.attached.len() == 0,
        accepts(s, step, evs),
    ensures
        ({
            let (t, tstep) = after(s, step, evs);
            &&& sound(t, tstep, tracee::held(log(s, step, evs)))
            &&& t.phase == Phase::Leaving ==> t.attached.len() == 0
        }),
    decreases evs.len(),
{
    if evs.len() > 0 {
        let front = evs.drop_last();
        lemma_run_sound(s, step, front);
        lemma_lengths(s, step, front);
        let (t, tstep) = after(s, step, front);
        lemma_step_sound(t, tstep, evs.last(), log(s, step, front));
    }
}

proof fn lemma_begun_sound<R>(pid: i32, tids: Seq<i32>)
    requires
        list::ordered(Some(pid), tids),
        tids.len() <= usize::MAX,
    ensures
        ({
            let (s, step) = begun::<R>(pid, tids);
            &&& sound(s, step, Set::empty())
            &&& small(s)
            &&& s.phase == Phase::Leaving ==> s.attached.len() == 0
            &&& s.tids == tids && s.pid == pid
        }),
{
    assert(blank(pid, tids).attached.to_set() =~= Set::<i32>::empty());
    lemma_seize_from_sound::<R>(blank(pid, tids), 0, Set::empty());
}

/// No thread is attached twice, and while the threads are being seized, only
/// those that were tried are.
spec fn distinct(s: AttachingView) -> bool {
    &&& s.attached.no_duplicates()
    &&& s.phase matches Phase::Seizing(i) ==> forall|j: int, k: int|
        0 <= j < s.attached.len() && i <= k < s.tids.len() ==> #[trigger] s.attached[j]
            != #[trigger] s.tids[k]
}

proof fn lemma_run_distinct<R>(s: AttachingView, step: StepView<R, ()>, evs: Seq<Event<R>>)
    requires
        distinct(s),
        s.tids.no_duplicates(),
        s.wf(),
        small(s),
        accepts(s, step, evs),
    ensures
        distinct(after(s, step, evs).0),
    decreases evs.len(),
{
    if evs.len() > 0 {
        let front = evs.drop_last();
        lemma_run_distinct(s, step, front);
        lemma_lengths(s, step, front);
        let t = after(s, step, front).0;
        if let Phase::Waiting(i) = t.phase {
            list::lemma_without(Some(t.pid), t.attached, t.seized[i as int]);
        }
    }
}

/// Whatever the kernel answers: when an attempt to attach fails, no thread
/// stays seized. When it succeeds, the session holds exactly the threads
/// that were seized and are not gone, at least one, none of them twice
/// where none was listed twice, and the main thread stands first where it
/// is among them.
pub proof fn attach_holds_all_or_nothing<R>(pid: i32, tids: Seq<i32>, evs: Seq<Event<R>>)
    requires
        list::ordered(Some(pid), tids),
        tids.len() <= usize::MAX,
        accepts(begun::<R>(pid, tids).0, begun::<R>(pid, tids).1, evs),
    ensures
        ({
            let (s, step) = begun::<R>(pid, tids);
            let (t, tstep) = after(s, step, evs);
            let held = tracee::held(log(s, step, evs));
            match tstep {
                StepView::Finish(Err(_)) => held == Set::<i32>::empty(),
                StepView::Finish(Ok(_)) => {
                    &&& held == t.attached.to_set()
                    &&& 0 < t.attached.len() <= tids.len()
                    &&& list::ordered(Some(pid), t.attached)
                    &&& tids.no_duplicates() ==> t.attached.no_duplicates()
                    &&& t.attached.contains(pid) ==> t.attached[0] == pid
                },
                StepView::Do(_) => true,
            }
        }),
{
    let (s, step) = begun::<R>(pid, tids);
    lemma_begun_sound::<R>(pid, tids);
    lemma_run_sound(s, step, evs);
    lemma_lengths(s, step, evs);
    let t = after(s, step, evs).0;
    if tids.no_duplicates() {
        lemma_run_distinct(s, step, evs);
    }
    if t.attached.contains(pid) {
        let j = choose|j: int| 0 <= j < t.attached.len() && t.attached[j] == pid;
        if j > 0 {
            assert(list::precedes(Some(pid), t.attached[0], t.attached[j]));
        }
    }
}

/// How the attempt stands to the signals that were swallowed and delivered.
spec fn settled<R>(s: AttachingView, step: StepView<R, ()>, log: Log<R>) -> bool {
    let owing = tracee::swallowed(log).to_multiset();
    let paid = tracee::delivered(log).to_multiset();
    &&& tracee::all_owed(s.missed)
    &&& match s.phase {
        Phase::Leaving => {
            &&& leave::asks(s.leaving, step)
            &&& tracee::all_owed(s.leaving.missed)
            &&& owing == paid.add(s.leaving.missed.to_multiset())
        },
        Phase::Failed => owing == paid,
        _ => {
            &&& tracee::swallowed(log) == s.missed
            &&& tracee::delivered(log) == Seq::<Missed>::empty()
            &&& tracee::detached(log) == Seq::<i32>::empty()
            &&& s.phase is Ready || (step matches StepView::Do(action) && !(action is Detach
                || action is Resume || action is Send || action is Wait))
            &&& s.phase matches Phase::Waiting(i) ==> step == StepView::<R, ()>::Do(
                Action::WaitFor { tid: s.seized[i as int], ms: INTERRUPT_TIMEOUT },
            )
        },
    }
}

proof fn lemma_fail_settled<R>(s: AttachingView, e: ErrorView, log: Log<R>)
    requires
        s.attached.len() <= usize::MAX,
        tracee::all_owed(s.missed),
        tracee::swallowed(log) == s.missed,
        tracee::delivered(log) == Seq::<Missed>::empty(),
    ensures
        settled(fail::<R>(s, e).0, fail::<R>(s, e).1, log),
{
    Seq::<Missed>::empty().to_multiset_ensures();
    s.missed.to_multiset_ensures();
    let paid = tracee::delivered(log).to_multiset();
    assert(s.missed.to_multiset() =~= paid.add(s.missed.to_multiset()));
    if s.missed.len() == 0 {
        assert(s.missed =~= Seq::<Missed>::empty());
    }
}

proof fn lemma_step_settled<R>(
    s: AttachingView,
    step: StepView<R, ()>,
    ev: Event<R>,
    before: Log<R>,
)
    requires
        settled(s, step, before),
        s.wf(),
        expects(s, ev),
        small(s),
    ensures
        ({
            let (s2, step2) = next(s, ev);
            settled(s2, step2, before.push((step->Do_0, ev)))
        }),
{
    let (s2, step2) = next(s, ev);
    let log = before.push((step->Do_0, ev));
    assert(log.drop_last() =~= before);
    match (s.phase, ev) {
        (Phase::Leaving, _) => {
            leave::lemma_answer_delivers(s.leaving, step, ev, before);
            let left = leave::next(s.leaving, ev).0;
            if left.phase == leave::Phase::Over {
                assert(left.missed =~= Seq::<Missed>::empty());
                left.missed.to_multiset_ensures();
                assert(tracee::delivered(log).to_multiset().add(left.missed.to_multiset())
                    =~= tracee::delivered(log).to_multiset());
            }
        },
        (Phase::Seizing(i), Event::Failed(errno)) => {
            if s.tids[i as int] == s.pid {
                lemma_fail_settled::<R>(s, ptrace::seize_error(s.pid, errno), log);
            } else if i + 1 == s.tids.len() && s.attached.len() == 0 {
                lemma_fail_settled::<R>(
                    s,
                    ErrorView::Msg("target has no attachable threads"@),
                    log,
                );
            }
        },
        (Phase::Seizing(_), _) => {},
        (_, Event::Failed(errno)) => {
            lemma_fail_settled::<R>(s, ErrorView::Os(errno), log);
        },
        (Phase::Waiting(i), Event::Stopped(stop)) => {
            let tid = s.seized[i as int];
            let t = match stop {
                Stop::Exited => AttachingView { attached: list::without(s.attached, tid), ..s },
                Stop::Signal(sig) => AttachingView {
                    missed: tracee::noted(s.missed, tid, sig),
                    ..s
                },
                _ => s,
            };
            assert(tracee::swallowed(log) == t.missed);
            if i + 1 == s.seized.len() && t.attached.len() == 0 {
                lemma_fail_settled::<R>(
                    t,
                    ErrorView::Msg("target vanished while attaching"@),
                    log,
                );
            }
        },
        (Phase::Waiting(i), Event::TimedOut) => {
            lemma_fail_settled::<R>(s, did_not_stop(s.seized[i as int]), log);
        },
        _ => {},
    }
}

proof fn lemma_run_settled<R>(s: AttachingView, step: StepView<R, ()>, evs: Seq<Event<R>>)
    requires
        settled(s, step, Seq::empty()),
        s.wf(),
        small(s),
        accepts(s, step, evs),
    ensures
        settled(after(s, step, evs).0, after(s, step, evs).1, log(s, step, evs)),
    decreases evs.len(),
{
    if evs.len() > 0 {
        let front = evs.drop_last();
        lemma_run_settled(s, step, front);
        lemma_lengths(s, step, front);
        let (t, tstep) = after(s, step, front);
        lemma_step_settled(t, tstep, evs.last(), log(s, step, front));
    }
}

/// Whatever the kernel answers, no signal that is swallowed while attaching
/// is lost: a session knows all of them, in order, and none is delivered,
/// nor any thread detached, yet; an attempt that failed has delivered each
/// of them once.
pub proof fn swallowed_signals_are_kept<R>(pid: i32, tids: Seq<i32>, evs: Seq<Event<R>>)
    requires
        list::ordered(Some(pid), tids),
        tids.len() <= usize::MAX,
        accepts(begun::<R>(pid, tids).0, begun::<R>(pid, tids).1, evs),
    ensures
        ({
            let (s, step) = begun::<R>(pid, tids);
            let (t, tstep) = after(s, step, evs);
            let done = log(s, step, evs);
            match tstep {
                StepView::Finish(Err(_)) => tracee::delivered(done).to_multiset()
                    == tracee::swallowed(done).to_multiset(),
                StepView::Finish(Ok(_)) => {
                    &&& t.missed == tracee::swallowed(done)
                    &&& tracee::all_owed(t.missed)
                    &&& tracee::delivered(done) == Seq::<Missed>::empty()
                    &&& tracee::detached(done) == Seq::<i32>::empty()
                },
                StepView::Do(_) => true,
            }
        }),
{
    let (s, step) = begun::<R>(pid, tids);
    lemma_begun_sound::<R>(pid, tids);
    if tids.len() == 0 {
        lemma_fail_settled::<R>(
            blank(pid, tids),
            ErrorView::Msg("target has no attachable threads"@),
            Seq::empty(),
        );
    }
    lemma_run_settled(s, step, evs);
    lemma_run_sound(s, step, evs);
}

/// The thread was seized.
pub open spec fn was_seized<R>(log: Log<R>, tid: i32) -> bool {
    exists|i: int|
        0 <= i < log.len() && #[trigger] log[i] == (Action::<R>::Seize { tid }, Event::<R>::Done)
}

/// The thread was seized, and seen to stop since.
pub open spec fn was_stopped<R>(log: Log<R>, tid: i32) -> bool {
    exists|i: int|
        0 <= i < log.len() && ({
            &&& (#[trigger] log[i]).0 == Action::<R>::WaitFor { tid, ms: INTERRUPT_TIMEOUT }
            &&& log[i].1 matches Event::Stopped(stop)
            &&& stop != Stop::Exited
            &&& was_seized(log.take(i), tid)
        })
}

/// The thread was seized, seen to stop since, and then armed, so that its
/// syscall stops can be told from SIGTRAP.
pub open spec fn was_armed<R>(log: Log<R>, tid: i32) -> bool {
    exists|i: int|
        0 <= i < log.len() && ({
            &&& (#[trigger] log[i]) == (
                Action::<R>::SetOptions { tid, options: PTRACE_O_TRACESYSGOOD },
                Event::<R>::Done,
            )
            &&& was_stopped(log.take(i), tid)
        })
}

/// What was, stays.
proof fn lemma_past<R>(log: Log<R>, entry: (Action<R>, Event<R>), tid: i32)
    ensures
        was_seized(log, tid) ==> was_seized(log.push(entry), tid),
        was_stopped(log, tid) ==> was_stopped(log.push(entry), tid),
        was_armed(log, tid) ==> was_armed(log.push(entry), tid),
        entry == (Action::<R>::Seize { tid }, Event::<R>::Done) ==> was_seized(
            log.push(entry),
            tid,
        ),
        entry.0 == (Action::<R>::WaitFor { tid, ms: INTERRUPT_TIMEOUT }) && (
        entry.1 matches Event::Stopped(stop) && stop != Stop::Exited) && was_seized(log, tid)
            ==> was_stopped(log.push(entry), tid),
        entry == (
            Action::<R>::SetOptions { tid, options: PTRACE_O_TRACESYSGOOD },
            Event::<R>::Done,
        ) && was_stopped(log, tid) ==> was_armed(log.push(entry), tid),
{
    let more = log.push(entry);
    assert(more[log.len() as int] == entry);
    assert(more.take(log.len() as int) =~= log);
    if was_seized(log, tid) {
        let i = choose|i: int|
            0 <= i < log.len() && #[trigger] log[i] == (
                Action::<R>::Seize { tid },
                Event::<R>::Done,
            );
        assert(more[i] == log[i]);
    }
    if was_stopped(log, tid) {
        let i = choose|i: int|
            0 <= i < log.len() && ({
                &&& (#[trigger] log[i]).0 == Action::<R>::WaitFor { tid, ms: INTERRUPT_TIMEOUT }
                &&& log[i].1 matches Event::Stopped(stop)
                &&& stop != Stop::Exited
                &&& was_seized(log.take(i), tid)
            });
        assert(more[i] == log[i]);
        assert(more.take(i) =~= log.take(i));
    }
    if was_armed(log, tid) {
        let i = choose|i: int|
            0 <= i < log.len() && ({
                &&& (#[trigger] log[i]) == (
                    Action::<R>::SetOptions { tid, options: PTRACE_O_TRACESYSGOOD },
                    Event::<R>::Done,
                )
                &&& was_stopped(log.take(i), tid)
            });
        assert(more[i] == log[i]);
        assert(more.take(i) =~= log.take(i));
    }
}

/// How far each of the attached threads has come.
spec fn brought<R>(s: AttachingView, step: StepView<R, ()>, log: Log<R>) -> bool {
    &&& forall|j: int|
        0 <= j < s.attached.len() ==> s.tids.contains(#[trigger] s.attached[j]) && was_seized(
            log,
            s.attached[j],
        )
    &&& match s.phase {
        Phase::Seizing(i) => step == StepView::<R, ()>::Do(Action::Seize { tid: s.tids[i as int] }),
        Phase::Waiting(i) => {
            &&& step == StepView::<R, ()>::Do(
                Action::WaitFor { tid: s.seized[i as int], ms: INTERRUPT_TIMEOUT },
            )
            &&& forall|j: int|
                0 <= j < s.attached.len() ==> was_stopped(log, #[trigger] s.attached[j])
                    || s.seized.skip(i as int).contains(s.attached[j])
        },
        Phase::Arming(i) => {
            &&& step == StepView::<R, ()>::Do(
                Action::SetOptions { tid: s.attached[i as int], options: PTRACE_O_TRACESYSGOOD },
            )
            &&& forall|j: int|
                0 <= j < s.attached.len() ==> was_stopped(log, #[trigger] s.attached[j])
            &&& forall|j: int|
                0 <= j < i ==> was_armed(log, #[trigger] s.attached[j])
        },
        Phase::Ready => forall|j: int|
            0 <= j < s.attached.len() ==> was_armed(log, #[trigger] s.attached[j]),
        _ => true,
    }
}

proof fn lemma_wait_from_brought<R>(s: AttachingView, i: int, log: Log<R>)
    requires
        0 <= i <= s.seized.len() <= usize::MAX,
        s.attached.len() <= usize::MAX,
        forall|j: int|
            0 <= j < s.attached.len() ==> s.tids.contains(#[trigger] s.attached[j]) && was_seized(
                log,
                s.attached[j],
            ),
        forall|j: int|
            0 <= j < s.attached.len() ==> was_stopped(log, #[trigger] s.attached[j])
                || s.seized.skip(i).contains(s.attached[j]),
    ensures
        brought(wait_from::<R>(s, i).0, wait_from::<R>(s, i).1, log),
{
}

proof fn lemma_step_brought<R>(
    s: AttachingView,
    step: StepView<R, ()>,
    ev: Event<R>,
    before: Log<R>,
)
    requires
        brought(s, step, before),
        s.wf(),
        expects(s, ev),
        small(s),
    ensures
        ({
            let (s2, step2) = next(s, ev);
            brought(s2, step2, before.push((step->Do_0, ev)))
        }),
{
    let (s2, step2) = next(s, ev);
    let entry = (step->Do_0, ev);
    let log = before.push(entry);
    assert forall|j: int| 0 <= j < s.attached.len() implies {
        &&& was_seized(log, #[trigger] s.attached[j])
        &&& was_stopped(before, s.attached[j]) ==> was_stopped(log, s.attached[j])
        &&& was_armed(before, s.attached[j]) ==> was_armed(log, s.attached[j])
    } by {
        lemma_past(before, entry, s.attached[j]);
    }
    match (s.phase, ev) {
        (Phase::Seizing(i), Event::Done) => {
            lemma_past(before, entry, s.tids[i as int]);
            let t = AttachingView { attached: s.attached.push(s.tids[i as int]), ..s };
            assert forall|j: int| 0 <= j < t.attached.len() implies s.tids.contains(
                #[trigger] t.attached[j],
            ) && was_seized(log, t.attached[j]) by {
                if j < s.attached.len() {
                    assert(t.attached[j] == s.attached[j]);
                }
            }
        },
        (Phase::Interrupting(i), Event::Done) => {
            let t = AttachingView { seized: s.attached, ..s };
            if i + 1 == s.attached.len() {
                assert(t.seized.skip(0) =~= t.attached);
                lemma_wait_from_brought::<R>(t, 0, log);
            }
        },
        (Phase::Waiting(i), Event::Stopped(stop)) => {
            let tid = s.seized[i as int];
            let t = match stop {
                Stop::Exited => AttachingView { attached: list::without(s.attached, tid), ..s },
                Stop::Signal(sig) => AttachingView {
                    missed: tracee::noted(s.missed, tid, sig),
                    ..s
                },
                _ => s,
            };
            list::lemma_without(Some(s.pid), s.attached, tid);
            lemma_past(before, entry, tid);
            assert forall|j: int| 0 <= j < t.attached.len() implies {
                &&& s.tids.contains(#[trigger] t.attached[j])
                &&& was_seized(log, t.attached[j])
                &&& was_stopped(log, t.attached[j]) || s.seized.skip(i + 1).contains(
                    t.attached[j],
                )
            } by {
                let x = t.attached[j];
                assert(t.attached.contains(x));
                assert(s.attached.contains(x));
                let k = choose|k: int| 0 <= k < s.attached.len() && s.attached[k] == x;
                assert(was_seized(log, s.attached[k]));
                if !was_stopped(before, x) {
                    let rest = s.seized.skip(i as int);
                    assert(rest.contains(x));
                    let m = choose|m: int| 0 <= m < rest.len() && rest[m] == x;
                    if m > 0 {
                        assert(s.seized.skip(i + 1)[m - 1] == x);
                    } else {
                        assert(x == tid);
                        assert(was_seized(before, s.attached[k]));
                    }
                }
            }
            lemma_wait_from_brought::<R>(t, i + 1, log);
        },
        (Phase::Arming(i), Event::Done) => {
            lemma_past(before, entry, s.attached[i as int]);
        },
        _ => {},
    }
}

proof fn lemma_run_brought<R>(s: AttachingView, step: StepView<R, ()>, evs: Seq<Event<R>>)
    requires
        brought(s, step, Seq::empty()),
        s.wf(),
        small(s),
        accepts(s, step, evs),
    ensures
        brought(after(s, step, evs).0, after(s, step, evs).1, log(s, step, evs)),
    decreases evs.len(),
{
    if evs.len() > 0 {
        let front = evs.drop_last();
        lemma_run_brought(s, step, front);
        lemma_lengths(s, step, front);
        let (t, tstep) = after(s, step, front);
        lemma_step_brought(t, tstep, evs.last(), log(s, step, front));
    }
}

/// Every thread of a session was listed, and was seized, then seen to stop,
/// then armed.
pub proof fn attached_threads_are_stopped_and_armed<R>(
    pid: i32,
    tids: Seq<i32>,
    evs: Seq<Event<R>>,
    tid: i32,
)
    requires
        list::ordered(Some(pid), tids),
        tids.len() <= usize::MAX,
        ({
            let (s, step) = begun::<R>(pid, tids);
            &&& accepts(s, step, evs)
            &&& after(s, step, evs).1 matches StepView::Finish(Ok(_))
            &&& after(s, step, evs).0.attached.contains(tid)
        }),
    ensures
        tids.contains(tid),
        was_armed(log(begun::<R>(pid, tids).0, begun::<R>(pid, tids).1, evs), tid),
{
    let (s, step) = begun::<R>(pid, tids);
    lemma_begun_sound::<R>(pid, tids);
    lemma_run_brought(s, step, evs);
    lemma_run_sound(s, step, evs);
    lemma_lengths(s, step, evs);
    let t = after(s, step, evs).0;
    let j = choose|j: int| 0 <= j < t.attached.len() && t.attached[j] == tid;
    assert(was_armed(log(s, step, evs), t.attached[j]));
}

/// Whatever a request can bring back, the attempt is prepared for it.
pub proof fn every_answer_is_expected<R>(
    s: AttachingView,
    ev: Event<R>,
    action: Action<R>,
    answer: Event<R>,
)
    requires
        s.wf(),
        expects(s, ev),
        next(s, ev).1 == StepView::<R, ()>::Do(action),
        tracee::answers(action, answer),
    ensures
        expects(next(s, ev).0, answer),
{
}

/// The requests of a log.
pub open spec fn asked<R>(log: Log<R>) -> Seq<Action<R>> {
    Seq::new(log.len(), |i: int| log[i].0)
}

/// Seizing threads, one after the other.
pub open spec fn seizes<R>(tids: Seq<i32>) -> Seq<Action<R>> {
    Seq::new(tids.len(), |i: int| Action::Seize { tid: tids[i] })
}

/// Interrupting threads, one after the other.
pub open spec fn interrupts<R>(tids: Seq<i32>) -> Seq<Action<R>> {
    Seq::new(tids.len(), |i: int| Action::Interrupt { tid: tids[i] })
}

/// Waiting for threads, one after the other, for half a minute each.
pub open spec fn waits<R>(tids: Seq<i32>) -> Seq<Action<R>> {
    Seq::new(tids.len(), |i: int| Action::WaitFor { tid: tids[i], ms: 30000 })
}

/// Asking for marked syscall stops of threads, one after the other.
pub open spec fn arms<R>(tids: Seq<i32>) -> Seq<Action<R>> {
    Seq::new(tids.len(), |i: int| Action::SetOptions { tid: tids[i], options: 1 })
}

/// The threads whose seizing succeeded, in order.
pub open spec fn seized_in<R>(log: Log<R>) -> Seq<i32>
    decreases log.len(),
{
    if log.len() == 0 {
        Seq::empty()
    } else {
        let before = seized_in(log.drop_last());
        match log.last() {
            (Action::Seize { tid }, Event::Done) => before.push(tid),
            _ => before,
        }
    }
}

/// The threads that are left of `tids` once those that exited while they
/// were waited for are struck out.
pub open spec fn left_in<R>(tids: Seq<i32>, log: Log<R>) -> Seq<i32>
    decreases log.len(),
{
    if log.len() == 0 {
        tids
    } else {
        let before = left_in(tids, log.drop_last());
        match log.last() {
            (Action::WaitFor { tid, .. }, Event::Stopped(Stop::Exited)) => list::without(
                before,
                tid,
            ),
            _ => before,
        }
    }
}

/// How an attempt that has not failed stands to what it asked for.
spec fn going<R>(s: AttachingView, step: StepView<R, ()>, log: Log<R>) -> bool {
    let all = seizes::<R>(s.tids);
    let met = interrupts::<R>(s.seized);
    let seen = waits::<R>(s.seized);
    match s.phase {
        Phase::Seizing(i) => {
            &&& asked(log) == seizes::<R>(s.tids.take(i as int))
            &&& s.attached == seized_in(log)
            &&& step == StepView::<R, ()>::Do(Action::Seize { tid: s.tids[i as int] })
        },
        Phase::Interrupting(i) => {
            &&& asked(log) == all + interrupts::<R>(s.attached.take(i as int))
            &&& s.attached == seized_in(log)
            &&& step == StepView::<R, ()>::Do(Action::Interrupt { tid: s.attached[i as int] })
        },
        Phase::Waiting(i) => {
            &&& asked(log) == all + met + waits::<R>(s.seized.take(i as int))
            &&& s.seized == seized_in(log)
            &&& s.attached == left_in(s.seized, log)
            &&& step == StepView::<R, ()>::Do(
                Action::WaitFor { tid: s.seized[i as int], ms: 30000 },
            )
        },
        Phase::Arming(i) => {
            &&& asked(log) == all + met + seen + arms::<R>(s.attached.take(i as int))
            &&& s.seized == seized_in(log)
            &&& s.attached == left_in(s.seized, log)
            &&& step == StepView::<R, ()>::Do(
                Action::SetOptions { tid: s.attached[i as int], options: 1 },
            )
        },
        Phase::Ready => {
            &&& asked(log) == all + met + seen + arms::<R>(s.attached)
            &&& s.seized == seized_in(log)
            &&& s.attached == left_in(s.seized, log)
            &&& s.attached.len() > 0
            &&& step == StepView::<R, ()>::Finish(Ok(()))
        },
        _ => true,
    }
}

/// Nobody has been waited for yet, so nobody has been struck out.
proof fn lemma_nobody_left<R>(tids: Seq<i32>, log: Log<R>, n: int)
    requires
        0 <= n <= log.len(),
        forall|i: int| 0 <= i < n ==> !((#[trigger] log[i]).0 is WaitFor),
    ensures
        left_in(tids, log.take(n)) == tids,
    decreases n,
{
    if n > 0 {
        lemma_nobody_left(tids, log, n - 1);
        assert(log.take(n).drop_last() =~= log.take(n - 1));
        assert(log.take(n).last() == log[n - 1]);
    }
}

#[verifier::spinoff_prover]
#[verifier::rlimit(60)]
proof fn lemma_step_going<R>(s: AttachingView, step: StepView<R, ()>, ev: Event<R>, before: Log<R>)
    requires
        going(s, step, before),
        s.wf(),
        expects(s, ev),
        small(s),
        !(s.phase is Leaving),
    ensures
        ({
            let (s2, step2) = next(s, ev);
            going(s2, step2, before.push((step->Do_0, ev)))
        }),
{
    let (s2, step2) = next(s, ev);
    let entry = (step->Do_0, ev);
    let log = before.push(entry);
    assert(log.drop_last() =~= before);
    assert(log.last() == entry);
    assert(asked(log) =~= asked(before).push(entry.0));
    if !(s2.phase is Leaving) && !(s2.phase is Failed) {
        match s.phase {
            Phase::Seizing(i) => {
                assert(asked(log) =~= seizes::<R>(s.tids.take(i + 1)));
                assert(s2.attached =~= seized_in(log));
                if i + 1 == s.tids.len() {
                    assert(s.tids.take(i + 1) =~= s.tids);
                    assert(asked(log) =~= seizes::<R>(s.tids) + interrupts::<R>(
                        s2.attached.take(0),
                    ));
                }
            },
            Phase::Interrupting(i) => {
                assert(asked(log) =~= seizes::<R>(s.tids) + interrupts::<R>(
                    s.attached.take(i + 1),
                ));
                if i + 1 == s.attached.len() {
                    assert(s.attached.take(i + 1) =~= s.attached);
                    assert(asked(log) =~= seizes::<R>(s.tids) + interrupts::<R>(s.attached)
                        + waits::<R>(s.attached.take(0)));
                    assert forall|j: int| 0 <= j < log.len() implies !((
                    #[trigger] log[j]).0 is WaitFor) by {
                        assert(asked(log)[j] == log[j].0);
                        let all = seizes::<R>(s.tids);
                        let met = interrupts::<R>(s.attached);
                        assert(asked(log) == all + met + waits::<R>(s.attached.take(0)));
                        if j < all.len() {
                            assert((all + met)[j] == all[j]);
                        } else {
                            assert((all + met)[j] == met[j - all.len()]);
                        }
                    }
                    lemma_nobody_left(s.attached, log, log.len() as int);
                    assert(log.take(log.len() as int) =~= log);
                }
            },
            Phase::Waiting(i) => {
                assert(asked(log) =~= seizes::<R>(s.tids) + interrupts::<R>(s.seized) + waits::<R>(
                    s.seized.take(i + 1),
                ));
                assert(s2.attached =~= left_in(s.seized, log));
                if i + 1 == s.seized.len() {
                    assert(s.seized.take(i + 1) =~= s.seized);
                    assert(asked(log) =~= seizes::<R>(s.tids) + interrupts::<R>(s.seized) + waits::<
                        R,
                    >(s.seized) + arms::<R>(s2.attached.take(0)));
                }
            },
            Phase::Arming(i) => {
                assert(asked(log) =~= seizes::<R>(s.tids) + interrupts::<R>(s.seized) + waits::<R>(
                    s.seized,
                ) + arms::<R>(s.attached.take(i + 1)));
                if i + 1 == s.attached.len() {
                    assert(s.attached.take(i + 1) =~= s.attached);
                }
            },
            _ => {},
        }
    }
}

proof fn lemma_run_going<R>(s: AttachingView, step: StepView<R, ()>, evs: Seq<Event<R>>)
    requires
        going(s, step, Seq::empty()),
        s.wf(),
        small(s),
        accepts(s, step, evs),
    ensures
        going(after(s, step, evs).0, after(s, step, evs).1, log(s, step, evs)),
    decreases evs.len(),
{
    if evs.len() > 0 {
        let front = evs.drop_last();
        lemma_run_going(s, step, front);
        lemma_lengths(s, step, front);
        let (t, tstep) = after(s, step, front);
        if !(t.phase is Leaving) {
            lemma_step_going(t, tstep, evs.last(), log(s, step, front));
        }
    }
}

/// An attempt that succeeds has tried to seize every thread that was
/// listed, in order, then interrupted every thread that it seized, then
/// waited for each of these, and armed each that was not gone; these make
/// up the session.
pub proof fn attach_goes_through_all_threads<R>(pid: i32, tids: Seq<i32>, evs: Seq<Event<R>>)
    requires
        list::ordered(Some(pid), tids),
        0 < tids.len() <= usize::MAX,
        accepts(begun::<R>(pid, tids).0, begun::<R>(pid, tids).1, evs),
        after(begun::<R>(pid, tids).0, begun::<R>(pid, tids).1, evs).1 matches StepView::Finish(
            Ok(_),
        ),
    ensures
        ({
            let (s, step) = begun::<R>(pid, tids);
            let t = after(s, step, evs).0;
            let done = log(s, step, evs);
            let seized = seized_in(done);
            &&& t.attached == left_in(seized, done)
            &&& asked(done) == seizes::<R>(tids) + interrupts::<R>(seized) + waits::<R>(seized)
                + arms::<R>(t.attached)
        }),
{
    let (s, step) = begun::<R>(pid, tids);
    lemma_begun_sound::<R>(pid, tids);
    let nothing: Log<R> = Seq::empty();
    assert(asked(nothing) =~= seizes::<R>(tids.take(0)));
    assert(s.attached =~= seized_in(nothing));
    lemma_run_going(s, step, evs);
    lemma_run_sound(s, step, evs);
    lemma_lengths(s, step, evs);
}

/// What an attempt that was given up reports, now or in the end.
pub open spec fn reported<R>(s: AttachingView, step: StepView<R, ()>) -> ErrorView {
    if s.phase is Leaving {
        s.failure->Some_0
    } else {
        step->Finish_0->Err_0
    }
}

/// An attempt is given up for a reason, and says which: the main thread
/// cannot be seized, no thread can, a request failed, a thread did not stop
/// in time, or none is left. After every other answer it goes on, and once
/// it is given up it ends with that reason.
pub proof fn attach_fails_for_a_reason<R>(s: AttachingView, ev: Event<R>)
    requires
        s.wf(),
        expects(s, ev),
        s.tids.len() <= usize::MAX,
        s.seized.len() <= usize::MAX,
        s.attached.len() <= usize::MAX,
    ensures
        ({
            let (t, step) = next(s, ev);
            let given_up = t.phase is Leaving || t.phase is Failed;
            let e = reported(t, step);
            match s.phase {
                Phase::Leaving => given_up && e == s.failure->Some_0,
                Phase::Seizing(i) => match ev {
                    Event::Failed(errno) => if s.tids[i as int] == s.pid {
                        given_up && Err::<(), ErrorView>(e) == ptrace::seize_meaning(
                            s.pid,
                            (0 - 1) as i64,
                            errno,
                        )
                    } else {
                        &&& given_up <==> i + 1 == s.tids.len() && s.attached.len() == 0
                        &&& given_up ==> e == ErrorView::Msg("target has no attachable threads"@)
                    },
                    _ => !given_up && t.attached == s.attached.push(s.tids[i as int]),
                },
                Phase::Waiting(i) => match ev {
                    Event::Failed(errno) => given_up && e == ErrorView::Os(errno),
                    Event::TimedOut => given_up && e == ErrorView::Msg(
                        "thread "@ + text::signed_decimal(s.seized[i as int] as int)
                            + " did not stop (stuck in uninterruptible sleep?)"@,
                    ),
                    Event::Stopped(stop) => {
                        let left = if stop == Stop::Exited {
                            list::without(s.attached, s.seized[i as int])
                        } else {
                            s.attached
                        };
                        &&& given_up <==> i + 1 == s.seized.len() && left.len() == 0
                        &&& given_up ==> e == ErrorView::Msg("target vanished while attaching"@)
                        &&& !given_up ==> t.attached == left
                    },
                    _ => true,
                },
                _ => match ev {
                    Event::Failed(errno) => given_up && e == ErrorView::Os(errno),
                    _ => !given_up,
                },
            }
        }),
{
}

/// Every thread is let go once, in order, and with the signal that was
/// asked for.
pub proof fn every_thread_is_let_go(tids: Seq<i32>, sig: i32, i: int)
    requires
        0 <= i < tids.len(),
    ensures
        detaches(tids, sig).len() == tids.len(),
        detaches(tids, sig)[i].tid == tids[i],
        detaches(tids, sig)[i].sig == sig,
{
}

/// Every thread that was listed is tried, as often as it was listed: the
/// main thread first, the others in ascending order.
pub proof fn main_thread_is_tried_first(pid: i32, tids: Seq<i32>, i: int, j: int)
    requires
        0 <= i < j < tids.len(),
    ensures
        ({
            let order = lined_up(pid, tids);
            &&& order.len() == tids.len()
            &&& order.to_multiset() == tids.to_multiset()
            &&& tids.contains(pid) ==> order[0] == pid
            &&& order[i] != pid ==> order[i] <= order[j] && order[j] != pid
        }),
{
    list::order_ascends_behind_the_lead(Some(pid), tids, i, j);
    let order = lined_up(pid, tids);
    if tids.contains(pid) {
        tids.to_multiset_ensures();
        order.to_multiset_ensures();
        assert(tids.to_multiset().count(pid) > 0);
        assert(order.contains(pid));
        let k = choose|k: int| 0 <= k < order.len() && order[k] == pid;
        if k > 0 {
            list::order_ascends_behind_the_lead(Some(pid), tids, 0, k);
        }
    }
}

/// An attempt is about the process and the threads that it was told of, and
/// begins with the first of these; without any there is nothing to attach.
pub proof fn attempt_begins_with_the_first<R>(pid: i32, tids: Seq<i32>)
    requires
        tids.len() <= usize::MAX,
    ensures
        ({
            let (s, step) = begun::<R>(pid, tids);
            &&& s.pid == pid && s.tids == tids && s.missed.len() == 0
            &&& tids.len() > 0 ==> step == StepView::<R, ()>::Do(Action::Seize { tid: tids[0] })
            &&& tids.len() == 0 ==> step == StepView::<R, ()>::Finish(
                Err(ErrorView::Msg("target has no attachable threads"@)),
            )
        }),
{
}

/// Nothing that speaks against attaching a thread: the request was carried
/// out, or the thread was seen to stop and is not gone.
pub open spec fn is_willing<R>(ev: Event<R>) -> bool {
    match ev {
        Event::Done => true,
        Event::Stopped(stop) => stop != Stop::Exited,
        _ => false,
    }
}

/// How far an attempt has come that nothing spoke against.
spec fn undisturbed(s: AttachingView) -> bool {
    &&& s.wf()
    &&& match s.phase {
        Phase::Seizing(i) => s.attached == s.tids.take(i as int),
        Phase::Interrupting(_) => s.attached == s.tids,
        Phase::Waiting(_) => s.attached == s.tids && s.seized == s.tids,
        Phase::Arming(_) | Phase::Ready => s.attached == s.tids,
        _ => false,
    }
}

/// A process whose threads can all be seized, and which all stop, is
/// attached, with every thread of it: whatever stops them, and however many
/// they are, the attempt is not given up.
pub proof fn willing_threads_are_all_attached<R>(pid: i32, tids: Seq<i32>, evs: Seq<Event<R>>)
    requires
        0 < tids.len() <= usize::MAX,
        accepts(begun::<R>(pid, tids).0, begun::<R>(pid, tids).1, evs),
        forall|i: int| 0 <= i < evs.len() ==> is_willing(#[trigger] evs[i]),
    ensures
        ({
            let (s, step) = begun::<R>(pid, tids);
            match after(s, step, evs).1 {
                StepView::Do(_) => true,
                StepView::Finish(result) => {
                    &&& result == Ok::<(), ErrorView>(())
                    &&& after(s, step, evs).0.attached == tids
                },
            }
        }),
{
    let (s, step) = begun::<R>(pid, tids);
    assert(s.attached =~= tids.take(0));
    lemma_undisturbed(s, step, evs);
}

proof fn lemma_undisturbed<R>(s: AttachingView, step: StepView<R, ()>, evs: Seq<Event<R>>)
    requires
        undisturbed(s),
        step is Do,
        s.tids.len() <= usize::MAX,
        accepts(s, step, evs),
        forall|i: int| 0 <= i < evs.len() ==> is_willing(#[trigger] evs[i]),
    ensures
        ({
            let (t, tstep) = after(s, step, evs);
            &&& undisturbed(t)
            &&& t.tids == s.tids
            &&& tstep is Finish ==> t.phase is Ready && tstep == StepView::<R, ()>::Finish(Ok(()))
        }),
    decreases evs.len(),
{
    if evs.len() > 0 {
        let front = evs.drop_last();
        assert forall|i: int| 0 <= i < front.len() implies is_willing(#[trigger] front[i]) by {
            assert(front[i] == evs[i]);
        }
        lemma_undisturbed(s, step, front);
        let t = after(s, step, front).0;
        assert(is_willing(evs[evs.len() - 1]));
        if let Phase::Seizing(i) = t.phase {
            assert(t.attached.push(t.tids[i as int]) =~= t.tids.take(i + 1));
            if i + 1 == t.tids.len() {
                assert(t.tids.take(i + 1) =~= t.tids);
            }
        }
    }
}

} // verus!
