//! Letting the threads of a process go. Every thread is detached, and every
//! signal that was swallowed is re-delivered: one with the detach of its
//! thread, anything else sent to the thread right after.

use vstd::prelude::*;

use crate::tracee;
use crate::tracee::{Action, Event, Log, Missed, Step, StepView};

verus! {

/// Which request is outstanding.
#[derive(Debug, Clone, Copy, PartialEq, Eq, Structural)]
pub enum Phase {
    /// Detaching the thread at a position in the list.
    Detaching(usize),
    /// Sending the first signal that is still owed.
    Sending,
    /// Nothing is outstanding.
    Over,
}

/// Threads that are being let go.
pub struct Leaving {
    pid: i32,
    tids: Vec<i32>,
    /// The signals that are still owed.
    missed: Vec<Missed>,
    phase: Phase,
}

pub struct LeavingView {
    pub pid: i32,
    pub tids: Seq<i32>,
    pub missed: Seq<Missed>,
    pub phase: Phase,
}

impl LeavingView {
    pub open spec fn wf(self) -> bool {
        match self.phase {
            Phase::Detaching(i) => i < self.tids.len(),
            Phase::Sending => self.missed.len() > 0,
            Phase::Over => true,
        }
    }
}

impl View for Leaving {
    type V = LeavingView;

    closed spec fn view(&self) -> LeavingView {
        LeavingView {
            pid: self.pid,
            tids: self.tids@,
            missed: self.missed@,
            phase: self.phase,
        }
    }
}

pub type Transition<R> = (LeavingView, StepView<R, ()>);

/// Send what is still owed, one signal after the other.
pub open spec fn send_rest<R>(s: LeavingView) -> Transition<R> {
    if s.missed.len() > 0 {
        (
            LeavingView { phase: Phase::Sending, ..s },
            StepView::Do(
                Action::Send { pid: s.pid, tid: s.missed[0].tid, sig: s.missed[0].sig },
            ),
        )
    } else {
        (LeavingView { phase: Phase::Over, ..s }, StepView::Finish(Ok(())))
    }
}

/// Detach the threads from position `i` on, each with the first signal that
/// is owed to it, then send the rest.
pub open spec fn detach_from<R>(s: LeavingView, i: int) -> Transition<R> {
    if i < s.tids.len() {
        (
            LeavingView { phase: Phase::Detaching(i as usize), ..s },
            StepView::Do(
                Action::Detach {
                    tid: s.tids[i],
                    sig: tracee::first_signal(s.missed, s.tids[i]),
                },
            ),
        )
    } else {
        send_rest(s)
    }
}

/// Let the threads `tids` of the process `pid` go, which are owed `missed`.
pub open spec fn begun<R>(pid: i32, tids: Seq<i32>, missed: Seq<Missed>) -> Transition<R> {
    detach_from(LeavingView { pid, tids, missed, phase: Phase::Over }, 0)
}

/// What happens with an answer. Everything is best effort; a signal that a
/// detach failed to deliver is sent later.
pub open spec fn next<R>(s: LeavingView, ev: Event<R>) -> Transition<R> {
    match s.phase {
        Phase::Detaching(i) => detach_from(
            if ev is Done {
                LeavingView {
                    missed: tracee::without_first(s.missed, s.tids[i as int]),
                    ..s
                }
            } else {
                s
            },
            i + 1,
        ),
        _ => send_rest(LeavingView { missed: s.missed.skip(1), ..s }),
    }
}

/// Whether `ev` can be the answer that is waited for.
pub open spec fn expects<R>(s: LeavingView, ev: Event<R>) -> bool {
    s.phase != Phase::Over && (ev is Done || ev is Failed)
}

/// Let the threads `tids` of the process `pid` go, which are owed `missed`.
pub fn start<R>(pid: i32, tids: Vec<i32>, missed: Vec<Missed>) -> (r: (Leaving, Step<R, ()>))
    ensures
        (r.0@, r.1@) == begun::<R>(pid, tids@, missed@),
        r.0@.wf(),
{
    let mut s: Leaving = Leaving { pid, tids, missed, phase: Phase::Over };
    let step: Step<R, ()> = s.detach_from(0);
    (s, step)
}

/// Nobody to let go.
pub fn idle() -> (r: Leaving)
    ensures
        r@ == (LeavingView {
            pid: 0,
            tids: Seq::empty(),
            missed: Seq::empty(),
            phase: Phase::Over,
        }),
{
    let r: Leaving = Leaving {
        pid: 0,
        tids: Vec::new(),
        missed: Vec::new(),
        phase: Phase::Over,
    };
    assert(r.tids@ =~= Seq::<i32>::empty());
    assert(r.missed@ =~= Seq::<Missed>::empty());
    r
}

impl Leaving {
    fn send_rest<R>(&mut self) -> (r: Step<R, ()>)
        ensures
            (final(self)@, r@) == send_rest::<R>(old(self)@),
            final(self)@.wf(),
    {
        if self.missed.len() > 0 {
            self.phase = Phase::Sending;
            let first: Missed = self.missed[0];
            Step::Do(Action::Send { pid: self.pid, tid: first.tid, sig: first.sig })
        } else {
            self.phase = Phase::Over;
            Step::Finish(Ok(()))
        }
    }

    fn detach_from<R>(&mut self, i: usize) -> (r: Step<R, ()>)
        ensures
            (final(self)@, r@) == detach_from::<R>(old(self)@, i as int),
            final(self)@.wf(),
    {
        if i < self.tids.len() {
            self.phase = Phase::Detaching(i);
            let tid: i32 = self.tids[i];
            let sig: i32 = tracee::peek_first(&self.missed, tid);
            Step::Do(Action::Detach { tid, sig })
        } else {
            self.send_rest()
        }
    }

    /// Go on, now that the request was answered.
    pub fn step<R>(&mut self, ev: Event<R>) -> (r: Step<R, ()>)
        requires
            old(self)@.wf(),
            expects(old(self)@, ev),
        ensures
            (final(self)@, r@) == next(old(self)@, ev),
            final(self)@.wf(),
    {
        match self.phase {
            Phase::Detaching(i) => {
                assert(i < self.tids.len());
                if let Event::Done = ev {
                    let tid: i32 = self.tids[i];
                    tracee::drop_first_of(&mut self.missed, tid);
                }
                self.detach_from(i + 1)
            },
            _ => {
                self.missed.remove(0);
                assert(self.missed@ =~= old(self)@.missed.skip(1));
                self.send_rest()
            },
        }
    }
}

// ---------------------------------------------------------------------
// Laws
// ---------------------------------------------------------------------

/// Where things stand after the answers `evs`.
pub open spec fn after<R>(s: LeavingView, step: StepView<R, ()>, evs: Seq<Event<R>>) -> Transition<
    R,
>
    decreases evs.len(),
{
    if evs.len() == 0 {
        (s, step)
    } else {
        next(after(s, step, evs.drop_last()).0, evs.last())
    }
}

/// Whether each of `evs` can be the answer that is waited for when it comes.
pub open spec fn accepts<R>(s: LeavingView, step: StepView<R, ()>, evs: Seq<Event<R>>) -> bool
    decreases evs.len(),
{
    evs.len() > 0 ==> {
        &&& accepts(s, step, evs.drop_last())
        &&& expects(after(s, step, evs.drop_last()).0, evs.last())
    }
}

/// The requests that were answered by `evs`, with their answers.
pub open spec fn log<R>(s: LeavingView, step: StepView<R, ()>, evs: Seq<Event<R>>) -> Log<R>
    decreases evs.len(),
{
    if evs.len() == 0 {
        Seq::empty()
    } else {
        log(s, step, evs.drop_last()).push((after(s, step, evs.drop_last()).1->Do_0, evs.last()))
    }
}

/// How the outstanding request follows from where things stand.
pub open spec fn asks<R>(s: LeavingView, step: StepView<R, ()>) -> bool {
    &&& s.wf()
    &&& s.tids.len() <= usize::MAX
    &&& match s.phase {
        Phase::Detaching(i) => step == StepView::<R, ()>::Do(
            Action::Detach {
                tid: s.tids[i as int],
                sig: tracee::first_signal(s.missed, s.tids[i as int]),
            },
        ),
        Phase::Sending => step == StepView::<R, ()>::Do(
            Action::Send { pid: s.pid, tid: s.missed[0].tid, sig: s.missed[0].sig },
        ),
        Phase::Over => step == StepView::<R, ()>::Finish(Ok(())) && s.missed.len() == 0,
    }
}

/// An answer delivers what it strikes from the list, and nothing else.
pub proof fn lemma_answer_delivers<R>(
    s: LeavingView,
    step: StepView<R, ()>,
    ev: Event<R>,
    before: Log<R>,
)
    requires
        asks(s, step),
        expects(s, ev),
        tracee::all_owed(s.missed),
    ensures
        ({
            let (s2, step2) = next(s, ev);
            let log = before.push((step->Do_0, ev));
            &&& asks(s2, step2)
            &&& s2.tids == s.tids
            &&& tracee::all_owed(s2.missed)
            &&& tracee::swallowed(log) == tracee::swallowed(before)
            &&& tracee::delivered(log).to_multiset().add(s2.missed.to_multiset())
                == tracee::delivered(before).to_multiset().add(s.missed.to_multiset())
        }),
{
    let (s2, step2) = next(s, ev);
    let log = before.push((step->Do_0, ev));
    assert(log.drop_last() =~= before);
    tracee::delivered(before).to_multiset_ensures();
    match s.phase {
        Phase::Detaching(i) => {
            tracee::lemma_without_first(s.missed, s.tids[i as int]);
        },
        _ => {
            assert(s.missed.skip(1) =~= s.missed.remove(0));
            s.missed.to_multiset_ensures();
            assert(s.missed.contains(s.missed[0]));
            assert(s.missed[0] == Missed { tid: s.missed[0].tid, sig: s.missed[0].sig });
            assert forall|j: int| 0 <= j < s2.missed.len() implies tracee::owed(
                (#[trigger] s2.missed[j]).sig,
            ) by {
                assert(s2.missed[j] == s.missed[j + 1]);
            }
        },
    }
    assert(tracee::delivered(log).to_multiset().add(s2.missed.to_multiset())
        =~= tracee::delivered(before).to_multiset().add(s.missed.to_multiset()));
}

proof fn lemma_run_delivers<R>(s: LeavingView, step: StepView<R, ()>, evs: Seq<Event<R>>)
    requires
        asks(s, step),
        tracee::all_owed(s.missed),
        accepts(s, step, evs),
    ensures
        ({
            let (t, tstep) = after(s, step, evs);
            let done = log(s, step, evs);
            &&& asks(t, tstep)
            &&& tracee::all_owed(t.missed)
            &&& tracee::swallowed(done) == Seq::<Missed>::empty()
            &&& tracee::delivered(done).to_multiset().add(t.missed.to_multiset())
                == s.missed.to_multiset()
        }),
    decreases evs.len(),
{
    if evs.len() > 0 {
        let front = evs.drop_last();
        lemma_run_delivers(s, step, front);
        let (t, tstep) = after(s, step, front);
        lemma_answer_delivers(t, tstep, evs.last(), log(s, step, front));
    } else {
        Seq::<Missed>::empty().to_multiset_ensures();
        assert(tracee::delivered(log(s, step, evs)).to_multiset().add(s.missed.to_multiset())
            =~= s.missed.to_multiset());
    }
}

/// Whatever the kernel answers, once the threads were let go, each signal
/// that was owed has been delivered to its thread, once.
pub proof fn owed_signals_are_delivered_once<R>(
    pid: i32,
    tids: Seq<i32>,
    missed: Seq<Missed>,
    evs: Seq<Event<R>>,
)
    requires
        tids.len() <= usize::MAX,
        tracee::all_owed(missed),
        ({
            let (s, step) = begun::<R>(pid, tids, missed);
            accepts(s, step, evs) && after(s, step, evs).1 is Finish
        }),
    ensures
        ({
            let (s, step) = begun::<R>(pid, tids, missed);
            let done = log(s, step, evs);
            &&& tracee::swallowed(done) == Seq::<Missed>::empty()
            &&& tracee::delivered(done).to_multiset() == missed.to_multiset()
        }),
{
    let (s, step) = begun::<R>(pid, tids, missed);
    lemma_run_delivers(s, step, evs);
    let t = after(s, step, evs).0;
    t.missed.to_multiset_ensures();
    assert(t.missed =~= Seq::<Missed>::empty());
    assert(tracee::delivered(log(s, step, evs)).to_multiset().add(t.missed.to_multiset())
        =~= tracee::delivered(log(s, step, evs)).to_multiset());
}

/// How many of the threads were asked to be detached.
spec fn reached(s: LeavingView) -> int {
    match s.phase {
        Phase::Detaching(i) => i as int,
        _ => s.tids.len() as int,
    }
}

proof fn lemma_run_detaches<R>(s: LeavingView, step: StepView<R, ()>, evs: Seq<Event<R>>)
    requires
        asks(s, step),
        reached(s) == 0,
        accepts(s, step, evs),
    ensures
        ({
            let (t, tstep) = after(s, step, evs);
            &&& asks(t, tstep)
            &&& t.tids == s.tids
            &&& tracee::detached(log(s, step, evs)) == s.tids.take(reached(t))
        }),
    decreases evs.len(),
{
    let done = log(s, step, evs);
    if evs.len() > 0 {
        let front = evs.drop_last();
        lemma_run_detaches(s, step, front);
        let (t, tstep) = after(s, step, front);
        let t2 = after(s, step, evs).0;
        assert(done.drop_last() =~= log(s, step, front));
        assert(tracee::detached(done) =~= s.tids.take(reached(t2)));
    } else {
        assert(tracee::detached(done) =~= s.tids.take(0));
    }
}

/// Whatever the kernel answers, once the threads were let go, each of them
/// has been detached, once and in order, and nothing else has.
pub proof fn every_thread_is_detached<R>(
    pid: i32,
    tids: Seq<i32>,
    missed: Seq<Missed>,
    evs: Seq<Event<R>>,
)
    requires
        tids.len() <= usize::MAX,
        ({
            let (s, step) = begun::<R>(pid, tids, missed);
            accepts(s, step, evs) && after(s, step, evs).1 is Finish
        }),
    ensures
        ({
            let (s, step) = begun::<R>(pid, tids, missed);
            tracee::detached(log(s, step, evs)) == tids
        }),
{
    let (s, step) = begun::<R>(pid, tids, missed);
    lemma_run_detaches(s, step, evs);
    assert(tids.take(tids.len() as int) =~= tids);
}

/// Whatever a request can bring back, it is expected.
pub proof fn every_answer_is_expected<R>(
    s: LeavingView,
    ev: Event<R>,
    action: Action<R>,
    answer: Event<R>,
)
    requires
        expects(s, ev),
        next(s, ev).1 == StepView::<R, ()>::Do(action),
        tracee::answers(action, answer),
    ensures
        expects(next(s, ev).0, answer),
{
}

/// Threads are let go in order, each with the earliest signal that is owed
/// to it, or with none; a signal that went with a detach is not owed any
/// more, one whose detach failed still is. What is owed in the end is sent,
/// in order and each once, to its thread in the process. Nothing else is
/// asked for, and it is over exactly when nothing is owed and every thread
/// was let go.
pub proof fn threads_are_let_go_in_order<R>(s: LeavingView, ev: Event<R>)
    requires
        s.wf(),
        s.tids.len() <= usize::MAX,
        expects(s, ev),
    ensures
        ({
            let (t, step) = next(s, ev);
            let left = match s.phase {
                Phase::Detaching(i) => if ev is Done {
                    tracee::without_first(s.missed, s.tids[i as int])
                } else {
                    s.missed
                },
                _ => s.missed.skip(1),
            };
            let more: int = match s.phase {
                Phase::Detaching(i) => i + 1,
                _ => s.tids.len() as int,
            };
            &&& t.pid == s.pid && t.tids == s.tids && t.missed == left
            &&& step == if more < s.tids.len() {
                StepView::<R, ()>::Do(
                    Action::Detach {
                        tid: s.tids[more],
                        sig: tracee::first_signal(left, s.tids[more]),
                    },
                )
            } else if left.len() > 0 {
                StepView::<R, ()>::Do(
                    Action::Send { pid: s.pid, tid: left[0].tid, sig: left[0].sig },
                )
            } else {
                StepView::<R, ()>::Finish(Ok(()))
            }
        }),
{
}

/// Letting go begins with the first thread, and is about the process,
/// threads and signals that it was told of.
pub proof fn letting_go_begins_with_the_first<R>(pid: i32, tids: Seq<i32>, missed: Seq<Missed>)
    requires
        tids.len() <= usize::MAX,
    ensures
        ({
            let (s, step) = begun::<R>(pid, tids, missed);
            &&& s.pid == pid && s.tids == tids && s.missed == missed
            &&& step == if tids.len() > 0 {
                StepView::<R, ()>::Do(
                    Action::Detach {
                        tid: tids[0],
                        sig: tracee::first_signal(missed, tids[0]),
                    },
                )
            } else if missed.len() > 0 {
                StepView::<R, ()>::Do(
                    Action::Send { pid, tid: missed[0].tid, sig: missed[0].sig },
                )
            } else {
                StepView::<R, ()>::Finish(Ok(()))
            }
        }),
{
}

} // verus!
