//! A stay inside another process: attach to every thread, hijack one, do
//! some work in it, put everything back and let go. Whatever fails on the
//! way, the registers are restored, the swallowed signals are re-delivered
//! on detach, and every thread is detached.

use vstd::prelude::*;

use crate::arch::Arch;
use crate::error::{Error, ErrorView};
use crate::hijack;
use crate::hijack::seize;
use crate::hijack::{HijackerView, Operation};
use crate::leave;
use crate::list;
use crate::session;
use crate::session::SessionView;
use crate::tracee;
use crate::tracee::{Event, Log, Missed};

verus! {

/// What a stay asks for.
#[derive(Debug)]
pub enum Request {
    /// Seize and stop every thread.
    Attach,
    /// Pick a thread and hijack it.
    Seize,
    /// Allocate a scratch page in it.
    MapPage,
    /// Do the work.
    Work,
    /// Release the scratch page.
    UnmapPage,
    /// Take the swallowed signals, and restore the thread.
    Restore,
    /// Detach every thread, and re-deliver the signals that they are owed.
    Detach { missed: Vec<Missed> },
}

#[verifier::ext_equal]
pub enum RequestView {
    Attach,
    Seize,
    MapPage,
    Work,
    UnmapPage,
    Restore,
    Detach { missed: Seq<Missed> },
}

impl View for Request {
    type V = RequestView;

    open spec fn view(&self) -> RequestView {
        match self {
            Request::Attach => RequestView::Attach,
            Request::Seize => RequestView::Seize,
            Request::MapPage => RequestView::MapPage,
            Request::Work => RequestView::Work,
            Request::UnmapPage => RequestView::UnmapPage,
            Request::Restore => RequestView::Restore,
            Request::Detach { missed } => RequestView::Detach { missed: missed@ },
        }
    }
}

/// What a request brought back: whether it failed, and the signals that the
/// threads turned out to be owed. An attempt to attach that fails delivers
/// what it swallowed by itself.
#[derive(Debug)]
pub struct Answer {
    pub failure: Option<Error>,
    pub missed: Vec<Missed>,
}

pub struct AnswerView {
    pub failure: Option<ErrorView>,
    pub missed: Seq<Missed>,
}

/// A failure taken by its view.
pub open spec fn failure_view(failure: Option<Error>) -> Option<ErrorView> {
    match failure {
        Some(e) => Some(e@),
        None => None,
    }
}

impl View for Answer {
    type V = AnswerView;

    open spec fn view(&self) -> AnswerView {
        AnswerView { failure: failure_view(self.failure), missed: self.missed@ }
    }
}

/// What a stay does next.
pub enum Step {
    Do(Request),
    Finish(Result<(), Error>),
}

#[verifier::ext_equal]
pub enum StepView {
    Do(RequestView),
    Finish(Result<(), ErrorView>),
}

impl View for Step {
    type V = StepView;

    open spec fn view(&self) -> StepView {
        match self {
            Step::Do(request) => StepView::Do(request@),
            Step::Finish(Ok(value)) => StepView::Finish(Ok(*value)),
            Step::Finish(Err(e)) => StepView::Finish(Err(e@)),
        }
    }
}

/// Which request is outstanding.
#[derive(Debug, Clone, Copy, PartialEq, Eq, Structural)]
pub enum Phase {
    Attaching,
    Seizing,
    Mapping,
    Working,
    Unmapping,
    Restoring,
    Leaving,
    /// Nothing is outstanding.
    Over,
}

/// A stay that is under way.
pub struct Visit {
    /// Whether the work needs a scratch page.
    maps: bool,
    /// The first thing that went wrong.
    trouble: Option<Error>,
    /// The signals that the threads are owed, as far as they are known.
    missed: Vec<Missed>,
    phase: Phase,
}

#[verifier::ext_equal]
pub struct VisitView {
    pub maps: bool,
    pub trouble: Option<ErrorView>,
    pub missed: Seq<Missed>,
    pub phase: Phase,
}

impl View for Visit {
    type V = VisitView;

    closed spec fn view(&self) -> VisitView {
        VisitView {
            maps: self.maps,
            trouble: failure_view(self.trouble),
            missed: self.missed@,
            phase: self.phase,
        }
    }
}

pub type Transition = (VisitView, StepView);

pub open spec fn ask(v: VisitView, phase: Phase, request: RequestView) -> Transition {
    (VisitView { phase, ..v }, StepView::Do(request))
}

/// The first thing that went wrong is what counts.
pub open spec fn noted(v: VisitView, failure: Option<ErrorView>) -> VisitView {
    VisitView {
        trouble: match v.trouble {
            Some(e) => Some(e),
            None => failure,
        },
        ..v
    }
}

pub open spec fn finish(v: VisitView) -> Transition {
    (
        VisitView { phase: Phase::Over, trouble: None, ..v },
        StepView::Finish(
            match v.trouble {
                Some(e) => Err(e),
                None => Ok(()),
            },
        ),
    )
}

/// Let every thread go, with the signals that they are owed.
pub open spec fn let_go(v: VisitView) -> Transition {
    ask(
        VisitView { missed: Seq::empty(), ..v },
        Phase::Leaving,
        RequestView::Detach { missed: v.missed },
    )
}

/// What a stay does with an answer.
pub open spec fn next(before: VisitView, answer: AnswerView) -> Transition {
    let v = VisitView { missed: before.missed + answer.missed, ..before };
    match v.phase {
        // An attempt to attach that fails leaves nothing attached.
        Phase::Attaching => if answer.failure is Some {
            finish(noted(v, answer.failure))
        } else {
            ask(v, Phase::Seizing, RequestView::Seize)
        },
        Phase::Seizing => if answer.failure is Some {
            let_go(noted(v, answer.failure))
        } else if v.maps {
            ask(v, Phase::Mapping, RequestView::MapPage)
        } else {
            ask(v, Phase::Working, RequestView::Work)
        },
        Phase::Mapping => if answer.failure is Some {
            ask(noted(v, answer.failure), Phase::Restoring, RequestView::Restore)
        } else {
            ask(v, Phase::Working, RequestView::Work)
        },
        Phase::Working => if v.maps {
            ask(noted(v, answer.failure), Phase::Unmapping, RequestView::UnmapPage)
        } else {
            ask(noted(v, answer.failure), Phase::Restoring, RequestView::Restore)
        },
        // Best effort.
        Phase::Unmapping => ask(v, Phase::Restoring, RequestView::Restore),
        Phase::Restoring => let_go(noted(v, answer.failure)),
        Phase::Leaving => finish(v),
        Phase::Over => arbitrary(),
    }
}

/// A stay that has just begun.
pub open spec fn begun(maps: bool) -> VisitView {
    VisitView { maps, trouble: None, missed: Seq::empty(), phase: Phase::Attaching }
}

/// Start a stay, whose work needs a scratch page when `maps`.
pub fn start(maps: bool) -> (r: (Visit, Step))
    ensures
        r.0@ == begun(maps),
        r.1@ == StepView::Do(RequestView::Attach),
{
    (
        Visit { maps, trouble: None, missed: Vec::new(), phase: Phase::Attaching },
        Step::Do(Request::Attach),
    )
}

impl Visit {
    fn ask(&mut self, phase: Phase, request: Request) -> (r: Step)
        ensures
            (final(self)@, r@) == ask(old(self)@, phase, request@),
    {
        self.phase = phase;
        Step::Do(request)
    }

    fn note(&mut self, failure: Option<Error>)
        ensures
            final(self)@ == noted(old(self)@, failure_view(failure)),
    {
        if self.trouble.is_none() {
            self.trouble = failure;
        }
    }

    fn finish(&mut self) -> (r: Step)
        ensures
            (final(self)@, r@) == finish(old(self)@),
    {
        self.phase = Phase::Over;
        match self.trouble.take() {
            Some(e) => Step::Finish(Err(e)),
            None => Step::Finish(Ok(())),
        }
    }

    fn let_go(&mut self) -> (r: Step)
        ensures
            (final(self)@, r@) == let_go(old(self)@),
    {
        let mut missed: Vec<Missed> = Vec::new();
        missed.append(&mut self.missed);
        assert(missed@ =~= old(self)@.missed);
        assert(self.missed@ =~= Seq::<Missed>::empty());
        self.ask(Phase::Leaving, Request::Detach { missed })
    }

    /// Go on with the stay, now that its request was answered.
    pub fn step(&mut self, answer: Answer) -> (r: Step)
        requires
            old(self)@.phase != Phase::Over,
        ensures
            (final(self)@, r@) == next(old(self)@, answer@),
    {
        let failed: bool = answer.failure.is_some();
        let Answer { failure, mut missed } = answer;
        self.missed.append(&mut missed);
        match self.phase {
            Phase::Attaching => if failed {
                self.note(failure);
                self.finish()
            } else {
                self.ask(Phase::Seizing, Request::Seize)
            },
            Phase::Seizing => if failed {
                self.note(failure);
                self.let_go()
            } else if self.maps {
                self.ask(Phase::Mapping, Request::MapPage)
            } else {
                self.ask(Phase::Working, Request::Work)
            },
            Phase::Mapping => if failed {
                self.note(failure);
                self.ask(Phase::Restoring, Request::Restore)
            } else {
                self.ask(Phase::Working, Request::Work)
            },
            Phase::Working => {
                self.note(failure);
                if self.maps {
                    self.ask(Phase::Unmapping, Request::UnmapPage)
                } else {
                    self.ask(Phase::Restoring, Request::Restore)
                }
            },
            Phase::Unmapping => self.ask(Phase::Restoring, Request::Restore),
            Phase::Restoring => {
                self.note(failure);
                self.let_go()
            },
            // Nothing is asked for after the threads were let go.
            _ => self.finish(),
        }
    }
}

// ---------------------------------------------------------------------
// Laws
// ---------------------------------------------------------------------

/// The stay and its step after the answers `answers`.
pub open spec fn after(v: VisitView, step: StepView, answers: Seq<AnswerView>) -> Transition
    decreases answers.len(),
{
    if answers.len() == 0 {
        (v, step)
    } else {
        next(after(v, step, answers.drop_last()).0, answers.last())
    }
}

/// The requests that were answered by `answers`, in order.
pub open spec fn requests(v: VisitView, step: StepView, answers: Seq<AnswerView>) -> Seq<
    RequestView,
>
    decreases answers.len(),
{
    if answers.len() == 0 {
        Seq::empty()
    } else {
        requests(v, step, answers.drop_last()).push(
            after(v, step, answers.drop_last()).1->Do_0,
        )
    }
}

/// Whether a request was outstanding when each of the answers came.
pub open spec fn accepts(v: VisitView, step: StepView, answers: Seq<AnswerView>) -> bool
    decreases answers.len(),
{
    answers.len() > 0 ==> {
        &&& accepts(v, step, answers.drop_last())
        &&& after(v, step, answers.drop_last()).0.phase != Phase::Over
    }
}

/// Every signal that the answers say is owed, in order.
pub open spec fn reported(answers: Seq<AnswerView>) -> Seq<Missed>
    decreases answers.len(),
{
    if answers.len() == 0 {
        Seq::empty()
    } else {
        reported(answers.drop_last()) + answers.last().missed
    }
}

/// Letting the threads go, with everything that the first `k` answers say
/// is owed.
pub open spec fn leaving(answers: Seq<AnswerView>, k: int) -> RequestView {
    RequestView::Detach { missed: reported(answers.take(k)) }
}

/// Everything that a stay asks for, by what fails: the attaching; the
/// hijacking; the mapping of the scratch page; or nothing before the work.
pub open spec fn itinerary(maps: bool, answers: Seq<AnswerView>) -> Seq<RequestView> {
    if answers[0].failure is Some {
        seq![RequestView::Attach]
    } else if answers[1].failure is Some {
        seq![RequestView::Attach, RequestView::Seize, leaving(answers, 2)]
    } else if maps && answers[2].failure is Some {
        seq![
            RequestView::Attach,
            RequestView::Seize,
            RequestView::MapPage,
            RequestView::Restore,
            leaving(answers, 4),
        ]
    } else if maps {
        seq![
            RequestView::Attach,
            RequestView::Seize,
            RequestView::MapPage,
            RequestView::Work,
            RequestView::UnmapPage,
            RequestView::Restore,
            leaving(answers, 6),
        ]
    } else {
        seq![
            RequestView::Attach,
            RequestView::Seize,
            RequestView::Work,
            RequestView::Restore,
            leaving(answers, 4),
        ]
    }
}

/// The failure that a stay reports: the first one, where that of releasing
/// the scratch page and that of detaching do not count.
pub open spec fn first_failure(maps: bool, answers: Seq<AnswerView>) -> Option<ErrorView> {
    let restore: int = if maps {
        5
    } else {
        3
    };
    let work: int = restore - (if maps {
        2int
    } else {
        1
    });
    if answers[0].failure is Some {
        answers[0].failure
    } else if answers[1].failure is Some {
        answers[1].failure
    } else if answers[2].failure is Some {
        answers[2].failure
    } else if answers[work].failure is Some {
        answers[work].failure
    } else {
        answers[restore].failure
    }
}

/// How a stay stands to what it asked for and what was answered.
spec fn on_route(
    maps: bool,
    v: VisitView,
    step: StepView,
    asked: Seq<RequestView>,
    answers: Seq<AnswerView>,
) -> bool {
    let ok = |i: int| answers[i].failure is None;
    let whole = itinerary(maps, answers);
    let fine = v.trouble is None;
    &&& v.maps == maps
    &&& asked.len() == answers.len()
    &&& v.phase != Phase::Leaving && v.phase != Phase::Over ==> v.missed == reported(answers)
    &&& match v.phase {
        Phase::Attaching => step == StepView::Do(RequestView::Attach) && answers.len() == 0 && fine,
        Phase::Seizing => step == StepView::Do(RequestView::Seize) && answers.len() == 1 && fine
            && ok(0) && asked == seq![RequestView::Attach],
        Phase::Mapping => step == StepView::Do(RequestView::MapPage) && answers.len() == 2 && fine
            && maps && ok(0) && ok(1) && asked == seq![RequestView::Attach, RequestView::Seize],
        Phase::Working => step == StepView::Do(RequestView::Work) && fine && ok(0) && ok(1) && if maps {
            answers.len() == 3 && ok(2) && asked == seq![
                RequestView::Attach,
                RequestView::Seize,
                RequestView::MapPage,
            ]
        } else {
            answers.len() == 2 && asked == seq![RequestView::Attach, RequestView::Seize]
        },
        Phase::Unmapping => step == StepView::Do(RequestView::UnmapPage) && maps && answers.len()
            == 4 && ok(0) && ok(1) && ok(2) && v.trouble == answers[3].failure && asked == seq![
            RequestView::Attach,
            RequestView::Seize,
            RequestView::MapPage,
            RequestView::Work,
        ],
        Phase::Restoring => step == StepView::Do(RequestView::Restore) && ok(0) && ok(1) && {
            ||| maps && answers.len() == 3 && !ok(2) && v.trouble == answers[2].failure && asked
                == seq![RequestView::Attach, RequestView::Seize, RequestView::MapPage]
            ||| maps && answers.len() == 5 && ok(2) && v.trouble == answers[3].failure && asked
                == seq![
                RequestView::Attach,
                RequestView::Seize,
                RequestView::MapPage,
                RequestView::Work,
                RequestView::UnmapPage,
            ]
            ||| !maps && answers.len() == 3 && v.trouble == answers[2].failure && asked == seq![
                RequestView::Attach,
                RequestView::Seize,
                RequestView::Work,
            ]
        },
        Phase::Leaving => {
            &&& step == StepView::Do(leaving(answers, answers.len() as int))
            &&& ok(0)
            &&& answers.len() >= 2
            &&& asked.push(step->Do_0) == whole
            &&& v.trouble == first_failure(maps, answers)
        },
        Phase::Over => {
            &&& asked == whole
            &&& step == StepView::Finish(
                match first_failure(maps, answers) {
                    Some(e) => Err::<(), ErrorView>(e),
                    None => Ok::<(), ErrorView>(()),
                },
            )
        },
    }
}

proof fn lemma_on_route(v: VisitView, step: StepView, answers: Seq<AnswerView>)
    requires
        v == begun(v.maps),
        step == StepView::Do(RequestView::Attach),
        accepts(v, step, answers),
    ensures
        on_route(
            v.maps,
            after(v, step, answers).0,
            after(v, step, answers).1,
            requests(v, step, answers),
            answers,
        ),
    decreases answers.len(),
{
    if answers.len() > 0 {
        let front = answers.drop_last();
        lemma_on_route(v, step, front);
        let (t, tstep) = after(v, step, front);
        let asked = requests(v, step, front);
        let asked2 = requests(v, step, answers);
        let t2 = after(v, step, answers).0;
        assert(asked2 == asked.push(tstep->Do_0));
        assert(forall|i: int| 0 <= i < front.len() ==> front[i] == answers[i]);
        assert(answers.take(answers.len() as int) =~= answers);
        assert(forall|k: int| 0 <= k <= front.len() ==> #[trigger] answers.take(k) =~= front.take(k));
        match t2.phase {
            Phase::Seizing => assert(asked2 =~= seq![RequestView::Attach]),
            Phase::Mapping => assert(asked2 =~= seq![RequestView::Attach, RequestView::Seize]),
            Phase::Working => if v.maps {
                assert(asked2 =~= seq![
                    RequestView::Attach,
                    RequestView::Seize,
                    RequestView::MapPage,
                ]);
            } else {
                assert(asked2 =~= seq![RequestView::Attach, RequestView::Seize]);
            },
            Phase::Unmapping => assert(asked2 =~= seq![
                RequestView::Attach,
                RequestView::Seize,
                RequestView::MapPage,
                RequestView::Work,
            ]),
            Phase::Restoring => if answers.len() == 5 {
                assert(asked2 =~= seq![
                    RequestView::Attach,
                    RequestView::Seize,
                    RequestView::MapPage,
                    RequestView::Work,
                    RequestView::UnmapPage,
                ]);
            } else if v.maps {
                assert(asked2 =~= seq![
                    RequestView::Attach,
                    RequestView::Seize,
                    RequestView::MapPage,
                ]);
            } else {
                assert(asked2 =~= seq![
                    RequestView::Attach,
                    RequestView::Seize,
                    RequestView::Work,
                ]);
            },
            Phase::Leaving => {
                assert(asked2.push(leaving(answers, answers.len() as int)) =~= itinerary(
                    v.maps,
                    answers,
                ));
            },
            _ => {
                if t.phase == Phase::Leaving {
                    assert(itinerary(v.maps, front) =~= itinerary(v.maps, answers));
                } else {
                    assert(asked2 =~= itinerary(v.maps, answers));
                }
            },
        }
    }
}

/// A stay asks for exactly what its itinerary says, in order, and then ends
/// with the first failure. So once the threads are attached, however the
/// stay goes, they are detached in the end, once, with every signal that
/// they turned out to be owed; a hijacked thread is restored before that,
/// and a scratch page is released before that.
pub proof fn stay_follows_its_itinerary(maps: bool, answers: Seq<AnswerView>)
    requires
        ({
            let v = begun(maps);
            let step = StepView::Do(RequestView::Attach);
            &&& accepts(v, step, answers)
            &&& after(v, step, answers).1 is Finish
        }),
    ensures
        ({
            let v = begun(maps);
            let step = StepView::Do(RequestView::Attach);
            &&& requests(v, step, answers) == itinerary(maps, answers)
            &&& after(v, step, answers).1 == StepView::Finish(
                match first_failure(maps, answers) {
                    Some(e) => Err::<(), ErrorView>(e),
                    None => Ok::<(), ErrorView>(()),
                },
            )
        }),
{
    let v = begun(maps);
    let step = StepView::Do(RequestView::Attach);
    lemma_on_route(v, step, answers);
}

/// Everything that the kernel answered during a stay that got past the
/// attaching: while attaching, while searching for a thread, during the
/// operations in it, and while the threads were let go.
pub struct Course<R> {
    pub pid: i32,
    /// The threads, the main thread first.
    pub tids: Seq<i32>,
    pub attaching: Seq<Event<R>>,
    pub searching: Seq<Event<R>>,
    /// The hijacked thread, as it was taken control of.
    pub engine: HijackerView<R>,
    pub ops: Seq<Operation<R>>,
    pub leaving: Seq<Event<R>>,
}

impl<R> Course<R> {
    /// The session that the attaching brought.
    pub open spec fn session(self) -> SessionView {
        let (s, step) = session::begun::<R>(self.pid, self.tids);
        let t = session::after(s, step, self.attaching).0;
        SessionView { pid: self.pid, tids: t.attached, missed: t.missed }
    }
}

/// The signals that are owed when the threads are let go: those that the
/// search knows of, and those that the engine knows of.
pub open spec fn owing<A: Arch>(c: Course<A::Raw>) -> Seq<Missed> {
    let searched = seize::after::<A>(
        seize::begun(c.session()),
        seize::first_step::<A::Raw>(),
        c.searching,
    ).0;
    searched.missed + hijack::engine_once::<A>(c.engine, c.ops).missed
}

/// Whether a stay can take this course: the threads are attached; the search
/// ends, and only a search that finds a thread is followed by operations;
/// and the threads are let go with what they are owed.
pub open spec fn possible<A: Arch>(c: Course<A::Raw>) -> bool {
    let (s, step) = session::begun::<A::Raw>(c.pid, c.tids);
    let search = seize::begun::<A::Raw>(c.session());
    let first = seize::first_step::<A::Raw>();
    let (l, lstep) = leave::begun::<A::Raw>(c.pid, c.session().tids, owing::<A>(c));
    &&& list::ordered(Some(c.pid), c.tids)
    &&& c.tids.len() <= usize::MAX
    &&& session::accepts(s, step, c.attaching)
    &&& session::after(s, step, c.attaching).1 matches tracee::StepView::Finish(Ok(_))
    &&& seize::accepts::<A>(search, first, c.searching)
    &&& seize::after::<A>(search, first, c.searching).1 is Finish
    &&& seize::after::<A>(search, first, c.searching).1 matches tracee::StepView::Finish(Ok(found))
        ==> c.engine.tid == found.tid
    &&& c.engine.missed.len() == 0
    &&& seize::after::<A>(search, first, c.searching).1 matches tracee::StepView::Finish(Err(_))
        ==> c.ops.len() == 0
    &&& hijack::all_accepted::<A>(c.engine, c.ops)
    &&& leave::accepts(l, lstep, c.leaving)
    &&& leave::after(l, lstep, c.leaving).1 is Finish
}

/// Every request of a stay about its threads, with its answer.
pub open spec fn whole_log<A: Arch>(c: Course<A::Raw>) -> Log<A::Raw> {
    let (s, step) = session::begun::<A::Raw>(c.pid, c.tids);
    let (l, lstep) = leave::begun::<A::Raw>(c.pid, c.session().tids, owing::<A>(c));
    session::log(s, step, c.attaching) + seize::log::<A>(
        seize::begun(c.session()),
        seize::first_step::<A::Raw>(),
        c.searching,
    ) + hijack::log_once::<A>(c.engine, c.ops) + leave::log(l, lstep, c.leaving)
}

/// Whatever the kernel answers, and whatever fails, each thread that was
/// attached for a stay is detached in the end, once, and nothing else is.
pub proof fn attached_threads_are_detached_once<A: Arch>(c: Course<A::Raw>)
    requires
        possible::<A>(c),
    ensures
        tracee::detached(whole_log::<A>(c)) == c.session().tids,
{
    let (s, step) = session::begun::<A::Raw>(c.pid, c.tids);
    let search = seize::begun::<A::Raw>(c.session());
    let first = seize::first_step::<A::Raw>();
    let (l, lstep) = leave::begun::<A::Raw>(c.pid, c.session().tids, owing::<A>(c));
    let la = session::log(s, step, c.attaching);
    let ls = seize::log::<A>(search, first, c.searching);
    let lh = hijack::log_once::<A>(c.engine, c.ops);
    let ll = leave::log(l, lstep, c.leaving);
    session::swallowed_signals_are_kept::<A::Raw>(c.pid, c.tids, c.attaching);
    session::attach_holds_all_or_nothing::<A::Raw>(c.pid, c.tids, c.attaching);
    seize::missed_signals_are_kept::<A>(c.session(), c.searching);
    hijack::swallowed_signals_are_kept::<A>(c.engine, c.ops);
    leave::every_thread_is_detached::<A::Raw>(
        c.pid,
        c.session().tids,
        owing::<A>(c),
        c.leaving,
    );
    tracee::lemma_logs_add_up(la, ls);
    tracee::lemma_logs_add_up(la + ls, lh);
    tracee::lemma_logs_add_up(la + ls + lh, ll);
    assert(tracee::detached(whole_log::<A>(c)) =~= c.session().tids);
}

/// Whatever the kernel answers, and whatever fails, each signal of the
/// target's own that stopped a thread during a stay is delivered to that
/// thread, once.
pub proof fn swallowed_signals_are_delivered_once<A: Arch>(c: Course<A::Raw>)
    requires
        possible::<A>(c),
    ensures
        tracee::delivered(whole_log::<A>(c)).to_multiset() == tracee::swallowed(
            whole_log::<A>(c),
        ).to_multiset(),
{
    let (s, step) = session::begun::<A::Raw>(c.pid, c.tids);
    let search = seize::begun::<A::Raw>(c.session());
    let first = seize::first_step::<A::Raw>();
    let (l, lstep) = leave::begun::<A::Raw>(c.pid, c.session().tids, owing::<A>(c));
    let la = session::log(s, step, c.attaching);
    let ls = seize::log::<A>(search, first, c.searching);
    let lh = hijack::log_once::<A>(c.engine, c.ops);
    let ll = leave::log(l, lstep, c.leaving);
    session::swallowed_signals_are_kept::<A::Raw>(c.pid, c.tids, c.attaching);
    session::attach_holds_all_or_nothing::<A::Raw>(c.pid, c.tids, c.attaching);
    seize::missed_signals_are_kept::<A>(c.session(), c.searching);
    hijack::swallowed_signals_are_kept::<A>(c.engine, c.ops);
    let found = seize::after::<A>(search, first, c.searching).0.missed;
    let kept = hijack::engine_once::<A>(c.engine, c.ops).missed;
    assert(kept =~= tracee::swallowed(lh));
    tracee::lemma_swallowed_is_owed(lh);
    assert(tracee::all_owed(found + kept));
    leave::owed_signals_are_delivered_once::<A::Raw>(
        c.pid,
        c.session().tids,
        found + kept,
        c.leaving,
    );
    tracee::lemma_logs_add_up(la, ls);
    tracee::lemma_logs_add_up(la + ls, lh);
    tracee::lemma_logs_add_up(la + ls + lh, ll);
    broadcast use vstd::seq_lib::lemma_multiset_commutative;

    Seq::<Missed>::empty().to_multiset_ensures();
    assert(tracee::delivered(whole_log::<A>(c)).to_multiset() =~= tracee::swallowed(
        whole_log::<A>(c),
    ).to_multiset());
}

} // verus!
