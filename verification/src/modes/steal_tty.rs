//! -T: take over the master end of the target's pty.

use vstd::prelude::*;

use super::{Answer, AnswerView, Request, RequestView, Step, StepView};
use crate::error::{msg, Error, ErrorView};
use crate::list;
use crate::steal;
use crate::steal::pty_number;
use crate::target;
use crate::target::{controlling_tty, ctty_path, fds_on_tty, ppid_of, session_id};

verus! {

/// Which request is outstanding.
#[derive(Debug, Clone, Copy, PartialEq, Eq, Structural)]
pub enum Phase {
    /// Finding the controlling terminal.
    Locating,
    /// Listing the fds.
    Listing,
    /// Finding the terminal's path.
    Following,
    /// Finding the session leader.
    Ranking,
    /// Finding the terminal emulator, which is the session leader's parent.
    Climbing,
    /// Stealing.
    Stealing,
    /// Relaying.
    Relaying,
    /// Nothing is outstanding.
    Over,
}

/// A theft of a target's terminal that is under way.
pub struct StealTty {
    pid: i32,
    dev: (u64, u64),
    ptn: u32,
    sid: i32,
    phase: Phase,
}

pub struct StealTtyView {
    pub pid: i32,
    pub dev: (u64, u64),
    pub ptn: u32,
    pub sid: i32,
    pub phase: Phase,
}

impl View for StealTty {
    type V = StealTtyView;

    closed spec fn view(&self) -> StealTtyView {
        StealTtyView {
            pid: self.pid,
            dev: self.dev,
            ptn: self.ptn,
            sid: self.sid,
            phase: self.phase,
        }
    }
}

pub type Transition = (StealTtyView, StepView);

pub open spec fn ask(s: StealTtyView, phase: Phase, request: RequestView) -> Transition {
    (StealTtyView { phase, ..s }, StepView::Do(request))
}

pub open spec fn fail(s: StealTtyView, e: ErrorView) -> Transition {
    (StealTtyView { phase: Phase::Over, ..s }, StepView::Finish(Err(e)))
}

/// The parent in a stat.
pub open spec fn parent(stat: Seq<char>) -> Option<i32> {
    let fields = target::stat_fields(stat);
    if fields.len() > 1 {
        target::number_named(fields[1])
    } else {
        None
    }
}

/// What happens with an answer.
pub open spec fn next(s: StealTtyView, answer: AnswerView) -> Transition {
    match (s.phase, answer) {
        (_, AnswerView::Failed(e)) => fail(s, e),
        (Phase::Locating, AnswerView::Text(stat)) => match target::tty_meaning(stat) {
            Err(e) => fail(s, e),
            Ok(None) => fail(s, ErrorView::Msg("target has no controlling terminal"@)),
            Ok(Some(dev)) => ask(
                StealTtyView { dev, ..s },
                Phase::Listing,
                RequestView::ListFds { pid: s.pid },
            ),
        },
        (Phase::Listing, AnswerView::Fds(entries)) => ask(
            s,
            Phase::Following,
            RequestView::ReadLinks {
                pid: s.pid,
                fds: list::arranged(None, target::tty_fds(entries, s.dev)),
            },
        ),
        (Phase::Following, AnswerView::Links(links)) => match target::first_link(links) {
            None => fail(s, ErrorView::Msg("cannot determine the target's terminal path"@)),
            Some(slave) => match steal::pty_number_of(slave) {
                None => fail(s, ErrorView::Msg("target's terminal is not a pty: "@ + slave)),
                Some(ptn) => ask(
                    StealTtyView { ptn, ..s },
                    Phase::Ranking,
                    RequestView::ReadStat { pid: s.pid },
                ),
            },
        },
        (Phase::Ranking, AnswerView::Text(stat)) => match target::stat_meaning(stat) {
            Err(e) => fail(s, e),
            Ok((_, session, _)) => ask(
                StealTtyView { sid: session as i32, ..s },
                Phase::Climbing,
                RequestView::ReadStat { pid: session as i32 },
            ),
        },
        (Phase::Climbing, AnswerView::Text(stat)) => match parent(stat) {
            None => fail(s, target::malformed_stat()),
            Some(emulator) => ask(
                s,
                Phase::Stealing,
                RequestView::Steal { emulator, ptn: s.ptn, sid: s.sid },
            ),
        },
        (Phase::Stealing, _) => ask(s, Phase::Relaying, RequestView::Relay { exit_on_eio: true }),
        (Phase::Relaying, _) => (
            StealTtyView { phase: Phase::Over, ..s },
            StepView::Finish(Ok(())),
        ),
        _ => arbitrary(),
    }
}

/// Whether `answer` can be the answer that is waited for.
pub open spec fn expects(s: StealTtyView, answer: AnswerView) -> bool {
    match s.phase {
        Phase::Locating | Phase::Ranking | Phase::Climbing => answer is Text || answer is Failed,
        Phase::Listing => answer is Fds || answer is Failed,
        Phase::Following => answer is Links,
        Phase::Stealing | Phase::Relaying => answer is Done || answer is Failed,
        Phase::Over => false,
    }
}

/// A theft that has just begun.
pub open spec fn begun(pid: i32) -> StealTtyView {
    StealTtyView { pid, dev: (0, 0), ptn: 0, sid: 0, phase: Phase::Locating }
}

/// Take over the master end of the pty of the process `pid`.
pub fn steal_tty(pid: i32) -> (r: (StealTty, Step))
    ensures
        r.0@ == begun(pid),
        r.1@ == StepView::Do(RequestView::ReadStat { pid }),
{
    (
        StealTty { pid, dev: (0, 0), ptn: 0, sid: 0, phase: Phase::Locating },
        Step::Do(Request::ReadStat { pid }),
    )
}

impl StealTty {
    fn ask(&mut self, phase: Phase, request: Request) -> (r: Step)
        ensures
            final(self)@ == ask(old(self)@, phase, request@).0,
            r@ == ask(old(self)@, phase, request@).1,
    {
        self.phase = phase;
        Step::Do(request)
    }

    fn fail(&mut self, e: Error) -> (r: Step)
        ensures
            final(self)@ == fail(old(self)@, e@).0,
            r@ == fail(old(self)@, e@).1,
    {
        self.phase = Phase::Over;
        Step::Finish(Err(e))
    }

    /// Go on, now that the request was answered.
    pub fn step(&mut self, answer: Answer) -> (r: Step)
        requires
            expects(old(self)@, answer@),
        ensures
            final(self)@ == next(old(self)@, answer@).0,
            r@ == next(old(self)@, answer@).1,
    {
        let pid: i32 = self.pid;
        match (self.phase, answer) {
            (_, Answer::Failed(e)) => self.fail(e),
            (Phase::Locating, Answer::Text(stat)) => match controlling_tty(stat.as_str()) {
                Err(e) => self.fail(e),
                Ok(None) => self.fail(msg("target has no controlling terminal")),
                Ok(Some(dev)) => {
                    self.dev = dev;
                    self.ask(Phase::Listing, Request::ListFds { pid })
                },
            },
            (Phase::Listing, Answer::Fds(entries)) => {
                let fds: Vec<i32> = fds_on_tty(&entries, self.dev);
                self.ask(Phase::Following, Request::ReadLinks { pid, fds })
            },
            (Phase::Following, Answer::Links(links)) => match ctty_path(&links) {
                Err(e) => self.fail(e),
                Ok(slave) => match pty_number(slave.as_str()) {
                    Err(e) => self.fail(e),
                    Ok(ptn) => {
                        self.ptn = ptn;
                        self.ask(Phase::Ranking, Request::ReadStat { pid })
                    },
                },
            },
            (Phase::Ranking, Answer::Text(stat)) => match session_id(stat.as_str()) {
                Err(e) => self.fail(e),
                Ok(sid) => {
                    self.sid = sid;
                    self.ask(Phase::Climbing, Request::ReadStat { pid: sid })
                },
            },
            (Phase::Climbing, Answer::Text(stat)) => match ppid_of(stat.as_str()) {
                Err(e) => self.fail(e),
                Ok(emulator) => {
                    let ptn: u32 = self.ptn;
                    let sid: i32 = self.sid;
                    self.ask(Phase::Stealing, Request::Steal { emulator, ptn, sid })
                },
            },
            (Phase::Stealing, _) => self.ask(
                Phase::Relaying,
                Request::Relay { exit_on_eio: true },
            ),
            (Phase::Relaying, _) => {
                self.phase = Phase::Over;
                Step::Finish(Ok(()))
            },
            // No other answer is expected.
            _ => self.fail(Error::Os(0)),
        }
    }
}

// ---------------------------------------------------------------------
// Laws
// ---------------------------------------------------------------------

/// The theft and its step after the answers `answers`.
pub open spec fn after(s: StealTtyView, step: StepView, answers: Seq<AnswerView>) -> Transition
    decreases answers.len(),
{
    if answers.len() == 0 {
        (s, step)
    } else {
        next(after(s, step, answers.drop_last()).0, answers.last())
    }
}

/// Whether each of `answers` can be the answer that is waited for when it
/// comes.
pub open spec fn accepts(s: StealTtyView, step: StepView, answers: Seq<AnswerView>) -> bool
    decreases answers.len(),
{
    answers.len() > 0 ==> {
        &&& accepts(s, step, answers.drop_last())
        &&& expects(after(s, step, answers.drop_last()).0, answers.last())
    }
}

/// The requests that were answered by `answers`, in order.
pub open spec fn requests(s: StealTtyView, step: StepView, answers: Seq<AnswerView>) -> Seq<
    RequestView,
>
    decreases answers.len(),
{
    if answers.len() == 0 {
        Seq::empty()
    } else {
        requests(s, step, answers.drop_last()).push(
            after(s, step, answers.drop_last()).1->Do_0,
        )
    }
}

/// What the answers say: the target's controlling terminal, its fds there,
/// the number of its pty, its session leader, and the leader's parent. Each
/// `stat` is the text of an answer.
spec fn learned(s: StealTtyView, answers: Seq<AnswerView>) -> bool {
    &&& answers.len() > 0 ==> {
        &&& answers[0] matches AnswerView::Text(stat)
        &&& target::tty_meaning(stat) == Ok::<Option<(u64, u64)>, ErrorView>(Some(s.dev))
    }
    &&& answers.len() > 1 ==> answers[1] is Fds
    &&& answers.len() > 2 ==> {
        &&& answers[2] matches AnswerView::Links(links)
        &&& target::first_link(links) is Some
        &&& steal::pty_number_of(target::first_link(links)->Some_0) == Some(s.ptn)
    }
    &&& answers.len() > 3 ==> {
        &&& answers[3] matches AnswerView::Text(stat)
        &&& target::stat_meaning(stat) is Ok
        &&& s.sid == (target::stat_meaning(stat)->Ok_0).1 as i32
    }
    &&& answers.len() > 4 ==> {
        &&& answers[4] matches AnswerView::Text(stat)
        &&& parent(stat) is Some
    }
}

/// Every request of a theft that succeeds, in order.
pub open spec fn script(s: StealTtyView, answers: Seq<AnswerView>) -> Seq<RequestView> {
    seq![
        RequestView::ReadStat { pid: s.pid },
        RequestView::ListFds { pid: s.pid },
        RequestView::ReadLinks {
            pid: s.pid,
            fds: list::arranged(None, target::tty_fds(answers[1]->Fds_0, s.dev)),
        },
        RequestView::ReadStat { pid: s.pid },
        RequestView::ReadStat { pid: s.sid },
        RequestView::Steal {
            emulator: parent(answers[4]->Text_0)->Some_0,
            ptn: s.ptn,
            sid: s.sid,
        },
        RequestView::Relay { exit_on_eio: true },
    ]
}

/// How many requests precede the outstanding one.
spec fn place(phase: Phase) -> int {
    match phase {
        Phase::Locating => 0,
        Phase::Listing => 1,
        Phase::Following => 2,
        Phase::Ranking => 3,
        Phase::Climbing => 4,
        Phase::Stealing => 5,
        Phase::Relaying => 6,
        Phase::Over => 7,
    }
}

/// How a theft stands to what it asked for and what was answered.
spec fn on_script(
    s: StealTtyView,
    step: StepView,
    asked: Seq<RequestView>,
    answers: Seq<AnswerView>,
) -> bool {
    let k = place(s.phase);
    &&& asked.len() == answers.len()
    &&& s.phase is Over <==> step is Finish
    &&& !(step matches StepView::Finish(Err(_))) ==> {
        &&& learned(s, answers)
        &&& answers.len() == k
        &&& asked == script(s, answers).take(k)
        &&& if s.phase is Over {
            step == StepView::Finish(Ok::<(), ErrorView>(()))
        } else {
            step == StepView::Do(script(s, answers)[k])
        }
    }
}

proof fn lemma_on_script_step(
    s: StealTtyView,
    step: StepView,
    asked: Seq<RequestView>,
    before: Seq<AnswerView>,
    answer: AnswerView,
)
    requires
        on_script(s, step, asked, before),
        expects(s, answer),
    ensures
        ({
            let (t, tstep) = next(s, answer);
            &&& t.pid == s.pid
            &&& on_script(t, tstep, asked.push(step->Do_0), before.push(answer))
        }),
{
    let (t, tstep) = next(s, answer);
    let answers = before.push(answer);
    assert(forall|i: int| 0 <= i < before.len() ==> before[i] == answers[i]);
    if !(tstep matches StepView::Finish(Err(_))) {
        assert(learned(t, answers));
        assert(asked.push(step->Do_0) =~= script(t, answers).take(place(t.phase)));
    }
}

proof fn lemma_on_script(s: StealTtyView, step: StepView, answers: Seq<AnswerView>)
    requires
        s == begun(s.pid),
        step == StepView::Do(RequestView::ReadStat { pid: s.pid }),
        accepts(s, step, answers),
    ensures
        ({
            let (t, tstep) = after(s, step, answers);
            &&& t.pid == s.pid
            &&& on_script(t, tstep, requests(s, step, answers), answers)
        }),
    decreases answers.len(),
{
    if answers.len() > 0 {
        let front = answers.drop_last();
        lemma_on_script(s, step, front);
        let (u, ustep) = after(s, step, front);
        lemma_on_script_step(u, ustep, requests(s, step, front), front, answers.last());
        assert(front.push(answers.last()) =~= answers);
    } else {
        assert(requests(s, step, answers) =~= script(s, answers).take(0));
    }
}

/// A theft that succeeds has found the target's pty by its controlling
/// terminal, and its terminal emulator as the parent of its session leader;
/// it has taken the master of just that pty out of just that emulator, for
/// just that session, and relayed it.
pub proof fn theft_goes_for_the_emulator(pid: i32, answers: Seq<AnswerView>)
    requires
        accepts(begun(pid), StepView::Do(RequestView::ReadStat { pid }), answers),
        after(begun(pid), StepView::Do(RequestView::ReadStat { pid }), answers).1
            matches StepView::Finish(Ok(_)),
    ensures
        ({
            let step = StepView::Do(RequestView::ReadStat { pid });
            let t = after(begun(pid), step, answers).0;
            &&& answers.len() == 7
            &&& requests(begun(pid), step, answers) == script(t, answers)
            &&& t.pid == pid
            &&& answers[0] matches AnswerView::Text(stat) && target::tty_meaning(stat) == Ok::<
                Option<(u64, u64)>,
                ErrorView,
            >(Some(t.dev))
            &&& answers[2] matches AnswerView::Links(links) && target::first_link(links) is Some
                && steal::pty_number_of(target::first_link(links)->Some_0) == Some(t.ptn)
            &&& answers[3] matches AnswerView::Text(stat) && target::stat_meaning(stat) is Ok
                && t.sid == (target::stat_meaning(stat)->Ok_0).1 as i32
            &&& answers[4] matches AnswerView::Text(stat) && parent(stat) is Some
        }),
{
    let step = StepView::Do(RequestView::ReadStat { pid });
    lemma_on_script(begun(pid), step, answers);
    let t = after(begun(pid), step, answers).0;
    assert(script(t, answers).take(7) =~= script(t, answers));
}

/// Whatever a request can bring back, the mode is prepared for it.
pub proof fn every_answer_is_expected(
    s: StealTtyView,
    given: AnswerView,
    request: RequestView,
    answer: AnswerView,
)
    requires
        expects(s, given),
        next(s, given).1 == StepView::Do(request),
        super::answers(request, answer),
    ensures
        expects(next(s, given).0, answer),
{
}

/// A theft fails for a reason, and says which: a request failed; what /proc
/// says is malformed; the target has no controlling terminal, its path
/// cannot be told, or it is no pty. No other answer ends it with an error;
/// what it goes on with is what the answer says.
pub proof fn theft_fails_for_a_reason(s: StealTtyView, answer: AnswerView)
    requires
        expects(s, answer),
    ensures
        ({
            let (t, step) = next(s, answer);
            let failed = step matches StepView::Finish(Err(_));
            let e = step->Finish_0->Err_0;
            match (s.phase, answer) {
                (_, AnswerView::Failed(given)) => failed && e == given,
                (Phase::Locating, AnswerView::Text(stat)) => match target::tty_meaning(stat) {
                    Err(given) => failed && e == given,
                    Ok(None) => failed && e == ErrorView::Msg(
                        "target has no controlling terminal"@,
                    ),
                    Ok(Some(dev)) => !failed && t.dev == dev,
                },
                (Phase::Following, AnswerView::Links(links)) => match target::path_meaning(
                    links,
                ) {
                    Err(given) => failed && e == given,
                    Ok(slave) => match steal::pty_meaning(slave) {
                        Err(given) => failed && e == given,
                        Ok(ptn) => !failed && t.ptn == ptn,
                    },
                },
                (Phase::Ranking, AnswerView::Text(stat)) => match target::session_meaning(stat) {
                    Err(given) => failed && e == given,
                    Ok(sid) => !failed && t.sid == sid && step == StepView::Do(
                        RequestView::ReadStat { pid: sid },
                    ),
                },
                (Phase::Climbing, AnswerView::Text(stat)) => match target::parent_meaning(stat) {
                    Err(given) => failed && e == given,
                    Ok(emulator) => !failed && step == StepView::Do(
                        RequestView::Steal { emulator, ptn: s.ptn, sid: s.sid },
                    ),
                },
                _ => !failed,
            }
        }),
{
}

} // verus!
