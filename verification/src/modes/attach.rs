//! Default mode: ptrace the target and move it to the current terminal.
//!
//! The target moves to a fresh pty, not directly to the current terminal: a
//! fresh slave has no owning session, so TIOCSCTTY succeeds without
//! privileges. The pty is then proxied to the current terminal.

use vstd::prelude::*;

use super::{Answer, AnswerView, Request, RequestView, Step, StepView};
use crate::bytes;
use crate::cli::Streams;
use crate::error::{msg, Error, ErrorView};
use crate::inject;
use crate::inject::{Plan, PlanView};
use crate::list;
use crate::target;
use crate::target::{
    controlling_tty, fds_to_redirect, is_session_leader, proc_failure, termios_of, FdEntry, Probe,
};
use crate::tty;
use crate::tty::slave_path;

verus! {

/// Which request is outstanding.
#[derive(Debug, Clone, Copy, PartialEq, Eq, Structural)]
pub enum Phase {
    /// Reading the command line.
    Naming,
    /// Finding the controlling terminal.
    Locating,
    /// Listing the fds.
    Listing,
    /// Finding out whether the target leads its session.
    Ranking,
    /// Opening a fresh pty.
    Opening,
    /// Looking for the terminal attributes, at this fd.
    Probing(i32),
    /// Copying the terminal attributes.
    Copying,
    /// Moving the target.
    Moving,
    /// Relaying.
    Relaying,
    /// Nothing is outstanding.
    Over,
}

/// An attach that is under way.
pub struct Attach {
    pid: i32,
    streams: Streams,
    force_stdio: bool,
    dev: Option<(u64, u64)>,
    fds: Vec<i32>,
    is_session_leader: bool,
    number: u32,
    phase: Phase,
}

#[verifier::ext_equal]
pub struct AttachView {
    pub pid: i32,
    pub streams: Streams,
    pub force_stdio: bool,
    pub dev: Option<(u64, u64)>,
    pub fds: Seq<i32>,
    pub is_session_leader: bool,
    pub number: u32,
    pub phase: Phase,
}

impl AttachView {
    pub open spec fn wf(self) -> bool {
        &&& self.phase matches Phase::Probing(fd) ==> 0 <= fd < 3
        &&& match self.phase {
            Phase::Ranking
            | Phase::Opening
            | Phase::Probing(_)
            | Phase::Copying
            | Phase::Moving
            | Phase::Relaying => self.fds.len() > 0,
            _ => true,
        }
    }

    /// Where the target moves to.
    pub open spec fn plan(self) -> PlanView {
        PlanView {
            slave_path: tty::slave_name(self.number),
            fds: self.fds,
            is_session_leader: self.is_session_leader,
        }
    }
}

impl View for Attach {
    type V = AttachView;

    closed spec fn view(&self) -> AttachView {
        AttachView {
            pid: self.pid,
            streams: self.streams,
            force_stdio: self.force_stdio,
            dev: self.dev,
            fds: self.fds@,
            is_session_leader: self.is_session_leader,
            number: self.number,
            phase: self.phase,
        }
    }
}

pub type Transition = (AttachView, StepView);

pub open spec fn ask(s: AttachView, phase: Phase, request: RequestView) -> Transition {
    (AttachView { phase, ..s }, StepView::Do(request))
}

pub open spec fn fail(s: AttachView, e: ErrorView) -> Transition {
    (AttachView { phase: Phase::Over, ..s }, StepView::Finish(Err(e)))
}

/// Choose the fds to redirect from the entries.
pub open spec fn choose_fds(s: AttachView, entries: Seq<FdEntry>) -> Transition {
    let fds = target::chosen(s.dev, entries, s.streams, s.force_stdio);
    if fds.len() == 0 {
        fail(s, target::nothing_to_redirect())
    } else {
        ask(
            AttachView { fds: list::arranged(None, fds), ..s },
            Phase::Ranking,
            RequestView::ReadStat { pid: s.pid },
        )
    }
}

/// Execute the plan.
pub open spec fn move_target(s: AttachView) -> Transition {
    ask(s, Phase::Moving, RequestView::Move { pid: s.pid, plan: s.plan() })
}

/// The error of a command line that cannot be read.
pub open spec fn cmdline_failed(pid: i32, e: ErrorView) -> ErrorView {
    match e {
        ErrorView::Os(errno) => target::proc_failed(pid, errno),
        _ => e,
    }
}

/// What an attach does with an answer.
pub open spec fn next(s: AttachView, answer: AnswerView) -> Transition {
    match (s.phase, answer) {
        (Phase::Naming, AnswerView::Failed(e)) => fail(s, cmdline_failed(s.pid, e)),
        // A terminal that does not take the attributes is used as it is.
        (Phase::Copying, _) => move_target(s),
        (_, AnswerView::Failed(e)) => fail(s, e),
        (Phase::Naming, AnswerView::Bytes(cmdline)) => if cmdline.len() == 0 {
            fail(
                s,
                ErrorView::Msg("target has no command line (zombie or kernel thread?)"@),
            )
        } else {
            ask(s, Phase::Locating, RequestView::ReadStat { pid: s.pid })
        },
        (Phase::Locating, AnswerView::Text(stat)) => match target::tty_meaning(stat) {
            Err(e) => fail(s, e),
            Ok(Some(dev)) => ask(
                AttachView { dev: Some(dev), ..s },
                Phase::Listing,
                RequestView::ListFds { pid: s.pid },
            ),
            Ok(None) => choose_fds(AttachView { dev: None, ..s }, Seq::empty()),
        },
        (Phase::Listing, AnswerView::Fds(entries)) => choose_fds(s, entries),
        (Phase::Ranking, AnswerView::Text(stat)) => match target::stat_meaning(stat) {
            Err(e) => fail(s, e),
            Ok((_, session, _)) => ask(
                AttachView { is_session_leader: session == s.pid as u64, ..s },
                Phase::Opening,
                RequestView::OpenPty,
            ),
        },
        (Phase::Opening, AnswerView::Pty(number)) => ask(
            AttachView { number, ..s },
            Phase::Probing(0),
            RequestView::ProbeTermios { pid: s.pid, fd: 0 },
        ),
        // The target's settings are those of the first of its fds 0-2 that
        // is a terminal. It has to have one, unless these are forced.
        (Phase::Probing(fd), AnswerView::Yes(usable)) => if usable {
            ask(s, Phase::Copying, RequestView::CopyTermios)
        } else if fd < 2 {
            ask(
                s,
                Phase::Probing((fd + 1) as i32),
                RequestView::ProbeTermios { pid: s.pid, fd: (fd + 1) as i32 },
            )
        } else if s.force_stdio {
            move_target(s)
        } else {
            fail(s, target::no_terminal())
        },
        (Phase::Moving, _) => ask(s, Phase::Relaying, RequestView::Relay { exit_on_eio: true }),
        (Phase::Relaying, _) => (
            AttachView { phase: Phase::Over, ..s },
            StepView::Finish(Ok(())),
        ),
        _ => arbitrary(),
    }
}

/// Whether `answer` can be the answer that the attach is waiting for.
pub open spec fn expects(s: AttachView, answer: AnswerView) -> bool {
    match s.phase {
        Phase::Naming => answer is Bytes || answer is Failed,
        Phase::Locating | Phase::Ranking => answer is Text || answer is Failed,
        Phase::Listing => answer is Fds || answer is Failed,
        Phase::Opening => answer is Pty || answer is Failed,
        Phase::Probing(_) => answer is Yes,
        Phase::Over => false,
        _ => answer is Done || answer is Failed,
    }
}

pub open spec fn begun(pid: i32, streams: Streams, force_stdio: bool) -> AttachView {
    AttachView {
        pid,
        streams,
        force_stdio,
        dev: None,
        fds: Seq::empty(),
        is_session_leader: false,
        number: 0,
        phase: Phase::Naming,
    }
}

/// How an attach begins.
pub open spec fn first(pid: i32, own: i32, streams: Streams, force_stdio: bool) -> Transition {
    if pid == own {
        fail(begun(pid, streams, force_stdio), ErrorView::Msg("refusing to attach to myself"@))
    } else {
        ask(
            begun(pid, streams, force_stdio),
            Phase::Naming,
            RequestView::ReadCmdline { pid },
        )
    }
}

/// Move the process `pid` to the current terminal; `own` is the process
/// that asks for it.
pub fn attach(pid: i32, own: i32, streams: Streams, force_stdio: bool) -> (r: (Attach, Step))
    ensures
        r.0@.wf(),
        (r.0@, r.1@) == if pid == own {
            fail(
                begun(pid, streams, force_stdio),
                ErrorView::Msg("refusing to attach to myself"@),
            )
        } else {
            ask(
                begun(pid, streams, force_stdio),
                Phase::Naming,
                RequestView::ReadCmdline { pid },
            )
        },
        (r.0@, r.1@) == first(pid, own, streams, force_stdio),
{
    let mut s: Attach = Attach {
        pid,
        streams,
        force_stdio,
        dev: None,
        fds: Vec::new(),
        is_session_leader: false,
        number: 0,
        phase: Phase::Naming,
    };
    assert(s@ =~= begun(pid, streams, force_stdio));
    if pid == own {
        let step: Step = s.fail(msg("refusing to attach to myself"));
        (s, step)
    } else {
        let step: Step = s.ask(Phase::Naming, Request::ReadCmdline { pid });
        (s, step)
    }
}

impl Attach {
    fn ask(&mut self, phase: Phase, request: Request) -> (r: Step)
        ensures
            final(self)@ == ask(old(self)@, phase, request@).0,
            r@ == ask(old(self)@, phase, request@).1,
    {
        self.phase = phase;
        Step::Do(request)
    }

    fn fail(&mut self, e: Error) -> (r: Step)
        ensures
            final(self)@ == fail(old(self)@, e@).0,
            r@ == fail(old(self)@, e@).1,
    {
        self.phase = Phase::Over;
        Step::Finish(Err(e))
    }

    fn choose_fds(&mut self, entries: &Vec<FdEntry>) -> (r: Step)
        ensures
            final(self)@ == choose_fds(old(self)@, entries@).0,
            r@ == choose_fds(old(self)@, entries@).1,
            final(self)@.wf(),
    {
        match fds_to_redirect(self.dev, entries, self.streams, self.force_stdio) {
            Err(e) => self.fail(e),
            Ok(fds) => {
                self.fds = fds;
                let pid: i32 = self.pid;
                self.ask(Phase::Ranking, Request::ReadStat { pid })
            },
        }
    }

    fn move_target(&mut self) -> (r: Step)
        requires
            old(self)@.fds.len() > 0,
        ensures
            final(self)@ == move_target(old(self)@).0,
            r@ == move_target(old(self)@).1,
            final(self)@.wf(),
    {
        let plan: Plan = Plan {
            slave_path: slave_path(self.number),
            fds: list::copy(self.fds.as_slice()),
            is_session_leader: self.is_session_leader,
        };
        let pid: i32 = self.pid;
        self.ask(Phase::Moving, Request::Move { pid, plan })
    }

    /// Go on with the attach, now that its request was answered.
    pub fn step(&mut self, answer: Answer) -> (r: Step)
        requires
            old(self)@.wf(),
            expects(old(self)@, answer@),
        ensures
            final(self)@ == next(old(self)@, answer@).0,
            r@ == next(old(self)@, answer@).1,
            final(self)@.wf(),
    {
        let pid: i32 = self.pid;
        match (self.phase, answer) {
            (Phase::Naming, Answer::Failed(e)) => match e {
                Error::Os(errno) => self.fail(proc_failure(pid, errno)),
                Error::Msg(m) => self.fail(Error::Msg(m)),
            },
            (Phase::Copying, _) => self.move_target(),
            (_, Answer::Failed(e)) => self.fail(e),
            (Phase::Naming, Answer::Bytes(cmdline)) => if cmdline.len() == 0 {
                self.fail(msg("target has no command line (zombie or kernel thread?)"))
            } else {
                self.ask(Phase::Locating, Request::ReadStat { pid })
            },
            (Phase::Locating, Answer::Text(stat)) => match controlling_tty(stat.as_str()) {
                Err(e) => self.fail(e),
                Ok(Some(dev)) => {
                    self.dev = Some(dev);
                    self.ask(Phase::Listing, Request::ListFds { pid })
                },
                Ok(None) => {
                    self.dev = None;
                    let none: Vec<FdEntry> = Vec::new();
                    assert(none@ =~= Seq::<FdEntry>::empty());
                    self.choose_fds(&none)
                },
            },
            (Phase::Listing, Answer::Fds(entries)) => self.choose_fds(&entries),
            (Phase::Ranking, Answer::Text(stat)) => match is_session_leader(pid, stat.as_str()) {
                Err(e) => self.fail(e),
                Ok(leads) => {
                    self.is_session_leader = leads;
                    self.ask(Phase::Opening, Request::OpenPty)
                },
            },
            (Phase::Opening, Answer::Pty(number)) => {
                self.number = number;
                self.ask(Phase::Probing(0), Request::ProbeTermios { pid, fd: 0 })
            },
            (Phase::Probing(fd), Answer::Yes(usable)) => match termios_of(fd, usable) {
                Probe::Found => self.ask(Phase::Copying, Request::CopyTermios),
                Probe::Next(fd) => self.ask(
                    Phase::Probing(fd),
                    Request::ProbeTermios { pid, fd },
                ),
                Probe::Failed(e) => if self.force_stdio {
                    self.move_target()
                } else {
                    self.fail(e)
                },
            },
            (Phase::Moving, _) => self.ask(
                Phase::Relaying,
                Request::Relay { exit_on_eio: true },
            ),
            (Phase::Relaying, _) => {
                self.phase = Phase::Over;
                Step::Finish(Ok(()))
            },
            // No other answer is expected.
            _ => self.fail(Error::Os(0)),
        }
    }
}

// ---------------------------------------------------------------------
// Laws
// ---------------------------------------------------------------------

/// The attach and its step after the answers `answers`.
pub open spec fn after(s: AttachView, step: StepView, answers: Seq<AnswerView>) -> Transition
    decreases answers.len(),
{
    if answers.len() == 0 {
        (s, step)
    } else {
        next(after(s, step, answers.drop_last()).0, answers.last())
    }
}

/// Whether each of `answers` can be the answer that is waited for when it
/// comes.
pub open spec fn accepts(s: AttachView, step: StepView, answers: Seq<AnswerView>) -> bool
    decreases answers.len(),
{
    answers.len() > 0 ==> {
        &&& accepts(s, step, answers.drop_last())
        &&& expects(after(s, step, answers.drop_last()).0, answers.last())
    }
}

/// The requests that were answered by `answers`, in order.
pub open spec fn requests(s: AttachView, step: StepView, answers: Seq<AnswerView>) -> Seq<
    RequestView,
>
    decreases answers.len(),
{
    if answers.len() == 0 {
        Seq::empty()
    } else {
        requests(s, step, answers.drop_last()).push(
            after(s, step, answers.drop_last()).1->Do_0,
        )
    }
}

/// What an attach asks for first: it looks at the target, and opens a pty.
pub open spec fn lead_in(s: AttachView) -> Seq<RequestView> {
    let look = seq![
        RequestView::ReadCmdline { pid: s.pid },
        RequestView::ReadStat { pid: s.pid },
    ];
    let fds = if s.dev is Some {
        seq![RequestView::ListFds { pid: s.pid }]
    } else {
        Seq::empty()
    };
    look + fds + seq![RequestView::ReadStat { pid: s.pid }, RequestView::OpenPty]
}

/// Looking for the terminal attributes at the first `k` fds.
pub open spec fn probes(s: AttachView, k: int) -> Seq<RequestView> {
    Seq::new(k as nat, |i: int| RequestView::ProbeTermios { pid: s.pid, fd: i as i32 })
}

/// At how many fds the terminal attributes are looked for, when the first
/// such request is the one at position `at`: up to the first that has some.
pub open spec fn probed(answers: Seq<AnswerView>, at: int) -> int {
    if answers[at] == AnswerView::Yes(true) {
        1
    } else if answers[at + 1] == AnswerView::Yes(true) {
        2
    } else {
        3
    }
}

/// Finding the terminal attributes and copying them, where there are some.
pub open spec fn settings(s: AttachView, answers: Seq<AnswerView>) -> Seq<RequestView> {
    let at = lead_in(s).len() as int;
    let k = probed(answers, at);
    if answers[at + k - 1] == AnswerView::Yes(true) {
        probes(s, k).push(RequestView::CopyTermios)
    } else {
        probes(s, k)
    }
}

/// Every request of an attach that succeeds, in order.
pub open spec fn script(s: AttachView, answers: Seq<AnswerView>) -> Seq<RequestView> {
    lead_in(s) + settings(s, answers) + seq![
        RequestView::Move { pid: s.pid, plan: s.plan() },
        RequestView::Relay { exit_on_eio: true },
    ]
}

/// The entries of the target's fds, which are looked at where it has a
/// controlling terminal.
pub open spec fn entries_seen(s: AttachView, answers: Seq<AnswerView>) -> Seq<FdEntry> {
    if s.dev is Some {
        answers[2]->Fds_0
    } else {
        Seq::empty()
    }
}

/// What the answers say of the target: that it has a command line, which
/// terminal controls it, which of its fds are to be redirected, and whether
/// it leads its session; and the number of the fresh pty. Each is known once
/// so many answers have come.
pub open spec fn learned(s: AttachView, answers: Seq<AnswerView>) -> bool {
    let at = lead_in(s).len() as int;
    &&& answers.len() > 0 ==> {
        &&& answers[0] matches AnswerView::Bytes(cmdline)
        &&& cmdline.len() > 0
    }
    &&& answers.len() > 1 ==> {
        &&& answers[1] matches AnswerView::Text(stat)
        &&& target::tty_meaning(stat) == Ok::<Option<(u64, u64)>, ErrorView>(s.dev)
    }
    &&& answers.len() > 2 && s.dev is Some ==> answers[2] is Fds
    &&& answers.len() > 1 && answers.len() >= at - 2 ==> {
        &&& s.fds == list::arranged(
            None,
            target::chosen(s.dev, entries_seen(s, answers), s.streams, s.force_stdio),
        )
        &&& s.fds.len() > 0
    }
    &&& answers.len() >= at - 1 ==> {
        &&& answers[at - 2] matches AnswerView::Text(stat)
        &&& target::stat_meaning(stat) is Ok
        &&& s.is_session_leader == ((target::stat_meaning(stat)->Ok_0).1 == s.pid as u64)
    }
    &&& answers.len() >= at ==> answers[at - 1] == AnswerView::Pty(s.number)
}

/// The requests that precede the outstanding one, as long as nothing went
/// wrong.
spec fn trail(s: AttachView, answers: Seq<AnswerView>) -> Seq<RequestView> {
    let first = lead_in(s);
    let at = first.len() as int;
    match s.phase {
        Phase::Naming => Seq::empty(),
        Phase::Locating => first.take(1),
        Phase::Listing => first.take(2),
        Phase::Ranking => first.take(at - 2),
        Phase::Opening => first.take(at - 1),
        Phase::Probing(fd) => first + probes(s, fd as int),
        Phase::Copying => first + probes(s, probed(answers, at)),
        Phase::Moving => first + settings(s, answers),
        Phase::Relaying => script(s, answers).drop_last(),
        Phase::Over => script(s, answers),
    }
}

/// The outstanding request.
spec fn current(s: AttachView) -> RequestView {
    match s.phase {
        Phase::Naming => RequestView::ReadCmdline { pid: s.pid },
        Phase::Locating | Phase::Ranking => RequestView::ReadStat { pid: s.pid },
        Phase::Listing => RequestView::ListFds { pid: s.pid },
        Phase::Opening => RequestView::OpenPty,
        Phase::Probing(fd) => RequestView::ProbeTermios { pid: s.pid, fd },
        Phase::Copying => RequestView::CopyTermios,
        Phase::Moving => RequestView::Move { pid: s.pid, plan: s.plan() },
        Phase::Relaying => RequestView::Relay { exit_on_eio: true },
        Phase::Over => arbitrary(),
    }
}

/// How an attach stands to what it asked for and what was answered.
spec fn on_script(
    s: AttachView,
    step: StepView,
    asked: Seq<RequestView>,
    answers: Seq<AnswerView>,
) -> bool {
    let at = lead_in(s).len() as int;
    let k = answers.len() - at;
    &&& s.wf()
    &&& asked.len() == answers.len()
    &&& s.phase is Over <==> step is Finish
    &&& !(step matches StepView::Finish(Err(_))) ==> {
        &&& learned(s, answers)
        &&& asked == trail(s, answers)
        &&& if s.phase is Over {
            step == StepView::Finish(Ok::<(), ErrorView>(()))
        } else {
            step == StepView::Do(current(s))
        }
        &&& match s.phase {
            Phase::Naming => answers.len() == 0,
            Phase::Locating => answers.len() == 1,
            Phase::Listing => answers.len() == 2 && s.dev is Some,
            Phase::Ranking => answers.len() == at - 2,
            Phase::Opening => answers.len() == at - 1,
            Phase::Probing(fd) => {
                &&& k == fd
                &&& forall|i: int| at <= i < answers.len() ==> #[trigger] answers[i] == AnswerView::Yes(
                    false,
                )
            },
            Phase::Copying => {
                &&& k == probed(answers, at)
                &&& answers[at + k - 1] == AnswerView::Yes(true)
            },
            _ => {
                let n = probed(answers, at);
                &&& k >= n
                &&& answers[at + n - 1] == AnswerView::Yes(true) || (s.force_stdio
                    && answers[at + n - 1] == AnswerView::Yes(false))
            },
        }
    }
}

#[verifier::spinoff_prover]
proof fn lemma_looking(
    s: AttachView,
    step: StepView,
    asked: Seq<RequestView>,
    before: Seq<AnswerView>,
    answer: AnswerView,
)
    requires
        on_script(s, step, asked, before),
        expects(s, answer),
        s.phase is Naming || s.phase is Locating || s.phase is Listing,
    ensures
        ({
            let (t, tstep) = next(s, answer);
            on_script(t, tstep, asked.push(step->Do_0), before.push(answer))
        }),
{
    let (t, tstep) = next(s, answer);
    let answers = before.push(answer);
    assert(forall|i: int| 0 <= i < before.len() ==> #[trigger] answers[i] == before[i]);
    assert(answers[before.len() as int] == answer);
    let fds = target::chosen(t.dev, entries_seen(t, answers), t.streams, t.force_stdio);
    list::lemma_can_be_arranged(None, fds);
    if !(tstep matches StepView::Finish(Err(_))) {
        assert(learned(t, answers));
        assert(asked.push(step->Do_0) =~= trail(t, answers));
    }
}

#[verifier::spinoff_prover]
proof fn lemma_preparing(
    s: AttachView,
    step: StepView,
    asked: Seq<RequestView>,
    before: Seq<AnswerView>,
    answer: AnswerView,
)
    requires
        on_script(s, step, asked, before),
        expects(s, answer),
        s.phase is Ranking || s.phase is Opening,
    ensures
        ({
            let (t, tstep) = next(s, answer);
            on_script(t, tstep, asked.push(step->Do_0), before.push(answer))
        }),
{
    let (t, tstep) = next(s, answer);
    let answers = before.push(answer);
    assert(forall|i: int| 0 <= i < before.len() ==> #[trigger] answers[i] == before[i]);
    assert(answers[before.len() as int] == answer);
    assert(lead_in(t) == lead_in(s));
    if !(tstep matches StepView::Finish(Err(_))) {
        assert(learned(t, answers));
        assert(asked.push(step->Do_0) =~= trail(t, answers));
    }
}

#[verifier::spinoff_prover]
proof fn lemma_probing(
    s: AttachView,
    step: StepView,
    asked: Seq<RequestView>,
    before: Seq<AnswerView>,
    answer: AnswerView,
)
    requires
        on_script(s, step, asked, before),
        expects(s, answer),
        s.phase is Probing,
    ensures
        ({
            let (t, tstep) = next(s, answer);
            on_script(t, tstep, asked.push(step->Do_0), before.push(answer))
        }),
{
    let (t, tstep) = next(s, answer);
    let answers = before.push(answer);
    assert(forall|i: int| 0 <= i < before.len() ==> #[trigger] answers[i] == before[i]);
    assert(answers[before.len() as int] == answer);
    assert(lead_in(t) == lead_in(s));
    if !(tstep matches StepView::Finish(Err(_))) {
        assert(learned(t, answers));
        assert(asked.push(step->Do_0) =~= trail(t, answers));
    }
}

#[verifier::spinoff_prover]
proof fn lemma_moving(
    s: AttachView,
    step: StepView,
    asked: Seq<RequestView>,
    before: Seq<AnswerView>,
    answer: AnswerView,
)
    requires
        on_script(s, step, asked, before),
        expects(s, answer),
        s.phase is Copying || s.phase is Moving || s.phase is Relaying,
    ensures
        ({
            let (t, tstep) = next(s, answer);
            on_script(t, tstep, asked.push(step->Do_0), before.push(answer))
        }),
{
    let (t, tstep) = next(s, answer);
    let answers = before.push(answer);
    assert(forall|i: int| 0 <= i < before.len() ==> #[trigger] answers[i] == before[i]);
    assert(answers[before.len() as int] == answer);
    assert(lead_in(t) == lead_in(s));
    if !(tstep matches StepView::Finish(Err(_))) {
        assert(learned(t, answers));
        assert(asked.push(step->Do_0) =~= trail(t, answers));
    }
}

proof fn lemma_on_script_step(
    s: AttachView,
    step: StepView,
    asked: Seq<RequestView>,
    before: Seq<AnswerView>,
    answer: AnswerView,
)
    requires
        on_script(s, step, asked, before),
        expects(s, answer),
    ensures
        ({
            let (t, tstep) = next(s, answer);
            &&& t.pid == s.pid
            &&& t.streams == s.streams
            &&& t.force_stdio == s.force_stdio
            &&& on_script(t, tstep, asked.push(step->Do_0), before.push(answer))
        }),
{
    if s.phase is Naming || s.phase is Locating || s.phase is Listing {
        lemma_looking(s, step, asked, before, answer);
    } else if s.phase is Ranking || s.phase is Opening {
        lemma_preparing(s, step, asked, before, answer);
    } else if s.phase is Probing {
        lemma_probing(s, step, asked, before, answer);
    } else {
        lemma_moving(s, step, asked, before, answer);
    }
}

proof fn lemma_on_script(s: AttachView, step: StepView, answers: Seq<AnswerView>)
    requires
        s == begun(s.pid, s.streams, s.force_stdio),
        step == StepView::Do(RequestView::ReadCmdline { pid: s.pid }),
        accepts(s, step, answers),
    ensures
        ({
            let (t, tstep) = after(s, step, answers);
            &&& t.pid == s.pid
            &&& t.streams == s.streams
            &&& t.force_stdio == s.force_stdio
            &&& on_script(t, tstep, requests(s, step, answers), answers)
        }),
    decreases answers.len(),
{
    if answers.len() > 0 {
        let front = answers.drop_last();
        lemma_on_script(s, step, front);
        let (u, ustep) = after(s, step, front);
        lemma_on_script_step(u, ustep, requests(s, step, front), front, answers.last());
        assert(front.push(answers.last()) =~= answers);
    }
}

/// An attach that succeeds has asked for its script, in order: it has looked
/// at the target, opened a fresh pty, given it the target's terminal
/// settings, moved the target there by the plan that follows from what it
/// saw, and relayed the pty. Only with stdio forced may there have been no
/// settings.
pub proof fn attach_follows_its_script(
    pid: i32,
    streams: Streams,
    force_stdio: bool,
    answers: Seq<AnswerView>,
)
    requires
        accepts(
            begun(pid, streams, force_stdio),
            StepView::Do(RequestView::ReadCmdline { pid }),
            answers,
        ),
        after(
            begun(pid, streams, force_stdio),
            StepView::Do(RequestView::ReadCmdline { pid }),
            answers,
        ).1 matches StepView::Finish(Ok(_)),
    ensures
        ({
            let s = begun(pid, streams, force_stdio);
            let step = StepView::Do(RequestView::ReadCmdline { pid });
            let t = after(s, step, answers).0;
            let at = lead_in(t).len() as int;
            &&& t.pid == pid && t.streams == streams && t.force_stdio == force_stdio
            &&& requests(s, step, answers) == script(t, answers)
            &&& answers.len() > at && learned(t, answers)
            &&& force_stdio || answers[at + probed(answers, at) - 1] == AnswerView::Yes(true)
        }),
{
    let s = begun(pid, streams, force_stdio);
    lemma_on_script(s, StepView::Do(RequestView::ReadCmdline { pid }), answers);
}

/// The target is moved only by a plan that can be executed: to the fresh
/// pty, whose path fits in front of what else is staged, with at least one
/// fd to redirect.
pub proof fn target_is_moved_by_a_sound_plan(s: AttachView, answer: AnswerView)
    requires
        s.wf(),
        expects(s, answer),
    ensures
        next(s, answer).1 matches StepView::Do(RequestView::Move { pid, plan }) ==> {
            &&& pid == s.pid
            &&& plan.wf()
            &&& plan.fds.len() > 0
            &&& plan == s.plan()
            &&& bytes::c_bytes(plan.slave_path).len() <= inject::ACT_OFF
        },
{
    tty::slave_path_is_plain(s.number);
}

/// The relay begins only once the target was moved.
pub proof fn relay_follows_the_move(s: AttachView, answer: AnswerView)
    requires
        expects(s, answer),
    ensures
        next(s, answer).1 matches StepView::Do(RequestView::Relay { .. }) ==> s.phase is Moving
            && answer is Done,
{
}

/// Whatever a request can bring back, the mode is prepared for it.
pub proof fn every_answer_is_expected(
    s: AttachView,
    given: AnswerView,
    request: RequestView,
    answer: AnswerView,
)
    requires
        expects(s, given),
        next(s, given).1 == StepView::Do(request),
        super::answers(request, answer),
    ensures
        expects(next(s, given).0, answer),
{
}

/// The target's terminal settings were copied to the fresh pty before the
/// target is moved, unless it has no terminal at all and stdio is forced.
pub proof fn settings_are_copied_before_the_move(s: AttachView, answer: AnswerView)
    requires
        s.wf(),
        expects(s, answer),
    ensures
        next(s, answer).1 matches StepView::Do(RequestView::Move { .. }) ==> {
            ||| s.phase is Copying
            ||| s.force_stdio && s.phase == Phase::Probing(2) && answer == AnswerView::Yes(false)
        },
{
}

/// Any process but the one that asks for it can be attached; that one is
/// refused before anything is asked for.
pub proof fn only_oneself_is_refused(pid: i32, own: i32, streams: Streams, force_stdio: bool)
    ensures
        ({
            let (s, step) = first(pid, own, streams, force_stdio);
            &&& pid == own ==> step == StepView::Finish(
                Err::<(), ErrorView>(ErrorView::Msg("refusing to attach to myself"@)),
            )
            &&& pid != own ==> step == StepView::Do(RequestView::ReadCmdline { pid })
            &&& pid != own ==> s == begun(pid, streams, force_stdio)
        }),
{
}

/// An attach fails for a reason, and says which: a request failed, other
/// than the one to copy the terminal settings; the target has no command
/// line; what /proc says of it is malformed; none of its fds is to be
/// redirected; or none of its fds 0 to 2 is a terminal, and these are not
/// forced. No other answer ends it with an error.
pub proof fn attach_fails_for_a_reason(s: AttachView, answer: AnswerView)
    requires
        s.wf(),
        expects(s, answer),
    ensures
        ({
            let (t, step) = next(s, answer);
            let failed = step matches StepView::Finish(Err(_));
            let e = step->Finish_0->Err_0;
            match (s.phase, answer) {
                (Phase::Copying, _) => !failed,
                (Phase::Naming, AnswerView::Failed(given)) => failed && e == match given {
                    ErrorView::Os(errno) => if errno == 2 {
                        ErrorView::Msg(
                            "no such process: "@ + crate::text::signed_decimal(s.pid as int),
                        )
                    } else {
                        given
                    },
                    _ => given,
                },
                (_, AnswerView::Failed(given)) => failed && e == given,
                (Phase::Naming, AnswerView::Bytes(cmdline)) => {
                    &&& failed <==> cmdline.len() == 0
                    &&& failed ==> e == ErrorView::Msg(
                        "target has no command line (zombie or kernel thread?)"@,
                    )
                },
                (Phase::Locating, AnswerView::Text(stat)) => match target::tty_meaning(stat) {
                    Err(given) => failed && e == given,
                    Ok(Some(dev)) => !failed && t.dev == Some(dev),
                    Ok(None) => match target::redirection_meaning(
                        None,
                        Seq::empty(),
                        s.streams,
                        s.force_stdio,
                    ) {
                        Err(given) => failed && e == given,
                        Ok(fds) => !failed && t.fds == fds && t.dev is None,
                    },
                },
                (Phase::Listing, AnswerView::Fds(entries)) => match target::redirection_meaning(
                    s.dev,
                    entries,
                    s.streams,
                    s.force_stdio,
                ) {
                    Err(given) => failed && e == given,
                    Ok(fds) => !failed && t.fds == fds,
                },
                (Phase::Ranking, AnswerView::Text(stat)) => match target::leads_session(
                    s.pid,
                    stat,
                ) {
                    Err(given) => failed && e == given,
                    Ok(leads) => !failed && t.is_session_leader == leads,
                },
                (Phase::Probing(fd), AnswerView::Yes(usable)) => {
                    &&& failed <==> !usable && fd == 2 && !s.force_stdio
                    &&& failed ==> e == ErrorView::Msg(
                        "target is not connected to a terminal (use -s to force attaching anyways)"@,
                    )
                },
                _ => !failed,
            }
        }),
{
}

} // verus!
