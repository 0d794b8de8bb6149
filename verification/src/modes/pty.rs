//! -l/-L: fresh pty proxied to this terminal.

use vstd::prelude::*;

use super::{Answer, AnswerView, Request, RequestView, Step, StepView};
use crate::error::{Error, ErrorView};
use crate::text;
use crate::tty;
use crate::tty::slave_path;

verus! {

/// Which request is outstanding.
#[derive(Debug, Clone, Copy, PartialEq, Eq, Structural)]
pub enum Phase {
    /// Opening the pty.
    Opening,
    /// Telling its path.
    Announcing,
    /// Starting the command.
    Spawning,
    /// Relaying, with a command or without.
    Relaying { child: bool },
    /// Waiting for the command.
    Waiting,
    /// Nothing is outstanding.
    Over,
}

/// A fresh pty that is being proxied.
pub struct PtyProxy {
    login: bool,
    command: Vec<String>,
    number: u32,
    trouble: Option<Error>,
    phase: Phase,
}

#[verifier::ext_equal]
pub struct PtyProxyView {
    pub login: bool,
    pub command: Seq<Seq<char>>,
    pub number: u32,
    pub trouble: Option<ErrorView>,
    pub phase: Phase,
}

impl View for PtyProxy {
    type V = PtyProxyView;

    closed spec fn view(&self) -> PtyProxyView {
        PtyProxyView {
            login: self.login,
            command: text::texts(self.command@),
            number: self.number,
            trouble: match self.trouble {
                Some(e) => Some(e@),
                None => None,
            },
            phase: self.phase,
        }
    }
}

pub type Transition = (PtyProxyView, StepView);

pub open spec fn ask(s: PtyProxyView, phase: Phase, request: RequestView) -> Transition {
    (PtyProxyView { phase, ..s }, StepView::Do(request))
}

pub open spec fn finish(s: PtyProxyView, trouble: Option<ErrorView>) -> Transition {
    (
        PtyProxyView { phase: Phase::Over, trouble: None, ..s },
        StepView::Finish(
            match trouble {
                Some(e) => Err(e),
                None => Ok(()),
            },
        ),
    )
}

/// Nobody need have opened the slave yet, so EIO does not end the relay.
pub open spec fn relay(s: PtyProxyView, child: bool) -> Transition {
    ask(s, Phase::Relaying { child }, RequestView::Relay { exit_on_eio: false })
}

/// What happens with an answer.
pub open spec fn next(s: PtyProxyView, answer: AnswerView) -> Transition {
    match (s.phase, answer) {
        // Whatever became of the relay, the command is waited for.
        (Phase::Relaying { child }, _) => {
            let trouble = match answer {
                AnswerView::Failed(e) => Some(e),
                _ => None,
            };
            if child {
                ask(PtyProxyView { trouble, ..s }, Phase::Waiting, RequestView::WaitChild)
            } else {
                finish(s, trouble)
            }
        },
        (Phase::Waiting, _) => finish(s, s.trouble),
        (_, AnswerView::Failed(e)) => finish(s, Some(e)),
        (Phase::Opening, AnswerView::Pty(number)) => ask(
            PtyProxyView { number, ..s },
            Phase::Announcing,
            RequestView::Announce { path: tty::slave_name(number) },
        ),
        (Phase::Announcing, _) => if s.command.len() == 0 {
            relay(s, false)
        } else {
            ask(
                PtyProxyView { command: Seq::empty(), ..s },
                Phase::Spawning,
                RequestView::Spawn {
                    command: s.command,
                    slave: tty::slave_name(s.number),
                    login: s.login,
                },
            )
        },
        (Phase::Spawning, _) => relay(s, true),
        _ => arbitrary(),
    }
}

/// Whether `answer` can be the answer that is waited for.
pub open spec fn expects(s: PtyProxyView, answer: AnswerView) -> bool {
    match s.phase {
        Phase::Opening => answer is Pty || answer is Failed,
        Phase::Over => false,
        _ => answer is Done || answer is Failed,
    }
}

/// A mode that has just begun.
pub open spec fn begun(login: bool, command: Seq<Seq<char>>) -> PtyProxyView {
    PtyProxyView { login, command, number: 0, trouble: None, phase: Phase::Opening }
}

/// Proxy a fresh pty, and run `command` for it, if there is one.
pub fn proxy_mode(login: bool, command: Vec<String>) -> (r: (PtyProxy, Step))
    ensures
        r.0@ == begun(login, text::texts(command@)),
        r.1@ == StepView::Do(RequestView::OpenPty),
{
    (
        PtyProxy { login, command, number: 0, trouble: None, phase: Phase::Opening },
        Step::Do(Request::OpenPty),
    )
}

impl PtyProxy {
    fn ask(&mut self, phase: Phase, request: Request) -> (r: Step)
        ensures
            final(self)@ == ask(old(self)@, phase, request@).0,
            r@ == ask(old(self)@, phase, request@).1,
    {
        self.phase = phase;
        Step::Do(request)
    }

    fn finish(&mut self, trouble: Option<Error>) -> (r: Step)
        ensures
            ({
                let seen = match trouble {
                    Some(e) => Some(e@),
                    None => None,
                };
                &&& final(self)@ == finish(old(self)@, seen).0
                &&& r@ == finish(old(self)@, seen).1
            }),
    {
        self.phase = Phase::Over;
        self.trouble = None;
        match trouble {
            Some(e) => Step::Finish(Err(e)),
            None => Step::Finish(Ok(())),
        }
    }

    /// Go on, now that the request was answered.
    pub fn step(&mut self, answer: Answer) -> (r: Step)
        requires
            expects(old(self)@, answer@),
        ensures
            final(self)@ == next(old(self)@, answer@).0,
            r@ == next(old(self)@, answer@).1,
    {
        match (self.phase, answer) {
            (Phase::Relaying { child }, answer) => {
                let trouble: Option<Error> = match answer {
                    Answer::Failed(e) => Some(e),
                    _ => None,
                };
                if child {
                    self.trouble = trouble;
                    self.ask(Phase::Waiting, Request::WaitChild)
                } else {
                    self.finish(trouble)
                }
            },
            (Phase::Waiting, _) => {
                let trouble: Option<Error> = self.trouble.take();
                self.finish(trouble)
            },
            (_, Answer::Failed(e)) => self.finish(Some(e)),
            (Phase::Opening, Answer::Pty(number)) => {
                self.number = number;
                self.ask(Phase::Announcing, Request::Announce { path: slave_path(number) })
            },
            (Phase::Announcing, _) => if self.command.len() == 0 {
                self.ask(Phase::Relaying { child: false }, Request::Relay { exit_on_eio: false })
            } else {
                let mut command: Vec<String> = Vec::new();
                std::mem::swap(&mut command, &mut self.command);
                assert(text::texts(self.command@) =~= Seq::<Seq<char>>::empty());
                let slave: String = slave_path(self.number);
                let login: bool = self.login;
                self.ask(Phase::Spawning, Request::Spawn { command, slave, login })
            },
            (Phase::Spawning, _) => self.ask(
                Phase::Relaying { child: true },
                Request::Relay { exit_on_eio: false },
            ),
            // No other answer is expected.
            _ => self.finish(Some(Error::Os(0))),
        }
    }
}

// ---------------------------------------------------------------------
// Laws
// ---------------------------------------------------------------------

/// The mode and its step after the answers `answers`.
pub open spec fn after(s: PtyProxyView, step: StepView, answers: Seq<AnswerView>) -> Transition
    decreases answers.len(),
{
    if answers.len() == 0 {
        (s, step)
    } else {
        next(after(s, step, answers.drop_last()).0, answers.last())
    }
}

/// Whether each of `answers` can be the answer that is waited for when it
/// comes.
pub open spec fn accepts(s: PtyProxyView, step: StepView, answers: Seq<AnswerView>) -> bool
    decreases answers.len(),
{
    answers.len() > 0 ==> {
        &&& accepts(s, step, answers.drop_last())
        &&& expects(after(s, step, answers.drop_last()).0, answers.last())
    }
}

/// The requests that were answered by `answers`, in order.
pub open spec fn requests(s: PtyProxyView, step: StepView, answers: Seq<AnswerView>) -> Seq<
    RequestView,
>
    decreases answers.len(),
{
    if answers.len() == 0 {
        Seq::empty()
    } else {
        requests(s, step, answers.drop_last()).push(
            after(s, step, answers.drop_last()).1->Do_0,
        )
    }
}

/// Every request of a mode that gets as far as the relay, in order, for the
/// pty with the given number.
pub open spec fn script(login: bool, command: Seq<Seq<char>>, number: u32) -> Seq<RequestView> {
    let opening = seq![
        RequestView::OpenPty,
        RequestView::Announce { path: tty::slave_name(number) },
    ];
    let relay = RequestView::Relay { exit_on_eio: false };
    if command.len() == 0 {
        opening + seq![relay]
    } else {
        opening + seq![
            RequestView::Spawn { command, slave: tty::slave_name(number), login },
            relay,
            RequestView::WaitChild,
        ]
    }
}

/// How many requests precede the outstanding one.
spec fn place(phase: Phase) -> int {
    match phase {
        Phase::Opening => 0,
        Phase::Announcing => 1,
        Phase::Spawning => 2,
        Phase::Relaying { child } => if child {
            3
        } else {
            2
        },
        Phase::Waiting => 4,
        Phase::Over => 5,
    }
}

/// How a mode stands to what it asked for and what was answered.
spec fn on_script(
    login: bool,
    command: Seq<Seq<char>>,
    s: PtyProxyView,
    step: StepView,
    asked: Seq<RequestView>,
    answers: Seq<AnswerView>,
) -> bool {
    let whole = script(login, command, s.number);
    let k = place(s.phase);
    &&& asked.len() == answers.len()
    &&& answers.len() > 1 ==> answers[0] == AnswerView::Pty(s.number)
    &&& match s.phase {
        Phase::Over => {
            &&& step is Finish
            &&& 0 < answers.len() <= whole.len()
            &&& asked == whole.take(answers.len() as int)
            &&& answers.len() == whole.len() ==> step == StepView::Finish(
                match answers[if command.len() == 0 {
                    2
                } else {
                    3
                }] {
                    AnswerView::Failed(e) => Err::<(), ErrorView>(e),
                    _ => Ok::<(), ErrorView>(()),
                },
            )
            &&& answers.len() < whole.len() ==> {
                &&& answers.len() <= 2 || (answers.len() == 3 && command.len() > 0)
                &&& answers.last() matches AnswerView::Failed(e)
                &&& step == StepView::Finish(Err::<(), ErrorView>(e))
            }
        },
        _ => {
            &&& answers.len() == k && k < whole.len()
            &&& asked == whole.take(k)
            &&& step == StepView::Do(whole[k])
            &&& s.login == login
            &&& k > 0 ==> answers[0] == AnswerView::Pty(s.number)
            &&& k < 2 ==> s.command == command
            &&& s.phase matches Phase::Relaying { child } ==> child == (command.len() > 0)
            &&& s.phase is Spawning || s.phase is Waiting ==> command.len() > 0
            &&& s.phase is Waiting ==> s.trouble == (match answers[3] {
                AnswerView::Failed(e) => Some(e),
                _ => None,
            })
        },
    }
}

proof fn lemma_on_script(
    login: bool,
    command: Seq<Seq<char>>,
    step: StepView,
    answers: Seq<AnswerView>,
)
    requires
        step == StepView::Do(RequestView::OpenPty),
        accepts(begun(login, command), step, answers),
    ensures
        ({
            let s = begun(login, command);
            let (t, tstep) = after(s, step, answers);
            on_script(login, command, t, tstep, requests(s, step, answers), answers)
        }),
    decreases answers.len(),
{
    let s = begun(login, command);
    let (t, tstep) = after(s, step, answers);
    let asked = requests(s, step, answers);
    let whole = script(login, command, t.number);
    if answers.len() > 0 {
        let front = answers.drop_last();
        lemma_on_script(login, command, step, front);
        assert(forall|i: int| 0 <= i < front.len() ==> front[i] == answers[i]);
        assert(answers.last() == answers[answers.len() - 1]);
    }
    assert(asked =~= whole.take(answers.len() as int));
}

/// A mode asks for its script, in order. Where opening the pty, telling its
/// path or starting the command fails, it stops there with that failure.
/// Otherwise it goes to the end of the script, so that a command that was
/// started is waited for, and ends as the relay did.
pub proof fn mode_follows_its_script(
    login: bool,
    command: Seq<Seq<char>>,
    answers: Seq<AnswerView>,
)
    requires
        accepts(begun(login, command), StepView::Do(RequestView::OpenPty), answers),
        after(begun(login, command), StepView::Do(RequestView::OpenPty), answers).1 is Finish,
    ensures
        ({
            let s = begun(login, command);
            let first = StepView::Do(RequestView::OpenPty);
            let (t, step) = after(s, first, answers);
            let whole = script(login, command, t.number);
            let relay: int = if command.len() == 0 {
                2
            } else {
                3
            };
            &&& 0 < answers.len() <= whole.len()
            &&& answers.len() > 1 ==> answers[0] == AnswerView::Pty(t.number)
            &&& requests(s, first, answers) == whole.take(answers.len() as int)
            &&& if answers.len() <= relay {
                &&& answers.last() matches AnswerView::Failed(e)
                &&& step == StepView::Finish(Err::<(), ErrorView>(e))
            } else {
                &&& answers.len() == whole.len()
                &&& step == StepView::Finish(
                    match answers[relay] {
                        AnswerView::Failed(e) => Err::<(), ErrorView>(e),
                        _ => Ok::<(), ErrorView>(()),
                    },
                )
            }
        }),
{
    lemma_on_script(login, command, StepView::Do(RequestView::OpenPty), answers);
}

/// A command that was started is always waited for before the mode ends.
pub proof fn command_is_waited_for(s: PtyProxyView, answer: AnswerView)
    requires
        expects(s, answer),
        s.phase == (Phase::Relaying { child: true }),
    ensures
        next(s, answer).1 == StepView::Do(RequestView::WaitChild),
{
}

/// Whatever a request can bring back, the mode is prepared for it.
pub proof fn every_answer_is_expected(
    s: PtyProxyView,
    given: AnswerView,
    request: RequestView,
    answer: AnswerView,
)
    requires
        expects(s, given),
        next(s, given).1 == StepView::Do(request),
        super::answers(request, answer),
    ensures
        expects(next(s, given).0, answer),
{
}

} // verus!
